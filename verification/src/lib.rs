//! Propositional-logic formulas: free-variable collection, evaluation under
//! an assignment, exhaustive truth-table enumeration, and canonical rendering.

pub mod assignment;
pub mod eval;
pub mod formula;
pub mod order;
pub mod render;
pub mod table;

pub use assignment::Assignment;
pub use table::TruthTable;

pub use formula::BiOp;
pub use formula::Expr;
pub use formula::FormulaError;
pub use formula::MulOp;
pub use formula::UnOp;
