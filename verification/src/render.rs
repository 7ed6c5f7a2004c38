use vstd::prelude::*;

use crate::formula::Expr;
use crate::formula::{BiOp, MulOp, UnOp};
use crate::order::views_of;
use crate::table::TruthTable;

verus! {

broadcast use vstd::std_specs::vec::axiom_vec_index_decreases;

/// The symbol of the unary connective.
pub open spec fn un_symbol_spec(op: UnOp) -> Seq<char> {
    match op {
        UnOp::Not => seq!['\u{ac}'],
    }
}

/// The symbol of a binary connective.
pub open spec fn bi_symbol_spec(op: BiOp) -> Seq<char> {
    match op {
        BiOp::If => seq!['\u{2192}'],
        BiOp::Iff => seq!['\u{2194}'],
    }
}

/// The symbol of a variadic connective.
pub open spec fn mul_symbol_spec(op: MulOp) -> Seq<char> {
    match op {
        MulOp::And => seq!['\u{2227}'],
        MulOp::Or => seq!['\u{2228}'],
        MulOp::Xor => seq!['\u{2295}'],
    }
}

/// The text of one truth-table cell.
pub open spec fn bool_text(b: bool) -> Seq<char> {
    if b {
        seq!['T']
    } else {
        seq!['F']
    }
}

/// The header line of a truth table: each name followed by a separator.
pub open spec fn joined_names(vs: Seq<Seq<char>>, i: int) -> Seq<char>
    decreases vs.len() - i,
{
    if 0 <= i < vs.len() {
        vs[i] + seq![' ', '|', ' '] + joined_names(vs, i + 1)
    } else {
        Seq::empty()
    }
}

/// One row line of a truth table: each cell's text followed by a separator.
pub open spec fn joined_cells(row: Seq<bool>, i: int) -> Seq<char>
    decreases row.len() - i,
{
    if 0 <= i < row.len() {
        bool_text(row[i]) + seq![' ', '|', ' '] + joined_cells(row, i + 1)
    } else {
        Seq::empty()
    }
}

/// The unary connective's symbol as text.
pub fn un_symbol(op: &UnOp) -> (r: &'static str)
    ensures
        r@ == un_symbol_spec(*op),
{
    match op {
        UnOp::Not => {
            proof {
                reveal_strlit("\u{ac}");
            }
            "\u{ac}"
        },
    }
}

/// A binary connective's symbol as text.
pub fn bi_symbol(op: &BiOp) -> (r: &'static str)
    ensures
        r@ == bi_symbol_spec(*op),
{
    match op {
        BiOp::If => {
            proof {
                reveal_strlit("\u{2192}");
            }
            "\u{2192}"
        },
        BiOp::Iff => {
            proof {
                reveal_strlit("\u{2194}");
            }
            "\u{2194}"
        },
    }
}

/// A variadic connective's symbol as text.
pub fn mul_symbol(op: &MulOp) -> (r: &'static str)
    ensures
        r@ == mul_symbol_spec(*op),
{
    match op {
        MulOp::And => {
            proof {
                reveal_strlit("\u{2227}");
            }
            "\u{2227}"
        },
        MulOp::Or => {
            proof {
                reveal_strlit("\u{2228}");
            }
            "\u{2228}"
        },
        MulOp::Xor => {
            proof {
                reveal_strlit("\u{2295}");
            }
            "\u{2295}"
        },
    }
}

/// One truth-table cell as text.
pub fn bool_str(b: bool) -> (r: &'static str)
    ensures
        r@ == bool_text(b),
{
    proof {
        reveal_strlit("T");
        reveal_strlit("F");
    }
    if b {
        "T"
    } else {
        "F"
    }
}

impl Expr {
    /// The canonical text of the formula: a proposition is its name, negation
    /// is prefixed without a space, and every connective application is
    /// parenthesized with its operands joined by the connective's symbol.
    pub open spec fn render_spec(self) -> Seq<char>
        decreases self, 0int,
    {
        match self {
            Expr::Prop(s) => s@,
            Expr::UnCon(op, e) => un_symbol_spec(op) + e.render_spec(),
            Expr::BiCon(l, op, r) => seq!['('] + l.render_spec() + seq![' '] + bi_symbol_spec(op)
                + seq![' '] + r.render_spec() + seq![')'],
            Expr::MulCon(op, es) => seq!['('] + Self::render_items_spec(es, 0, mul_symbol_spec(op))
                + seq![')'],
        }
    }

    pub open spec fn render_items_spec(es: Vec<Expr>, i: int, sym: Seq<char>) -> Seq<char>
        decreases es, es.len() - i + 1,
    {
        if 0 <= i < es.len() {
            if i == es.len() - 1 {
                es[i].render_spec()
            } else {
                es[i].render_spec() + seq![' '] + sym + seq![' '] + Self::render_items_spec(
                    es,
                    i + 1,
                    sym,
                )
            }
        } else {
            Seq::empty()
        }
    }

    /// Renders the formula to its canonical text.
    pub fn render(&self) -> (r: String)
        ensures
            r@ == self.render_spec(),
        decreases self, 0int,
    {
        proof {
            reveal_strlit("(");
            reveal_strlit(")");
            reveal_strlit(" ");
        }
        match self {
            Expr::Prop(s) => s.clone(),
            Expr::UnCon(op, e) => {
                let mut out = String::from_str(un_symbol(op));
                let inner = e.render();
                out.append(inner.as_str());
                proof {
                    assert(out@ =~= self.render_spec());
                }
                out
            },
            Expr::BiCon(l, op, r2) => {
                let mut out = String::from_str("(");
                let ls = l.render();
                out.append(ls.as_str());
                out.append(" ");
                out.append(bi_symbol(op));
                out.append(" ");
                let rs = r2.render();
                out.append(rs.as_str());
                out.append(")");
                proof {
                    assert(out@ =~= self.render_spec());
                }
                out
            },
            Expr::MulCon(op, es) => {
                let mut out = String::from_str("(");
                let body = Self::render_items(es, 0, mul_symbol(op));
                out.append(body.as_str());
                out.append(")");
                proof {
                    assert(out@ =~= self.render_spec());
                }
                out
            },
        }
    }

    fn render_items(es: &Vec<Expr>, i: usize, sym: &str) -> (r: String)
        requires
            i <= es.len(),
        ensures
            r@ == Self::render_items_spec(*es, i as int, sym@),
        decreases *es, es.len() - i + 1,
    {
        if i == es.len() {
            String::new()
        } else {
            proof {
                reveal_strlit(" ");
            }
            let mut out = es[i].render();
            if i + 1 < es.len() {
                out.append(" ");
                out.append(sym);
                out.append(" ");
                let rest = Self::render_items(es, i + 1, sym);
                out.append(rest.as_str());
                proof {
                    assert(out@ =~= Self::render_items_spec(*es, i as int, sym@));
                }
            }
            out
        }
    }
}

impl TruthTable {
    /// The header line: the variable names in column order, each followed by
    /// a separator.
    pub fn header_line(&self) -> (r: String)
        ensures
            r@ == joined_names(views_of(self.vars@), 0),
    {
        Self::names_from(&self.vars, 0)
    }

    fn names_from(vars: &Vec<String>, i: usize) -> (r: String)
        requires
            i <= vars.len(),
        ensures
            r@ == joined_names(views_of(vars@), i as int),
        decreases vars.len() - i,
    {
        if i == vars.len() {
            String::new()
        } else {
            proof {
                reveal_strlit(" | ");
            }
            let mut out = vars[i].clone();
            out.append(" | ");
            let rest = Self::names_from(vars, i + 1);
            out.append(rest.as_str());
            proof {
                assert(out@ =~= joined_names(views_of(vars@), i as int));
            }
            out
        }
    }

    /// One row as a line of text: the variables' values in column order and
    /// then the formula's value, each cell followed by a separator.
    pub fn row_line(&self, q: usize) -> (r: String)
        requires
            q < self.rows@.len(),
        ensures
            r@ == joined_cells(self.rows@[q as int]@, 0),
    {
        Self::cells_from(&self.rows[q], 0)
    }

    fn cells_from(row: &Vec<bool>, i: usize) -> (r: String)
        requires
            i <= row.len(),
        ensures
            r@ == joined_cells(row@, i as int),
        decreases row.len() - i,
    {
        if i == row.len() {
            String::new()
        } else {
            proof {
                reveal_strlit(" | ");
            }
            let mut out = String::from_str(bool_str(row[i]));
            out.append(" | ");
            let rest = Self::cells_from(row, i + 1);
            out.append(rest.as_str());
            proof {
                assert(out@ =~= joined_cells(row@, i as int));
            }
            out
        }
    }
}

} // verus!
