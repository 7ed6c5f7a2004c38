use vstd::prelude::*;

use crate::order::insert_sorted;
use crate::order::lemma_lex_irrefl;
use crate::order::name_set;
use crate::order::sorted_strict;
use crate::order::views_of;

verus! {

broadcast use vstd::std_specs::vec::axiom_vec_index_decreases;

/// The one unary connective: logical negation.
#[derive(Clone, Copy, Debug)]
pub enum UnOp {
    Not,
}

/// The binary connectives: material implication and the biconditional.
#[derive(Clone, Copy, Debug)]
pub enum BiOp {
    If,
    Iff,
}

/// The variadic connectives, taken over a non-empty operand list.
#[derive(Clone, Copy, Debug)]
pub enum MulOp {
    And,
    Or,
    Xor,
}

/// The ways a formula operation can fail.
#[derive(Debug, PartialEq, Eq)]
pub enum FormulaError {
    /// A variadic connective was given an empty operand list at construction.
    EmptyOperandList,
    /// Evaluation met a proposition whose name the assignment does not bind.
    UnboundVariable(String),
}

/// A propositional formula: an immutable tree of propositions and connectives.
#[derive(Debug)]
pub enum Expr {
    /// An atomic variable, identified by its (case-sensitive) name.
    Prop(String),
    /// A unary connective applied to one operand.
    UnCon(UnOp, Box<Expr>),
    /// A binary connective; operand order matters for implication.
    BiCon(Box<Expr>, BiOp, Box<Expr>),
    /// A variadic connective over an ordered, non-empty operand list.
    MulCon(MulOp, Vec<Expr>),
}

impl Expr {
    /// The set of free variable names of the formula.
    pub open spec fn names(self) -> Set<Seq<char>>
        decreases self, 0int,
    {
        match self {
            Expr::Prop(s) => Set::empty().insert(s@),
            Expr::UnCon(_, e) => e.names(),
            Expr::BiCon(l, _, r) => l.names().union(r.names()),
            Expr::MulCon(_, es) => Self::names_items(es, 0),
        }
    }

    pub open spec fn names_items(es: Vec<Expr>, i: int) -> Set<Seq<char>>
        decreases es, es.len() - i + 1,
    {
        if 0 <= i < es.len() {
            es[i].names().union(Self::names_items(es, i + 1))
        } else {
            Set::empty()
        }
    }

    /// The number of proposition leaves of the tree, duplicates counted.
    pub open spec fn prop_count(self) -> nat
        decreases self, 0int,
    {
        match self {
            Expr::Prop(_) => 1,
            Expr::UnCon(_, e) => e.prop_count(),
            Expr::BiCon(l, _, r) => l.prop_count() + r.prop_count(),
            Expr::MulCon(_, es) => Self::prop_count_items(es, 0),
        }
    }

    pub open spec fn prop_count_items(es: Vec<Expr>, i: int) -> nat
        decreases es, es.len() - i + 1,
    {
        if 0 <= i < es.len() {
            es[i].prop_count() + Self::prop_count_items(es, i + 1)
        } else {
            0
        }
    }

    /// Builds a variadic connective, rejecting an empty operand list.
    pub fn mul_con(op: MulOp, operands: Vec<Expr>) -> (r: Result<Expr, FormulaError>)
        ensures
            operands.len() == 0 ==> r == Err::<Expr, FormulaError>(FormulaError::EmptyOperandList),
            operands.len() > 0 ==> r == Ok::<Expr, FormulaError>(Expr::MulCon(op, operands)),
    {
        if operands.len() == 0 {
            Err(FormulaError::EmptyOperandList)
        } else {
            Ok(Expr::MulCon(op, operands))
        }
    }

    /// Builds an atomic proposition.
    pub fn prop(name: String) -> (r: Expr)
        ensures
            r == Expr::Prop(name),
    {
        Expr::Prop(name)
    }

    /// Builds a unary connective.
    pub fn un_con(op: UnOp, operand: Expr) -> (r: Expr)
        ensures
            r == Expr::UnCon(op, Box::new(operand)),
    {
        Expr::UnCon(op, Box::new(operand))
    }

    /// Builds a binary connective.
    pub fn bi_con(left: Expr, op: BiOp, right: Expr) -> (r: Expr)
        ensures
            r == Expr::BiCon(Box::new(left), op, Box::new(right)),
    {
        Expr::BiCon(Box::new(left), op, Box::new(right))
    }

    /// Counts the proposition leaves of the tree, duplicates counted.
    pub fn get_prepositions(&self) -> (r: u32)
        requires
            self.prop_count() <= u32::MAX,
        ensures
            r == self.prop_count(),
        decreases self, 0int,
    {
        match self {
            Expr::Prop(_) => 1,
            Expr::UnCon(_, e) => e.get_prepositions(),
            Expr::BiCon(l, _, r) => l.get_prepositions() + r.get_prepositions(),
            Expr::MulCon(_, es) => Self::get_prepositions_items(es, 0),
        }
    }

    fn get_prepositions_items(es: &Vec<Expr>, i: usize) -> (r: u32)
        requires
            i <= es.len(),
            Self::prop_count_items(*es, i as int) <= u32::MAX,
        ensures
            r == Self::prop_count_items(*es, i as int),
        decreases *es, es.len() - i + 1,
    {
        if i == es.len() {
            0
        } else {
            proof {
                Self::lemma_prop_count_items_bound(*es, i as int);
            }
            let head = es[i].get_prepositions();
            head + Self::get_prepositions_items(es, i + 1)
        }
    }

    proof fn lemma_prop_count_items_bound(es: Vec<Expr>, i: int)
        requires
            0 <= i < es.len(),
        ensures
            es[i].prop_count() <= Self::prop_count_items(es, i),
            Self::prop_count_items(es, i + 1) <= Self::prop_count_items(es, i),
    {
    }

    /// Collects the free variable names of the formula, lexicographically
    /// sorted and without duplicates: every name appearing in the tree appears
    /// exactly once in the result, and nothing else does.
    pub fn get_prepositions_vec(&self) -> (r: Vec<String>)
        ensures
            sorted_strict(views_of(r@)),
            views_of(r@).no_duplicates(),
            name_set(r@) == self.names(),
    {
        let mut acc: Vec<String> = Vec::new();
        proof {
            assert(views_of(acc@) =~= Seq::<Seq<char>>::empty());
            assert(name_set(acc@) =~= Set::<Seq<char>>::empty());
        }
        self.collect_into(&mut acc);
        proof {
            assert(Set::<Seq<char>>::empty().union(self.names()) =~= self.names());
            let vs = views_of(acc@);
            assert forall|i: int, j: int|
                0 <= i < vs.len() && 0 <= j < vs.len() && i != j implies vs[i] != vs[j] by {
                if vs[i] == vs[j] {
                    lemma_lex_irrefl(vs[i]);
                }
            }
        }
        acc
    }

    /// Merges the free variable names of the formula into a sorted accumulator.
    fn collect_into(&self, acc: &mut Vec<String>)
        requires
            sorted_strict(views_of(old(acc)@)),
        ensures
            sorted_strict(views_of(final(acc)@)),
            name_set(final(acc)@) == name_set(old(acc)@).union(self.names()),
        decreases self, 0int,
    {
        match self {
            Expr::Prop(s) => {
                insert_sorted(acc, s);
                proof {
                    assert(name_set(acc@) =~= name_set(old(acc)@).union(self.names()));
                }
            },
            Expr::UnCon(_, e) => {
                e.collect_into(acc);
            },
            Expr::BiCon(l, _, r) => {
                let ghost mid_names = l.names();
                l.collect_into(acc);
                r.collect_into(acc);
                proof {
                    assert(name_set(old(acc)@).union(mid_names).union(r.names()) =~= name_set(
                        old(acc)@,
                    ).union(self.names()));
                }
            },
            Expr::MulCon(_, es) => {
                Self::collect_items(es, 0, acc);
            },
        }
    }

    fn collect_items(es: &Vec<Expr>, i: usize, acc: &mut Vec<String>)
        requires
            i <= es.len(),
            sorted_strict(views_of(old(acc)@)),
        ensures
            sorted_strict(views_of(final(acc)@)),
            name_set(final(acc)@) == name_set(old(acc)@).union(Self::names_items(*es, i as int)),
        decreases *es, es.len() - i + 1,
    {
        if i == es.len() {
            proof {
                assert(name_set(acc@).union(Set::<Seq<char>>::empty()) =~= name_set(acc@));
            }
        } else {
            let ghost head_names = es@[i as int].names();
            es[i].collect_into(acc);
            Self::collect_items(es, i + 1, acc);
            proof {
                assert(name_set(old(acc)@).union(head_names).union(
                    Self::names_items(*es, i + 1),
                ) =~= name_set(old(acc)@).union(Self::names_items(*es, i as int)));
            }
        }
    }
}

} // verus!
