use vstd::prelude::*;

use crate::assignment::Assignment;
use crate::formula::Expr;
use crate::formula::FormulaError;
use crate::formula::{BiOp, MulOp, UnOp};
use crate::order::views_of;

verus! {

broadcast use vstd::std_specs::vec::axiom_vec_index_decreases;

/// The assignment that parallel vectors of names and values describe: a name
/// is bound to the value standing beside its first occurrence.
pub open spec fn row_map(vs: Seq<Seq<char>>, bits: Seq<bool>) -> Map<Seq<char>, bool> {
    Map::new(
        |name: Seq<char>| vs.contains(name),
        |name: Seq<char>|
            match vs.index_of_first(name) {
                Some(i) => bits[i],
                None => false,
            },
    )
}

/// Finds a name among the variable names and returns the value beside its
/// first occurrence, as `row_map` reads the two vectors.
fn lookup_at(vars: &Vec<String>, bits: &Vec<bool>, name: &String) -> (r: Option<bool>)
    requires
        vars@.len() == bits@.len(),
    ensures
        r == if row_map(views_of(vars@), bits@).dom().contains(name@) {
            Some(row_map(views_of(vars@), bits@)[name@])
        } else {
            None::<bool>
        },
{
    let ghost vs = views_of(vars@);
    let mut j: usize = 0;
    while j < vars.len()
        invariant
            j <= vars@.len(),
            vars@.len() == bits@.len(),
            vs == views_of(vars@),
            forall|k: int| 0 <= k < j ==> vs[k] != name@,
        decreases vars@.len() - j,
    {
        if vars[j] == *name {
            proof {
                assert(vs[j as int] == name@);
                assert(vs.contains(name@));
                vs.index_of_first_ensures(name@);
                let i = vs.index_of_first(name@).unwrap();
                assert(i == j as int);
            }
            return Some(bits[j]);
        }
        j = j + 1;
    }
    proof {
        assert(forall|k: int| 0 <= k < vs.len() ==> vs[k] != name@);
        assert(!vs.contains(name@));
    }
    None
}

impl Expr {
    /// The truth value of the formula under an assignment, read as a total
    /// map. `And` holds when every operand does, `Or` when at least one does,
    /// and `Xor` when exactly one does.
    pub open spec fn holds(self, m: Map<Seq<char>, bool>) -> bool
        decreases self, 0int,
    {
        match self {
            Expr::Prop(s) => m[s@],
            Expr::UnCon(op, e) => match op {
                UnOp::Not => !e.holds(m),
            },
            Expr::BiCon(l, op, r) => match op {
                BiOp::If => !l.holds(m) || r.holds(m),
                BiOp::Iff => l.holds(m) == r.holds(m),
            },
            Expr::MulCon(op, es) => {
                let c = Self::holds_count(es, 0, m);
                match op {
                    MulOp::And => c == es.len(),
                    MulOp::Or => c >= 1,
                    MulOp::Xor => c == 1,
                }
            },
        }
    }

    /// How many of the operands from index `i` on hold under `m`.
    pub open spec fn holds_count(es: Vec<Expr>, i: int, m: Map<Seq<char>, bool>) -> nat
        decreases es, es.len() - i + 1,
    {
        if 0 <= i < es.len() {
            (if es[i].holds(m) {
                1nat
            } else {
                0nat
            }) + Self::holds_count(es, i + 1, m)
        } else {
            0
        }
    }

    /// The first free name, in depth-first left-to-right order, that `dom`
    /// does not bind; `None` when `dom` binds them all.
    pub open spec fn first_unbound(self, dom: Set<Seq<char>>) -> Option<Seq<char>>
        decreases self, 0int,
    {
        match self {
            Expr::Prop(s) => if dom.contains(s@) {
                None
            } else {
                Some(s@)
            },
            Expr::UnCon(_, e) => e.first_unbound(dom),
            Expr::BiCon(l, _, r) => if l.first_unbound(dom) is Some {
                l.first_unbound(dom)
            } else {
                r.first_unbound(dom)
            },
            Expr::MulCon(_, es) => Self::first_unbound_items(es, 0, dom),
        }
    }

    pub open spec fn first_unbound_items(es: Vec<Expr>, i: int, dom: Set<Seq<char>>) -> Option<
        Seq<char>,
    >
        decreases es, es.len() - i + 1,
    {
        if 0 <= i < es.len() {
            if es[i].first_unbound(dom) is Some {
                es[i].first_unbound(dom)
            } else {
                Self::first_unbound_items(es, i + 1, dom)
            }
        } else {
            None
        }
    }

    /// Evaluation meets no unbound name exactly when the domain covers every
    /// free name of the formula.
    pub proof fn lemma_first_unbound_none(self, dom: Set<Seq<char>>)
        ensures
            (self.first_unbound(dom) is None) <==> self.names().subset_of(dom),
        decreases self, 0int,
    {
        match self {
            Expr::Prop(s) => {
                assert(self.names().contains(s@));
            },
            Expr::UnCon(_, e) => {
                e.lemma_first_unbound_none(dom);
            },
            Expr::BiCon(l, _, r) => {
                l.lemma_first_unbound_none(dom);
                r.lemma_first_unbound_none(dom);
            },
            Expr::MulCon(_, es) => {
                Self::lemma_first_unbound_items_none(es, 0, dom);
            },
        }
    }

    proof fn lemma_first_unbound_items_none(es: Vec<Expr>, i: int, dom: Set<Seq<char>>)
        requires
            0 <= i,
        ensures
            (Self::first_unbound_items(es, i, dom) is None) <==> Self::names_items(
                es,
                i,
            ).subset_of(dom),
        decreases es, es.len() - i + 1,
    {
        if i < es.len() {
            es[i].lemma_first_unbound_none(dom);
            Self::lemma_first_unbound_items_none(es, i + 1, dom);
        }
    }

    /// Evaluates the formula under an assignment: its truth value when the
    /// assignment binds every free name, and otherwise `UnboundVariable`
    /// carrying the first unbound name met in evaluation order.
    pub fn eval(&self, a: &Assignment) -> (r: Result<bool, FormulaError>)
        ensures
            match self.first_unbound(a@.dom()) {
                None => r == Ok::<bool, FormulaError>(self.holds(a@)),
                Some(n) => r matches Err(FormulaError::UnboundVariable(s)) && s@ == n,
            },
        decreases self, 0int,
    {
        match self {
            Expr::Prop(name) => match a.get(name.as_str()) {
                Some(v) => Ok(v),
                None => Err(FormulaError::UnboundVariable(name.clone())),
            },
            Expr::UnCon(op, e) => match op {
                UnOp::Not => match e.eval(a) {
                    Ok(v) => Ok(!v),
                    Err(er) => Err(er),
                },
            },
            Expr::BiCon(l, op, r2) => {
                let lv = match l.eval(a) {
                    Ok(v) => v,
                    Err(er) => return Err(er),
                };
                let rv = match r2.eval(a) {
                    Ok(v) => v,
                    Err(er) => return Err(er),
                };
                match op {
                    BiOp::If => Ok(!lv || rv),
                    BiOp::Iff => Ok(lv == rv),
                }
            },
            Expr::MulCon(op, es) => {
                let c = match Self::eval_items(es, 0, a) {
                    Ok(c) => c,
                    Err(er) => return Err(er),
                };
                match op {
                    MulOp::And => Ok(c == es.len()),
                    MulOp::Or => Ok(c >= 1),
                    MulOp::Xor => Ok(c == 1),
                }
            },
        }
    }

    /// Evaluates the operands from index `i` on, strictly and left to right,
    /// and counts how many hold.
    fn eval_items(es: &Vec<Expr>, i: usize, a: &Assignment) -> (r: Result<usize, FormulaError>)
        requires
            i <= es.len(),
        ensures
            match Self::first_unbound_items(*es, i as int, a@.dom()) {
                None => r matches Ok(c) && c == Self::holds_count(*es, i as int, a@) && c <= es.len()
                    - i,
                Some(n) => r matches Err(FormulaError::UnboundVariable(s)) && s@ == n,
            },
        decreases *es, es.len() - i + 1,
    {
        if i == es.len() {
            Ok(0)
        } else {
            let head = match es[i].eval(a) {
                Ok(v) => v,
                Err(er) => return Err(er),
            };
            let rest = match Self::eval_items(es, i + 1, a) {
                Ok(c) => c,
                Err(er) => return Err(er),
            };
            Ok(if head {
                rest + 1
            } else {
                rest
            })
        }
    }

    /// Evaluates the formula under the assignment that parallel vectors of
    /// names and values describe, as `eval` does under an `Assignment`.
    pub fn eval_at(&self, vars: &Vec<String>, bits: &Vec<bool>) -> (r: Result<bool, FormulaError>)
        requires
            vars@.len() == bits@.len(),
        ensures
            match self.first_unbound(row_map(views_of(vars@), bits@).dom()) {
                None => r == Ok::<bool, FormulaError>(self.holds(row_map(views_of(vars@), bits@))),
                Some(n) => r matches Err(FormulaError::UnboundVariable(s)) && s@ == n,
            },
        decreases self, 0int,
    {
        match self {
            Expr::Prop(name) => match lookup_at(vars, bits, name) {
                Some(v) => Ok(v),
                None => Err(FormulaError::UnboundVariable(name.clone())),
            },
            Expr::UnCon(op, e) => match op {
                UnOp::Not => match e.eval_at(vars, bits) {
                    Ok(v) => Ok(!v),
                    Err(er) => Err(er),
                },
            },
            Expr::BiCon(l, op, r2) => {
                let lv = match l.eval_at(vars, bits) {
                    Ok(v) => v,
                    Err(er) => return Err(er),
                };
                let rv = match r2.eval_at(vars, bits) {
                    Ok(v) => v,
                    Err(er) => return Err(er),
                };
                match op {
                    BiOp::If => Ok(!lv || rv),
                    BiOp::Iff => Ok(lv == rv),
                }
            },
            Expr::MulCon(op, es) => {
                let c = match Self::eval_at_items(es, 0, vars, bits) {
                    Ok(c) => c,
                    Err(er) => return Err(er),
                };
                match op {
                    MulOp::And => Ok(c == es.len()),
                    MulOp::Or => Ok(c >= 1),
                    MulOp::Xor => Ok(c == 1),
                }
            },
        }
    }

    fn eval_at_items(es: &Vec<Expr>, i: usize, vars: &Vec<String>, bits: &Vec<bool>) -> (r: Result<
        usize,
        FormulaError,
    >)
        requires
            i <= es.len(),
            vars@.len() == bits@.len(),
        ensures
            match Self::first_unbound_items(*es, i as int, row_map(views_of(vars@), bits@).dom()) {
                None => r matches Ok(c) && c == Self::holds_count(
                    *es,
                    i as int,
                    row_map(views_of(vars@), bits@),
                ) && c <= es.len() - i,
                Some(n) => r matches Err(FormulaError::UnboundVariable(s)) && s@ == n,
            },
        decreases *es, es.len() - i + 1,
    {
        if i == es.len() {
            Ok(0)
        } else {
            let head = match es[i].eval_at(vars, bits) {
                Ok(v) => v,
                Err(er) => return Err(er),
            };
            let rest = match Self::eval_at_items(es, i + 1, vars, bits) {
                Ok(c) => c,
                Err(er) => return Err(er),
            };
            Ok(if head {
                rest + 1
            } else {
                rest
            })
        }
    }
}

} // verus!
