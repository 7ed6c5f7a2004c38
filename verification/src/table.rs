use vstd::prelude::*;

use vstd::arithmetic::div_mod::lemma_div_denominator;
use vstd::arithmetic::div_mod::lemma_fundamental_div_mod;
use vstd::arithmetic::div_mod::lemma_fundamental_div_mod_converse;
use vstd::arithmetic::power2::lemma2_to64;
use vstd::arithmetic::power2::lemma_pow2_pos;
use vstd::arithmetic::power2::lemma_pow2_strictly_increases;
use vstd::arithmetic::power2::lemma_pow2_unfold;
use vstd::arithmetic::power2::pow2;

use crate::eval::row_map;
use crate::formula::Expr;
use crate::order::name_set;
use crate::order::sorted_strict;
use crate::order::views_of;

verus! {

/// Whether bit `k` (counting from the least significant) of `r` is set.
pub open spec fn bit_of(r: nat, k: nat) -> bool {
    (r / pow2(k)) % 2 == 1
}

/// The bit pattern of row index `r` over `n` columns, most significant bit
/// first: column `i` carries bit `n - 1 - i`, so the first column toggles
/// slowest and the last column toggles every row.
pub open spec fn row_bits(r: nat, n: nat) -> Seq<bool> {
    Seq::new(n, |i: int| bit_of(r, (n - 1 - i) as nat))
}

/// The row index whose bit pattern a combination of booleans is, reading the
/// combination most significant bit first.
pub open spec fn bits_to_nat(bits: Seq<bool>) -> nat
    decreases bits.len(),
{
    if bits.len() == 0 {
        0
    } else {
        2 * bits_to_nat(bits.drop_last()) + (if bits.last() {
            1nat
        } else {
            0nat
        })
    }
}

/// A truth table: the sorted free-variable names as column headers, and one
/// row per assignment, each row holding the variables' values in header order
/// followed by the formula's value under that assignment.
pub struct TruthTable {
    pub vars: Vec<String>,
    pub rows: Vec<Vec<bool>>,
}

proof fn lemma_bit_of_halving(r: nat, k: nat)
    requires
        k >= 1,
    ensures
        bit_of(r, k) == bit_of(r / 2, (k - 1) as nat),
{
    lemma_pow2_pos((k - 1) as nat);
    lemma_pow2_unfold(k);
    lemma_div_denominator(r as int, 2, pow2((k - 1) as nat) as int);
    assert(r / pow2(k) == (r / 2) / pow2((k - 1) as nat));
}

/// Every one of the `2^n` combinations of `n` booleans is the bit pattern of
/// exactly one row index below `2^n`; this lemma gives the index, and with
/// `lemma_row_bits_unique` it makes the enumeration exhaustive and
/// repetition-free.
pub proof fn lemma_row_bits_complete(n: nat, combo: Seq<bool>)
    requires
        combo.len() == n,
    ensures
        bits_to_nat(combo) < pow2(n),
        row_bits(bits_to_nat(combo), n) == combo,
    decreases n,
{
    lemma2_to64();
    if n == 0 {
        assert(row_bits(0, 0) =~= combo);
    } else {
        let prefix = combo.drop_last();
        let b: nat = if combo.last() {
            1
        } else {
            0
        };
        lemma_row_bits_complete((n - 1) as nat, prefix);
        let v2 = bits_to_nat(prefix);
        let v = bits_to_nat(combo);
        assert(v == 2 * v2 + b);
        lemma_pow2_unfold(n);
        assert(v < pow2(n));
        lemma_fundamental_div_mod_converse(v as int, 2, v2 as int, b as int);
        assert(v / 2 == v2 && v % 2 == b);
        assert forall|i: int| 0 <= i < n implies row_bits(v, n)[i] == combo[i] by {
            if i == n - 1 {
                assert(bit_of(v, 0) == (v % 2 == 1)) by {
                    lemma2_to64();
                }
            } else {
                lemma_bit_of_halving(v, (n - 1 - i) as nat);
                assert(row_bits(v2, (n - 1) as nat)[i] == prefix[i]);
            }
        }
        assert(row_bits(v, n) =~= combo);
    }
}

/// Two distinct row indices below `2^n` never share a bit pattern: each
/// combination of column values appears in at most one row.
pub proof fn lemma_row_bits_unique(n: nat, r1: nat, r2: nat)
    requires
        r1 < pow2(n),
        r2 < pow2(n),
        row_bits(r1, n) == row_bits(r2, n),
    ensures
        r1 == r2,
{
    lemma_bits_of_row_roundtrip(r1, n);
    lemma_bits_of_row_roundtrip(r2, n);
}

proof fn lemma_bits_of_row_roundtrip(r: nat, n: nat)
    requires
        r < pow2(n),
    ensures
        bits_to_nat(row_bits(r, n)) == r,
    decreases n,
{
    lemma2_to64();
    if n == 0 {
        assert(row_bits(r, 0) =~= Seq::<bool>::empty());
    } else {
        lemma_fundamental_div_mod(r as int, 2);
        let r2 = r / 2;
        let b: nat = r % 2;
        lemma_pow2_unfold(n);
        assert(r2 < pow2((n - 1) as nat));
        assert forall|i: int| 0 <= i < n - 1 implies row_bits(r, n)[i] == row_bits(
            r2,
            (n - 1) as nat,
        )[i] by {
            lemma_bit_of_halving(r, (n - 1 - i) as nat);
        }
        assert(row_bits(r, n).drop_last() =~= row_bits(r2, (n - 1) as nat));
        assert(row_bits(r, n).last() == bit_of(r, 0));
        assert(bit_of(r, 0) == (b == 1));
        lemma_bits_of_row_roundtrip(r2, (n - 1) as nat);
        assert(bits_to_nat(row_bits(r, n)) == 2 * r2 + b);
    }
}

/// Computes `2^k`.
fn pow2_exec(k: usize) -> (p: usize)
    requires
        pow2(k as nat) <= usize::MAX,
    ensures
        p == pow2(k as nat),
{
    proof {
        lemma2_to64();
    }
    let mut p: usize = 1;
    let mut j: usize = 0;
    while j < k
        invariant
            j <= k,
            p == pow2(j as nat),
            pow2(k as nat) <= usize::MAX,
        decreases k - j,
    {
        proof {
            lemma_pow2_unfold((j + 1) as nat);
            if j + 1 < k {
                lemma_pow2_strictly_increases((j + 1) as nat, k as nat);
            }
        }
        p = p * 2;
        j = j + 1;
    }
    p
}

/// Whether bit `k` of `r` is set.
fn bit_at(r: usize, k: usize) -> (b: bool)
    requires
        pow2(k as nat) <= usize::MAX,
    ensures
        b == bit_of(r as nat, k as nat),
{
    let p = pow2_exec(k);
    proof {
        lemma_pow2_pos(k as nat);
    }
    (r / p) % 2 == 1
}

impl Expr {
    /// Generates the formula's truth table: one row for every assignment over
    /// the sorted free variables, in ascending binary-counter order, each row
    /// ending in the formula's value. Evaluation cannot meet an unbound name,
    /// since the columns are exactly the formula's free variables, so
    /// generation never fails.
    pub fn generate(&self) -> (t: TruthTable)
        requires
            pow2(self.names().len()) <= usize::MAX,
        ensures
            sorted_strict(views_of(t.vars@)),
            views_of(t.vars@).no_duplicates(),
            name_set(t.vars@) == self.names(),
            t.vars@.len() == self.names().len(),
            t.rows@.len() == pow2(t.vars@.len() as nat),
            forall|q: int|
                0 <= q < t.rows@.len() ==> (#[trigger] t.rows@[q])@.len() == t.vars@.len() + 1,
            forall|q: int|
                0 <= q < t.rows@.len() ==> (#[trigger] t.rows@[q])@.take(t.vars@.len() as int)
                    == row_bits(q as nat, t.vars@.len() as nat),
            forall|q: int|
                0 <= q < t.rows@.len() ==> (#[trigger] t.rows@[q])@[t.vars@.len() as int]
                    == self.holds(
                    row_map(views_of(t.vars@), row_bits(q as nat, t.vars@.len() as nat)),
                ),
    {
        let vars = self.get_prepositions_vec();
        let n = vars.len();
        proof {
            views_of(vars@).unique_seq_to_set();
            assert(name_set(vars@).len() == self.names().len());
        }
        let row_count = pow2_exec(n);
        let mut rows: Vec<Vec<bool>> = Vec::new();
        let mut r: usize = 0;
        while r < row_count
            invariant
                r <= row_count,
                n == vars@.len(),
                row_count == pow2(n as nat),
                pow2(n as nat) <= usize::MAX,
                sorted_strict(views_of(vars@)),
                name_set(vars@) == self.names(),
                rows@.len() == r,
                forall|q: int| 0 <= q < r ==> (#[trigger] rows@[q])@.len() == n + 1,
                forall|q: int|
                    0 <= q < r ==> (#[trigger] rows@[q])@.take(n as int) == row_bits(
                        q as nat,
                        n as nat,
                    ),
                forall|q: int|
                    0 <= q < r ==> (#[trigger] rows@[q])@[n as int] == self.holds(
                        row_map(views_of(vars@), row_bits(q as nat, n as nat)),
                    ),
            decreases row_count - r,
        {
            let mut row: Vec<bool> = Vec::new();
            let mut i: usize = 0;
            while i < n
                invariant
                    i <= n,
                    n == vars@.len(),
                    pow2(n as nat) <= usize::MAX,
                    row@.len() == i,
                    forall|j: int| 0 <= j < i ==> row@[j] == bit_of(r as nat, (n - 1 - j) as nat),
                decreases n - i,
            {
                proof {
                    lemma_pow2_strictly_increases((n - 1 - i) as nat, n as nat);
                }
                let b = bit_at(r, n - 1 - i);
                row.push(b);
                i = i + 1;
            }
            proof {
                assert(row@ =~= row_bits(r as nat, n as nat));
            }
            let v = match self.eval_at(&vars, &row) {
                Ok(b) => b,
                Err(_) => {
                    proof {
                        let m = row_map(views_of(vars@), row@);
                        self.lemma_first_unbound_none(m.dom());
                        assert forall|nm: Seq<char>| self.names().contains(nm) implies m.dom()
                            .contains(nm) by {
                            assert(views_of(vars@).contains(nm));
                        }
                        assert(self.names().subset_of(m.dom()));
                        assert(false);
                    }
                    false
                },
            };
            row.push(v);
            proof {
                assert(row@.take(n as int) =~= row_bits(r as nat, n as nat));
            }
            rows.push(row);
            r = r + 1;
        }
        TruthTable { vars, rows }
    }
}

} // verus!
