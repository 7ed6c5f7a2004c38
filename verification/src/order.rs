use vstd::prelude::*;

verus! {

/// Strict lexicographic order on character sequences, by code point.
/// A proper prefix sorts before every extension of it.
pub open spec fn lex_lt(a: Seq<char>, b: Seq<char>) -> bool
    decreases a.len(),
{
    if b.len() == 0 {
        false
    } else if a.len() == 0 {
        true
    } else if a[0] != b[0] {
        (a[0] as u32) < (b[0] as u32)
    } else {
        lex_lt(a.skip(1), b.skip(1))
    }
}

/// The views of a sequence of strings.
pub open spec fn views_of(v: Seq<String>) -> Seq<Seq<char>> {
    v.map_values(|s: String| s@)
}

/// Strictly ascending in lexicographic order; in particular duplicate-free.
pub open spec fn sorted_strict(s: Seq<Seq<char>>) -> bool {
    forall|i: int, j: int| 0 <= i < j < s.len() ==> lex_lt(s[i], s[j])
}

/// The set of names a vector of strings holds.
pub open spec fn name_set(v: Seq<String>) -> Set<Seq<char>> {
    views_of(v).to_set()
}

/// Two distinct sequences are ordered one way or the other.
pub proof fn lemma_lex_connected(a: Seq<char>, b: Seq<char>)
    ensures
        a != b ==> lex_lt(a, b) || lex_lt(b, a),
    decreases a.len(),
{
    if a.len() == 0 || b.len() == 0 {
        if a.len() == 0 && b.len() == 0 {
            assert(a =~= b);
        }
    } else if a[0] != b[0] {
        vstd::utf8::char_u32_cast(a[0], a[0] as u32);
        vstd::utf8::char_u32_cast(b[0], b[0] as u32);
        assert((a[0] as u32) != (b[0] as u32));
    } else {
        if a.skip(1) == b.skip(1) {
            assert(a.skip(1).len() == a.len() - 1);
            assert(b.skip(1).len() == b.len() - 1);
            assert(a.len() == b.len());
            assert forall|j: int| 0 <= j < a.len() implies a[j] == b[j] by {
                if j >= 1 {
                    assert(a[j] == a.skip(1)[j - 1]);
                    assert(b[j] == b.skip(1)[j - 1]);
                }
            }
            assert(a =~= b);
        } else {
            lemma_lex_connected(a.skip(1), b.skip(1));
        }
    }
}

/// The order is irreflexive.
pub proof fn lemma_lex_irrefl(a: Seq<char>)
    ensures
        !lex_lt(a, a),
    decreases a.len(),
{
    if a.len() > 0 {
        lemma_lex_irrefl(a.skip(1));
    }
}

/// The order is transitive.
pub proof fn lemma_lex_trans(a: Seq<char>, b: Seq<char>, c: Seq<char>)
    requires
        lex_lt(a, b),
        lex_lt(b, c),
    ensures
        lex_lt(a, c),
    decreases a.len(),
{
    if a.len() == 0 {
    } else if b.len() == 0 {
    } else if a[0] == b[0] && b[0] == c[0] {
        lemma_lex_trans(a.skip(1), b.skip(1), c.skip(1));
    }
}

/// Compares two strings in the lexicographic order, character by character.
pub fn str_lt(a: &str, b: &str) -> (r: bool)
    ensures
        r == lex_lt(a@, b@),
{
    let alen = a.unicode_len();
    let blen = b.unicode_len();
    let mut i: usize = 0;
    proof {
        assert(a@.skip(0) =~= a@);
        assert(b@.skip(0) =~= b@);
    }
    while i < alen && i < blen
        invariant
            alen == a@.len(),
            blen == b@.len(),
            i <= alen,
            i <= blen,
            lex_lt(a@, b@) == lex_lt(a@.skip(i as int), b@.skip(i as int)),
        decreases alen - i,
    {
        let ca = a.get_char(i);
        let cb = b.get_char(i);
        if ca != cb {
            return (ca as u32) < (cb as u32);
        }
        proof {
            assert(a@.skip(i as int).skip(1) =~= a@.skip(i + 1));
            assert(b@.skip(i as int).skip(1) =~= b@.skip(i + 1));
        }
        i = i + 1;
    }
    i < blen
}

/// Inserts a name into a strictly sorted vector, keeping it sorted and
/// duplicate-free; a name already present is left alone.
pub fn insert_sorted(v: &mut Vec<String>, name: &String)
    requires
        sorted_strict(views_of(old(v)@)),
    ensures
        sorted_strict(views_of(final(v)@)),
        name_set(final(v)@) == name_set(old(v)@).insert(name@),
{
    let mut i: usize = 0;
    while i < v.len() && str_lt(v[i].as_str(), name.as_str())
        invariant
            sorted_strict(views_of(v@)),
            v@ == old(v)@,
            i <= v.len(),
            forall|j: int| 0 <= j < i ==> lex_lt(#[trigger] views_of(v@)[j], name@),
        decreases v.len() - i,
    {
        i = i + 1;
    }
    if i < v.len() && v[i] == *name {
        proof {
            assert(views_of(v@)[i as int] == name@);
            assert(views_of(v@).contains(name@));
            assert(name_set(v@).insert(name@) =~= name_set(v@));
        }
        return;
    }
    proof {
        if i < v.len() {
            lemma_lex_connected(views_of(v@)[i as int], name@);
            assert(lex_lt(name@, views_of(v@)[i as int]));
        }
    }
    let ghost oldseq = v@;
    v.insert(i, name.clone());
    proof {
        oldseq.insert_ensures(i as int, *name);
        assert(v@ =~= oldseq.insert(i as int, *name));
        let nv = views_of(v@);
        let ov = views_of(oldseq);
        assert forall|j: int, k: int| 0 <= j < k < nv.len() implies lex_lt(nv[j], nv[k]) by {
            if k < i {
                assert(nv[j] == ov[j] && nv[k] == ov[k]);
            } else if j < i && k == i {
                assert(nv[j] == ov[j] && nv[k] == name@);
            } else if j < i && k > i {
                assert(nv[j] == ov[j] && nv[k] == ov[k - 1]);
                if k - 1 == j {
                    lemma_lex_trans(ov[j], name@, ov[k - 1]);
                } else {
                    assert(lex_lt(ov[j], ov[k - 1]));
                }
            } else if j == i {
                assert(nv[j] == name@ && nv[k] == ov[k - 1]);
                if k - 1 > i {
                    lemma_lex_trans(name@, ov[i as int], ov[k - 1]);
                }
            } else {
                assert(nv[j] == ov[j - 1] && nv[k] == ov[k - 1]);
            }
        }
        assert forall|y: Seq<char>| name_set(v@).contains(y) implies name_set(
            oldseq,
        ).insert(name@).contains(y) by {
            let j = choose|j: int| 0 <= j < nv.len() && nv[j] == y;
            if j < i {
                assert(ov[j] == y);
                assert(ov.contains(y));
            } else if j > i {
                assert(ov[j - 1] == y);
                assert(ov.contains(y));
            }
        }
        assert forall|y: Seq<char>| name_set(oldseq).insert(name@).contains(y) implies name_set(
            v@,
        ).contains(y) by {
            if y == name@ {
                assert(nv[i as int] == y);
                assert(nv.contains(y));
            } else {
                let j = choose|j: int| 0 <= j < ov.len() && ov[j] == y;
                if j < i {
                    assert(nv[j] == y);
                } else {
                    assert(nv[j + 1] == y);
                }
                assert(nv.contains(y));
            }
        }
        assert(name_set(v@) =~= name_set(oldseq).insert(name@));
    }
}

} // verus!
