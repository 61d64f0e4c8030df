//! Ordering text the way `str`'s `Ord` does (by character, then by length)
//! and sorting strings by it.

use vstd::prelude::*;
use vstd::relations::{sorted_by, total_ordering};

verus! {

/// `a` comes strictly before `b`.
pub open spec fn lex_lt(a: Seq<char>, b: Seq<char>) -> bool
    decreases a.len(),
{
    if a.len() == 0 {
        b.len() > 0
    } else if b.len() == 0 {
        false
    } else if a[0] != b[0] {
        a[0] < b[0]
    } else {
        lex_lt(a.drop_first(), b.drop_first())
    }
}

/// `a` comes before `b` or equals it.
pub open spec fn lex_le(a: Seq<char>, b: Seq<char>) -> bool {
    a == b || lex_lt(a, b)
}

/// The order on texts as a relation.
pub open spec fn text_order() -> spec_fn(Seq<char>, Seq<char>) -> bool {
    |a: Seq<char>, b: Seq<char>| lex_le(a, b)
}

pub proof fn lemma_lt_irreflexive(a: Seq<char>)
    ensures
        !lex_lt(a, a),
    decreases a.len(),
{
    if a.len() > 0 {
        lemma_lt_irreflexive(a.drop_first());
    }
}

pub proof fn lemma_lt_asymmetric(a: Seq<char>, b: Seq<char>)
    ensures
        !(lex_lt(a, b) && lex_lt(b, a)),
    decreases a.len(),
{
    if a.len() > 0 && b.len() > 0 && a[0] == b[0] {
        lemma_lt_asymmetric(a.drop_first(), b.drop_first());
    }
}

pub proof fn lemma_lt_transitive(a: Seq<char>, b: Seq<char>, c: Seq<char>)
    requires
        lex_lt(a, b),
        lex_lt(b, c),
    ensures
        lex_lt(a, c),
    decreases a.len(),
{
    if a.len() > 0 && b.len() > 0 && c.len() > 0 && a[0] == b[0] && b[0] == c[0] {
        lemma_lt_transitive(a.drop_first(), b.drop_first(), c.drop_first());
    }
}

pub proof fn lemma_lt_total(a: Seq<char>, b: Seq<char>)
    ensures
        a == b || lex_lt(a, b) || lex_lt(b, a),
    decreases a.len(),
{
    if a.len() > 0 && b.len() > 0 && a[0] == b[0] {
        lemma_lt_total(a.drop_first(), b.drop_first());
        if a.drop_first() == b.drop_first() {
            assert(a =~= seq![a[0]] + a.drop_first());
            assert(b =~= seq![b[0]] + b.drop_first());
        }
    } else if a.len() == 0 && b.len() == 0 {
        assert(a =~= b);
    } else if a.len() > 0 && b.len() > 0 {
    }
}

/// The text order is a total order.
pub proof fn lemma_text_order_total()
    ensures
        total_ordering(text_order()),
{
    let r = text_order();
    assert forall|x: Seq<char>| #[trigger] r(x, x) by {}
    assert forall|x: Seq<char>, y: Seq<char>| #[trigger] r(x, y) && #[trigger] r(y, x) implies x
        == y by {
        lemma_lt_asymmetric(x, y);
    }
    assert forall|x: Seq<char>, y: Seq<char>, z: Seq<char>| #[trigger] r(x, y) && #[trigger] r(
        y,
        z,
    ) implies r(x, z) by {
        if x != y && y != z {
            lemma_lt_transitive(x, y, z);
        }
    }
    assert forall|x: Seq<char>, y: Seq<char>| #[trigger] r(x, y) || #[trigger] r(y, x) by {
        lemma_lt_total(x, y);
    }
}

/// Whether `a` comes strictly before `b`.
pub fn less_than(a: &[char], b: &[char]) -> (r: bool)
    ensures
        r == lex_lt(a@, b@),
{
    let mut i: usize = 0;
    assert(a@.skip(0) =~= a@);
    assert(b@.skip(0) =~= b@);
    while i < a.len() && i < b.len() && a[i] == b[i]
        invariant
            i <= a@.len(),
            i <= b@.len(),
            lex_lt(a@, b@) == lex_lt(a@.skip(i as int), b@.skip(i as int)),
        decreases a.len() - i,
    {
        proof {
            let x = a@.skip(i as int);
            let y = b@.skip(i as int);
            assert(x.drop_first() =~= a@.skip(i + 1));
            assert(y.drop_first() =~= b@.skip(i + 1));
        }
        i += 1;
    }
    proof {
        let x = a@.skip(i as int);
        let y = b@.skip(i as int);
        if i < a@.len() && i < b@.len() {
            assert(x[0] == a@[i as int]);
            assert(y[0] == b@[i as int]);
        }
    }
    if i == a.len() {
        i < b.len()
    } else if i == b.len() {
        false
    } else {
        a[i] < b[i]
    }
}

/// The texts of a vector of strings.
pub open spec fn texts(v: Seq<String>) -> Seq<Seq<char>> {
    v.map_values(|s: String| s@)
}

/// `Vec<String>::sort`: the same strings, in order.
pub fn sort_strings(v: Vec<String>) -> (r: Vec<String>)
    ensures
        texts(r@) == texts(v@).sort_by(text_order()),
{
    let mut r: Vec<String> = Vec::new();
    let mut i: usize = 0;
    proof {
        lemma_text_order_total();
        assert(texts(v@).take(0) =~= Seq::<Seq<char>>::empty());
        assert(texts(r@) =~= Seq::<Seq<char>>::empty());
    }
    while i < v.len()
        invariant
            i <= v@.len(),
            total_ordering(text_order()),
            sorted_by(texts(r@), text_order()),
            texts(r@).to_multiset() == texts(v@).take(i as int).to_multiset(),
        decreases v.len() - i,
    {
        let x = v[i].clone();
        let xc = crate::text::chars_of(x.as_str());
        let mut p: usize = 0;
        while p < r.len() && !less_than(&xc, &crate::text::chars_of(r[p].as_str()))
            invariant
                p <= r@.len(),
                xc@ == x@,
                forall|k: int| 0 <= k < p ==> lex_le(#[trigger] texts(r@)[k], x@),
            decreases r.len() - p,
        {
            proof {
                lemma_lt_total(x@, r@[p as int]@);
            }
            p += 1;
        }
        let ghost t = texts(r@);
        let ghost xv = x@;
        proof {
            assert(x@ == v@[i as int]@);
            if p < r@.len() {
                assert(lex_lt(x@, texts(r@)[p as int]));
            }
            let t = texts(r@);
            let t2 = t.insert(p as int, x@);
            assert forall|a: int, b: int| 0 <= a < b < t2.len() implies #[trigger] text_order()(
                t2[a],
                t2[b],
            ) by {
                if a < p && b == p {
                } else if a < p && b > p {
                    assert(text_order()(t[a], t[b - 1]));
                } else if a == p && b > p {
                    assert(lex_lt(x@, t[p as int]));
                    if p as int != b - 1 {
                        assert(text_order()(t[p as int], t[b - 1]));
                        if t[p as int] != t[b - 1] {
                            lemma_lt_transitive(x@, t[p as int], t[b - 1]);
                        }
                    }
                } else if a > p {
                    assert(text_order()(t[a - 1], t[b - 1]));
                } else {
                    assert(text_order()(t[a], t[b]));
                }
            }
            vstd::seq_lib::to_multiset_insert(t, p as int, x@);
            assert(texts(v@).take(i + 1) =~= texts(v@).take(i as int).push(x@));
            vstd::seq_lib::to_multiset_build(texts(v@).take(i as int), x@);
        }
        r.insert(p, x);
        assert(texts(r@) =~= t.insert(p as int, xv));
        i += 1;
    }
    proof {
        assert(texts(v@).take(v@.len() as int) =~= texts(v@));
        texts(v@).lemma_sort_by_ensures(text_order());
        vstd::seq_lib::lemma_sorted_unique(texts(r@), texts(v@).sort_by(text_order()), text_order());
    }
    r
}

} // verus!
