//! The order in which `String`s compare (`Ord for str`), on character
//! sequences, and sorting by it.
//!
//! `str` compares its UTF-8 bytes lexicographically; UTF-8 keeps the order
//! of code points, so that is the lexicographic order of the characters by
//! code point, which is what `char_seq_le` states.
use vstd::prelude::*;
use vstd::relations::{sorted_by, total_ordering};
use crate::text::{copy_range, views};

verus! {

/// `a <= b` in the lexicographic order of characters by code point.
pub open spec fn char_seq_le(a: Seq<char>, b: Seq<char>) -> bool
    decreases a.len(),
{
    if a.len() == 0 {
        true
    } else if b.len() == 0 {
        false
    } else if a[0] == b[0] {
        char_seq_le(a.drop_first(), b.drop_first())
    } else {
        (a[0] as u32) < (b[0] as u32)
    }
}

/// The order `char_seq_le` as a relation.
pub open spec fn lex_order() -> spec_fn(Seq<char>, Seq<char>) -> bool {
    |a: Seq<char>, b: Seq<char>| char_seq_le(a, b)
}

proof fn lemma_le_refl(a: Seq<char>)
    ensures
        char_seq_le(a, a),
    decreases a.len(),
{
    if a.len() > 0 {
        lemma_le_refl(a.drop_first());
    }
}

proof fn lemma_le_antisym(a: Seq<char>, b: Seq<char>)
    requires
        char_seq_le(a, b),
        char_seq_le(b, a),
    ensures
        a == b,
    decreases a.len(),
{
    if a.len() == 0 {
        assert(a =~= b);
    } else {
        assert(b.len() > 0);
        if a[0] == b[0] {
            lemma_le_antisym(a.drop_first(), b.drop_first());
            assert(a =~= seq![a[0]] + a.drop_first());
            assert(b =~= seq![b[0]] + b.drop_first());
        } else {
            assert(false);
        }
    }
}

proof fn lemma_le_trans(a: Seq<char>, b: Seq<char>, c: Seq<char>)
    requires
        char_seq_le(a, b),
        char_seq_le(b, c),
    ensures
        char_seq_le(a, c),
    decreases a.len(),
{
    if a.len() > 0 {
        assert(b.len() > 0);
        assert(c.len() > 0);
        if a[0] == b[0] && b[0] == c[0] {
            lemma_le_trans(a.drop_first(), b.drop_first(), c.drop_first());
        }
    }
}

proof fn lemma_le_total(a: Seq<char>, b: Seq<char>)
    ensures
        char_seq_le(a, b) || char_seq_le(b, a),
    decreases a.len(),
{
    if a.len() > 0 && b.len() > 0 {
        if a[0] == b[0] {
            lemma_le_total(a.drop_first(), b.drop_first());
        } else {
            vstd::utf8::char_u32_cast(a[0], a[0] as u32);
            vstd::utf8::char_u32_cast(b[0], b[0] as u32);
        }
    }
}

/// `char_seq_le` is a total order.
pub proof fn lemma_lex_total_ordering()
    ensures
        total_ordering(lex_order()),
{
    assert forall|a: Seq<char>| #[trigger] lex_order()(a, a) by {
        lemma_le_refl(a);
    }
    assert forall|a: Seq<char>, b: Seq<char>|
        #[trigger] lex_order()(a, b) && #[trigger] lex_order()(b, a) implies a == b by {
        lemma_le_antisym(a, b);
    }
    assert forall|a: Seq<char>, b: Seq<char>, c: Seq<char>|
        #[trigger] lex_order()(a, b) && #[trigger] lex_order()(b, c) implies lex_order()(a, c) by {
        lemma_le_trans(a, b, c);
    }
    assert forall|a: Seq<char>, b: Seq<char>|
        #[trigger] lex_order()(a, b) || #[trigger] lex_order()(b, a) by {
        lemma_le_total(a, b);
    }
}

/// Whether `a <= b` in the order of `char_seq_le`.
pub fn char_seq_le_exec(a: &[char], b: &[char]) -> (r: bool)
    ensures
        r == char_seq_le(a@, b@),
{
    let mut i: usize = 0;
    assert(a@.skip(0) =~= a@);
    assert(b@.skip(0) =~= b@);
    while i < a.len() && i < b.len() && a[i] == b[i]
        invariant
            i <= a@.len(),
            i <= b@.len(),
            char_seq_le(a@, b@) == char_seq_le(a@.skip(i as int), b@.skip(i as int)),
        decreases a@.len() - i,
    {
        assert(a@.skip(i as int).drop_first() =~= a@.skip(i + 1));
        assert(b@.skip(i as int).drop_first() =~= b@.skip(i + 1));
        i = i + 1;
    }
    if i == a.len() {
        true
    } else if i == b.len() {
        false
    } else {
        (a[i] as u32) < (b[i] as u32)
    }
}

/// Sorts character vectors by `char_seq_le` (as `slice::sort` sorts
/// `String`s).
pub fn sort_lex(v: &Vec<Vec<char>>) -> (r: Vec<Vec<char>>)
    ensures
        views(r@) == views(v@).sort_by(lex_order()),
{
    broadcast use vstd::seq_lib::group_to_multiset_ensures;
    let ghost leq = lex_order();
    proof {
        lemma_lex_total_ordering();
    }
    let ghost vv = views(v@);
    let mut r: Vec<Vec<char>> = Vec::new();
    let n = v.len();
    assert(vv.take(0) =~= Seq::<Seq<char>>::empty());
    for i in 0..n
        invariant
            n == v@.len() == vv.len(),
            vv == views(v@),
            leq == lex_order(),
            total_ordering(leq),
            sorted_by(views(r@), leq),
            views(r@).to_multiset() == vv.take(i as int).to_multiset(),
    {
        let x = copy_range(v[i].as_slice(), 0, v[i].len());
        assert(x@ =~= vv[i as int]);
        let ghost s = views(r@);
        let mut k: usize = 0;
        while k < r.len() && char_seq_le_exec(r[k].as_slice(), x.as_slice())
            invariant
                k <= r@.len(),
                s == views(r@),
                forall|j: int| 0 <= j < k ==> char_seq_le(#[trigger] s[j], x@),
            decreases r@.len() - k,
        {
            k = k + 1;
        }
        proof {
            if k < s.len() {
                lemma_le_total(s[k as int], x@);
            }
        }
        r.insert(k, x);
        proof {
            let s2 = views(r@);
            assert(s2 =~= s.insert(k as int, x@));
            assert forall|p: int, q: int| 0 <= p < q < s2.len() implies #[trigger] leq(
                s2[p],
                s2[q],
            ) by {
                if q < k {
                    assert(leq(s[p], s[q]));
                } else if q == k {
                    assert(char_seq_le(s[p], x@));
                } else if p < k {
                    assert(char_seq_le(s[p], x@));
                    assert(s2[q] == s[q - 1]);
                    if k < s.len() {
                        assert(char_seq_le(x@, s[k as int]));
                        if q - 1 > k {
                            assert(leq(s[k as int], s[q - 1]));
                            lemma_le_trans(x@, s[k as int], s[q - 1]);
                        }
                        lemma_le_trans(s[p], x@, s[q - 1]);
                    }
                } else if p == k {
                    assert(char_seq_le(x@, s[k as int]));
                    if q - 1 > k {
                        assert(leq(s[k as int], s[q - 1]));
                        lemma_le_trans(x@, s[k as int], s[q - 1]);
                    }
                } else {
                    assert(leq(s[p - 1], s[q - 1]));
                }
            }
            assert(vv.take(i + 1) =~= vv.take(i as int).push(vv[i as int]));
            vstd::seq_lib::to_multiset_insert(s, k as int, x@);
            vstd::seq_lib::to_multiset_build(vv.take(i as int), vv[i as int]);
        }
    }
    proof {
        assert(vv.take(n as int) =~= vv);
        vv.lemma_sort_by_ensures(leq);
        vstd::seq_lib::lemma_sorted_unique(views(r@), vv.sort_by(leq), leq);
    }
    r
}

} // verus!
