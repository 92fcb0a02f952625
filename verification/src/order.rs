//! The order strings sort in, and sorting by it.
//!
//! Strings order the way Rust orders `String`: byte by byte, which for UTF-8
//! is code point by code point, a proper prefix first.

use vstd::prelude::*;
use vstd::multiset::Multiset;

verus! {

/// Whether `a` sorts strictly before `b`.
pub open spec fn text_lt(a: Seq<char>, b: Seq<char>) -> bool
    decreases a.len(),
{
    if a.len() == 0 {
        b.len() > 0
    } else if b.len() == 0 {
        false
    } else if a[0] != b[0] {
        a[0] < b[0]
    } else {
        text_lt(a.drop_first(), b.drop_first())
    }
}

/// Whether `a` sorts before `b` or is equal to it.
pub open spec fn text_le(a: Seq<char>, b: Seq<char>) -> bool {
    !text_lt(b, a)
}

pub proof fn lemma_text_lt_irreflexive(a: Seq<char>)
    ensures
        !text_lt(a, a),
    decreases a.len(),
{
    if a.len() > 0 {
        lemma_text_lt_irreflexive(a.drop_first());
    }
}

pub proof fn lemma_text_lt_asymmetric(a: Seq<char>, b: Seq<char>)
    ensures
        text_lt(a, b) ==> !text_lt(b, a),
    decreases a.len(),
{
    if a.len() > 0 && b.len() > 0 && a[0] == b[0] {
        lemma_text_lt_asymmetric(a.drop_first(), b.drop_first());
    }
}

pub proof fn lemma_text_lt_transitive(a: Seq<char>, b: Seq<char>, c: Seq<char>)
    ensures
        text_lt(a, b) && text_lt(b, c) ==> text_lt(a, c),
    decreases a.len(),
{
    if a.len() > 0 && b.len() > 0 && c.len() > 0 {
        lemma_text_lt_transitive(a.drop_first(), b.drop_first(), c.drop_first());
    }
}

pub proof fn lemma_text_lt_total(a: Seq<char>, b: Seq<char>)
    ensures
        a != b ==> text_lt(a, b) || text_lt(b, a),
    decreases a.len(),
{
    if a.len() > 0 && b.len() > 0 {
        if a[0] == b[0] {
            lemma_text_lt_total(a.drop_first(), b.drop_first());
            if a.drop_first() == b.drop_first() {
                assert(a =~= seq![a[0]] + a.drop_first());
                assert(b =~= seq![b[0]] + b.drop_first());
            }
        } else {
        }
    } else if a.len() == 0 && b.len() == 0 {
        assert(a =~= b);
    }
}

/// Whether `a` sorts strictly before `b`.
pub fn text_less(a: &str, b: &str) -> (r: bool)
    ensures
        r == text_lt(a@, b@),
{
    let n = a.unicode_len();
    let m = b.unicode_len();
    let mut i: usize = 0;
    assert(a@.skip(0) =~= a@);
    assert(b@.skip(0) =~= b@);
    while i < n && i < m
        invariant
            n == a@.len(),
            m == b@.len(),
            i <= n,
            i <= m,
            text_lt(a@, b@) == text_lt(a@.skip(i as int), b@.skip(i as int)),
        decreases n - i,
    {
        let x = a.get_char(i);
        let y = b.get_char(i);
        proof {
            let sa = a@.skip(i as int);
            let sb = b@.skip(i as int);
            assert(sa.drop_first() =~= a@.skip(i + 1));
            assert(sb.drop_first() =~= b@.skip(i + 1));
            assert(sa[0] == x);
            assert(sb[0] == y);
        }
        if x != y {
            return x < y;
        }
        i = i + 1;
    }
    proof {
        assert(a@.skip(i as int).len() == n - i);
        assert(b@.skip(i as int).len() == m - i);
    }
    i == n && i < m
}

/// Whether a sequence of texts is in non-decreasing order.
pub open spec fn texts_sorted(s: Seq<Seq<char>>) -> bool {
    forall|i: int, j: int| 0 <= i < j < s.len() ==> text_le(#[trigger] s[i], #[trigger] s[j])
}

/// The texts of a sequence of strings.
pub open spec fn texts(v: Seq<String>) -> Seq<Seq<char>> {
    v.map_values(|s: String| s@)
}

proof fn lemma_multiset_insert_at(s: Seq<Seq<char>>, pos: int, x: Seq<char>)
    requires
        0 <= pos <= s.len(),
    ensures
        s.insert(pos, x).to_multiset() =~= s.to_multiset().insert(x),
{
    broadcast use vstd::seq_lib::group_to_multiset_ensures;

    let t = s.insert(pos, x);
    s.insert_ensures(pos, x);
    assert(t.remove(pos) =~= s);
    t.to_multiset_ensures();
    assert(t.remove(pos).to_multiset() =~= t.to_multiset().remove(x));
    assert(t.contains(x)) by {
        assert(t[pos] == x);
    }
    assert(t.to_multiset().count(x) > 0);
    assert forall|y: Seq<char>| #[trigger] t.to_multiset().count(y) == s.to_multiset().insert(
        x,
    ).count(y) by {
        if y == x {
            assert(s.to_multiset().count(x) == t.to_multiset().count(x) - 1);
        } else {
            assert(s.to_multiset().count(y) == t.to_multiset().count(y));
        }
    }
}

/// The strings of `v`, sorted; equal strings keep their relative order.
pub fn sort_strings(v: Vec<String>) -> (r: Vec<String>)
    ensures
        texts(r@).to_multiset() == texts(v@).to_multiset(),
        texts_sorted(texts(r@)),
        r@.len() == v@.len(),
{
    broadcast use vstd::seq_lib::group_to_multiset_ensures;

    let mut r: Vec<String> = Vec::new();
    let mut rest = v;
    let ghost given = texts(rest@);
    let mut k: usize = 0;
    let n = rest.len();
    let mut items: Vec<String> = Vec::new();
    // Reverse into `items` so that popping yields the given order.
    while rest.len() > 0
        invariant
            texts(items@) + texts(rest@).reverse() =~= given.reverse(),
        decreases rest.len(),
    {
        let ghost before_items = texts(items@);
        let ghost before_rest = texts(rest@);
        let x = rest.pop().unwrap();
        items.push(x);
        proof {
            assert(texts(items@) =~= before_items.push(x@));
            assert(before_rest =~= texts(rest@).push(x@));
            assert(before_rest.reverse() =~= seq![x@] + texts(rest@).reverse());
        }
    }
    assert(texts(items@) =~= given.reverse());
    proof {
        given.lemma_reverse_to_multiset();
        assert(texts(r@) =~= Seq::<Seq<char>>::empty());
        assert(texts(r@).to_multiset() =~= Multiset::empty());
    }
    while items.len() > 0
        invariant
            texts_sorted(texts(r@)),
            texts(r@).to_multiset().add(texts(items@).to_multiset()) =~= given.to_multiset(),
            r@.len() + items@.len() == given.len(),
        decreases items.len(),
    {
        let ghost before_items = texts(items@);
        let x = items.pop().unwrap();
        proof {
            assert(before_items =~= texts(items@).push(x@));
            texts(items@).to_multiset_ensures();
        }
        // First position whose string sorts after `x`.
        let mut pos: usize = 0;
        while pos < r.len() && !text_less(x.as_str(), r[pos].as_str())
            invariant
                pos <= r@.len(),
                forall|j: int| 0 <= j < pos ==> text_le(#[trigger] texts(r@)[j], x@),
            decreases r@.len() - pos,
        {
            pos = pos + 1;
        }
        let ghost old_r = texts(r@);
        proof {
            if pos < r@.len() {
                assert(text_lt(x@, old_r[pos as int]));
            }
        }
        r.insert(pos, x);
        proof {
            let s = texts(r@);
            assert(s =~= old_r.insert(pos as int, x@));
            lemma_multiset_insert_at(old_r, pos as int, x@);
            assert(s.to_multiset().add(texts(items@).to_multiset()) =~= old_r.to_multiset().add(
                before_items.to_multiset(),
            ));
            assert forall|i: int, j: int| 0 <= i < j < s.len() implies text_le(
                #[trigger] s[i],
                #[trigger] s[j],
            ) by {
                if j < pos {
                } else if i < pos && j == pos {
                } else if i < pos && j > pos {
                    assert(s[j] == old_r[j - 1]);
                } else if i == pos {
                    assert(s[j] == old_r[j - 1]);
                    if j - 1 == pos {
                        lemma_text_lt_asymmetric(x@, old_r[pos as int]);
                    } else {
                        assert(text_le(old_r[pos as int], old_r[j - 1]));
                        lemma_text_lt_transitive(old_r[j - 1], x@, old_r[pos as int]);
                    }
                } else {
                    assert(s[i] == old_r[i - 1]);
                    assert(s[j] == old_r[j - 1]);
                }
            }
        }
    }
    proof {
        texts(r@).to_multiset_ensures();
        assert(texts(items@) =~= Seq::<Seq<char>>::empty());
        assert(texts(items@).to_multiset() =~= Multiset::empty());
        assert(texts(r@).to_multiset() =~= given.to_multiset());
    }
    r
}

} // verus!
