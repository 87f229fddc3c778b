//! Ordering records newest first by their `created_at` text, as the release
//! and stable listings show them.
use vstd::prelude::*;
use crate::text::{chars_of, string_views};

verus! {

/// Lexicographic order of texts by character (the order of `String::cmp`,
/// since UTF-8 keeps code point order).
pub open spec fn text_less(a: Seq<char>, b: Seq<char>) -> bool
    decreases a.len(),
{
    if a.len() == 0 {
        b.len() > 0
    } else if b.len() == 0 {
        false
    } else if a[0] < b[0] {
        true
    } else if a[0] > b[0] {
        false
    } else {
        text_less(a.drop_first(), b.drop_first())
    }
}

pub proof fn lemma_text_less_irreflexive(a: Seq<char>)
    ensures
        !text_less(a, a),
    decreases a.len(),
{
    if a.len() > 0 {
        lemma_text_less_irreflexive(a.drop_first());
    }
}

pub proof fn lemma_text_less_total(a: Seq<char>, b: Seq<char>)
    ensures
        a == b || text_less(a, b) || text_less(b, a),
        !(text_less(a, b) && text_less(b, a)),
    decreases a.len(),
{
    if a.len() > 0 && b.len() > 0 && a[0] == b[0] {
        lemma_text_less_total(a.drop_first(), b.drop_first());
        if a.drop_first() == b.drop_first() {
            assert forall|i: int| 0 <= i < a.len() implies a[i] == b[i] by {
                if i > 0 {
                    assert(a[i] == a.drop_first()[i - 1]);
                    assert(b[i] == b.drop_first()[i - 1]);
                }
            }
            assert(a =~= b);
        }
    } else if a.len() == 0 && b.len() == 0 {
        assert(a =~= b);
    } else if a.len() > 0 && b.len() > 0 {
        assert(a[0] != b[0]);
    }
}

pub proof fn lemma_text_less_transitive(a: Seq<char>, b: Seq<char>, c: Seq<char>)
    requires
        text_less(a, b),
        text_less(b, c),
    ensures
        text_less(a, c),
    decreases a.len(),
{
    if a.len() > 0 && b.len() > 0 && c.len() > 0 && a[0] == b[0] && b[0] == c[0] {
        lemma_text_less_transitive(a.drop_first(), b.drop_first(), c.drop_first());
    }
}

/// Whether `a` orders before `b` character by character.
pub fn is_text_less(a: &str, b: &str) -> (r: bool)
    ensures
        r == text_less(a@, b@),
{
    let x = chars_of(a);
    let y = chars_of(b);
    let mut i: usize = 0;
    assert(x@.skip(0) =~= x@);
    assert(y@.skip(0) =~= y@);
    while i < x.len() && i < y.len()
        invariant
            x@ == a@,
            y@ == b@,
            0 <= i <= x@.len(),
            i <= y@.len(),
            text_less(x@, y@) == text_less(x@.skip(i as int), y@.skip(i as int)),
        decreases x@.len() - i,
    {
        let ghost xs = x@.skip(i as int);
        let ghost ys = y@.skip(i as int);
        assert(xs[0] == x@[i as int]);
        assert(ys[0] == y@[i as int]);
        if x[i] < y[i] {
            return true;
        }
        if x[i] > y[i] {
            return false;
        }
        assert(xs.drop_first() =~= x@.skip(i + 1));
        assert(ys.drop_first() =~= y@.skip(i + 1));
        i = i + 1;
    }
    i == x.len() && i < y.len()
}

/// Entry `i` goes before entry `j` when listing newest first: a later
/// `created_at`, or the same one and an earlier position.
pub open spec fn ranks_before(keys: Seq<Seq<char>>, i: int, j: int) -> bool {
    text_less(keys[j], keys[i]) || (keys[i] == keys[j] && i < j)
}

/// `order` lists every position of `keys` once, newest first, keeping the
/// given order among equal keys.
pub open spec fn is_newest_first(keys: Seq<Seq<char>>, order: Seq<usize>) -> bool {
    &&& order.len() == keys.len()
    &&& forall|i: int| 0 <= i < order.len() ==> #[trigger] order[i] < keys.len()
    &&& forall|i: int, j: int|
        0 <= i < j < order.len() ==> ranks_before(keys, order[i] as int, order[j] as int)
}

proof fn lemma_ranks_before_transitive(keys: Seq<Seq<char>>, a: int, b: int, c: int)
    requires
        ranks_before(keys, a, b),
        ranks_before(keys, b, c),
    ensures
        ranks_before(keys, a, c),
{
    if text_less(keys[b], keys[a]) && text_less(keys[c], keys[b]) {
        lemma_text_less_transitive(keys[c], keys[b], keys[a]);
    }
}

/// The positions of `keys` ordered newest first (a stable sort by
/// descending key).
pub fn order_newest_first(keys: &Vec<String>) -> (order: Vec<usize>)
    ensures
        is_newest_first(string_views(keys@), order@),
{
    let ghost ks = string_views(keys@);
    let mut order: Vec<usize> = Vec::new();
    let mut k: usize = 0;
    while k < keys.len()
        invariant
            ks == string_views(keys@),
            0 <= k <= keys@.len(),
            order@.len() == k,
            forall|i: int| 0 <= i < order@.len() ==> #[trigger] order@[i] < k,
            forall|i: int, j: int|
                0 <= i < j < order@.len() ==> ranks_before(ks, order@[i] as int, order@[j] as int),
        decreases keys@.len() - k,
    {
        // insert k after every entry that ranks before it
        let mut p: usize = 0;
        while p < order.len() && !is_text_less(keys[order[p]].as_str(), keys[k].as_str())
            invariant
                ks == string_views(keys@),
                0 <= p <= order@.len(),
                k < keys@.len(),
                forall|i: int| 0 <= i < order@.len() ==> #[trigger] order@[i] < k,
                forall|i: int| 0 <= i < p ==> ranks_before(ks, #[trigger] order@[i] as int, k as int),
            decreases order@.len() - p,
        {
            proof {
                let o = order@[p as int] as int;
                assert(ks[o] == keys@[o]@);
                assert(ks[k as int] == keys@[k as int]@);
                lemma_text_less_total(ks[o], ks[k as int]);
            }
            p = p + 1;
        }
        proof {
            if p < order@.len() {
                let o = order@[p as int] as int;
                assert(ks[o] == keys@[o]@);
                assert(ks[k as int] == keys@[k as int]@);
                assert(text_less(ks[o], ks[k as int]));
                assert(ranks_before(ks, k as int, o));
            }
        }
        let ghost before = order@;
        order.insert(p, k);
        proof {
            assert forall|i: int| 0 <= i < order@.len() implies #[trigger] order@[i] < k + 1 by {
                if i < p {
                    assert(order@[i] == before[i]);
                } else if i > p {
                    assert(order@[i] == before[i - 1]);
                }
            }
            assert forall|i: int, j: int| 0 <= i < j < order@.len() implies ranks_before(
                ks,
                order@[i] as int,
                order@[j] as int,
            ) by {
                if j < p {
                    assert(order@[i] == before[i]);
                    assert(order@[j] == before[j]);
                } else if j == p {
                    assert(order@[i] == before[i]);
                } else if i < p {
                    assert(order@[i] == before[i]);
                    assert(order@[j] == before[j - 1]);
                } else if i == p {
                    assert(order@[j] == before[j - 1]);
                    // k ranks before before[p], which ranks before or is before[j - 1]
                    if p < before.len() {
                        let o = before[p as int] as int;
                        assert(ranks_before(ks, k as int, o)) by {
                            let o2 = before[p as int] as int;
                            assert(ks[o2] == keys@[o2]@);
                        }
                        if j - 1 > p {
                            lemma_ranks_before_transitive(ks, k as int, o, before[j - 1] as int);
                        }
                    }
                } else {
                    assert(order@[i] == before[i - 1]);
                    assert(order@[j] == before[j - 1]);
                }
            }
        }
        k = k + 1;
    }
    order
}

/// `a` orders no later than `b`.
pub open spec fn text_le(a: Seq<char>, b: Seq<char>) -> bool {
    !text_less(b, a)
}

/// The texts are in ascending order.
pub open spec fn is_sorted_texts(s: Seq<Seq<char>>) -> bool {
    forall|i: int, j: int| 0 <= i < j < s.len() ==> text_le(s[i], s[j])
}

/// The strings of `v` in ascending order, as sorting a vector of strings
/// leaves them.
pub fn sort_texts(v: &Vec<String>) -> (r: Vec<String>)
    ensures
        is_sorted_texts(string_views(r@)),
        string_views(r@).to_multiset() == string_views(v@).to_multiset(),
{
    let mut out: Vec<String> = Vec::new();
    let mut i: usize = 0;
    proof {
        assert(string_views(out@) =~= string_views(v@.take(0)));
    }
    while i < v.len()
        invariant
            0 <= i <= v@.len(),
            is_sorted_texts(string_views(out@)),
            string_views(out@).to_multiset() == string_views(v@.take(i as int)).to_multiset(),
        decreases v@.len() - i,
    {
        let ghost xs = string_views(out@);
        let ghost x = v@[i as int]@;
        let mut p: usize = 0;
        while p < out.len() && !is_text_less(v[i].as_str(), out[p].as_str())
            invariant
                0 <= p <= out@.len(),
                xs == string_views(out@),
                x == v@[i as int]@,
                i < v@.len(),
                forall|q: int| 0 <= q < p ==> text_le(#[trigger] xs[q], x),
            decreases out@.len() - p,
        {
            proof {
                assert(xs[p as int] == out@[p as int]@);
            }
            p = p + 1;
        }
        proof {
            if p < out@.len() {
                assert(xs[p as int] == out@[p as int]@);
                assert(text_less(x, xs[p as int]));
            }
        }
        let item = v[i].clone();
        out.insert(p, item);
        proof {
            let ys = string_views(out@);
            assert(ys =~= xs.insert(p as int, x));
            assert forall|a: int, b: int| 0 <= a < b < ys.len() implies text_le(ys[a], ys[b]) by {
                if b < p {
                    assert(ys[a] == xs[a] && ys[b] == xs[b]);
                } else if b == p {
                    assert(ys[a] == xs[a]);
                } else if a < p {
                    assert(ys[a] == xs[a] && ys[b] == xs[b - 1]);
                } else if a == p {
                    assert(ys[b] == xs[b - 1]);
                    let m = xs[p as int];
                    if text_less(xs[b - 1], x) {
                        if b - 1 > p {
                            assert(text_le(m, xs[b - 1]));
                        }
                        lemma_text_less_transitive(xs[b - 1], x, m);
                        lemma_text_less_irreflexive(m);
                    }
                } else {
                    assert(ys[a] == xs[a - 1] && ys[b] == xs[b - 1]);
                }
            }
            assert(v@.take(i + 1) =~= v@.take(i as int).push(v@[i as int]));
            assert(string_views(v@.take(i + 1)) =~= string_views(v@.take(i as int)).push(x));
            vstd::seq_lib::to_multiset_insert(xs, p as int, x);
            vstd::seq_lib::to_multiset_build(string_views(v@.take(i as int)), x);
        }
        i = i + 1;
    }
    proof {
        assert(v@.take(i as int) =~= v@);
    }
    out
}

} // verus!
