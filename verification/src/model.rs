//! The mathematical model of the map: a sequence of live `(key, value)`
//! entries in dense-storage order, with no key occurring twice.

use vstd::prelude::*;

verus! {

/// Whether some entry of `s` has key `k`.
pub open spec fn has_key<V>(s: Seq<(usize, V)>, k: usize) -> bool {
    exists|p: int| 0 <= p < s.len() && (#[trigger] s[p]).0 == k
}

/// The position of the entry with key `k` (meaningful when `has_key(s, k)`
/// and the keys of `s` are unique).
pub open spec fn pos_of<V>(s: Seq<(usize, V)>, k: usize) -> int {
    choose|p: int| 0 <= p < s.len() && (#[trigger] s[p]).0 == k
}

/// The value stored under key `k`, or `None` when `k` is absent.
pub open spec fn value_of<V>(s: Seq<(usize, V)>, k: usize) -> Option<V> {
    if has_key(s, k) {
        Some(s[pos_of(s, k)].1)
    } else {
        None
    }
}

/// No key occurs at two distinct positions.
pub open spec fn keys_unique<V>(s: Seq<(usize, V)>) -> bool {
    forall|p: int, q: int|
        0 <= p < q < s.len() ==> (#[trigger] s[p]).0 != (#[trigger] s[q]).0
}

/// The effect of `insert(k, v)` on the entry sequence: replace in place
/// when the key is live, append otherwise.
pub open spec fn seq_insert<V>(s: Seq<(usize, V)>, k: usize, v: V) -> Seq<(usize, V)> {
    if has_key(s, k) {
        s.update(pos_of(s, k), (k, v))
    } else {
        s.push((k, v))
    }
}

/// The effect of `remove(k)` on the entry sequence: the last entry moves
/// into the removed position (swap-removal), and the sequence shortens by
/// one; absent keys change nothing.
pub open spec fn seq_remove<V>(s: Seq<(usize, V)>, k: usize) -> Seq<(usize, V)> {
    if has_key(s, k) {
        s.update(pos_of(s, k), s.last()).drop_last()
    } else {
        s
    }
}

/// Repeated `seq_insert` of every pair of `pairs`, in order.
pub open spec fn seq_insert_all<V>(s: Seq<(usize, V)>, pairs: Seq<(usize, V)>) -> Seq<(usize, V)>
    decreases pairs.len(),
{
    if pairs.len() == 0 {
        s
    } else {
        seq_insert(seq_insert_all(s, pairs.drop_last()), pairs.last().0, pairs.last().1)
    }
}

/// The subsequence of `s` whose positions are marked `true` in `keep`,
/// in the order of `s`.
pub open spec fn filter_by<V>(s: Seq<(usize, V)>, keep: Seq<bool>) -> Seq<(usize, V)>
    recommends
        keep.len() == s.len(),
    decreases s.len(),
{
    if s.len() == 0 {
        Seq::empty()
    } else {
        filter_by(s.drop_last(), keep.take(s.len() - 1)) + if s.len() - 1 < keep.len() && keep[s.len()
            - 1] {
            seq![s.last()]
        } else {
            Seq::empty()
        }
    }
}

/// The largest key occurring in a non-empty entry sequence.
pub open spec fn max_key<V>(s: Seq<(usize, V)>) -> usize
    recommends
        s.len() > 0,
    decreases s.len(),
{
    if s.len() <= 1 {
        s[0].0
    } else if s.last().0 >= max_key(s.drop_last()) {
        s.last().0
    } else {
        max_key(s.drop_last())
    }
}

/// The least index-array length addressing every live key: one past the
/// largest live key, or zero for an empty map.
pub open spec fn min_slots_len<V>(s: Seq<(usize, V)>) -> int {
    if s.len() == 0 {
        0
    } else {
        max_key(s) + 1
    }
}

/// When the keys of `s` are unique, an entry's position is pinned: any
/// position holding key `k` is `pos_of(s, k)`.
pub proof fn lemma_unique_pos<V>(s: Seq<(usize, V)>, k: usize, p: int)
    requires
        keys_unique(s),
        0 <= p < s.len(),
        s[p].0 == k,
    ensures
        has_key(s, k),
        pos_of(s, k) == p,
        value_of(s, k) == Some(s[p].1),
{
    assert(has_key(s, k));
    let q = pos_of(s, k);
    assert(0 <= q < s.len() && s[q].0 == k);
    if q != p {
        assert(s[p].0 != s[q].0);
    }
}

/// `max_key` is itself a live key, and bounds every live key.
pub proof fn lemma_max_key<V>(s: Seq<(usize, V)>)
    requires
        s.len() > 0,
    ensures
        has_key(s, max_key(s)),
        forall|p: int| 0 <= p < s.len() ==> (#[trigger] s[p]).0 <= max_key(s),
    decreases s.len(),
{
    if s.len() == 1 {
        assert(s[0].0 == max_key(s));
    } else {
        lemma_max_key(s.drop_last());
        let m = max_key(s);
        if s.last().0 >= max_key(s.drop_last()) {
            assert(s[s.len() - 1].0 == m);
        } else {
            let w = pos_of(s.drop_last(), max_key(s.drop_last()));
            assert(s.drop_last()[w] == s[w]);
            assert(s[w].0 == m);
        }
        assert forall|p: int| 0 <= p < s.len() implies (#[trigger] s[p]).0 <= m by {
            if p < s.len() - 1 {
                assert(s.drop_last()[p] == s[p]);
            }
        }
    }
}

} // verus!
