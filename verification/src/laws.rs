//! The laws of the map, stated over the entry-sequence model and proved
//! once and for all: how `insert`, `remove`, `retain` and
//! `shrink_to_fit` compose, for every input their contracts allow.

use vstd::prelude::*;

use crate::map::VecMap;
use crate::model::filter_by;
use crate::model::has_key;
use crate::model::keys_unique;
use crate::model::lemma_unique_pos;
use crate::model::min_slots_len;
use crate::model::pos_of;
use crate::model::seq_insert;
use crate::model::seq_insert_all;
use crate::model::seq_remove;
use crate::model::value_of;

verus! {

/// One mutation of the map, for reasoning about operation histories.
pub enum MapOp<V> {
    Insert(usize, V),
    Remove(usize),
}

/// The entry sequence reached by applying a history of operations, in
/// order, to the empty map.
pub open spec fn apply_ops<V>(ops: Seq<MapOp<V>>) -> Seq<(usize, V)>
    decreases ops.len(),
{
    if ops.len() == 0 {
        Seq::empty()
    } else {
        match ops.last() {
            MapOp::Insert(k, v) => seq_insert(apply_ops(ops.drop_last()), k, v),
            MapOp::Remove(k) => seq_remove(apply_ops(ops.drop_last()), k),
        }
    }
}

/// Whether `k` was inserted more recently than any removal of `k`.
pub open spec fn live_after<V>(ops: Seq<MapOp<V>>, k: usize) -> bool
    decreases ops.len(),
{
    if ops.len() == 0 {
        false
    } else {
        match ops.last() {
            MapOp::Insert(k2, _) => k2 == k || live_after(ops.drop_last(), k),
            MapOp::Remove(k2) => k2 != k && live_after(ops.drop_last(), k),
        }
    }
}

/// Inserting under `k` stores exactly `v` there and disturbs no other
/// key; keys stay unique. An already-present key keeps the entry count,
/// a fresh key grows it by exactly one.
pub proof fn lemma_insert_get<V>(s: Seq<(usize, V)>, k: usize, v: V)
    requires
        keys_unique(s),
    ensures
        keys_unique(seq_insert(s, k, v)),
        value_of(seq_insert(s, k, v), k) == Some(v),
        forall|k2: usize| k2 != k ==> value_of(seq_insert(s, k, v), k2) == value_of(s, k2),
        has_key(s, k) ==> seq_insert(s, k, v).len() == s.len(),
        !has_key(s, k) ==> seq_insert(s, k, v).len() == s.len() + 1,
{
    let t = seq_insert(s, k, v);
    if has_key(s, k) {
        let p = pos_of(s, k);
        assert(0 <= p < s.len() && s[p].0 == k);
        assert forall|q1: int, q2: int| 0 <= q1 < q2 < t.len() implies (#[trigger] t[q1]).0 != (
        #[trigger] t[q2]).0 by {
            assert(s[q1].0 != s[q2].0);
        }
        lemma_unique_pos(t, k, p);
        assert forall|k2: usize| k2 != k implies value_of(t, k2) == value_of(s, k2) by {
            lemma_same_keys_same_value(s, t, k2);
        }
    } else {
        assert forall|q: int| 0 <= q < s.len() implies (#[trigger] s[q]).0 != k by {
            if s[q].0 == k {
                assert(has_key(s, k));
            }
        }
        assert forall|q1: int, q2: int| 0 <= q1 < q2 < t.len() implies (#[trigger] t[q1]).0 != (
        #[trigger] t[q2]).0 by {
            if q2 < s.len() {
                assert(s[q1].0 != s[q2].0);
            }
        }
        lemma_unique_pos(t, k, s.len() as int);
        assert forall|k2: usize| k2 != k implies value_of(t, k2) == value_of(s, k2) by {
            if has_key(s, k2) {
                let p2 = pos_of(s, k2);
                lemma_unique_pos(t, k2, p2);
            } else {
                if has_key(t, k2) {
                    let q = pos_of(t, k2);
                    assert(0 <= q < t.len() && t[q].0 == k2);
                    assert(q < s.len());
                    assert(has_key(s, k2));
                }
            }
        }
    }
}

/// Removing `k` leaves it absent and disturbs no other key; keys stay
/// unique. A present key shrinks the entry count by exactly one, an
/// absent key changes nothing.
pub proof fn lemma_remove_get<V>(s: Seq<(usize, V)>, k: usize)
    requires
        keys_unique(s),
    ensures
        keys_unique(seq_remove(s, k)),
        value_of(seq_remove(s, k), k) == None::<V>,
        forall|k2: usize| k2 != k ==> value_of(seq_remove(s, k), k2) == value_of(s, k2),
        has_key(s, k) ==> seq_remove(s, k).len() == s.len() - 1,
        !has_key(s, k) ==> seq_remove(s, k) == s,
{
    let t = seq_remove(s, k);
    if has_key(s, k) {
        let p = pos_of(s, k);
        assert(0 <= p < s.len() && s[p].0 == k);
        assert forall|q1: int, q2: int| 0 <= q1 < q2 < t.len() implies (#[trigger] t[q1]).0 != (
        #[trigger] t[q2]).0 by {
            let u1: int = if q1 == p {
                s.len() - 1
            } else {
                q1
            };
            let u2: int = if q2 == p {
                s.len() - 1
            } else {
                q2
            };
            assert(t[q1] == s[u1] && t[q2] == s[u2]);
            assert(s[u1].0 != s[u2].0);
        }
        assert forall|q: int| 0 <= q < t.len() implies (#[trigger] t[q]).0 != k by {
            if q != p {
                assert(t[q] == s[q]);
                assert(s[q].0 != s[p].0);
            } else {
                assert(t[q] == s[s.len() - 1]);
                if p < s.len() - 1 {
                    assert(s[s.len() - 1].0 != s[p].0);
                }
            }
        }
        if has_key(t, k) {
            let q = pos_of(t, k);
            assert(0 <= q < t.len() && t[q].0 == k);
        }
        assert forall|k2: usize| k2 != k implies value_of(t, k2) == value_of(s, k2) by {
            if has_key(s, k2) {
                let p2 = pos_of(s, k2);
                assert(s[p2].0 == k2);
                assert(p2 != p);
                if p2 == s.len() - 1 {
                    if p < s.len() - 1 {
                        assert(t[p] == s[p2]);
                        lemma_unique_pos(t, k2, p);
                    }
                } else {
                    assert(t[p2] == s[p2]);
                    lemma_unique_pos(t, k2, p2);
                }
            } else {
                if has_key(t, k2) {
                    let q = pos_of(t, k2);
                    assert(0 <= q < t.len() && t[q].0 == k2);
                    let u: int = if q == p {
                        s.len() - 1
                    } else {
                        q
                    };
                    assert(t[q] == s[u]);
                    assert(has_key(s, k2));
                }
            }
        }
    }
}

/// Remove-reindex: removing a key whose dense position was not last
/// moves the entry that was last into the removed position, and every
/// other key keeps its value.
pub proof fn lemma_remove_reindex<V>(s: Seq<(usize, V)>, k: usize)
    requires
        keys_unique(s),
        has_key(s, k),
        pos_of(s, k) < s.len() - 1,
    ensures
        seq_remove(s, k).len() == s.len() - 1,
        seq_remove(s, k)[pos_of(s, k)] == s.last(),
        value_of(seq_remove(s, k), s.last().0) == Some(s.last().1),
        forall|k2: usize| k2 != k ==> value_of(seq_remove(s, k), k2) == value_of(s, k2),
{
    lemma_remove_get(s, k);
    let t = seq_remove(s, k);
    let p = pos_of(s, k);
    assert(t[p] == s.last());
    lemma_unique_pos(t, s.last().0, p);
}

/// Two sequences in which `k2` names the same entry give `k2` the same
/// value.
proof fn lemma_same_keys_same_value<V>(s: Seq<(usize, V)>, t: Seq<(usize, V)>, k2: usize)
    requires
        keys_unique(s),
        keys_unique(t),
        s.len() == t.len(),
        forall|q: int| 0 <= q < s.len() && (#[trigger] s[q]).0 == k2 ==> t[q] == s[q],
        forall|q: int| 0 <= q < t.len() && (#[trigger] t[q]).0 == k2 ==> t[q] == s[q],
    ensures
        value_of(t, k2) == value_of(s, k2),
{
    if has_key(s, k2) {
        let p = pos_of(s, k2);
        assert(0 <= p < s.len() && s[p].0 == k2);
        assert(t[p] == s[p]);
        lemma_unique_pos(t, k2, p);
    } else {
        if has_key(t, k2) {
            let q = pos_of(t, k2);
            assert(0 <= q < t.len() && t[q].0 == k2);
            assert(t[q] == s[q]);
            assert(has_key(s, k2));
        }
    }
}

/// Bijection: after any history of inserts and removes, a key is live
/// exactly when it was inserted more recently than any removal of it,
/// and the reached entry sequence never repeats a key.
pub proof fn lemma_bijection<V>(ops: Seq<MapOp<V>>, k: usize)
    ensures
        keys_unique(apply_ops(ops)),
        has_key(apply_ops(ops), k) <==> live_after(ops, k),
    decreases ops.len(),
{
    if ops.len() == 0 {
        assert(!has_key(apply_ops(ops), k));
    } else {
        let s0 = apply_ops(ops.drop_last());
        lemma_bijection(ops.drop_last(), k);
        match ops.last() {
            MapOp::Insert(k2, v) => {
                lemma_insert_get(s0, k2, v);
                if k2 == k {
                    assert(value_of(apply_ops(ops), k) == Some(v));
                } else {
                    assert(value_of(apply_ops(ops), k) == value_of(s0, k));
                    lemma_value_has_key(s0, k);
                    lemma_value_has_key(apply_ops(ops), k);
                }
            },
            MapOp::Remove(k2) => {
                lemma_remove_get(s0, k2);
                if k2 == k {
                    lemma_value_has_key(apply_ops(ops), k);
                } else {
                    assert(value_of(apply_ops(ops), k) == value_of(s0, k));
                    lemma_value_has_key(s0, k);
                    lemma_value_has_key(apply_ops(ops), k);
                }
            },
        }
    }
}

/// A key has a value exactly when it is present.
proof fn lemma_value_has_key<V>(s: Seq<(usize, V)>, k: usize)
    ensures
        has_key(s, k) <==> value_of(s, k) is Some,
{
}

/// Whether `a` occurs inside `b` as a subsequence: the entries of `a`,
/// in order, each matched to a later-and-later entry of `b`.
pub open spec fn is_subseq_of<V>(a: Seq<(usize, V)>, b: Seq<(usize, V)>) -> bool
    decreases a.len() + b.len(),
{
    if a.len() == 0 {
        true
    } else if b.len() == 0 {
        false
    } else {
        (a.last() == b.last() && is_subseq_of(a.drop_last(), b.drop_last())) || is_subseq_of(
            a,
            b.drop_last(),
        )
    }
}

/// Order preservation under `retain`: whatever entries a keep-mask
/// selects, the selection is a subsequence of the original entries, in
/// the original order.
pub proof fn lemma_filter_by_subseq<V>(s: Seq<(usize, V)>, keep: Seq<bool>)
    requires
        keep.len() == s.len(),
    ensures
        is_subseq_of(filter_by(s, keep), s),
    decreases s.len(),
{
    if s.len() > 0 {
        lemma_filter_by_subseq(s.drop_last(), keep.take(s.len() - 1));
        let a = filter_by(s, keep);
        if keep[s.len() - 1] {
            assert(a == filter_by(s.drop_last(), keep.take(s.len() - 1)) + seq![s.last()]);
            assert(a.last() == s.last());
            assert(a.drop_last() =~= filter_by(s.drop_last(), keep.take(s.len() - 1)));
        } else {
            assert(a == filter_by(s.drop_last(), keep.take(s.len() - 1)));
        }
    }
}

/// When the predicate's contract pins its result — the keep-mask agrees
/// pointwise with a predicate on the entries — the survivors are exactly
/// the entries satisfying the predicate, in their original order.
pub proof fn lemma_retain_exact<V>(
    s: Seq<(usize, V)>,
    keep: Seq<bool>,
    pred: spec_fn(usize, V) -> bool,
)
    requires
        keep.len() == s.len(),
        forall|i: int| 0 <= i < s.len() ==> keep[i] == pred((#[trigger] s[i]).0, s[i].1),
    ensures
        filter_by(s, keep) == s.filter(|e: (usize, V)| pred(e.0, e.1)),
    decreases s.len(),
{
    reveal(Seq::filter);
    if s.len() > 0 {
        lemma_retain_exact(s.drop_last(), keep.take(s.len() - 1), pred);
        let fb = filter_by(s.drop_last(), keep.take(s.len() - 1));
        if keep[s.len() - 1] {
            assert(fb + seq![s.last()] =~= fb.push(s.last()));
        } else {
            assert(fb + Seq::<(usize, V)>::empty() =~= fb);
        }
    }
}

/// Bulk insertion of pairwise-fresh keys appends them: inserting, in
/// order, a sequence of entries none of whose keys repeats or collides
/// with the target, concatenates it onto the target.
pub proof fn lemma_insert_all_fresh<V>(t: Seq<(usize, V)>, s: Seq<(usize, V)>)
    requires
        keys_unique(t + s),
    ensures
        seq_insert_all(t, s) == t + s,
    decreases s.len(),
{
    if s.len() == 0 {
        assert(t + s =~= t);
    } else {
        let front = s.drop_last();
        assert(t + front =~= (t + s).take(t.len() + s.len() - 1));
        assert forall|q1: int, q2: int| 0 <= q1 < q2 < (t + front).len() implies (#[trigger] (t
            + front)[q1]).0 != (#[trigger] (t + front)[q2]).0 by {
            assert((t + front)[q1] == (t + s)[q1] && (t + front)[q2] == (t + s)[q2]);
        }
        lemma_insert_all_fresh(t, front);
        let mid = t + front;
        let k = s.last().0;
        assert forall|q: int| 0 <= q < mid.len() implies (#[trigger] mid[q]).0 != k by {
            assert(mid[q] == (t + s)[q]);
            assert((t + s)[mid.len() as int].0 == k);
        }
        if has_key(mid, k) {
            let p = pos_of(mid, k);
            assert(0 <= p < mid.len() && mid[p].0 == k);
        }
        assert(seq_insert_all(t, s) == mid.push(s.last()));
        assert(mid.push(s.last()) =~= t + s);
    }
}

/// Round trip: draining a map and re-inserting every pair, in order,
/// rebuilds exactly the original entry sequence.
pub proof fn lemma_round_trip<V>(s: Seq<(usize, V)>)
    requires
        keys_unique(s),
    ensures
        seq_insert_all(Seq::empty(), s) == s,
{
    assert(Seq::<(usize, V)>::empty() + s =~= s);
    lemma_insert_all_fresh(Seq::empty(), s);
}

/// Idempotent shrink: a second `shrink_to_fit` changes nothing — the
/// entries are already equal and the index arrays coincide slot for
/// slot, so `len` and every `get` result are preserved.
pub proof fn lemma_shrink_idempotent<V>(m1: VecMap<V>, m2: VecMap<V>)
    requires
        m1.wf(),
        m2.wf(),
        m2@ == m1@,
        m1.slots().len() == min_slots_len(m1@),
        m2.slots().len() == min_slots_len(m2@),
    ensures
        m2@ == m1@,
        m2.slots() == m1.slots(),
{
    m1.lemma_slots_determined(m2);
}

} // verus!
