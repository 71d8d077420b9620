//! The storage engine: a dense array of live entries plus a sparse index
//! array, addressed directly by key, locating each key's dense position.

use vstd::prelude::*;

use crate::iter::IterMut;
use crate::iter::ValuesMut;
use crate::model::filter_by;
use crate::model::has_key;
use crate::model::keys_unique;
use crate::model::lemma_max_key;
use crate::model::lemma_unique_pos;
use crate::model::max_key;
use crate::model::min_slots_len;
use crate::model::pos_of;
use crate::model::seq_insert;
use crate::model::seq_insert_all;
use crate::model::seq_remove;
use crate::model::value_of;

verus! {

/// Relies on std's `Vec::shrink_to_fit`: it may reduce the spare
/// capacity and leaves the contents unchanged.
#[verifier::external_body]
fn vec_shrink_to_fit<T>(v: &mut Vec<T>)
    ensures
        final(v)@ == old(v)@,
{
    v.shrink_to_fit()
}

/// A map keyed by small non-negative integers.
///
/// `keys[k]` holds the position of key `k`'s entry in the dense array
/// `rows`, or `None` when `k` is absent. `rows` holds only live entries,
/// in insertion order (modulo swap-removal).
pub struct VecMap<V> {
    pub(crate) keys: Vec<Option<u32>>,
    pub(crate) rows: Vec<(usize, V)>,
}

impl<V> View for VecMap<V> {
    type V = Seq<(usize, V)>;

    /// The abstract state: the dense entry sequence.
    closed spec fn view(&self) -> Seq<(usize, V)> {
        self.rows@
    }
}

impl<V> VecMap<V> {
    /// The sparse index array, as a sequence of optional dense positions.
    pub closed spec fn slots(self) -> Seq<Option<u32>> {
        self.keys@
    }

    /// Well-formedness: the index array and the dense array form a
    /// bijection between live keys and dense positions, and every stored
    /// position fits in a `u32`.
    pub closed spec fn wf(self) -> bool {
        &&& forall|p: int|
            0 <= p < self.rows@.len() ==> {
                &&& (#[trigger] self.rows@[p]).0 < self.keys@.len()
                &&& self.keys@[self.rows@[p].0 as int] == Some(p as u32)
            }
        &&& forall|i: int|
            0 <= i < self.keys@.len() && (#[trigger] self.keys@[i]) is Some ==> {
                &&& (self.keys@[i]->0 as int) < self.rows@.len()
                &&& self.rows@[self.keys@[i]->0 as int].0 == i
            }
        &&& self.rows@.len() <= 0xFFFF_FFFF
    }

    /// The abstract state is the dense row storage itself.
    pub(crate) proof fn lemma_repr(self)
        ensures
            self@ == self.rows@,
    {
    }

    /// A well-formed map never stores the same key at two dense positions.
    pub proof fn lemma_wf_unique(self)
        requires
            self.wf(),
        ensures
            keys_unique(self@),
    {
        assert forall|p: int, q: int| 0 <= p < q < self@.len() implies (#[trigger] self@[p]).0 != (
        #[trigger] self@[q]).0 by {
            if self@[p].0 == self@[q].0 {
                assert(self.keys@[self@[p].0 as int] == Some(p as u32));
                assert(self.keys@[self@[q].0 as int] == Some(q as u32));
            }
        }
    }

    /// A live key of a well-formed map is indexed: its slot holds its
    /// dense position.
    pub(crate) proof fn lemma_key_indexed(self, k: usize)
        requires
            self.wf(),
            has_key(self@, k),
        ensures
            (k as int) < self.keys@.len(),
            self.keys@[k as int] == Some(pos_of(self@, k) as u32),
            0 <= pos_of(self@, k) < self@.len(),
            self@[pos_of(self@, k)].0 == k,
    {
        self.lemma_wf_unique();
        let p = choose|p: int| 0 <= p < self@.len() && (#[trigger] self@[p]).0 == k;
        lemma_unique_pos(self@, k, p);
    }

    /// Creates an empty map.
    pub fn new() -> (m: Self)
        ensures
            m.wf(),
            m@ == Seq::<(usize, V)>::empty(),
    {
        VecMap { keys: Vec::new(), rows: Vec::new() }
    }

    /// Creates an empty map with room for `capacity` entries preallocated
    /// in both backing arrays.
    pub fn with_capacity(capacity: usize) -> (m: Self)
        ensures
            m.wf(),
            m@ == Seq::<(usize, V)>::empty(),
    {
        VecMap { keys: Vec::with_capacity(capacity), rows: Vec::with_capacity(capacity) }
    }

    /// The number of live entries.
    pub fn len(&self) -> (n: usize)
        ensures
            n == self@.len(),
    {
        self.rows.len()
    }

    /// Whether the map holds no entries.
    pub fn is_empty(&self) -> (b: bool)
        ensures
            b == (self@.len() == 0),
    {
        self.rows.is_empty()
    }

    /// Removes all entries, keeping the allocated capacity.
    pub fn clear(&mut self)
        ensures
            final(self).wf(),
            final(self)@ == Seq::<(usize, V)>::empty(),
            final(self).slots() == Seq::<Option<u32>>::empty(),
    {
        self.keys.clear();
        self.rows.clear();
    }

    /// Whether `key` is live, without materializing its value.
    pub fn contains_key(&self, key: &usize) -> (b: bool)
        requires
            self.wf(),
        ensures
            b == has_key(self@, *key),
    {
        let k = *key;
        if k < self.keys.len() {
            let b = self.keys[k].is_some();
            proof {
                if b {
                    assert(self@[self.keys@[k as int]->0 as int].0 == k);
                }
                if has_key(self@, *key) {
                    self.lemma_key_indexed(k);
                }
            }
            b
        } else {
            proof {
                if has_key(self@, *key) {
                    self.lemma_key_indexed(k);
                }
            }
            false
        }
    }

    /// Borrows the value stored under `key`, or `None` when it is absent.
    pub fn get(&self, key: &usize) -> (r: Option<&V>)
        requires
            self.wf(),
        ensures
            match r {
                Some(v) => value_of(self@, *key) == Some(*v),
                None => !has_key(self@, *key),
            },
    {
        let k = *key;
        if k < self.keys.len() {
            match self.keys[k] {
                Some(p) => {
                    proof {
                        self.lemma_wf_unique();
                        lemma_unique_pos(self@, k, p as int);
                    }
                    Some(&self.rows[p as usize].1)
                },
                None => {
                    proof {
                        if has_key(self@, k) {
                            self.lemma_key_indexed(k);
                        }
                    }
                    None
                },
            }
        } else {
            proof {
                if has_key(self@, k) {
                    self.lemma_key_indexed(k);
                }
            }
            None
        }
    }

    /// Inserts `value` under `key`. Replaces and returns the previous
    /// value when the key is live; appends a fresh entry and returns
    /// `None` otherwise. The index array grows as needed to address `key`.
    pub fn insert(&mut self, key: usize, value: V) -> (r: Option<V>)
        requires
            old(self).wf(),
            key < usize::MAX,
            old(self)@.len() < 0xFFFF_FFFF || has_key(old(self)@, key),
        ensures
            final(self).wf(),
            r == value_of(old(self)@, key),
            final(self)@ == seq_insert(old(self)@, key, value),
    {
        let ghost m0 = *self;
        proof {
            m0.lemma_wf_unique();
        }
        if key >= self.keys.len() {
            let mut i = self.keys.len();
            while i <= key
                invariant
                    self.rows@ == m0.rows@,
                    self.keys@.len() == i,
                    m0.keys@.len() <= i <= key + 1,
                    key < usize::MAX,
                    forall|j: int| 0 <= j < m0.keys@.len() ==> self.keys@[j] == m0.keys@[j],
                    forall|j: int| m0.keys@.len() <= j < i ==> self.keys@[j] is None,
                decreases key + 1 - i,
            {
                self.keys.push(None);
                i = i + 1;
            }
        }
        proof {
            assert(key < self.keys@.len());
            assert(self.rows@ == m0.rows@);
            assert(forall|j: int|
                0 <= j < self.keys@.len() ==> #[trigger] self.keys@[j] == (if j < m0.keys@.len() {
                    m0.keys@[j]
                } else {
                    Option::<u32>::None
                }));
        }
        match self.keys[key] {
            Some(p) => {
                proof {
                    assert(m0.keys@[key as int] == Some(p));
                    assert(m0.rows@[p as int].0 == key);
                    lemma_unique_pos(m0@, key, p as int);
                }
                let row = &mut self.rows[p as usize];
                let mut v = value;
                core::mem::swap(&mut row.1, &mut v);
                proof {
                    assert(self.keys@ =~= m0.keys@);
                    assert(self.rows@ =~= m0.rows@.update(p as int, (key, value)));
                    assert forall|q: int|
                        0 <= q < self.rows@.len() implies {
                        &&& (#[trigger] self.rows@[q]).0 < self.keys@.len()
                        &&& self.keys@[self.rows@[q].0 as int] == Some(q as u32)
                    } by {
                        assert(self.rows@[q].0 == m0.rows@[q].0);
                    }
                    assert(self.wf());
                    assert(self@ == seq_insert(m0@, key, value));
                }
                Some(v)
            },
            None => {
                proof {
                    if has_key(m0@, key) {
                        m0.lemma_key_indexed(key);
                    }
                }
                let n = self.rows.len();
                self.keys[key] = Some(n as u32);
                self.rows.push((key, value));
                proof {
                    assert(self.rows@ =~= m0.rows@.push((key, value)));
                    assert forall|q: int|
                        0 <= q < self.rows@.len() implies {
                        &&& (#[trigger] self.rows@[q]).0 < self.keys@.len()
                        &&& self.keys@[self.rows@[q].0 as int] == Some(q as u32)
                    } by {
                        if q < m0.rows@.len() {
                            assert(self.rows@[q] == m0.rows@[q]);
                            if m0.rows@[q].0 == key {
                                assert(has_key(m0@, key));
                            }
                        }
                    }
                    assert forall|i: int|
                        0 <= i < self.keys@.len() && (#[trigger] self.keys@[i]) is Some implies {
                        &&& (self.keys@[i]->0 as int) < self.rows@.len()
                        &&& self.rows@[self.keys@[i]->0 as int].0 == i
                    } by {
                        if i != key {
                            assert(i < m0.keys@.len() && m0.keys@[i] is Some);
                            assert(self.rows@[m0.keys@[i]->0 as int] == m0.rows@[m0.keys@[i]
                                -> 0 as int]);
                        }
                    }
                    assert(self.wf());
                    assert(self@ == seq_insert(m0@, key, value));
                }
                None
            },
        }
    }

    /// Removes `key`'s entry and returns its value, or `None` when the
    /// key is absent. When the removed entry was not last in the dense
    /// array, the last entry moves into its position and that entry's
    /// index slot is repaired to the new position.
    pub fn remove(&mut self, key: &usize) -> (r: Option<V>)
        requires
            old(self).wf(),
        ensures
            final(self).wf(),
            r == value_of(old(self)@, *key),
            final(self)@ == seq_remove(old(self)@, *key),
    {
        let ghost m0 = *self;
        proof {
            m0.lemma_wf_unique();
            if has_key(m0@, *key) {
                m0.lemma_key_indexed(*key);
            }
        }
        let k = *key;
        if k >= self.keys.len() {
            return None;
        }
        match self.keys[k] {
            Some(p32) => {
                proof {
                    lemma_unique_pos(m0@, k, p32 as int);
                }
                let p = p32 as usize;
                self.keys[k] = None;
                let last = self.rows.len() - 1;
                if p != last {
                    let moved_key = self.rows[last].0;
                    proof {
                        assert(m0.keys@[moved_key as int] == Some(last as u32));
                        assert(moved_key != k) by {
                            if moved_key == k {
                                assert(m0@[last as int].0 == m0@[p as int].0);
                            }
                        }
                    }
                    self.keys[moved_key] = Some(p32);
                }
                let pair = self.rows.swap_remove(p);
                proof {
                    let s1 = m0@.update(p as int, m0@.last()).drop_last();
                    assert(final(self)@ =~= s1);
                    assert forall|q: int|
                        0 <= q < final(self).rows@.len() implies {
                        &&& (#[trigger] final(self).rows@[q]).0 < final(self).keys@.len()
                        &&& final(self).keys@[final(self).rows@[q].0 as int] == Some(q as u32)
                    } by {
                        if q != p {
                            assert(final(self).rows@[q] == m0@[q]);
                            assert(m0@[q].0 != k);
                        }
                    }
                    assert forall|i: int|
                        0 <= i < final(self).keys@.len() && (#[trigger] final(self).keys@[i])
                            is Some implies {
                        &&& (final(self).keys@[i]->0 as int) < final(self).rows@.len()
                        &&& final(self).rows@[final(self).keys@[i]->0 as int].0 == i
                    } by {
                        if i != k {
                            assert(m0.keys@[i] == final(self).keys@[i] || i == m0@.last().0);
                        }
                    }
                }
                Some(pair.1)
            },
            None => {
                proof {
                    if has_key(m0@, k) {
                        m0.lemma_key_indexed(k);
                    }
                }
                None
            },
        }
    }

    /// Mutably borrows the value stored under `key`, or `None` when it
    /// is absent. Only that entry's value can change through the result.
    pub fn get_mut(&mut self, key: &usize) -> (r: Option<&mut V>)
        requires
            old(self).wf(),
        ensures
            has_key(old(self)@, *key) ==> (r matches Some(v) && Some(*v) == value_of(
                old(self)@,
                *key,
            ) && final(self)@ == old(self)@.update(
                pos_of(old(self)@, *key),
                (*key, *final(v)),
            ) && final(self).wf()),
            !has_key(old(self)@, *key) ==> r is None && final(self)@ == old(self)@
                && final(self).wf(),
    {
        let ghost m0 = *self;
        let k = *key;
        if k < self.keys.len() {
            match self.keys[k] {
                Some(p) => {
                    proof {
                        m0.lemma_wf_unique();
                        lemma_unique_pos(m0@, k, p as int);
                    }
                    let row = &mut self.rows[p as usize];
                    Some(&mut row.1)
                },
                None => {
                    proof {
                        if has_key(m0@, k) {
                            m0.lemma_key_indexed(k);
                        }
                    }
                    None
                },
            }
        } else {
            proof {
                if has_key(m0@, k) {
                    m0.lemma_key_indexed(k);
                }
            }
            None
        }
    }

    /// Keeps exactly the entries the predicate accepts, visiting every
    /// live entry once in dense order and preserving the relative order
    /// of the survivors.
    pub fn retain<F: Fn(&usize, &V) -> bool>(&mut self, f: F)
        requires
            old(self).wf(),
            forall|k: &usize, v: &V| #[trigger] call_requires(f, (k, v)),
        ensures
            final(self).wf(),
            exists|keep: Seq<bool>|
                {
                    &&& keep.len() == old(self)@.len()
                    &&& final(self)@ == filter_by(old(self)@, keep)
                    &&& forall|i: int|
                        0 <= i < keep.len() ==> call_ensures(
                            f,
                            (&old(self)@[i].0, &old(self)@[i].1),
                            keep[i],
                        )
                },
    {
        let ghost m0 = *self;
        proof {
            m0.lemma_wf_unique();
            vstd::std_specs::vec::axiom_spec_len(&self.keys);
        }
        let mut src: Vec<(usize, V)> = Vec::new();
        core::mem::swap(&mut self.rows, &mut src);
        let mut kept: Vec<(usize, V)> = Vec::new();
        let ghost orig = src@;
        let ghost mut keep: Seq<bool> = Seq::empty();
        let mut i: usize = 0;
        while src.len() > 0
            invariant
                forall|k: &usize, v: &V| #[trigger] call_requires(f, (k, v)),
                i + src@.len() == orig.len(),
                src@ == orig.subrange(i as int, orig.len() as int),
                keep.len() == i,
                kept@ == filter_by(orig.subrange(0, i as int), keep),
                kept@.len() <= i,
                forall|j: int|
                    0 <= j < i ==> call_ensures(f, (&orig[j].0, &orig[j].1), #[trigger] keep[j]),
                self.keys@.len() == m0.keys@.len(),
                self.keys@.len() <= usize::MAX,
                self.rows@.len() == 0,
                forall|q: int|
                    0 <= q < kept@.len() ==> (#[trigger] kept@[q]).0 < self.keys@.len()
                        && self.keys@[kept@[q].0 as int] == Some(q as u32),
                forall|idx: usize|
                    idx < self.keys@.len() && !has_key(kept@, idx) && !has_key(src@, idx) ==> (
                    #[trigger] self.keys@[idx as int]) is None,
                forall|q: int|
                    0 <= q < src@.len() ==> (#[trigger] src@[q]).0 < self.keys@.len()
                        && self.keys@[src@[q].0 as int] == Some((i + q) as u32),
                keys_unique(orig),
                orig == m0@,
                m0.wf(),
            decreases src@.len(),
        {
            let ghost keys_before = self.keys@;
            let ghost src_before = src@;
            let ghost kept_before = kept@;
            let ghost keep_before = keep;
            let t = src.remove(0);
            proof {
                assert(t == orig[i as int]);
                assert(src@ =~= orig.subrange(i + 1, orig.len() as int));
            }
            let b = f(&t.0, &t.1);
            if b {
                let n = kept.len();
                self.keys[t.0] = Some(n as u32);
                kept.push(t);
            } else {
                self.keys[t.0] = None;
            }
            proof {
                keep = keep.push(b);
                // `t` came from position `i` of `orig`; every other key
                // in `kept` or in the remainder of `src` differs from it.
                assert forall|q: int| 0 <= q < kept_before.len() implies (#[trigger] kept_before[q]).0
                    != t.0 by {
                    if kept_before[q].0 == t.0 {
                        assert(keys_before[kept_before[q].0 as int] == Some(q as u32));
                        assert(keys_before[t.0 as int] == Some((i as int) as u32));
                        assert(q < i);
                    }
                }
                assert forall|q: int| 0 <= q < src@.len() implies (#[trigger] src@[q]).0 != t.0 by {
                    assert(src@[q] == orig[i + 1 + q]);
                }
                assert(orig.subrange(0, i + 1).drop_last() =~= orig.subrange(0, i as int));
                assert(keep.take(i as int) =~= keep_before);
                assert(orig.subrange(0, i + 1).last() == orig[i as int]);
                if b {
                    assert(kept@ =~= filter_by(orig.subrange(0, i as int), keep_before)
                        + seq![orig[i as int]]);
                }
                assert(kept@ == filter_by(orig.subrange(0, i + 1), keep));
                assert forall|idx: usize|
                    idx < self.keys@.len() && !has_key(kept@, idx) && !has_key(src@, idx) implies (
                #[trigger] self.keys@[idx as int]) is None by {
                    if idx == t.0 {
                        if b {
                            assert(kept@[kept@.len() - 1] == t);
                            assert(has_key(kept@, idx));
                        } else {
                            assert(self.keys@[idx as int] is None);
                        }
                    } else {
                        assert(self.keys@[idx as int] == keys_before[idx as int]);
                        if has_key(kept_before, idx) {
                            let w = pos_of(kept_before, idx);
                            assert(kept@[w] == kept_before[w]);
                            assert(has_key(kept@, idx));
                        }
                        if has_key(src_before, idx) {
                            let w = pos_of(src_before, idx);
                            assert(src_before[w].0 == idx);
                            assert(w != 0);
                            assert(src@[w - 1] == src_before[w]);
                            assert(has_key(src@, idx));
                        }
                    }
                }
            }
            i = i + 1;
        }
        proof {
            assert(orig.subrange(0, i as int) =~= orig);
        }
        self.rows = kept;
        proof {
            assert forall|idx: int|
                0 <= idx < self.keys@.len() && (#[trigger] self.keys@[idx]) is Some implies {
                &&& (self.keys@[idx]->0 as int) < self.rows@.len()
                &&& self.rows@[self.keys@[idx]->0 as int].0 == idx
            } by {
                let u = idx as usize;
                assert(u as int == idx);
                if !has_key(self.rows@, u) {
                    assert(!has_key(src@, u));
                } else {
                    let w = pos_of(self.rows@, u);
                    assert(self.rows@[w].0 == u);
                    assert(self.keys@[idx] == Some(w as u32));
                }
            }
            assert(self.wf());
            assert(final(self)@ == filter_by(m0@, keep));
        }
    }

    /// Drops the trailing vacant slots of the index array beyond the
    /// highest live key and releases excess capacity from both backing
    /// arrays. No key's reachability changes.
    pub fn shrink_to_fit(&mut self)
        requires
            old(self).wf(),
        ensures
            final(self).wf(),
            final(self)@ == old(self)@,
            final(self).slots().len() == min_slots_len(old(self)@),
    {
        let ghost m0 = *self;
        let mut h = self.keys.len();
        while h > 0 && self.keys[h - 1].is_none()
            invariant
                *self == m0,
                m0.wf(),
                h <= self.keys@.len(),
                forall|j: int| h <= j < self.keys@.len() ==> (#[trigger] self.keys@[j]) is None,
            decreases h,
        {
            h = h - 1;
        }
        proof {
            if h == 0 {
                assert(self.rows@.len() == 0) by {
                    if self.rows@.len() > 0 {
                        assert(self.keys@[self.rows@[0].0 as int] == Some(0 as u32));
                    }
                }
            } else {
                assert(self.keys@[h - 1] is Some);
                let p = self.keys@[h - 1]->0 as int;
                assert(self.rows@[p].0 == h - 1);
                lemma_max_key(self.rows@);
                let m = max_key(self.rows@);
                assert(m >= h - 1);
                let w = pos_of(self.rows@, m);
                assert(self.rows@[w].0 == m);
                assert(self.keys@[m as int] == Some(w as u32));
                assert(m < h);
                assert(h == min_slots_len(m0@));
            }
        }
        self.keys.truncate(h);
        vec_shrink_to_fit(&mut self.keys);
        vec_shrink_to_fit(&mut self.rows);
        proof {
            if m0@.len() > 0 {
                lemma_max_key(m0@);
            }
            assert(self.wf());
        }
    }

    /// Inserts every pair of `pairs` in order: repeated `insert`, so a
    /// later pair with a duplicate key replaces the earlier value.
    pub fn extend(&mut self, pairs: Vec<(usize, V)>)
        requires
            old(self).wf(),
            old(self)@.len() + pairs@.len() < 0xFFFF_FFFF,
            forall|i: int| 0 <= i < pairs@.len() ==> (#[trigger] pairs@[i]).0 < usize::MAX,
        ensures
            final(self).wf(),
            final(self)@ == seq_insert_all(old(self)@, pairs@),
    {
        let ghost m0 = *self;
        let ghost all = pairs@;
        let mut pairs = pairs;
        let mut i: usize = 0;
        while pairs.len() > 0
            invariant
                self.wf(),
                i + pairs@.len() == all.len(),
                pairs@ == all.subrange(i as int, all.len() as int),
                self@ == seq_insert_all(m0@, all.subrange(0, i as int)),
                self@.len() <= m0@.len() + i,
                m0@.len() + all.len() < 0xFFFF_FFFF,
                forall|j: int| 0 <= j < all.len() ==> (#[trigger] all[j]).0 < usize::MAX,
            decreases pairs@.len(),
        {
            let kv = pairs.remove(0);
            proof {
                assert(kv == all[i as int]);
                assert(pairs@ =~= all.subrange(i + 1, all.len() as int));
            }
            let ghost before = self@;
            self.insert(kv.0, kv.1);
            proof {
                assert(all.subrange(0, i + 1).drop_last() =~= all.subrange(0, i as int));
                assert(all.subrange(0, i + 1).last() == all[i as int]);
                assert(self@ == seq_insert_all(m0@, all.subrange(0, i + 1)));
            }
            i = i + 1;
        }
        proof {
            assert(all.subrange(0, i as int) =~= all);
        }
    }

    /// Builds a map from a sequence of `(key, value)` pairs: bulk load
    /// with the same replace-on-duplicate-key semantics as `insert`.
    pub fn from_iter(pairs: Vec<(usize, V)>) -> (m: Self)
        requires
            pairs@.len() < 0xFFFF_FFFF,
            forall|i: int| 0 <= i < pairs@.len() ==> (#[trigger] pairs@[i]).0 < usize::MAX,
        ensures
            m.wf(),
            m@ == seq_insert_all(Seq::empty(), pairs@),
    {
        let mut m = Self::with_capacity(pairs.len());
        m.extend(pairs);
        m
    }

    /// A fresh mutating iterator over `(key, &mut value)` pairs in dense
    /// order. The index array is untouched; the iterator's own contract
    /// only lets values change, so `lemma_wf_same_keys` recovers
    /// well-formedness once the iteration's effect is known.
    pub fn iter_mut<'a>(&'a mut self) -> (it: IterMut<'a, V>)
        requires
            old(self).wf(),
        ensures
            it.rem@ == old(self)@,
            final(self)@ == final(it.rem)@,
            final(self).slots() == old(self).slots(),
    {
        proof {
            self.lemma_repr();
        }
        IterMut { rem: self.rows.as_mut_slice() }
    }

    /// A fresh mutating iterator over the live values in dense order,
    /// under the same regime as `iter_mut`.
    pub fn values_mut<'a>(&'a mut self) -> (it: ValuesMut<'a, V>)
        requires
            old(self).wf(),
        ensures
            it.rem@ == old(self)@,
            final(self)@ == final(it.rem)@,
            final(self).slots() == old(self).slots(),
    {
        proof {
            self.lemma_repr();
        }
        ValuesMut { rem: self.rows.as_mut_slice() }
    }

    /// A well-formed map stays well-formed when only its values change:
    /// a map with the same index array whose entries hold the same keys
    /// at the same positions is well-formed too.
    pub proof fn lemma_wf_same_keys(self, other: Self)
        requires
            self.wf(),
            other.slots() == self.slots(),
            other@.len() == self@.len(),
            forall|p: int| 0 <= p < self@.len() ==> (#[trigger] other@[p]).0 == self@[p].0,
        ensures
            other.wf(),
    {
        assert forall|p: int|
            0 <= p < other.rows@.len() implies {
            &&& (#[trigger] other.rows@[p]).0 < other.keys@.len()
            &&& other.keys@[other.rows@[p].0 as int] == Some(p as u32)
        } by {
            assert(other.rows@[p].0 == self.rows@[p].0);
        }
        assert forall|i: int|
            0 <= i < other.keys@.len() && (#[trigger] other.keys@[i]) is Some implies {
            &&& (other.keys@[i]->0 as int) < other.rows@.len()
            &&& other.rows@[other.keys@[i]->0 as int].0 == i
        } by {
            assert(self.keys@[i] is Some);
            assert(other.rows@[self.keys@[i]->0 as int].0 == self.rows@[self.keys@[i]->0 as int].0);
        }
    }

    /// Two well-formed maps holding the same entries, with index arrays
    /// of the same length, have identical index arrays: well-formedness
    /// determines every slot from the entries.
    pub proof fn lemma_slots_determined(self, other: Self)
        requires
            self.wf(),
            other.wf(),
            self@ == other@,
            self.slots().len() == other.slots().len(),
        ensures
            self.slots() == other.slots(),
    {
        assert forall|i: int| 0 <= i < self.keys@.len() implies self.keys@[i] == other.keys@[i] by {
            if self.keys@[i] is Some {
                let p = self.keys@[i]->0 as int;
                assert(self.rows@[p].0 == i);
                assert(other.keys@[other.rows@[p].0 as int] == Some(p as u32));
            }
            if other.keys@[i] is Some {
                let q = other.keys@[i]->0 as int;
                assert(other.rows@[q].0 == i);
                assert(self.keys@[self.rows@[q].0 as int] == Some(q as u32));
            }
        }
        assert(self.slots() =~= other.slots());
    }
}

impl<V: Clone> Clone for VecMap<V> {
    /// A copy holding the same keys at the same dense positions, with
    /// the same index array, each value cloned.
    fn clone(&self) -> (r: Self)
        ensures
            r.slots() == self.slots(),
            r@.len() == self@.len(),
            forall|p: int|
                0 <= p < self@.len() ==> (#[trigger] r@[p]).0 == self@[p].0 && vstd::pervasive::cloned::<
                    V,
                >(self@[p].1, r@[p].1),
            self.wf() ==> r.wf(),
    {
        let mut keys: Vec<Option<u32>> = Vec::with_capacity(self.keys.len());
        let mut i: usize = 0;
        while i < self.keys.len()
            invariant
                i <= self.keys@.len(),
                keys@.len() == i,
                forall|j: int| 0 <= j < i ==> keys@[j] == self.keys@[j],
            decreases self.keys@.len() - i,
        {
            keys.push(self.keys[i]);
            i = i + 1;
        }
        let mut rows: Vec<(usize, V)> = Vec::with_capacity(self.rows.len());
        let mut p: usize = 0;
        while p < self.rows.len()
            invariant
                p <= self.rows@.len(),
                rows@.len() == p,
                forall|j: int|
                    0 <= j < p ==> (#[trigger] rows@[j]).0 == self.rows@[j].0
                        && vstd::pervasive::cloned::<V>(self.rows@[j].1, rows@[j].1),
            decreases self.rows@.len() - p,
        {
            let e = &self.rows[p];
            rows.push((e.0, e.1.clone()));
            p = p + 1;
        }
        let m = VecMap { keys, rows };
        proof {
            assert(m.slots() =~= self.slots());
            if self.wf() {
                self.lemma_wf_same_keys(m);
            }
        }
        m
    }
}

impl<V: vstd::std_specs::cmp::PartialEqSpec> PartialEq for VecMap<V> {
    /// Two maps are equal exactly when their dense entry sequences are
    /// equal element-wise; the index arrays need not match.
    fn eq(&self, other: &Self) -> (r: bool) {
        if self.rows.len() != other.rows.len() {
            return false;
        }
        let mut i: usize = 0;
        while i < self.rows.len()
            invariant
                i <= self.rows@.len(),
                self.rows@.len() == other.rows@.len(),
                V::obeys_eq_spec() ==> forall|j: int| #![auto]
                    0 <= j < i ==> self.rows@[j].0 == other.rows@[j].0
                        && self.rows@[j].1.eq_spec(&other.rows@[j].1),
            decreases self.rows@.len() - i,
        {
            let a = &self.rows[i];
            let b = &other.rows[i];
            if a.0 != b.0 {
                return false;
            }
            if !(a.1 == b.1) {
                return false;
            }
            i = i + 1;
        }
        true
    }
}

impl<V: vstd::std_specs::cmp::PartialEqSpec> vstd::std_specs::cmp::PartialEqSpecImpl for VecMap<V> {
    open spec fn obeys_eq_spec() -> bool {
        V::obeys_eq_spec()
    }

    open spec fn eq_spec(&self, other: &Self) -> bool {
        &&& self@.len() == other@.len()
        &&& forall|j: int| #![auto]
            0 <= j < self@.len() ==> self@[j].0 == other@[j].0 && self@[j].1.eq_spec(
                &other@[j].1,
            )
    }
}

impl<V> Default for VecMap<V> {
    /// An empty map.
    fn default() -> (m: Self)
        ensures
            m.wf(),
            m@ == Seq::<(usize, V)>::empty(),
    {
        VecMap::new()
    }
}

} // verus!
