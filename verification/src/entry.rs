//! The entry API: a cursor capturing whether a key is live, so that one
//! terminal operation completes an insert-or-update without looking the
//! key up a second time.

use vstd::pervasive::unreached;
use vstd::prelude::*;

use crate::map::VecMap;
use crate::model::has_key;
use crate::model::lemma_unique_pos;
use crate::model::pos_of;
use crate::model::seq_insert;
use crate::model::seq_remove;
use crate::model::value_of;

verus! {

/// A view into a single entry of a map, occupied or vacant, obtained
/// from [`VecMap::entry`].
pub enum Entry<'a, V> {
    Occupied(OccupiedEntry<'a, V>),
    Vacant(VacantEntry<'a, V>),
}

/// A view into an entry whose key is live. While it exists, it borrows
/// the map exclusively, so the key stays live.
pub struct OccupiedEntry<'a, V> {
    pub key: usize,
    pub vec: &'a mut VecMap<V>,
}

/// A view into an entry whose key is vacant, carrying the key for a
/// later insertion.
pub struct VacantEntry<'a, V> {
    pub key: usize,
    pub vec: &'a mut VecMap<V>,
}

impl<'a, V> OccupiedEntry<'a, V> {
    /// Validity: the map is well-formed and the key is live in it.
    pub open spec fn wf(self) -> bool {
        &&& (*self.vec).wf()
        &&& has_key((*self.vec)@, self.key)
    }

    /// Borrows the entry's value.
    pub fn get(&self) -> (r: &V)
        requires
            self.wf(),
        ensures
            value_of((*old(self.vec))@, self.key) == Some(*r),
    {
        match self.vec.get(&self.key) {
            Some(v) => v,
            None => unreached(),
        }
    }

    /// Mutably borrows the entry's value for the duration of this
    /// borrow of the entry.
    pub fn get_mut(&mut self) -> (r: &mut V)
        requires
            old(self).wf(),
        ensures
            value_of((*old(self).vec)@, old(self).key) == Some(*r),
            final(self).key == old(self).key,
            (*final(self).vec)@ == (*old(self).vec)@.update(
                pos_of((*old(self).vec)@, old(self).key),
                (old(self).key, *final(r)),
            ),
            (*final(self).vec).wf(),
            *final(final(self).vec) == *final(old(self).vec),
    {
        match self.vec.get_mut(&self.key) {
            Some(v) => v,
            None => unreached(),
        }
    }

    /// Replaces the entry's value, returning the previous one.
    pub fn insert(&mut self, value: V) -> (r: V)
        requires
            old(self).wf(),
        ensures
            value_of((*old(self).vec)@, old(self).key) == Some(r),
            final(self).key == old(self).key,
            (*final(self).vec).wf(),
            (*final(self).vec)@ == seq_insert((*old(self).vec)@, old(self).key, value),
            *final(final(self).vec) == *final(old(self).vec),
    {
        proof {
            (*self.vec).lemma_key_indexed(self.key);
            vstd::std_specs::vec::axiom_spec_len(&self.vec.keys);
        }
        match self.vec.insert(self.key, value) {
            Some(v) => v,
            None => unreached(),
        }
    }

    /// Converts the entry into a mutable borrow of its value with the
    /// map's own borrow lifetime.
    pub fn into_mut(self) -> (r: &'a mut V)
        requires
            self.wf(),
        ensures
            value_of((*old(self.vec))@, self.key) == Some(*r),
            (*final(self.vec))@ == (*old(self.vec))@.update(
                pos_of((*old(self.vec))@, self.key),
                (self.key, *final(r)),
            ),
            (*final(self.vec)).wf(),
    {
        let key = self.key;
        let vec = self.vec;
        match vec.get_mut(&key) {
            Some(v) => v,
            None => unreached(),
        }
    }

    /// The key this entry was opened for.
    pub fn key(&self) -> (r: &usize)
        ensures
            *r == self.key,
    {
        &self.key
    }

    /// Removes the entry and returns its value.
    pub fn remove(self) -> (r: V)
        requires
            self.wf(),
        ensures
            value_of((*old(self.vec))@, self.key) == Some(r),
            (*final(self.vec)).wf(),
            (*final(self.vec))@ == seq_remove((*old(self.vec))@, self.key),
    {
        let key = self.key;
        let vec = self.vec;
        match vec.remove(&key) {
            Some(v) => v,
            None => unreached(),
        }
    }

    /// Removes the entry and returns the key together with the value.
    pub fn remove_entry(self) -> (r: (usize, V))
        requires
            self.wf(),
        ensures
            r.0 == self.key,
            value_of((*old(self.vec))@, self.key) == Some(r.1),
            (*final(self.vec)).wf(),
            (*final(self.vec))@ == seq_remove((*old(self.vec))@, self.key),
    {
        let key = self.key;
        let vec = self.vec;
        match vec.remove(&key) {
            Some(v) => (key, v),
            None => unreached(),
        }
    }
}

impl<'a, V> VacantEntry<'a, V> {
    /// Validity: the map is well-formed and the key is vacant in it.
    pub open spec fn wf(self) -> bool {
        &&& (*self.vec).wf()
        &&& !has_key((*self.vec)@, self.key)
    }

    /// The key this entry was opened for.
    pub fn key(&self) -> (r: &usize)
        ensures
            *r == self.key,
    {
        &self.key
    }

    /// Consumes the entry, returning its key.
    pub fn into_key(self) -> (r: usize)
        ensures
            r == self.key,
    {
        self.key
    }

    /// Inserts `value` under the entry's key and mutably borrows the
    /// freshly stored value with the map's own borrow lifetime.
    pub fn insert(self, value: V) -> (r: &'a mut V)
        requires
            self.wf(),
            self.key < usize::MAX,
            (*self.vec)@.len() < 0xFFFF_FFFF,
        ensures
            *r == value,
            (*final(self.vec)).wf(),
            (*final(self.vec))@ == (*old(self.vec))@.push((self.key, *final(r))),
    {
        let key = self.key;
        let vec = self.vec;
        let ghost orig = (*vec)@;
        let prev = vec.insert(key, value);
        proof {
            (*vec).lemma_wf_unique();
            lemma_unique_pos((*vec)@, key, (*vec)@.len() - 1);
        }
        let ghost mid = (*vec)@;
        match vec.get_mut(&key) {
            Some(v) => {
                proof {
                    assert(mid.update(mid.len() - 1, (key, *final(v))) =~= orig.push(
                        (key, *final(v)),
                    ));
                }
                v
            },
            None => unreached(),
        }
    }
}

impl<'a, V> Entry<'a, V> {
    /// The key this entry was opened for.
    pub open spec fn spec_key(self) -> usize {
        match self {
            Entry::Occupied(o) => o.key,
            Entry::Vacant(v) => v.key,
        }
    }

    /// The borrowed map as it stands now.
    pub open spec fn map_now(self) -> VecMap<V> {
        match self {
            Entry::Occupied(o) => *o.vec,
            Entry::Vacant(v) => *v.vec,
        }
    }

    /// Validity: the variant matches whether the key is live.
    pub open spec fn wf(self) -> bool {
        match self {
            Entry::Occupied(o) => o.wf(),
            Entry::Vacant(v) => v.wf(),
        }
    }

    /// Ensures a value is in the entry, inserting `default` if the key
    /// was vacant, and mutably borrows the value.
    pub fn or_insert(self, default: V) -> (r: &'a mut V)
        requires
            self.wf(),
            self is Vacant ==> self.spec_key() < usize::MAX && self.map_now()@.len()
                < 0xFFFF_FFFF,
        ensures
            *r == match value_of(self.map_now()@, self.spec_key()) {
                Some(v) => v,
                None => default,
            },
            match self {
                Entry::Occupied(o) => (*final(o.vec)).wf() && (*final(o.vec))@ == seq_insert(
                    self.map_now()@,
                    self.spec_key(),
                    *final(r),
                ),
                Entry::Vacant(v) => (*final(v.vec)).wf() && (*final(v.vec))@ == seq_insert(
                    self.map_now()@,
                    self.spec_key(),
                    *final(r),
                ),
            },
    {
        match self {
            Entry::Occupied(o) => o.into_mut(),
            Entry::Vacant(v) => v.insert(default),
        }
    }

    /// Ensures a value is in the entry, inserting the result of
    /// `default` if the key was vacant, and mutably borrows the value.
    pub fn or_insert_with<F: FnOnce() -> V>(self, default: F) -> (r: &'a mut V)
        requires
            self.wf(),
            self is Vacant ==> self.spec_key() < usize::MAX && self.map_now()@.len()
                < 0xFFFF_FFFF && call_requires(default, ()),
        ensures
            self is Occupied ==> Some(*r) == value_of(self.map_now()@, self.spec_key()),
            self is Vacant ==> call_ensures(default, (), *r),
            match self {
                Entry::Occupied(o) => (*final(o.vec)).wf() && (*final(o.vec))@ == seq_insert(
                    self.map_now()@,
                    self.spec_key(),
                    *final(r),
                ),
                Entry::Vacant(v) => (*final(v.vec)).wf() && (*final(v.vec))@ == seq_insert(
                    self.map_now()@,
                    self.spec_key(),
                    *final(r),
                ),
            },
    {
        match self {
            Entry::Occupied(o) => o.into_mut(),
            Entry::Vacant(v) => v.insert(default()),
        }
    }

    /// The key this entry was opened for.
    pub fn key(&self) -> (r: &usize)
        ensures
            *r == self.spec_key(),
    {
        match self {
            Entry::Occupied(o) => o.key(),
            Entry::Vacant(v) => v.key(),
        }
    }

    /// Applies `f` to the value if the key is occupied, and hands the
    /// entry back for further chaining.
    pub fn and_modify<F: FnOnce(&mut V)>(self, f: F) -> (r: Entry<'a, V>)
        requires
            self.wf(),
            forall|v: &mut V| #[trigger] call_requires(f, (v,)),
        ensures
            r.wf(),
            r.spec_key() == self.spec_key(),
            match self {
                Entry::Occupied(o) => r matches Entry::Occupied(o2) && o2.key == o.key
                    && *final(o2.vec) == *final(o.vec) && exists|v: &mut V|
                    {
                        &&& #[trigger] call_ensures(f, (v,), ())
                        &&& Some(*v) == value_of(self.map_now()@, self.spec_key())
                        &&& r.map_now()@ == seq_insert(self.map_now()@, self.spec_key(), *final(v))
                    },
                Entry::Vacant(va) => r matches Entry::Vacant(va2) && va2.key == va.key
                    && r.map_now() == self.map_now() && *final(va2.vec) == *final(va.vec),
            },
    {
        match self {
            Entry::Occupied(mut o) => {
                let ghost o0 = o;
                proof {
                    (*o0.vec).lemma_key_indexed(o0.key);
                }
                let v = o.get_mut();
                f(v);
                proof {
                    assert((*o.vec)@[pos_of((*o0.vec)@, o0.key)].0 == o0.key);
                    assert(has_key((*o.vec)@, o0.key));
                }
                Entry::Occupied(o)
            },
            Entry::Vacant(v) => Entry::Vacant(v),
        }
    }

    /// Ensures a value is in the entry, inserting the value type's
    /// default if the key was vacant, and mutably borrows the value.
    pub fn or_default(self) -> (r: &'a mut V) where V: Default
        requires
            self.wf(),
            self is Vacant ==> self.spec_key() < usize::MAX && self.map_now()@.len()
                < 0xFFFF_FFFF,
        ensures
            self is Occupied ==> Some(*r) == value_of(self.map_now()@, self.spec_key()),
            match self {
                Entry::Occupied(o) => (*final(o.vec)).wf() && (*final(o.vec))@ == seq_insert(
                    self.map_now()@,
                    self.spec_key(),
                    *final(r),
                ),
                Entry::Vacant(v) => (*final(v.vec)).wf() && (*final(v.vec))@ == seq_insert(
                    self.map_now()@,
                    self.spec_key(),
                    *final(r),
                ),
            },
    {
        match self {
            Entry::Occupied(o) => o.into_mut(),
            Entry::Vacant(v) => v.insert(Default::default()),
        }
    }
}

impl<V> VecMap<V> {
    /// Opens an entry cursor for `key`: `Occupied` exactly when the key
    /// is live. The cursor borrows the map exclusively until it is
    /// consumed or dropped.
    pub fn entry<'a>(&'a mut self, key: usize) -> (e: Entry<'a, V>)
        requires
            old(self).wf(),
        ensures
            e.wf(),
            e.spec_key() == key,
            e.map_now() == *old(self),
            e is Occupied <==> has_key(old(self)@, key),
            match e {
                Entry::Occupied(o) => *final(self) == *final(o.vec),
                Entry::Vacant(v) => *final(self) == *final(v.vec),
            },
    {
        if self.contains_key(&key) {
            Entry::Occupied(OccupiedEntry { key, vec: self })
        } else {
            Entry::Vacant(VacantEntry { key, vec: self })
        }
    }
}

} // verus!
