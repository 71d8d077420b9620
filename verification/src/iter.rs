//! The iteration family: finite views over the live entries in dense
//! order, traversable from either end, each restartable by asking the
//! map for a fresh one.

use vstd::pervasive::unreached;
use vstd::prelude::*;

use crate::map::VecMap;

verus! {

/// A mutating iterator over `(key, &mut value)` pairs in dense order.
/// Only values can change through it; every yielded reference points at
/// a distinct entry.
pub struct IterMut<'a, V> {
    pub rem: &'a mut [(usize, V)],
}

impl<'a, V> IterMut<'a, V> {
    /// Yields the front remaining entry, or `None` when exhausted. The
    /// entries this iterator eventually leaves behind are the yielded
    /// pair, at whatever value the caller drives it to, followed by
    /// whatever the rest of the iterator leaves behind.
    pub fn next(&mut self) -> (r: Option<(usize, &'a mut V)>)
        ensures
            match r {
                Some(kv) => {
                    &&& old(self).rem@.len() > 0
                    &&& kv.0 == old(self).rem@[0].0
                    &&& *kv.1 == old(self).rem@[0].1
                    &&& final(self).rem@ == old(self).rem@.drop_first()
                    &&& final(old(self).rem)@ == seq![(kv.0, *final(kv.1))]
                        + final(final(self).rem)@
                },
                None => {
                    &&& old(self).rem@.len() == 0
                    &&& final(self).rem@ == old(self).rem@
                    &&& final(old(self).rem)@ == final(final(self).rem)@
                },
            },
    {
        let mut tmp: &'a mut [(usize, V)] = &mut [];
        core::mem::swap(&mut self.rem, &mut tmp);
        if tmp.len() > 0 {
            let (left, right) = tmp.split_at_mut(1);
            let first = match left.first_mut() {
                Some(e) => e,
                None => unreached(),
            };
            self.rem = right;
            let k = first.0;
            Some((k, &mut first.1))
        } else {
            self.rem = tmp;
            None
        }
    }

    /// Yields the back remaining entry, or `None` when exhausted, under
    /// the same regime as `next`.
    pub fn next_back(&mut self) -> (r: Option<(usize, &'a mut V)>)
        ensures
            match r {
                Some(kv) => {
                    &&& old(self).rem@.len() > 0
                    &&& kv.0 == old(self).rem@.last().0
                    &&& *kv.1 == old(self).rem@.last().1
                    &&& final(self).rem@ == old(self).rem@.drop_last()
                    &&& final(old(self).rem)@ == final(final(self).rem)@ + seq![
                        (kv.0, *final(kv.1)),
                    ]
                },
                None => {
                    &&& old(self).rem@.len() == 0
                    &&& final(self).rem@ == old(self).rem@
                    &&& final(old(self).rem)@ == final(final(self).rem)@
                },
            },
    {
        let mut tmp: &'a mut [(usize, V)] = &mut [];
        core::mem::swap(&mut self.rem, &mut tmp);
        let n = tmp.len();
        if n > 0 {
            let (left, right) = tmp.split_at_mut(n - 1);
            let last = match right.last_mut() {
                Some(e) => e,
                None => unreached(),
            };
            self.rem = left;
            let k = last.0;
            Some((k, &mut last.1))
        } else {
            self.rem = tmp;
            None
        }
    }

    /// Consumes the iterator, returning how many entries were left.
    pub fn count(self) -> (n: usize)
        ensures
            n == old(self.rem)@.len(),
            final(self.rem)@ == old(self.rem)@,
    {
        self.rem.len()
    }

    /// The exact number of entries left, as a lower and upper bound.
    pub fn size_hint(&self) -> (r: (usize, Option<usize>))
        ensures
            r.0 == old(self.rem)@.len(),
            r.1 == Some(r.0),
    {
        let n = self.rem.len();
        (n, Some(n))
    }
}

/// A mutating iterator over the live values in dense order.
pub struct ValuesMut<'a, V> {
    pub rem: &'a mut [(usize, V)],
}

impl<'a, V> ValuesMut<'a, V> {
    /// Yields the front remaining value, or `None` when exhausted. The
    /// keys of the entries left behind are unchanged.
    pub fn next(&mut self) -> (r: Option<&'a mut V>)
        ensures
            match r {
                Some(v) => {
                    &&& old(self).rem@.len() > 0
                    &&& *v == old(self).rem@[0].1
                    &&& final(self).rem@ == old(self).rem@.drop_first()
                    &&& final(old(self).rem)@ == seq![(old(self).rem@[0].0, *final(v))]
                        + final(final(self).rem)@
                },
                None => {
                    &&& old(self).rem@.len() == 0
                    &&& final(self).rem@ == old(self).rem@
                    &&& final(old(self).rem)@ == final(final(self).rem)@
                },
            },
    {
        let mut tmp: &'a mut [(usize, V)] = &mut [];
        core::mem::swap(&mut self.rem, &mut tmp);
        if tmp.len() > 0 {
            let (left, right) = tmp.split_at_mut(1);
            let first = match left.first_mut() {
                Some(e) => e,
                None => unreached(),
            };
            self.rem = right;
            Some(&mut first.1)
        } else {
            self.rem = tmp;
            None
        }
    }

    /// Yields the back remaining value, or `None` when exhausted, under
    /// the same regime as `next`.
    pub fn next_back(&mut self) -> (r: Option<&'a mut V>)
        ensures
            match r {
                Some(v) => {
                    &&& old(self).rem@.len() > 0
                    &&& *v == old(self).rem@.last().1
                    &&& final(self).rem@ == old(self).rem@.drop_last()
                    &&& final(old(self).rem)@ == final(final(self).rem)@ + seq![
                        (old(self).rem@.last().0, *final(v)),
                    ]
                },
                None => {
                    &&& old(self).rem@.len() == 0
                    &&& final(self).rem@ == old(self).rem@
                    &&& final(old(self).rem)@ == final(final(self).rem)@
                },
            },
    {
        let mut tmp: &'a mut [(usize, V)] = &mut [];
        core::mem::swap(&mut self.rem, &mut tmp);
        let n = tmp.len();
        if n > 0 {
            let (left, right) = tmp.split_at_mut(n - 1);
            let last = match right.last_mut() {
                Some(e) => e,
                None => unreached(),
            };
            self.rem = left;
            Some(&mut last.1)
        } else {
            self.rem = tmp;
            None
        }
    }

    /// Consumes the iterator, returning how many values were left.
    pub fn count(self) -> (n: usize)
        ensures
            n == old(self.rem)@.len(),
            final(self.rem)@ == old(self.rem)@,
    {
        self.rem.len()
    }

    /// The exact number of values left, as a lower and upper bound.
    pub fn size_hint(&self) -> (r: (usize, Option<usize>))
        ensures
            r.0 == old(self.rem)@.len(),
            r.1 == Some(r.0),
    {
        let n = self.rem.len();
        (n, Some(n))
    }
}

/// A borrowing iterator over `(key, &value)` pairs in dense order.
pub struct Iter<'a, V> {
    rows: &'a Vec<(usize, V)>,
    front: usize,
    back: usize,
}

impl<'a, V> Iter<'a, V> {
    /// The entries not yet yielded, front to back.
    pub closed spec fn remaining(self) -> Seq<(usize, V)> {
        self.rows@.subrange(self.front as int, self.back as int)
    }

    /// Validity: the cursor pair brackets a range of the rows.
    pub closed spec fn wf(self) -> bool {
        self.front <= self.back <= self.rows@.len()
    }

    /// Yields the front remaining entry, or `None` when exhausted.
    pub fn next(&mut self) -> (r: Option<(usize, &'a V)>)
        requires
            old(self).wf(),
        ensures
            final(self).wf(),
            match r {
                Some(kv) => {
                    &&& old(self).remaining().len() > 0
                    &&& kv.0 == old(self).remaining()[0].0
                    &&& *kv.1 == old(self).remaining()[0].1
                    &&& final(self).remaining() == old(self).remaining().drop_first()
                },
                None => old(self).remaining().len() == 0 && *final(self) == *old(self),
            },
    {
        if self.front < self.back {
            let rows = self.rows;
            let e = &rows[self.front];
            self.front = self.front + 1;
            proof {
                assert(final(self).remaining() =~= old(self).remaining().drop_first());
            }
            Some((e.0, &e.1))
        } else {
            None
        }
    }

    /// Yields the back remaining entry, or `None` when exhausted.
    pub fn next_back(&mut self) -> (r: Option<(usize, &'a V)>)
        requires
            old(self).wf(),
        ensures
            final(self).wf(),
            match r {
                Some(kv) => {
                    &&& old(self).remaining().len() > 0
                    &&& kv.0 == old(self).remaining().last().0
                    &&& *kv.1 == old(self).remaining().last().1
                    &&& final(self).remaining() == old(self).remaining().drop_last()
                },
                None => old(self).remaining().len() == 0 && *final(self) == *old(self),
            },
    {
        if self.front < self.back {
            let rows = self.rows;
            let e = &rows[self.back - 1];
            self.back = self.back - 1;
            proof {
                assert(final(self).remaining() =~= old(self).remaining().drop_last());
            }
            Some((e.0, &e.1))
        } else {
            None
        }
    }

    /// The exact number of entries left, as a lower and upper bound.
    pub fn size_hint(&self) -> (r: (usize, Option<usize>))
        requires
            self.wf(),
        ensures
            r.0 == self.remaining().len(),
            r.1 == Some(r.0),
    {
        let n = self.back - self.front;
        (n, Some(n))
    }

    /// Consumes the iterator, returning how many entries were left.
    pub fn count(self) -> (n: usize)
        requires
            self.wf(),
        ensures
            n == self.remaining().len(),
    {
        self.back - self.front
    }
}

impl<'a, V> Clone for Iter<'a, V> {
    /// An independent cursor at the same position over the same rows.
    fn clone(&self) -> (r: Self)
        ensures
            r == *self,
    {
        Iter { rows: self.rows, front: self.front, back: self.back }
    }
}

/// A borrowing iterator over the live keys in dense order.
pub struct Keys<'a, V> {
    iter: Iter<'a, V>,
}

impl<'a, V> Keys<'a, V> {
    /// The entries whose keys are not yet yielded, front to back.
    pub closed spec fn remaining(self) -> Seq<(usize, V)> {
        self.iter.remaining()
    }

    /// Validity of the underlying cursor.
    pub closed spec fn wf(self) -> bool {
        self.iter.wf()
    }

    /// Yields the front remaining key, or `None` when exhausted.
    pub fn next(&mut self) -> (r: Option<usize>)
        requires
            old(self).wf(),
        ensures
            final(self).wf(),
            match r {
                Some(k) => {
                    &&& old(self).remaining().len() > 0
                    &&& k == old(self).remaining()[0].0
                    &&& final(self).remaining() == old(self).remaining().drop_first()
                },
                None => old(self).remaining().len() == 0 && *final(self) == *old(self),
            },
    {
        match self.iter.next() {
            Some(kv) => Some(kv.0),
            None => None,
        }
    }

    /// Yields the back remaining key, or `None` when exhausted.
    pub fn next_back(&mut self) -> (r: Option<usize>)
        requires
            old(self).wf(),
        ensures
            final(self).wf(),
            match r {
                Some(k) => {
                    &&& old(self).remaining().len() > 0
                    &&& k == old(self).remaining().last().0
                    &&& final(self).remaining() == old(self).remaining().drop_last()
                },
                None => old(self).remaining().len() == 0 && *final(self) == *old(self),
            },
    {
        match self.iter.next_back() {
            Some(kv) => Some(kv.0),
            None => None,
        }
    }

    /// The exact number of keys left, as a lower and upper bound.
    pub fn size_hint(&self) -> (r: (usize, Option<usize>))
        requires
            self.wf(),
        ensures
            r.0 == self.remaining().len(),
            r.1 == Some(r.0),
    {
        self.iter.size_hint()
    }

    /// Consumes the iterator, returning how many keys were left.
    pub fn count(self) -> (n: usize)
        requires
            self.wf(),
        ensures
            n == self.remaining().len(),
    {
        self.iter.count()
    }
}

impl<'a, V> Clone for Keys<'a, V> {
    /// An independent cursor at the same position over the same rows.
    fn clone(&self) -> (r: Self)
        ensures
            r == *self,
    {
        Keys { iter: self.iter.clone() }
    }
}

/// A borrowing iterator over the live values in dense order.
pub struct Values<'a, V> {
    iter: Iter<'a, V>,
}

impl<'a, V> Values<'a, V> {
    /// The entries whose values are not yet yielded, front to back.
    pub closed spec fn remaining(self) -> Seq<(usize, V)> {
        self.iter.remaining()
    }

    /// Validity of the underlying cursor.
    pub closed spec fn wf(self) -> bool {
        self.iter.wf()
    }

    /// Yields the front remaining value, or `None` when exhausted.
    pub fn next(&mut self) -> (r: Option<&'a V>)
        requires
            old(self).wf(),
        ensures
            final(self).wf(),
            match r {
                Some(v) => {
                    &&& old(self).remaining().len() > 0
                    &&& *v == old(self).remaining()[0].1
                    &&& final(self).remaining() == old(self).remaining().drop_first()
                },
                None => old(self).remaining().len() == 0 && *final(self) == *old(self),
            },
    {
        match self.iter.next() {
            Some(kv) => Some(kv.1),
            None => None,
        }
    }

    /// Yields the back remaining value, or `None` when exhausted.
    pub fn next_back(&mut self) -> (r: Option<&'a V>)
        requires
            old(self).wf(),
        ensures
            final(self).wf(),
            match r {
                Some(v) => {
                    &&& old(self).remaining().len() > 0
                    &&& *v == old(self).remaining().last().1
                    &&& final(self).remaining() == old(self).remaining().drop_last()
                },
                None => old(self).remaining().len() == 0 && *final(self) == *old(self),
            },
    {
        match self.iter.next_back() {
            Some(kv) => Some(kv.1),
            None => None,
        }
    }

    /// The exact number of values left, as a lower and upper bound.
    pub fn size_hint(&self) -> (r: (usize, Option<usize>))
        requires
            self.wf(),
        ensures
            r.0 == self.remaining().len(),
            r.1 == Some(r.0),
    {
        self.iter.size_hint()
    }

    /// Consumes the iterator, returning how many values were left.
    pub fn count(self) -> (n: usize)
        requires
            self.wf(),
        ensures
            n == self.remaining().len(),
    {
        self.iter.count()
    }
}

impl<'a, V> Clone for Values<'a, V> {
    /// An independent cursor at the same position over the same rows.
    fn clone(&self) -> (r: Self)
        ensures
            r == *self,
    {
        Values { iter: self.iter.clone() }
    }
}

/// A consuming iterator over owned `(key, value)` pairs in dense order,
/// draining the map.
pub struct IntoIter<V> {
    rows: Vec<(usize, V)>,
}

impl<V> IntoIter<V> {
    /// The entries not yet yielded, front to back.
    pub closed spec fn remaining(self) -> Seq<(usize, V)> {
        self.rows@
    }

    /// Yields the front remaining entry, or `None` when exhausted.
    pub fn next(&mut self) -> (r: Option<(usize, V)>)
        ensures
            match r {
                Some(kv) => {
                    &&& old(self).remaining().len() > 0
                    &&& kv == old(self).remaining()[0]
                    &&& final(self).remaining() == old(self).remaining().drop_first()
                },
                None => old(self).remaining().len() == 0 && *final(self) == *old(self),
            },
    {
        if self.rows.len() > 0 {
            let kv = self.rows.remove(0);
            proof {
                assert(final(self).remaining() =~= old(self).remaining().drop_first());
            }
            Some(kv)
        } else {
            None
        }
    }

    /// Yields the back remaining entry, or `None` when exhausted.
    pub fn next_back(&mut self) -> (r: Option<(usize, V)>)
        ensures
            match r {
                Some(kv) => {
                    &&& old(self).remaining().len() > 0
                    &&& kv == old(self).remaining().last()
                    &&& final(self).remaining() == old(self).remaining().drop_last()
                },
                None => old(self).remaining().len() == 0 && final(self).remaining() == old(
                    self,
                ).remaining(),
            },
    {
        let r = self.rows.pop();
        proof {
            if old(self).remaining().len() > 0 {
                assert(final(self).remaining() =~= old(self).remaining().drop_last());
            }
        }
        r
    }

    /// The exact number of entries left, as a lower and upper bound.
    pub fn size_hint(&self) -> (r: (usize, Option<usize>))
        ensures
            r.0 == self.remaining().len(),
            r.1 == Some(r.0),
    {
        let n = self.rows.len();
        (n, Some(n))
    }

    /// Consumes the iterator, returning how many entries were left.
    pub fn count(self) -> (n: usize)
        ensures
            n == self.remaining().len(),
    {
        self.rows.len()
    }

    /// Drains the rest into a vector, front to back.
    pub fn collect(self) -> (r: Vec<(usize, V)>)
        ensures
            r@ == self.remaining(),
    {
        self.rows
    }
}

impl<V> VecMap<V> {
    /// A fresh iterator over `(key, &value)` pairs in dense order.
    pub fn iter<'a>(&'a self) -> (it: Iter<'a, V>)
        ensures
            it.wf(),
            it.remaining() == self@,
    {
        proof {
            self.lemma_repr();
        }
        let it = Iter { rows: &self.rows, front: 0, back: self.rows.len() };
        proof {
            assert(it.remaining() =~= self@);
        }
        it
    }

    /// A fresh iterator over the live keys in dense order.
    pub fn keys<'a>(&'a self) -> (it: Keys<'a, V>)
        ensures
            it.wf(),
            it.remaining() == self@,
    {
        Keys { iter: self.iter() }
    }

    /// A fresh iterator over the live values in dense order.
    pub fn values<'a>(&'a self) -> (it: Values<'a, V>)
        ensures
            it.wf(),
            it.remaining() == self@,
    {
        Values { iter: self.iter() }
    }

    /// Consumes the map into an iterator of owned `(key, value)` pairs
    /// in dense order.
    pub fn into_iter(self) -> (it: IntoIter<V>)
        ensures
            it.remaining() == self@,
    {
        proof {
            self.lemma_repr();
        }
        IntoIter { rows: self.rows }
    }
}

} // verus!
