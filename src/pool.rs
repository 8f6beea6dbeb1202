//! A content-addressed pool that stores each distinct value once.

use vstd::prelude::*;

verus! {

/// A value that can be stored in a [`Pool`].
///
/// Two values share one pool slot exactly when their views are equal, so the
/// view is the value's identity for pooling purposes.
pub trait PoolValue: View + Sized {
    fn same_value(&self, other: &Self) -> (r: bool)
        ensures
            r == (self@ == other@),
    ;
}

/// The position of `v` in a sequence that holds it.
pub open spec fn position_of<V>(s: Seq<V>, v: V) -> int {
    s.index_of(v)
}

/// In a sequence without duplicates, the one position that holds `v` is `position_of(s, v)`.
pub proof fn lemma_position_of_unique<V>(s: Seq<V>, v: V, i: int)
    requires
        s.no_duplicates(),
        0 <= i < s.len(),
        s[i] == v,
    ensures
        position_of(s, v) == i,
{
    let j = position_of(s, v);
    assert(0 <= j < s.len() && s[j] == v);
}

/// Values in first-seen order, each distinct value once.
pub struct Pool<T> {
    values: Vec<T>,
}

impl<T: View> View for Pool<T> {
    type V = Seq<T::V>;

    closed spec fn view(&self) -> Seq<T::V> {
        self.values@.map_values(|t: T| t@)
    }
}

impl<T: PoolValue> Pool<T> {
    /// No value occurs twice.
    pub open spec fn wf(&self) -> bool {
        self@.no_duplicates()
    }

    pub fn new() -> (p: Self)
        ensures
            p@ == Seq::<T::V>::empty(),
            p.wf(),
    {
        let p = Pool { values: Vec::new() };
        assert(p@ =~= Seq::<T::V>::empty());
        p
    }

    pub fn len(&self) -> (n: usize)
        ensures
            n == self@.len(),
    {
        self.values.len()
    }

    /// The slot that holds a value equal to `v`, if there is one.
    pub fn position(&self, v: &T) -> (r: Option<usize>)
        ensures
            match r {
                Some(i) => i < self@.len() && self@[i as int] == v@,
                None => !self@.contains(v@),
            },
    {
        let mut i: usize = 0;
        while i < self.values.len()
            invariant
                i <= self.values@.len(),
                self@.len() == self.values@.len(),
                forall|k: int| 0 <= k < i ==> self@[k] != v@,
            decreases self.values@.len() - i,
        {
            if self.values[i].same_value(v) {
                return Some(i);
            }
            i = i + 1;
        }
        proof {
            if self@.contains(v@) {
                let k = choose|k: int| 0 <= k < self@.len() && self@[k] == v@;
                assert(self@[k] != v@);
            }
        }
        None
    }

    /// Stores `v` unless an equal value is already present, and returns the slot of
    /// that value together with whether `v` was newly stored.
    pub fn insert_full(&mut self, v: T) -> (r: (usize, bool))
        requires
            old(self).wf(),
        ensures
            final(self).wf(),
            r.0 < final(self)@.len(),
            final(self)@[r.0 as int] == v@,
            r.0 == position_of(final(self)@, v@),
            old(self)@.contains(v@) ==> final(self)@ == old(self)@ && !r.1,
            !old(self)@.contains(v@) ==> final(self)@ == old(self)@.push(v@) && r.1
                && r.0 == old(self)@.len(),
    {
        match self.position(&v) {
            Some(i) => {
                proof {
                    lemma_position_of_unique(self@, v@, i as int);
                }
                (i, false)
            },
            None => {
                let n = self.values.len();
                let ghost old_view = self@;
                self.values.push(v);
                assert(self@ =~= old_view.push(v@));
                proof {
                    assert forall|a: int, b: int|
                        0 <= a < self@.len() && 0 <= b < self@.len() && a != b implies self@[a]
                        != self@[b] by {
                        if a < n && b < n {
                        } else if a == n {
                            assert(old_view[b] == self@[b]);
                        } else {
                            assert(old_view[a] == self@[a]);
                        }
                    }
                    lemma_position_of_unique(self@, v@, n as int);
                }
                (n, true)
            },
        }
    }

    /// The stored values, in first-seen order.
    pub fn into_vec(self) -> (r: Vec<T>)
        ensures
            r@.map_values(|t: T| t@) == self@,
    {
        self.values
    }
}

} // verus!
