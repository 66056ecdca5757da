//! A window over the most recent values of a stream, as used for running
//! averages of frame times.
use std::collections::VecDeque;
use vstd::prelude::*;

verus! {

broadcast use vstd::std_specs::vecdeque::group_vec_dequeue_axioms;

/// The last `capacity` values added, oldest first.
pub struct RecentValues<T> {
    values: VecDeque<T>,
    capacity: usize,
}

impl<T> RecentValues<T> {
    /// The values in the window, oldest first.
    pub closed spec fn spec_values(&self) -> Seq<T> {
        self.values@
    }

    pub closed spec fn spec_capacity(&self) -> nat {
        self.capacity as nat
    }

    pub open spec fn wf(&self) -> bool {
        &&& self.spec_capacity() >= 1
        &&& self.spec_values().len() <= self.spec_capacity()
    }

    /// An empty window that keeps up to `capacity` values.
    pub fn new(capacity: usize) -> (r: Self)
        requires
            capacity >= 1,
        ensures
            r.wf(),
            r.spec_values() == Seq::<T>::empty(),
            r.spec_capacity() == capacity,
    {
        RecentValues { values: VecDeque::with_capacity(capacity), capacity }
    }

    pub fn len(&self) -> (r: usize)
        ensures
            r == self.spec_values().len(),
    {
        self.values.len()
    }

    /// Adds `value` as the newest value. When the window was full its oldest
    /// value leaves it and is returned.
    pub fn push(&mut self, value: T) -> (r: Option<T>)
        requires
            old(self).wf(),
        ensures
            final(self).wf(),
            final(self).spec_capacity() == old(self).spec_capacity(),
            old(self).spec_values().len() < old(self).spec_capacity() ==> {
                &&& r is None
                &&& final(self).spec_values() == old(self).spec_values().push(value)
            },
            old(self).spec_values().len() == old(self).spec_capacity() ==> {
                &&& r == Some(old(self).spec_values()[0])
                &&& final(self).spec_values() == old(self).spec_values().drop_first().push(value)
            },
    {
        let evicted = if self.values.len() == self.capacity {
            self.values.pop_front()
        } else {
            None
        };
        self.values.push_back(value);
        evicted
    }
}

} // verus!
