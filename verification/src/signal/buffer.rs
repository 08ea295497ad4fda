//! A fixed-capacity ring buffer for streaming samples.
//!
//! The buffer holds at most its capacity of samples, oldest first; pushing
//! into a full buffer evicts the oldest. What a sample is stays open: the
//! storage and its order are the same for every sample type.
use crate::error::Error;
use crate::text::string_of;
use vstd::prelude::*;

verus! {

/// A fixed-capacity ring of samples, oldest first.
#[derive(Debug)]
pub struct RingBuffer<T> {
    data: Vec<T>,
    head: usize,
    len: usize,
}

/// The slot holding logical position `i` of a ring starting at `head`.
pub open spec fn ring_slot(head: int, i: int, capacity: int) -> int {
    if head + i < capacity {
        head + i
    } else {
        head + i - capacity
    }
}

impl<T> View for RingBuffer<T> {
    type V = Seq<T>;

    /// The samples held, oldest first.
    closed spec fn view(&self) -> Seq<T> {
        Seq::new(
            self.len as nat,
            |i: int| self.data@[ring_slot(self.head as int, i, self.data@.len() as int)],
        )
    }
}

impl<T> RingBuffer<T> {
    /// The storage invariant: some capacity, a head inside it, and no more
    /// samples than it holds.
    #[verifier::type_invariant]
    spec fn wf(&self) -> bool {
        &&& self.data@.len() > 0
        &&& self.head < self.data@.len()
        &&& self.len <= self.data@.len()
    }

    /// How many samples the buffer holds at most.
    pub closed spec fn spec_capacity(&self) -> nat {
        self.data@.len()
    }
}

impl<T: Copy> Clone for RingBuffer<T> {
    /// A buffer with the same capacity and samples.
    fn clone(&self) -> (r: Self)
        ensures
            r.spec_capacity() == self.spec_capacity(),
            r@.len() == self@.len(),
    {
        proof {
            use_type_invariant(self);
        }
        RingBuffer { data: self.data.clone(), head: self.head, len: self.len }
    }
}

impl<T: Copy> RingBuffer<T> {
    /// An empty buffer that holds at most `capacity` samples; its unused
    /// slots start as `fill`. A zero capacity is an [`Error::InvalidConfig`].
    pub fn new(capacity: usize, fill: T) -> (r: Result<RingBuffer<T>, Error>)
        ensures
            match r {
                Ok(b) => capacity > 0 && b@ == Seq::<T>::empty() && b.spec_capacity()
                    == capacity,
                Err(Error::InvalidConfig { context, message }) => capacity == 0 && context@
                    == "ring buffer"@ && message@ == "capacity must be at least 1"@,
                Err(_) => false,
            },
    {
        if capacity == 0 {
            return Err(
                Error::InvalidConfig {
                    context: string_of("ring buffer"),
                    message: string_of("capacity must be at least 1"),
                },
            );
        }
        let mut data: Vec<T> = Vec::new();
        let mut i: usize = 0;
        while i < capacity
            invariant
                i <= capacity,
                data@.len() == i,
            decreases capacity - i,
        {
            data.push(fill);
            i = i + 1;
        }
        let b = RingBuffer { data, head: 0, len: 0 };
        assert(b@ =~= Seq::<T>::empty());
        Ok(b)
    }

    /// How many samples the buffer holds at most.
    pub fn capacity(&self) -> (r: usize)
        ensures
            r == self.spec_capacity(),
            r >= 1,
    {
        proof {
            use_type_invariant(self);
        }
        self.data.len()
    }

    /// How many samples the buffer holds.
    pub fn len(&self) -> (r: usize)
        ensures
            r == self@.len(),
            r <= self.spec_capacity(),
    {
        proof {
            use_type_invariant(self);
        }
        self.len
    }

    /// Whether the buffer holds no samples.
    pub fn is_empty(&self) -> (r: bool)
        ensures
            r == (self@.len() == 0),
    {
        proof {
            use_type_invariant(self);
        }
        self.len == 0
    }

    /// Whether the buffer holds as many samples as it can.
    pub fn is_full(&self) -> (r: bool)
        ensures
            r == (self@.len() == self.spec_capacity()),
    {
        proof {
            use_type_invariant(self);
        }
        self.len == self.data.len()
    }

    /// The storage slot of logical position `i`.
    fn slot(&self, i: usize) -> (r: usize)
        requires
            i <= self.spec_capacity(),
            self.data@.len() > 0,
            self.head < self.data@.len(),
        ensures
            r == ring_slot(self.head as int, i as int, self.data@.len() as int),
    {
        let room = self.data.len() - self.head;
        if i < room {
            self.head + i
        } else {
            i - room
        }
    }

    /// The sample at logical position `index`, oldest first.
    pub fn get(&self, index: usize) -> (r: Option<T>)
        ensures
            r == (if index < self@.len() {
                Some(self@[index as int])
            } else {
                None
            }),
    {
        proof {
            use_type_invariant(self);
        }
        if index < self.len {
            Some(self.data[self.slot(index)])
        } else {
            None
        }
    }

    /// The oldest sample.
    pub fn front(&self) -> (r: Option<T>)
        ensures
            r == (if self@.len() > 0 {
                Some(self@[0])
            } else {
                None
            }),
    {
        proof {
            use_type_invariant(self);
        }
        self.get(0)
    }

    /// The newest sample.
    pub fn back(&self) -> (r: Option<T>)
        ensures
            r == (if self@.len() > 0 {
                Some(self@.last())
            } else {
                None
            }),
    {
        proof {
            use_type_invariant(self);
        }
        if self.len > 0 {
            Some(self.data[self.slot(self.len - 1)])
        } else {
            None
        }
    }

    /// Drops every sample.
    pub fn clear(&mut self)
        ensures
            final(self)@ == Seq::<T>::empty(),
            final(self).spec_capacity() == old(self).spec_capacity(),
    {
        proof {
            use_type_invariant(&*self);
        }
        self.head = 0;
        self.len = 0;
        assert(self@ =~= Seq::<T>::empty());
    }

    /// Appends a sample, evicting and returning the oldest when the buffer is
    /// full.
    pub fn push(&mut self, sample: T) -> (r: Option<T>)
        ensures
            final(self).spec_capacity() == old(self).spec_capacity(),
            old(self)@.len() < old(self).spec_capacity() ==> r is None && final(self)@ == old(
                self,
            )@.push(sample),
            old(self)@.len() == old(self).spec_capacity() ==> r == Some(old(self)@[0])
                && final(self)@ == old(self)@.drop_first().push(sample),
    {
        proof {
            use_type_invariant(&*self);
        }
        let evicted = if self.len == self.data.len() {
            self.pop_front()
        } else {
            None
        };
        proof {
            use_type_invariant(&*self);
        }
        let ghost before = self@;
        assert(self.len < self.data@.len());
        let write = self.slot(self.len);
        let mut taken = RingBuffer { data: vec![sample], head: 0, len: 0 };
        std::mem::swap(&mut taken, self);
        proof {
            use_type_invariant(&taken);
        }
        let RingBuffer { mut data, head, len } = taken;
        data.set(write, sample);
        *self = RingBuffer { data, head, len: len + 1 };
        proof {
            let cap = self.data@.len() as int;
            assert forall|i: int| 0 <= i < before.len() implies #[trigger] self@[i] == before[i] by {
                let s = ring_slot(self.head as int, i, cap);
                assert(s != write);
            }
            assert(self@ =~= before.push(sample));
        }
        evicted
    }

    /// Removes and returns the oldest sample.
    pub fn pop_front(&mut self) -> (r: Option<T>)
        ensures
            final(self).spec_capacity() == old(self).spec_capacity(),
            old(self)@.len() == 0 ==> r is None && final(self)@ == old(self)@,
            old(self)@.len() > 0 ==> r == Some(old(self)@[0]) && final(self)@ == old(
                self,
            )@.drop_first(),
    {
        proof {
            use_type_invariant(&*self);
        }
        if self.len == 0 {
            return None;
        }
        let ghost before = self@;
        let old_sample = self.data[self.head];
        self.head = self.slot(1);
        self.len = self.len - 1;
        proof {
            assert(self@ =~= before.drop_first());
        }
        Some(old_sample)
    }

    /// Removes and returns the newest sample.
    pub fn pop_back(&mut self) -> (r: Option<T>)
        ensures
            final(self).spec_capacity() == old(self).spec_capacity(),
            old(self)@.len() == 0 ==> r is None && final(self)@ == old(self)@,
            old(self)@.len() > 0 ==> r == Some(old(self)@.last()) && final(self)@ == old(
                self,
            )@.drop_last(),
    {
        proof {
            use_type_invariant(&*self);
        }
        if self.len == 0 {
            return None;
        }
        let ghost before = self@;
        let last = self.data[self.slot(self.len - 1)];
        self.len = self.len - 1;
        proof {
            assert(self@ =~= before.drop_last());
        }
        Some(last)
    }

    /// The most recent `count` samples (all of them when fewer are held),
    /// oldest first.
    pub fn recent(&self, count: usize) -> (r: Vec<T>)
        ensures
            r@ == self@.subrange(
                if count < self@.len() {
                    self@.len() - count
                } else {
                    0
                },
                self@.len() as int,
            ),
    {
        proof {
            use_type_invariant(self);
        }
        let start = if count < self.len {
            self.len - count
        } else {
            0
        };
        let mut out: Vec<T> = Vec::new();
        let mut i = start;
        while i < self.len
            invariant
                start <= i <= self.len,
                self.len <= self.data@.len(),
                self.head < self.data@.len(),
                out@ == self@.subrange(start as int, i as int),
            decreases self.len - i,
        {
            out.push(self.data[self.slot(i)]);
            i = i + 1;
            proof {
                assert(out@ =~= self@.subrange(start as int, i as int));
            }
        }
        out
    }

    /// Every sample, oldest first.
    pub fn to_vec(&self) -> (r: Vec<T>)
        ensures
            r@ == self@,
    {
        proof {
            use_type_invariant(self);
        }
        let r = self.recent(self.len);
        assert(self@.subrange(0, self@.len() as int) =~= self@);
        r
    }
}

} // verus!
