//! The baseline: a ring buffer for one owner that finds a slot by taking the
//! index modulo the number of slots.
use vstd::prelude::*;
use crate::helper::{allocate_buffer, RingBufTrait};
use crate::index::{
    advance, is_rounded_capacity, lemma_index_range_is_power_of_two,
    lemma_wrapping_sub_is_occupancy, slot_of, MAX_CAPACITY,
};
use crate::queue::{after_dequeue, after_enqueue, front, has_room};
use crate::ring::{lemma_ring_empty, lemma_ring_pop, lemma_ring_push, ring_items, ring_wf};

verus! {

/// Ring buffer for a single owner, indexed by remainder.
#[derive(Debug)]
pub struct RingBuf0<T> {
    buf: Vec<Option<T>>,
    capacity: usize,
    allocated_size: usize,
    read_idx: usize,
    write_idx: usize,
}

impl<T> View for RingBuf0<T> {
    type V = Seq<T>;

    /// The items held, oldest first.
    closed spec fn view(&self) -> Seq<T> {
        ring_items(self.buf@, self.read_idx, self.write_idx)
    }
}

impl<T> RingBuf0<T> {
    /// The slots, the capacity and the indices fit together.
    pub closed spec fn wf(&self) -> bool {
        &&& self.allocated_size == self.buf.len()
        &&& ring_wf(self.buf@, self.capacity, self.read_idx, self.write_idx)
    }

    /// The capacity that the buffer was made with.
    pub closed spec fn capacity(&self) -> nat {
        self.capacity as nat
    }

    /// The number of slots allocated.
    pub closed spec fn allocated_len(&self) -> nat {
        self.allocated_size as nat
    }

    /// A buffer never holds more than its capacity, and its slots are the
    /// capacity rounded up to a power of two.
    pub proof fn lemma_bounded(&self)
        requires
            self.wf(),
        ensures
            self@.len() <= self.capacity(),
            1 <= self.capacity() <= self.allocated_len(),
            is_rounded_capacity(self.capacity() as int, self.allocated_len() as int),
    {
        lemma_wrapping_sub_is_occupancy(self.write_idx, self.read_idx);
    }

    /// Makes an empty buffer that holds up to `capacity` items.
    pub fn with_capacity(capacity: usize) -> (rb: Self)
        requires
            1 <= capacity <= MAX_CAPACITY,
        ensures
            rb.wf(),
            rb@ == Seq::<T>::empty(),
            rb.capacity() == capacity,
            is_rounded_capacity(capacity as int, rb.allocated_len() as int),
    {
        let buf = allocate_buffer(capacity);
        let allocated_size = buf.len();
        proof {
            lemma_index_range_is_power_of_two();
            lemma_ring_empty(buf@, capacity, 0);
        }
        Self { buf, capacity, allocated_size, read_idx: 0, write_idx: 0 }
    }

    /// The number of slots allocated.
    pub fn allocated_size(&self) -> (n: usize)
        ensures
            n == self.allocated_len(),
    {
        self.allocated_size
    }

    /// The slot of the oldest item.
    #[inline]
    fn read_ptr(&self) -> (pos: usize)
        requires
            self.wf(),
        ensures
            pos == slot_of(self.read_idx as int, self.buf.len() as int),
    {
        self.read_idx % self.allocated_size
    }

    /// The slot behind the newest item.
    #[inline]
    fn write_ptr(&self) -> (pos: usize)
        requires
            self.wf(),
        ensures
            pos == slot_of(self.write_idx as int, self.buf.len() as int),
    {
        self.write_idx % self.allocated_size
    }

    /// Takes what slot `pos` holds and leaves the slot empty.
    #[inline]
    fn load(&mut self, pos: usize) -> (v: Option<T>)
        requires
            pos < old(self).buf.len(),
        ensures
            v == old(self).buf[pos as int],
            final(self).buf@ == old(self).buf@.update(pos as int, None),
            final(self).capacity == old(self).capacity,
            final(self).allocated_size == old(self).allocated_size,
            final(self).read_idx == old(self).read_idx,
            final(self).write_idx == old(self).write_idx,
    {
        self.buf[pos].take()
    }

    /// Puts `v` on slot `pos`.
    #[inline]
    fn store(&mut self, pos: usize, v: T)
        requires
            pos < old(self).buf.len(),
        ensures
            final(self).buf@ == old(self).buf@.update(pos as int, Some(v)),
            final(self).capacity == old(self).capacity,
            final(self).allocated_size == old(self).allocated_size,
            final(self).read_idx == old(self).read_idx,
            final(self).write_idx == old(self).write_idx,
    {
        self.buf[pos] = Some(v);
    }

    /// Stores `item` behind the newest item and returns `true`, or returns
    /// `false` and stores nothing when the buffer is full.
    pub fn enqueue(&mut self, item: T) -> (stored: bool)
        requires
            old(self).wf(),
        ensures
            final(self).wf(),
            final(self).capacity() == old(self).capacity(),
            final(self).allocated_len() == old(self).allocated_len(),
            stored == has_room(old(self)@, old(self).capacity()),
            final(self)@ == after_enqueue(old(self)@, old(self).capacity(), item),
    {
        proof {
            lemma_wrapping_sub_is_occupancy(self.write_idx, self.read_idx);
        }
        if self.write_idx.wrapping_sub(self.read_idx) == self.capacity {
            return false;
        }
        proof {
            lemma_ring_push(self.buf@, self.capacity, self.read_idx, self.write_idx, item);
        }
        let pos = self.write_ptr();
        self.store(pos, item);
        self.write_idx = advance(self.write_idx);
        true
    }

    /// Removes and returns the oldest item, or returns `None` when the buffer
    /// is empty.
    pub fn dequeue(&mut self) -> (item: Option<T>)
        requires
            old(self).wf(),
        ensures
            final(self).wf(),
            final(self).capacity() == old(self).capacity(),
            final(self).allocated_len() == old(self).allocated_len(),
            item == front(old(self)@),
            final(self)@ == after_dequeue(old(self)@),
    {
        proof {
            lemma_wrapping_sub_is_occupancy(self.write_idx, self.read_idx);
        }
        if self.read_idx == self.write_idx {
            return None;
        }
        proof {
            lemma_ring_pop(self.buf@, self.capacity, self.read_idx, self.write_idx);
        }
        let pos = self.read_ptr();
        let item = self.load(pos);
        self.read_idx = advance(self.read_idx);
        item
    }
}

impl<T> RingBufTrait<T> for RingBuf0<T> {
    open spec fn wf(&self) -> bool {
        RingBuf0::wf(self)
    }

    open spec fn limit(&self) -> nat {
        self.capacity()
    }

    open spec fn items(&self) -> Seq<T> {
        self@
    }

    fn enqueue(&mut self, item: T) -> (stored: bool) {
        RingBuf0::enqueue(self, item)
    }

    fn dequeue(&mut self) -> (item: Option<T>) {
        RingBuf0::dequeue(self)
    }
}

} // verus!
