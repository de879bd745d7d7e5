//! The masked baseline: a ring buffer for one owner that finds a slot by
//! masking the index, which the power-of-two slot count makes possible.
use vstd::prelude::*;
use crate::helper::{allocate_buffer, RingBufTrait};
use crate::index::{
    advance, is_rounded_capacity, lemma_index_range_is_power_of_two, lemma_mask_is_remainder,
    lemma_wrapping_sub_is_occupancy, slot_of, MAX_CAPACITY,
};
use crate::ring::{lemma_ring_empty, lemma_ring_pop, lemma_ring_push, ring_items, ring_wf};

verus! {

/// Ring buffer for a single owner, indexed by bit mask.
#[derive(Debug)]
pub struct RingBuf<T> {
    buf: Vec<Option<T>>,
    capacity: usize,
    position_mask: usize,
    read_idx: usize,
    write_idx: usize,
}

impl<T> View for RingBuf<T> {
    type V = Seq<T>;

    /// The items held, oldest first.
    closed spec fn view(&self) -> Seq<T> {
        ring_items(self.buf@, self.read_idx, self.write_idx)
    }
}

impl<T> RingBuf<T> {
    /// The slots, the capacity, the mask and the indices fit together.
    pub closed spec fn wf(&self) -> bool {
        &&& self.position_mask + 1 == self.buf.len()
        &&& ring_wf(self.buf@, self.capacity, self.read_idx, self.write_idx)
    }

    /// The capacity that the buffer was made with.
    pub closed spec fn capacity(&self) -> nat {
        self.capacity as nat
    }

    /// The number of slots allocated: the mask plus one.
    pub closed spec fn allocated_len(&self) -> nat {
        (self.position_mask + 1) as nat
    }

    /// A buffer never holds more than its capacity, and its slots are the
    /// capacity rounded up to a power of two.
    pub proof fn lemma_bounded(&self)
        requires
            self.wf(),
        ensures
            self@.len() <= self.capacity(),
            1 <= self.capacity() <= self.allocated_len(),
            is_rounded_capacity(self.capacity() as int, self.allocated_len() as int),
    {
        lemma_wrapping_sub_is_occupancy(self.write_idx, self.read_idx);
    }

    /// Makes an empty buffer that holds up to `capacity` items.
    pub fn with_capacity(capacity: usize) -> (rb: Self)
        requires
            1 <= capacity <= MAX_CAPACITY,
        ensures
            rb.wf(),
            rb@ == Seq::<T>::empty(),
            rb.capacity() == capacity,
            is_rounded_capacity(capacity as int, rb.allocated_len() as int),
    {
        let buf = allocate_buffer(capacity);
        let position_mask = buf.len() - 1;
        proof {
            lemma_index_range_is_power_of_two();
            lemma_ring_empty(buf@, capacity, 0);
        }
        Self { buf, capacity, position_mask, read_idx: 0, write_idx: 0 }
    }

    /// The number of slots allocated.
    pub fn allocated_size(&self) -> (n: usize)
        requires
            self.wf(),
        ensures
            n == self.allocated_len(),
    {
        self.buf.len()
    }

    /// The slot on which index `pos` falls.
    #[inline]
    fn to_ptr(&self, pos: usize) -> (slot: usize)
        requires
            self.wf(),
        ensures
            slot == slot_of(pos as int, self.buf.len() as int),
            slot < self.buf.len(),
    {
        proof {
            lemma_mask_is_remainder(pos, self.buf.len());
        }
        pos & (self.position_mask)
    }

    /// Takes what slot `pos` holds and leaves the slot empty.
    #[inline]
    fn load(&mut self, pos: usize) -> (v: Option<T>)
        requires
            pos < old(self).buf.len(),
        ensures
            v == old(self).buf[pos as int],
            final(self).buf@ == old(self).buf@.update(pos as int, None),
            final(self).capacity == old(self).capacity,
            final(self).position_mask == old(self).position_mask,
            final(self).read_idx == old(self).read_idx,
            final(self).write_idx == old(self).write_idx,
    {
        self.buf[pos].take()
    }

    /// Puts `v` on slot `pos`.
    #[inline]
    fn store(&mut self, pos: usize, v: T)
        requires
            pos < old(self).buf.len(),
        ensures
            final(self).buf@ == old(self).buf@.update(pos as int, Some(v)),
            final(self).capacity == old(self).capacity,
            final(self).position_mask == old(self).position_mask,
            final(self).read_idx == old(self).read_idx,
            final(self).write_idx == old(self).write_idx,
    {
        self.buf[pos] = Some(v);
    }
}

impl<T> RingBufTrait<T> for RingBuf<T> {
    open spec fn wf(&self) -> bool {
        RingBuf::wf(self)
    }

    open spec fn limit(&self) -> nat {
        self.capacity()
    }

    open spec fn items(&self) -> Seq<T> {
        self@
    }

    fn enqueue(&mut self, item: T) -> (stored: bool)
        ensures
            final(self).allocated_len() == old(self).allocated_len(),
    {
        proof {
            lemma_wrapping_sub_is_occupancy(self.write_idx, self.read_idx);
        }
        if self.write_idx.wrapping_sub(self.read_idx) == self.capacity {
            return false;
        }
        proof {
            lemma_ring_push(self.buf@, self.capacity, self.read_idx, self.write_idx, item);
        }
        let pos = self.to_ptr(self.write_idx);
        self.store(pos, item);
        self.write_idx = advance(self.write_idx);
        true
    }

    fn dequeue(&mut self) -> (item: Option<T>)
        ensures
            final(self).allocated_len() == old(self).allocated_len(),
    {
        proof {
            lemma_wrapping_sub_is_occupancy(self.write_idx, self.read_idx);
        }
        if self.read_idx == self.write_idx {
            return None;
        }
        proof {
            lemma_ring_pop(self.buf@, self.capacity, self.read_idx, self.write_idx);
        }
        let pos = self.to_ptr(self.read_idx);
        let item = self.load(pos);
        self.read_idx = advance(self.read_idx);
        item
    }
}

} // verus!
