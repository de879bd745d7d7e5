//! The lock-free variant, in two forms.
//!
//! [`Core`] is the variant on plain values: the slots, the two indices and
//! the steps of an enqueue and a dequeue, for one owner. What the variant
//! returns and holds is stated and proved of this form. Each operation is
//! also proved to be a run of steps of the machine in [`crate::protocol`],
//! with the copies of the indices always fresh.
//!
//! [`Buffer`] is the form that a [`Producer`] and a [`Consumer`] share
//! between two threads. Its indices are atomics and its slots sit behind
//! locks, so its content cannot be spoken of in a contract. It takes every
//! decision, every slot and every next index from the verified functions
//! that [`Core`] uses: [`is_full`], [`sees_item`], [`slot`] and [`advance`].
//! The producer alone advances the write index and the consumer alone the
//! read index; each publishes its index with release ordering and reads the
//! peer's with acquire ordering.
use vstd::prelude::*;
use std::sync::atomic::AtomicUsize;
use std::sync::Arc;
use std::sync::Mutex;
use crate::helper::{allocate_buffer, RingBufConsumer, RingBufProducer, RingBufTrait};
use crate::index::{
    advance, is_rounded_capacity, lemma_index_range_is_power_of_two,
    lemma_wrapping_sub_is_occupancy, next_power_of_two, slot, slot_of, MAX_CAPACITY,
};
use crate::protocol::{
    consumer_sees_item, dequeue_steps, enqueue_steps, fresh_copies, indices_full, inv, is_full,
    lemma_short_runs, pending, removed, run, sees_item, Protocol, Step,
};
use crate::ring::{lemma_ring_empty, lemma_ring_pop, lemma_ring_push, ring_items, ring_wf};
use crate::slot::{allocate_slots, exchange, load_own, load_peer, publish};

verus! {

/// The lock-free variant on plain values, for one owner.
#[derive(Debug)]
pub struct Core<T> {
    buffer: Vec<Option<T>>,
    capacity: usize,
    allocated_size: usize,
    write_idx: usize,
    read_idx: usize,
}

impl<T> View for Core<T> {
    type V = Seq<T>;

    /// The items held, oldest first.
    closed spec fn view(&self) -> Seq<T> {
        ring_items(self.buffer@, self.read_idx, self.write_idx)
    }
}

impl<T> Core<T> {
    /// The slots, the capacity and the indices fit together.
    pub closed spec fn wf(&self) -> bool {
        &&& self.allocated_size == self.buffer.len()
        &&& ring_wf(self.buffer@, self.capacity, self.read_idx, self.write_idx)
    }

    /// The capacity that the buffer was made with.
    pub closed spec fn capacity(&self) -> nat {
        self.capacity as nat
    }

    /// The number of slots allocated.
    pub closed spec fn allocated_len(&self) -> nat {
        self.allocated_size as nat
    }

    /// The buffer as a state of the protocol's machine with no operation
    /// under way and both copies fresh, for a history in which `delivered`
    /// has come out before.
    pub closed spec fn machine(&self, delivered: Seq<T>) -> Protocol<T> {
        Protocol {
            capacity: self.capacity,
            slots: self.buffer@,
            write_idx: self.write_idx,
            read_idx: self.read_idx,
            cached_read_idx: self.read_idx,
            cached_write_idx: self.write_idx,
            staged: None,
            taken: None,
            accepted: delivered + self@,
            delivered,
        }
    }

    /// A well-formed buffer is a state that the machine can reach: it
    /// satisfies the machine's invariant.
    pub proof fn lemma_machine_inv(&self, delivered: Seq<T>)
        requires
            self.wf(),
        ensures
            inv(self.machine(delivered)),
            self.machine(delivered).staged is None,
            self.machine(delivered).taken is None,
    {
        let s = self.machine(delivered);
        lemma_index_range_is_power_of_two();
        lemma_wrapping_sub_is_occupancy(self.write_idx, self.read_idx);
        lemma_wrapping_sub_is_occupancy(self.write_idx, self.write_idx);
        lemma_wrapping_sub_is_occupancy(self.read_idx, self.read_idx);
        assert(pending(s) =~= self@);
        assert(s.accepted =~= removed(s) + pending(s));
    }

    /// A buffer never holds more than its capacity, and its slots are the
    /// capacity rounded up to a power of two.
    pub proof fn lemma_bounded(&self)
        requires
            self.wf(),
        ensures
            self@.len() <= self.capacity(),
            1 <= self.capacity() <= self.allocated_len(),
            is_rounded_capacity(self.capacity() as int, self.allocated_len() as int),
    {
        lemma_wrapping_sub_is_occupancy(self.write_idx, self.read_idx);
    }

    /// Makes an empty buffer that holds up to `capacity` items.
    pub fn with_capacity(capacity: usize) -> (b: Self)
        requires
            1 <= capacity <= MAX_CAPACITY,
        ensures
            b.wf(),
            b@ == Seq::<T>::empty(),
            b.capacity() == capacity,
            is_rounded_capacity(capacity as int, b.allocated_len() as int),
    {
        let buffer = allocate_buffer(capacity);
        let allocated_size = buffer.len();
        proof {
            lemma_index_range_is_power_of_two();
            lemma_ring_empty(buffer@, capacity, 0);
        }
        Self { buffer, capacity, allocated_size, write_idx: 0, read_idx: 0 }
    }

    /// The number of slots allocated.
    pub fn allocated_size(&self) -> (n: usize)
        ensures
            n == self.allocated_len(),
    {
        self.allocated_size
    }

    /// The slot on which index `idx` falls.
    #[inline]
    fn buf_offset(&self, idx: usize) -> (at: usize)
        requires
            self.wf(),
        ensures
            at == slot_of(idx as int, self.buffer.len() as int),
            at < self.buffer.len(),
    {
        slot(idx, self.allocated_size)
    }

    /// Takes what the slot of index `pos` holds and leaves the slot empty.
    #[inline]
    fn load(&mut self, pos: usize) -> (v: Option<T>)
        requires
            old(self).wf(),
        ensures
            v == old(self).buffer[slot_of(pos as int, old(self).buffer.len() as int)],
            final(self).buffer@ == old(self).buffer@.update(
                slot_of(pos as int, old(self).buffer.len() as int),
                None,
            ),
            final(self).capacity == old(self).capacity,
            final(self).allocated_size == old(self).allocated_size,
            final(self).read_idx == old(self).read_idx,
            final(self).write_idx == old(self).write_idx,
    {
        let at = self.buf_offset(pos);
        self.buffer[at].take()
    }

    /// Puts `v` on the slot of index `pos`.
    #[inline]
    fn store(&mut self, pos: usize, v: T)
        requires
            old(self).wf(),
        ensures
            final(self).buffer@ == old(self).buffer@.update(
                slot_of(pos as int, old(self).buffer.len() as int),
                Some(v),
            ),
            final(self).capacity == old(self).capacity,
            final(self).allocated_size == old(self).allocated_size,
            final(self).read_idx == old(self).read_idx,
            final(self).write_idx == old(self).write_idx,
    {
        let at = self.buf_offset(pos);
        self.buffer[at] = Some(v);
    }
}

impl<T> RingBufTrait<T> for Core<T> {
    open spec fn wf(&self) -> bool {
        Core::wf(self)
    }

    open spec fn limit(&self) -> nat {
        self.capacity()
    }

    open spec fn items(&self) -> Seq<T> {
        self@
    }

    fn enqueue(&mut self, item: T) -> (stored: bool)
        ensures
            final(self).allocated_len() == old(self).allocated_len(),
            forall|delivered: Seq<T>|
                final(self).machine(delivered) == fresh_copies(
                    run(
                        #[trigger] old(self).machine(delivered),
                        enqueue_steps(old(self).machine(delivered), item),
                    ),
                ),
    {
        proof {
            lemma_wrapping_sub_is_occupancy(self.write_idx, self.read_idx);
        }
        let write_idx = self.write_idx;
        let read_idx = self.read_idx;
        if is_full(write_idx, read_idx, self.capacity) {
            proof {
                assert forall|delivered: Seq<T>|
                    self.machine(delivered) == fresh_copies(
                        run(
                            #[trigger] old(self).machine(delivered),
                            enqueue_steps(old(self).machine(delivered), item),
                        ),
                    ) by {
                    let s = old(self).machine(delivered);
                    lemma_short_runs(
                        s,
                        Step::ProducerRefresh,
                        Step::ProducerRefresh,
                        Step::ProducerRefresh,
                    );
                    assert(self.machine(delivered) =~= fresh_copies(
                        run(s, enqueue_steps(s, item)),
                    ));
                }
            }
            return false;
        }
        proof {
            lemma_ring_push(self.buffer@, self.capacity, self.read_idx, self.write_idx, item);
        }
        self.store(write_idx, item);
        self.write_idx = advance(write_idx);
        proof {
            assert forall|delivered: Seq<T>|
                self.machine(delivered) == fresh_copies(
                    run(
                        #[trigger] old(self).machine(delivered),
                        enqueue_steps(old(self).machine(delivered), item),
                    ),
                ) by {
                let s = old(self).machine(delivered);
                lemma_short_runs(
                    s,
                    Step::ProducerStore(item),
                    Step::ProducerPublish,
                    Step::ProducerPublish,
                );
                assert(self.machine(delivered).accepted =~= s.accepted.push(item));
                assert(self.machine(delivered) =~= fresh_copies(run(s, enqueue_steps(s, item))));
            }
        }
        true
    }

    fn dequeue(&mut self) -> (item: Option<T>)
        ensures
            final(self).allocated_len() == old(self).allocated_len(),
            forall|delivered: Seq<T>|
                final(self).machine(
                    match item {
                        Some(v) => delivered.push(v),
                        None => delivered,
                    },
                ) == fresh_copies(
                    run(
                        #[trigger] old(self).machine(delivered),
                        dequeue_steps(old(self).machine(delivered)),
                    ),
                ),
    {
        proof {
            lemma_wrapping_sub_is_occupancy(self.write_idx, self.read_idx);
        }
        let read_idx = self.read_idx;
        let write_idx = self.write_idx;
        if !sees_item(read_idx, write_idx) {
            proof {
                assert forall|delivered: Seq<T>|
                    self.machine(delivered) == fresh_copies(
                        run(
                            #[trigger] old(self).machine(delivered),
                            dequeue_steps(old(self).machine(delivered)),
                        ),
                    ) by {
                    let s = old(self).machine(delivered);
                    lemma_short_runs(
                        s,
                        Step::ConsumerRefresh,
                        Step::ConsumerRefresh,
                        Step::ConsumerRefresh,
                    );
                    assert(self.machine(delivered) =~= fresh_copies(run(s, dequeue_steps(s))));
                }
            }
            return None;
        }
        proof {
            lemma_ring_pop(self.buffer@, self.capacity, self.read_idx, self.write_idx);
        }
        let v = self.load(read_idx);
        self.read_idx = advance(read_idx);
        proof {
            let out = v->Some_0;
            assert(v == Some(out));
            assert forall|delivered: Seq<T>|
                self.machine(delivered.push(out)) == fresh_copies(
                    run(
                        #[trigger] old(self).machine(delivered),
                        dequeue_steps(old(self).machine(delivered)),
                    ),
                ) by {
                let s = old(self).machine(delivered);
                lemma_short_runs(
                    s,
                    Step::ConsumerTake,
                    Step::ConsumerPublish,
                    Step::ConsumerPublish,
                );
                assert(old(self)@ =~= seq![out] + self@);
                assert(self.machine(delivered.push(out)).accepted =~= s.accepted);
                assert(self.machine(delivered.push(out)) =~= fresh_copies(
                    run(s, dequeue_steps(s)),
                ));
            }
        }
        v
    }
}

/// The state shared by a producer and a consumer.
#[verifier::reject_recursive_types(T)]
pub struct Buffer<T> {
    buffer: Vec<Mutex<Option<T>>>,
    capacity: usize,
    allocated_size: usize,
    write_idx: AtomicUsize,
    read_idx: AtomicUsize,
}

/// The handle that dequeues.
#[verifier::reject_recursive_types(T)]
pub struct Consumer<T> {
    buffer: Arc<Buffer<T>>,
}

/// The handle that enqueues.
#[verifier::reject_recursive_types(T)]
pub struct Producer<T> {
    buffer: Arc<Buffer<T>>,
}

impl<T> Buffer<T> {
    #[verifier::type_invariant]
    spec fn inv(&self) -> bool {
        &&& 1 <= self.capacity
        &&& self.allocated_size == self.buffer.len()
        &&& is_rounded_capacity(self.capacity as int, self.allocated_size as int)
    }

    /// The capacity that the buffer was made with.
    pub closed spec fn capacity(&self) -> nat {
        self.capacity as nat
    }

    /// The number of slots allocated.
    pub closed spec fn allocated_len(&self) -> nat {
        self.allocated_size as nat
    }

    /// Makes a buffer that holds up to `capacity` items, with empty slots
    /// and both indices at zero.
    pub fn with_capacity(capacity: usize) -> (b: Self)
        requires
            1 <= capacity <= MAX_CAPACITY,
        ensures
            b.capacity() == capacity,
            is_rounded_capacity(capacity as int, b.allocated_len() as int),
    {
        let allocated_size = next_power_of_two(capacity);
        let buffer = allocate_slots(allocated_size);
        Self {
            buffer,
            capacity,
            allocated_size,
            write_idx: AtomicUsize::new(0),
            read_idx: AtomicUsize::new(0),
        }
    }

    /// The number of slots allocated.
    pub fn allocated_size(&self) -> (n: usize)
        ensures
            n == self.allocated_len(),
    {
        self.allocated_size
    }

    /// The slot on which index `idx` falls.
    #[inline]
    fn buf_offset(&self, idx: usize) -> (at: usize)
        ensures
            at == slot_of(idx as int, self.allocated_len() as int),
            at < self.buffer.len(),
    {
        proof {
            use_type_invariant(self);
        }
        slot(idx, self.allocated_size)
    }

    /// Takes what the slot of index `pos` holds.
    #[inline]
    fn load(&self, pos: usize) -> Option<T> {
        let at = self.buf_offset(pos);
        exchange(&self.buffer[at], None)
    }

    /// Puts `v` on the slot of index `pos`.
    #[inline]
    fn store(&self, pos: usize, v: T) {
        let at = self.buf_offset(pos);
        let _ = exchange(&self.buffer[at], Some(v));
    }

    /// Enqueues `item` given the two indices as the producer read them:
    /// refuses when exactly `capacity` items lie between them, and otherwise
    /// stores the item and publishes the next write index.
    fn enqueue_at(&self, write_idx: usize, read_idx: usize, item: T) -> (stored: bool)
        ensures
            stored == !indices_full(write_idx, read_idx, self.capacity()),
    {
        if is_full(write_idx, read_idx, self.capacity) {
            return false;
        }
        self.store(write_idx, item);
        publish(&self.write_idx, advance(write_idx));
        true
    }

    /// Dequeues given the two indices as the consumer read them: takes
    /// nothing and returns `None` when they coincide, and otherwise takes
    /// what the read index's slot holds, publishes the next read index and
    /// returns what was taken inside `Some`.
    fn dequeue_at(&self, read_idx: usize, write_idx: usize) -> (taken: Option<Option<T>>)
        ensures
            taken is Some <==> consumer_sees_item(read_idx, write_idx),
    {
        if !sees_item(read_idx, write_idx) {
            return None;
        }
        let held = self.load(read_idx);
        Some(self.deliver(read_idx, held))
    }

    /// Finishes a dequeue, given what the read index's slot held: publishes
    /// the next read index and hands on what was taken.
    fn deliver(&self, read_idx: usize, held: Option<T>) -> (item: Option<T>)
        ensures
            item == held,
    {
        publish(&self.read_idx, advance(read_idx));
        held
    }

    /// Stores `item` and returns `true`, or returns `false` when the buffer
    /// is full. To be called by the one producer only.
    ///
    /// What is returned depends on where the consumer stands at the moment
    /// the read index is read, and a shared reference shows nothing of the
    /// content, so nothing is promised here. The function only reads the
    /// two indices and hands them on; what is decided and done with them is
    /// what [`Core`] does with its own.
    pub fn enqueue(&self, item: T) -> bool {
        let write_idx = load_own(&self.write_idx);
        let read_idx = load_peer(&self.read_idx);
        self.enqueue_at(write_idx, read_idx, item)
    }

    /// Removes and returns the oldest item, or returns `None` when the buffer
    /// is empty. To be called by the one consumer only.
    ///
    /// What is returned depends on where the producer stands at the moment
    /// the write index is read, and a shared reference shows nothing of the
    /// content, so nothing is promised here. The function only reads the
    /// two indices and hands them on; what is decided and done with them is
    /// what [`Core`] does with its own.
    pub fn dequeue(&self) -> Option<T> {
        let read_idx = load_own(&self.read_idx);
        let write_idx = load_peer(&self.write_idx);
        match self.dequeue_at(read_idx, write_idx) {
            Some(taken) => taken,
            None => None,
        }
    }
}

/// Makes a buffer that holds up to `capacity` items and the two handles that
/// share it.
pub fn make<T>(capacity: usize) -> (handles: (Producer<T>, Consumer<T>))
    requires
        1 <= capacity <= MAX_CAPACITY,
    ensures
        handles.0.shared() == handles.1.shared(),
        handles.0.shared().capacity() == capacity,
        is_rounded_capacity(capacity as int, handles.0.shared().allocated_len() as int),
{
    let arc = Arc::new(Buffer::with_capacity(capacity));
    (Producer { buffer: arc.clone() }, Consumer { buffer: arc })
}

impl<T> Producer<T> {
    /// The buffer that the handle enqueues into.
    pub closed spec fn shared(&self) -> Buffer<T> {
        *self.buffer
    }
}

impl<T> Consumer<T> {
    /// The buffer that the handle dequeues from.
    pub closed spec fn shared(&self) -> Buffer<T> {
        *self.buffer
    }
}

impl<T> RingBufProducer<T> for Producer<T> {
    fn enqueue(&self, item: T) -> bool {
        (*self.buffer).enqueue(item)
    }
}

impl<T> RingBufConsumer<T> for Consumer<T> {
    fn dequeue(&self) -> Option<T> {
        (*self.buffer).dequeue()
    }
}

} // verus!
