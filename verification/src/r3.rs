//! The cache-friendly variant, in two forms.
//!
//! The protocol is that of the lock-free variant, with two refinements: each
//! side's index sits with that side's private data in a group of its own,
//! filled up to the length of a cache line, and each side keeps a copy of
//! the peer's index which it refreshes only when the copy says that the
//! buffer may be full (or empty).
//!
//! [`Core`] is the variant on plain values: the slots, the two indices, the
//! two cached copies and the steps of an enqueue and a dequeue, for one
//! owner. What the variant returns and holds is stated and proved of this
//! form, and so is the bound that a refreshed copy keeps. Each operation is
//! also proved to be a run of steps of the machine in [`crate::protocol`].
//!
//! [`Buffer`] is the form that a [`Producer`] and a [`Consumer`] share
//! between two threads. Its indices are atomics and its slots sit behind
//! locks, so its content cannot be spoken of in a contract. It takes every
//! decision, every slot and every next index from the verified functions
//! that [`Core`] uses: [`sees_room`], [`sees_item`], [`within_capacity`],
//! [`slot`] and [`advance`].
use vstd::prelude::*;
use std::sync::atomic::AtomicUsize;
use std::sync::Arc;
use std::sync::Mutex;
use crate::helper::{
    allocate_buffer, RingBufConsumer, RingBufProducer, RingBufTrait, CACHELINE_LEN, WORD_LEN,
};
use crate::index::{
    advance, is_rounded_capacity, lemma_index_range_is_power_of_two, lemma_occupancy_after_read,
    lemma_occupancy_after_write, lemma_wrapping_sub_is_occupancy, next_power_of_two, occupancy,
    slot, slot_of, MAX_CAPACITY,
};
use crate::protocol::{
    consumer_sees_item, dequeue_steps, enqueue_steps, indices_agree, inv,
    lemma_occupancy_adds, lemma_short_runs, pending, producer_sees_room, removed, run, sees_item,
    sees_room, within_capacity, Crossed, Protocol, Step,
};
use crate::ring::{lemma_ring_empty, lemma_ring_pop, lemma_ring_push, ring_items, ring_wf};
use crate::slot::{allocate_slots, exchange, load_own, load_peer, publish, store_own};

verus! {

/// Filler words behind the three words of the slot vector and the two words
/// of capacity and slot count.
pub const HEADER_PAD: usize = CACHELINE_LEN / WORD_LEN - 5;

/// Filler words behind an index and the cached copy of the peer's index.
pub const INDEX_PAD: usize = CACHELINE_LEN / WORD_LEN - 2;

/// The header and each index group, with its filler, are as long as one
/// cache line.
pub proof fn lemma_groups_fill_cache_lines()
    ensures
        (5 + HEADER_PAD) * WORD_LEN == CACHELINE_LEN,
        (2 + INDEX_PAD) * WORD_LEN == CACHELINE_LEN,
{
}

/// The cache-friendly variant on plain values, for one owner.
#[derive(Debug)]
pub struct Core<T> {
    buffer: Vec<Option<T>>,
    capacity: usize,
    allocated_size: usize,
    write_idx: usize,
    cached_read_idx: usize,
    read_idx: usize,
    cached_write_idx: usize,
}

impl<T> View for Core<T> {
    type V = Seq<T>;

    /// The items held, oldest first.
    closed spec fn view(&self) -> Seq<T> {
        ring_items(self.buffer@, self.read_idx, self.write_idx)
    }
}

impl<T> Core<T> {
    /// The slots, the capacity and the indices fit together, and each cached
    /// copy lies where the index it copies has been: the copy of the read
    /// index behind the read index and at most `capacity` behind the write
    /// index, the copy of the write index between the read index and the
    /// write index.
    pub closed spec fn wf(&self) -> bool {
        &&& self.allocated_size == self.buffer.len()
        &&& ring_wf(self.buffer@, self.capacity, self.read_idx, self.write_idx)
        &&& occupancy(self.read_idx, self.cached_read_idx) + occupancy(
            self.write_idx,
            self.read_idx,
        ) <= self.capacity
        &&& occupancy(self.cached_write_idx, self.read_idx) + occupancy(
            self.write_idx,
            self.cached_write_idx,
        ) == occupancy(self.write_idx, self.read_idx)
    }

    /// The capacity that the buffer was made with.
    pub closed spec fn capacity(&self) -> nat {
        self.capacity as nat
    }

    /// The number of slots allocated.
    pub closed spec fn allocated_len(&self) -> nat {
        self.allocated_size as nat
    }

    /// The write index.
    pub closed spec fn write_index(&self) -> usize {
        self.write_idx
    }

    /// The read index.
    pub closed spec fn read_index(&self) -> usize {
        self.read_idx
    }

    /// The producer's copy of the read index.
    pub closed spec fn cached_read_index(&self) -> usize {
        self.cached_read_idx
    }

    /// The consumer's copy of the write index.
    pub closed spec fn cached_write_index(&self) -> usize {
        self.cached_write_idx
    }

    /// The buffer as a state of the protocol's machine with no operation
    /// under way, for a history in which `delivered` has come out before.
    pub closed spec fn machine(&self, delivered: Seq<T>) -> Protocol<T> {
        Protocol {
            capacity: self.capacity,
            slots: self.buffer@,
            write_idx: self.write_idx,
            read_idx: self.read_idx,
            cached_read_idx: self.cached_read_idx,
            cached_write_idx: self.cached_write_idx,
            staged: None,
            taken: None,
            accepted: delivered + self@,
            delivered,
        }
    }

    /// A well-formed buffer is a state that the machine can reach: it
    /// satisfies the machine's invariant.
    pub proof fn lemma_machine_inv(&self, delivered: Seq<T>)
        requires
            self.wf(),
        ensures
            inv(self.machine(delivered)),
            self.machine(delivered).staged is None,
            self.machine(delivered).taken is None,
    {
        let s = self.machine(delivered);
        lemma_index_range_is_power_of_two();
        lemma_wrapping_sub_is_occupancy(self.write_idx, self.read_idx);
        assert(pending(s) =~= self@);
        assert(s.accepted =~= removed(s) + pending(s));
    }

    /// A buffer never holds more than its capacity, and its slots are the
    /// capacity rounded up to a power of two.
    pub proof fn lemma_bounded(&self)
        requires
            self.wf(),
        ensures
            self@.len() == occupancy(self.write_index(), self.read_index()),
            self@.len() <= self.capacity(),
            1 <= self.capacity() <= self.allocated_len(),
            is_rounded_capacity(self.capacity() as int, self.allocated_len() as int),
    {
        lemma_wrapping_sub_is_occupancy(self.write_idx, self.read_idx);
    }

    /// Neither cached copy ever crosses the index of the side that keeps it:
    /// each agrees with that index, and a copy that shows room or an item
    /// shows what is truly there.
    pub proof fn lemma_cached_bounded(&self)
        requires
            self.wf(),
        ensures
            indices_agree(self.write_index(), self.cached_read_index(), self.capacity()),
            indices_agree(self.cached_write_index(), self.read_index(), self.capacity()),
            producer_sees_room(self.write_index(), self.cached_read_index(), self.capacity())
                ==> self@.len() < self.capacity(),
            consumer_sees_item(self.read_index(), self.cached_write_index()) ==> self@.len() >= 1,
    {
        lemma_index_range_is_power_of_two();
        lemma_wrapping_sub_is_occupancy(self.write_idx, self.read_idx);
        lemma_wrapping_sub_is_occupancy(self.read_idx, self.cached_read_idx);
        lemma_wrapping_sub_is_occupancy(self.cached_write_idx, self.read_idx);
        lemma_wrapping_sub_is_occupancy(self.write_idx, self.cached_write_idx);
        lemma_occupancy_adds(self.cached_read_idx, self.read_idx, self.write_idx);
    }

    /// Makes an empty buffer that holds up to `capacity` items.
    pub fn with_capacity(capacity: usize) -> (b: Self)
        requires
            1 <= capacity <= MAX_CAPACITY,
        ensures
            b.wf(),
            b@ == Seq::<T>::empty(),
            b.capacity() == capacity,
            is_rounded_capacity(capacity as int, b.allocated_len() as int),
    {
        let buffer = allocate_buffer(capacity);
        let allocated_size = buffer.len();
        proof {
            lemma_index_range_is_power_of_two();
            lemma_ring_empty(buffer@, capacity, 0);
        }
        Self {
            buffer,
            capacity,
            allocated_size,
            write_idx: 0,
            cached_read_idx: 0,
            read_idx: 0,
            cached_write_idx: 0,
        }
    }

    /// The number of slots allocated.
    pub fn allocated_size(&self) -> (n: usize)
        ensures
            n == self.allocated_len(),
    {
        self.allocated_size
    }

    /// The slot on which index `idx` falls.
    #[inline]
    fn buf_offset(&self, idx: usize) -> (at: usize)
        requires
            self.wf(),
        ensures
            at == slot_of(idx as int, self.buffer.len() as int),
            at < self.buffer.len(),
    {
        slot(idx, self.allocated_size)
    }

    /// Takes what the slot of index `pos` holds and leaves the slot empty.
    #[inline]
    fn load(&mut self, pos: usize) -> (v: Option<T>)
        requires
            old(self).wf(),
        ensures
            v == old(self).buffer[slot_of(pos as int, old(self).buffer.len() as int)],
            final(self).buffer@ == old(self).buffer@.update(
                slot_of(pos as int, old(self).buffer.len() as int),
                None,
            ),
            final(self).capacity == old(self).capacity,
            final(self).allocated_size == old(self).allocated_size,
            final(self).read_idx == old(self).read_idx,
            final(self).write_idx == old(self).write_idx,
            final(self).cached_read_idx == old(self).cached_read_idx,
            final(self).cached_write_idx == old(self).cached_write_idx,
    {
        let at = self.buf_offset(pos);
        self.buffer[at].take()
    }

    /// Puts `v` on the slot of index `pos`.
    #[inline]
    fn store(&mut self, pos: usize, v: T)
        requires
            old(self).wf(),
        ensures
            final(self).buffer@ == old(self).buffer@.update(
                slot_of(pos as int, old(self).buffer.len() as int),
                Some(v),
            ),
            final(self).capacity == old(self).capacity,
            final(self).allocated_size == old(self).allocated_size,
            final(self).read_idx == old(self).read_idx,
            final(self).write_idx == old(self).write_idx,
            final(self).cached_read_idx == old(self).cached_read_idx,
            final(self).cached_write_idx == old(self).cached_write_idx,
    {
        let at = self.buf_offset(pos);
        self.buffer[at] = Some(v);
    }
}

impl<T> RingBufTrait<T> for Core<T> {
    open spec fn wf(&self) -> bool {
        Core::wf(self)
    }

    open spec fn limit(&self) -> nat {
        self.capacity()
    }

    open spec fn items(&self) -> Seq<T> {
        self@
    }

    /// The copy of the read index is refreshed only when it shows no room;
    /// a copy that shows room is left as it is.
    fn enqueue(&mut self, item: T) -> (stored: bool)
        ensures
            final(self).allocated_len() == old(self).allocated_len(),
            final(self).read_index() == old(self).read_index(),
            final(self).cached_write_index() == old(self).cached_write_index(),
            final(self).cached_read_index() == if producer_sees_room(
                old(self).write_index(),
                old(self).cached_read_index(),
                old(self).capacity(),
            ) {
                old(self).cached_read_index()
            } else {
                old(self).read_index()
            },
            forall|delivered: Seq<T>|
                final(self).machine(delivered) == run(
                    #[trigger] old(self).machine(delivered),
                    enqueue_steps(old(self).machine(delivered), item),
                ),
    {
        proof {
            lemma_index_range_is_power_of_two();
            lemma_wrapping_sub_is_occupancy(self.write_idx, self.read_idx);
            lemma_wrapping_sub_is_occupancy(self.read_idx, self.cached_read_idx);
            lemma_wrapping_sub_is_occupancy(self.read_idx, self.read_idx);
            lemma_wrapping_sub_is_occupancy(self.write_idx, self.cached_write_idx);
            lemma_occupancy_adds(self.cached_read_idx, self.read_idx, self.write_idx);
        }
        let write_idx = self.write_idx;
        if !sees_room(write_idx, self.cached_read_idx, self.capacity) {
            self.cached_read_idx = self.read_idx;
            // the refreshed copy cannot have crossed the write index
            assert(indices_agree(write_idx, self.cached_read_idx, self.capacity as nat));
            if !sees_room(write_idx, self.cached_read_idx, self.capacity) {
                proof {
                    assert forall|delivered: Seq<T>|
                        self.machine(delivered) == run(
                            #[trigger] old(self).machine(delivered),
                            enqueue_steps(old(self).machine(delivered), item),
                        ) by {
                        let s = old(self).machine(delivered);
                        lemma_short_runs(
                            s,
                            Step::ProducerRefresh,
                            Step::ProducerRefresh,
                            Step::ProducerRefresh,
                        );
                        assert(self.machine(delivered) =~= run(s, enqueue_steps(s, item)));
                    }
                }
                return false;
            }
        }
        proof {
            lemma_ring_push(self.buffer@, self.capacity, self.read_idx, self.write_idx, item);
            lemma_occupancy_after_write(self.write_idx, self.read_idx);
            lemma_occupancy_after_write(self.write_idx, self.cached_write_idx);
        }
        self.store(write_idx, item);
        self.write_idx = advance(write_idx);
        proof {
            assert forall|delivered: Seq<T>|
                self.machine(delivered) == run(
                    #[trigger] old(self).machine(delivered),
                    enqueue_steps(old(self).machine(delivered), item),
                ) by {
                let s = old(self).machine(delivered);
                lemma_short_runs(
                    s,
                    Step::ProducerStore(item),
                    Step::ProducerPublish,
                    Step::ProducerPublish,
                );
                lemma_short_runs(
                    s,
                    Step::ProducerRefresh,
                    Step::ProducerStore(item),
                    Step::ProducerPublish,
                );
                assert(self.machine(delivered).accepted =~= s.accepted.push(item));
                assert(self.machine(delivered) =~= run(s, enqueue_steps(s, item)));
            }
        }
        true
    }

    /// The copy of the write index is refreshed only when it shows no item;
    /// a copy that shows an item is left as it is.
    fn dequeue(&mut self) -> (item: Option<T>)
        ensures
            final(self).allocated_len() == old(self).allocated_len(),
            final(self).write_index() == old(self).write_index(),
            final(self).cached_read_index() == old(self).cached_read_index(),
            final(self).cached_write_index() == if consumer_sees_item(
                old(self).read_index(),
                old(self).cached_write_index(),
            ) {
                old(self).cached_write_index()
            } else {
                old(self).write_index()
            },
            forall|delivered: Seq<T>|
                final(self).machine(
                    match item {
                        Some(v) => delivered.push(v),
                        None => delivered,
                    },
                ) == run(
                    #[trigger] old(self).machine(delivered),
                    dequeue_steps(old(self).machine(delivered)),
                ),
    {
        proof {
            lemma_index_range_is_power_of_two();
            lemma_wrapping_sub_is_occupancy(self.write_idx, self.read_idx);
            lemma_wrapping_sub_is_occupancy(self.read_idx, self.cached_read_idx);
            lemma_wrapping_sub_is_occupancy(self.write_idx, self.write_idx);
            lemma_wrapping_sub_is_occupancy(self.cached_write_idx, self.read_idx);
            lemma_wrapping_sub_is_occupancy(self.write_idx, self.cached_write_idx);
        }
        let read_idx = self.read_idx;
        if !sees_item(read_idx, self.cached_write_idx) {
            self.cached_write_idx = self.write_idx;
            // the refreshed copy cannot have crossed the read index
            assert(indices_agree(self.cached_write_idx, read_idx, self.capacity as nat));
            if !sees_item(read_idx, self.cached_write_idx) {
                proof {
                    assert forall|delivered: Seq<T>|
                        self.machine(delivered) == run(
                            #[trigger] old(self).machine(delivered),
                            dequeue_steps(old(self).machine(delivered)),
                        ) by {
                        let s = old(self).machine(delivered);
                        lemma_short_runs(
                            s,
                            Step::ConsumerRefresh,
                            Step::ConsumerRefresh,
                            Step::ConsumerRefresh,
                        );
                        assert(self.machine(delivered) =~= run(s, dequeue_steps(s)));
                    }
                }
                return None;
            }
        }
        proof {
            lemma_ring_pop(self.buffer@, self.capacity, self.read_idx, self.write_idx);
            lemma_occupancy_after_read(self.write_idx, self.read_idx);
            lemma_occupancy_after_read(self.cached_write_idx, self.read_idx);
            lemma_occupancy_after_write(self.read_idx, self.cached_read_idx);
        }
        let v = self.load(read_idx);
        self.read_idx = advance(read_idx);
        proof {
            let out = v->Some_0;
            assert(v == Some(out));
            assert forall|delivered: Seq<T>|
                self.machine(delivered.push(out)) == run(
                    #[trigger] old(self).machine(delivered),
                    dequeue_steps(old(self).machine(delivered)),
                ) by {
                let s = old(self).machine(delivered);
                lemma_short_runs(
                    s,
                    Step::ConsumerTake,
                    Step::ConsumerPublish,
                    Step::ConsumerPublish,
                );
                lemma_short_runs(
                    s,
                    Step::ConsumerRefresh,
                    Step::ConsumerTake,
                    Step::ConsumerPublish,
                );
                assert(old(self)@ =~= seq![out] + self@);
                assert(self.machine(delivered.push(out)).accepted =~= s.accepted);
                assert(self.machine(delivered.push(out)) =~= run(s, dequeue_steps(s)));
            }
        }
        v
    }
}

/// The state shared by a producer and a consumer.
///
/// Each side's copy of the peer's index is read and written by that side
/// alone. It is kept in an atomic, accessed with relaxed ordering, because
/// the buffer as a whole is shared between the threads.
///
/// The filler arrays size the header and each index group to one cache line
/// of `CACHELINE_LEN` bytes on a machine with words of `WORD_LEN` bytes, so
/// that the producer's writes to its group need not invalidate the line that
/// holds the consumer's group. The order of the fields in memory is left to
/// the compiler.
#[verifier::reject_recursive_types(T)]
pub struct Buffer<T> {
    buffer: Vec<Mutex<Option<T>>>,
    capacity: usize,
    allocated_size: usize,
    _padding0: [usize; HEADER_PAD],
    write_idx: AtomicUsize,
    cached_read_idx: AtomicUsize,
    _padding1: [usize; INDEX_PAD],
    read_idx: AtomicUsize,
    cached_write_idx: AtomicUsize,
}

/// The handle that dequeues.
#[verifier::reject_recursive_types(T)]
pub struct Consumer<T> {
    buffer: Arc<Buffer<T>>,
}

/// The handle that enqueues.
#[verifier::reject_recursive_types(T)]
pub struct Producer<T> {
    buffer: Arc<Buffer<T>>,
}

impl<T> Buffer<T> {
    #[verifier::type_invariant]
    spec fn inv(&self) -> bool {
        &&& 1 <= self.capacity
        &&& self.allocated_size == self.buffer.len()
        &&& is_rounded_capacity(self.capacity as int, self.allocated_size as int)
    }

    /// The capacity that the buffer was made with.
    pub closed spec fn capacity(&self) -> nat {
        self.capacity as nat
    }

    /// The number of slots allocated.
    pub closed spec fn allocated_len(&self) -> nat {
        self.allocated_size as nat
    }

    /// Makes a buffer that holds up to `capacity` items, with empty slots
    /// and all indices at zero.
    pub fn with_capacity(capacity: usize) -> (b: Self)
        requires
            1 <= capacity <= MAX_CAPACITY,
        ensures
            b.capacity() == capacity,
            is_rounded_capacity(capacity as int, b.allocated_len() as int),
    {
        let allocated_size = next_power_of_two(capacity);
        let buffer = allocate_slots(allocated_size);
        Self {
            buffer,
            capacity,
            allocated_size,
            _padding0: [0; HEADER_PAD],
            write_idx: AtomicUsize::new(0),
            cached_read_idx: AtomicUsize::new(0),
            _padding1: [0; INDEX_PAD],
            read_idx: AtomicUsize::new(0),
            cached_write_idx: AtomicUsize::new(0),
        }
    }

    /// The number of slots allocated.
    pub fn allocated_size(&self) -> (n: usize)
        ensures
            n == self.allocated_len(),
    {
        self.allocated_size
    }

    /// The slot on which index `idx` falls.
    #[inline]
    fn buf_offset(&self, idx: usize) -> (at: usize)
        ensures
            at == slot_of(idx as int, self.allocated_len() as int),
            at < self.buffer.len(),
    {
        proof {
            use_type_invariant(self);
        }
        slot(idx, self.allocated_size)
    }

    /// Takes what the slot of index `pos` holds.
    #[inline]
    fn load(&self, pos: usize) -> Option<T> {
        let at = self.buf_offset(pos);
        exchange(&self.buffer[at], None)
    }

    /// Puts `v` on the slot of index `pos`.
    #[inline]
    fn store(&self, pos: usize, v: T) {
        let at = self.buf_offset(pos);
        let _ = exchange(&self.buffer[at], Some(v));
    }

    /// Stores `item` on the write index's slot and publishes the next write
    /// index.
    fn commit(&self, write_idx: usize, item: T) {
        self.store(write_idx, item);
        publish(&self.write_idx, advance(write_idx));
    }

    /// Takes what the read index's slot holds and hands it on as
    /// [`Buffer::deliver`] does.
    fn withdraw(&self, read_idx: usize) -> Option<T> {
        let held = self.load(read_idx);
        self.deliver(read_idx, held)
    }

    /// Finishes a dequeue, given what the read index's slot held: publishes
    /// the next read index and hands on what was taken.
    fn deliver(&self, read_idx: usize, held: Option<T>) -> (item: Option<T>)
        ensures
            item == held,
    {
        publish(&self.read_idx, advance(read_idx));
        held
    }

    /// Tries an enqueue on the cached copy of the read index alone, without
    /// a look at the consumer: if the copy shows room, stores the item,
    /// publishes the next write index and returns `None`; if not, touches
    /// nothing and hands the item back, for the caller to refresh the copy
    /// and try again with [`Buffer::enqueue_refreshed`].
    fn enqueue_cached(&self, write_idx: usize, cached_read_idx: usize, item: T) -> (back: Option<
        T,
    >)
        ensures
            back is None <==> producer_sees_room(write_idx, cached_read_idx, self.capacity()),
            back matches Some(x) ==> x == item,
    {
        if sees_room(write_idx, cached_read_idx, self.capacity) {
            self.commit(write_idx, item);
            None
        } else {
            Some(item)
        }
    }

    /// Tries a dequeue on the cached copy of the write index alone, without
    /// a look at the producer: if the copy shows an item, takes what the
    /// read index's slot holds, publishes the next read index and returns
    /// what was taken inside `Some`; if not, touches nothing and returns
    /// `None`, for the caller to refresh the copy and try again with
    /// [`Buffer::dequeue_refreshed`].
    fn dequeue_cached(&self, read_idx: usize, cached_write_idx: usize) -> (taken: Option<
        Option<T>,
    >)
        ensures
            taken is Some <==> consumer_sees_item(read_idx, cached_write_idx),
    {
        if sees_item(read_idx, cached_write_idx) {
            Some(self.withdraw(read_idx))
        } else {
            None
        }
    }

    /// Finishes an enqueue whose cached read index left no room, given the
    /// read index as just read from the consumer: keeps it as the new cached
    /// copy and checks it against the write index. A reading that does not
    /// agree is reported as [`Crossed`]; one that leaves no room refuses the
    /// item; otherwise the item is stored and the next write index
    /// published.
    fn enqueue_refreshed(&self, write_idx: usize, read_idx: usize, item: T) -> (r: Result<
        bool,
        Crossed,
    >)
        ensures
            r is Err <==> !indices_agree(write_idx, read_idx, self.capacity()),
            r matches Ok(stored) ==> stored == producer_sees_room(
                write_idx,
                read_idx,
                self.capacity(),
            ),
    {
        store_own(&self.cached_read_idx, read_idx);
        if !within_capacity(write_idx, read_idx, self.capacity) {
            return Err(Crossed);
        }
        if !sees_room(write_idx, read_idx, self.capacity) {
            return Ok(false);
        }
        self.commit(write_idx, item);
        Ok(true)
    }

    /// Finishes a dequeue whose cached write index showed no item, given the
    /// write index as just read from the producer: keeps it as the new cached
    /// copy and checks it against the read index. A reading that does not
    /// agree is reported as [`Crossed`]; one that shows no item gives
    /// `None`; otherwise what the read index's slot holds is taken, the next
    /// read index published, and what was taken returned inside `Some`.
    fn dequeue_refreshed(&self, read_idx: usize, write_idx: usize) -> (r: Result<
        Option<Option<T>>,
        Crossed,
    >)
        ensures
            r is Err <==> !indices_agree(write_idx, read_idx, self.capacity()),
            r matches Ok(taken) ==> (taken is Some <==> consumer_sees_item(read_idx, write_idx)),
    {
        store_own(&self.cached_write_idx, write_idx);
        if !within_capacity(write_idx, read_idx, self.capacity) {
            return Err(Crossed);
        }
        if !sees_item(read_idx, write_idx) {
            return Ok(None);
        }
        Ok(Some(self.withdraw(read_idx)))
    }

    /// Stores `item` and answers `Ok(true)`, or answers `Ok(false)` when the
    /// buffer is full. The consumer's read index is read only when the
    /// cached copy leaves no room; a reading that has crossed the write
    /// index is answered by `Err`, and nothing is stored. To be called by
    /// the one producer only.
    ///
    /// What is returned depends on the shared indices at the moment they are
    /// read, and a shared reference shows nothing of the content, so nothing
    /// is promised here. The function only reads the indices and hands them
    /// on; what is decided and done with them is what [`Core`] does with its
    /// own.
    pub fn enqueue_checked(&self, item: T) -> Result<bool, Crossed> {
        let write_idx = load_own(&self.write_idx);
        let cached_read_idx = load_own(&self.cached_read_idx);
        match self.enqueue_cached(write_idx, cached_read_idx, item) {
            None => Ok(true),
            Some(item) => {
                let read_idx = load_peer(&self.read_idx);
                self.enqueue_refreshed(write_idx, read_idx, item)
            },
        }
    }

    /// Removes and returns the oldest item inside `Ok`, or answers
    /// `Ok(None)` when the buffer is empty. The producer's write index is
    /// read only when the cached copy shows no item; a reading that has
    /// crossed the read index is answered by `Err`, and nothing is taken.
    /// To be called by the one consumer only.
    ///
    /// What is returned depends on the shared indices at the moment they are
    /// read, and a shared reference shows nothing of the content, so nothing
    /// is promised here. The function only reads the indices and hands them
    /// on; what is decided and done with them is what [`Core`] does with its
    /// own.
    pub fn dequeue_checked(&self) -> Result<Option<T>, Crossed> {
        let read_idx = load_own(&self.read_idx);
        let cached_write_idx = load_own(&self.cached_write_idx);
        match self.dequeue_cached(read_idx, cached_write_idx) {
            Some(taken) => Ok(taken),
            None => {
                let write_idx = load_peer(&self.write_idx);
                match self.dequeue_refreshed(read_idx, write_idx) {
                    Err(e) => Err(e),
                    Ok(Some(taken)) => Ok(taken),
                    Ok(None) => Ok(None),
                }
            },
        }
    }

    /// Stores `item` and returns `true`, or returns `false` when the buffer
    /// is full. As [`Buffer::enqueue_checked`], with a crossed reading
    /// answered by a refusal; a caller that is to stop on a crossed reading
    /// calls [`Buffer::enqueue_checked`].
    pub fn enqueue(&self, item: T) -> bool {
        match self.enqueue_checked(item) {
            Ok(stored) => stored,
            Err(_) => false,
        }
    }

    /// Removes and returns the oldest item, or returns `None` when the buffer
    /// is empty. As [`Buffer::dequeue_checked`], with a crossed reading
    /// answered by `None`; a caller that is to stop on a crossed reading
    /// calls [`Buffer::dequeue_checked`].
    pub fn dequeue(&self) -> Option<T> {
        match self.dequeue_checked() {
            Ok(item) => item,
            Err(_) => None,
        }
    }
}

/// Makes a buffer that holds up to `capacity` items and the two handles that
/// share it.
pub fn make<T>(capacity: usize) -> (handles: (Producer<T>, Consumer<T>))
    requires
        1 <= capacity <= MAX_CAPACITY,
    ensures
        handles.0.shared() == handles.1.shared(),
        handles.0.shared().capacity() == capacity,
        is_rounded_capacity(capacity as int, handles.0.shared().allocated_len() as int),
{
    let arc = Arc::new(Buffer::with_capacity(capacity));
    (Producer { buffer: arc.clone() }, Consumer { buffer: arc })
}

impl<T> Producer<T> {
    /// The buffer that the handle enqueues into.
    pub closed spec fn shared(&self) -> Buffer<T> {
        *self.buffer
    }

    /// Enqueues as [`Buffer::enqueue_checked`] does.
    pub fn enqueue_checked(&self, item: T) -> Result<bool, Crossed> {
        (*self.buffer).enqueue_checked(item)
    }
}

impl<T> Consumer<T> {
    /// The buffer that the handle dequeues from.
    pub closed spec fn shared(&self) -> Buffer<T> {
        *self.buffer
    }

    /// Dequeues as [`Buffer::dequeue_checked`] does.
    pub fn dequeue_checked(&self) -> Result<Option<T>, Crossed> {
        (*self.buffer).dequeue_checked()
    }
}

impl<T> RingBufProducer<T> for Producer<T> {
    fn enqueue(&self, item: T) -> bool {
        (*self.buffer).enqueue(item)
    }
}

impl<T> RingBufConsumer<T> for Consumer<T> {
    fn dequeue(&self) -> Option<T> {
        (*self.buffer).dequeue()
    }
}

} // verus!
