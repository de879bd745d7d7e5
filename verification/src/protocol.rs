//! The protocol between the one producer and the one consumer, as a state
//! machine over plain values, and the proof that every interleaving of their
//! steps keeps the buffer sound.
//!
//! The producer's enqueue and the consumer's dequeue each touch the shared
//! state in separate steps: refresh the cached copy of the peer's index, move
//! an item in or out of a slot, publish the own index. The peer may take any
//! number of steps in between. The machine below has one transition for each
//! of these steps, guarded by the same tests that the executable code makes.
//! The uncached variant is the special case in which the copies are always
//! fresh.
//!
//! The forms of the two variants that one owner holds, [`crate::r2::Core`]
//! and [`crate::r3::Core`], are proved to carry out an operation as the run
//! of steps that [`enqueue_steps`] and [`dequeue_steps`] name. Of the forms
//! that two threads share nothing of the kind is proved: they call the same
//! verified functions for every decision, slot and next index, and that is
//! all that ties them to the machine.
//!
//! The machine takes each step as one indivisible action, and each side sees
//! the other's steps in the order in which they were taken. In the running
//! code it is the release store and the acquire load of an index that give
//! this order: whoever reads a published index also sees the slot that was
//! written or emptied before it was published.
use vstd::prelude::*;
use crate::index::{
    index_range, is_rounded_capacity, lemma_congruent_slots, lemma_index_range_is_power_of_two,
    lemma_occupancy_after_read, lemma_occupancy_after_write, lemma_slot_unique,
    lemma_wrapping_add_is_next, lemma_wrapping_sub_is_occupancy, next_index, occupancy, slot_of,
    MAX_CAPACITY,
};
use crate::ring::{
    lemma_congruent_len, lemma_slot_in_bounds, lemma_write_slot, ring_items, ring_wf, slot_at,
};

verus! {

/// The shared buffer together with what each side keeps to itself and the
/// history of what went in and came out.
#[verifier::ext_equal]
pub struct Protocol<T> {
    /// The capacity that the buffer was made with.
    pub capacity: usize,
    /// The slots.
    pub slots: Seq<Option<T>>,
    /// The write index as published by the producer.
    pub write_idx: usize,
    /// The read index as published by the consumer.
    pub read_idx: usize,
    /// The producer's copy of the read index.
    pub cached_read_idx: usize,
    /// The consumer's copy of the write index.
    pub cached_write_idx: usize,
    /// The item that the producer has stored but not yet published.
    pub staged: Option<T>,
    /// The item that the consumer has taken while the read index still
    /// points at its slot.
    pub taken: Option<T>,
    /// Every item whose enqueue has completed, in order.
    pub accepted: Seq<T>,
    /// Every item whose dequeue has completed, in order.
    pub delivered: Seq<T>,
}

/// One step of one side.
pub enum Step<T> {
    /// The producer copies the published read index.
    ProducerRefresh,
    /// The producer puts an item on the write index's slot.
    ProducerStore(T),
    /// The producer publishes the next write index.
    ProducerPublish,
    /// The consumer copies the published write index.
    ConsumerRefresh,
    /// The consumer empties the read index's slot.
    ConsumerTake,
    /// The consumer publishes the next read index.
    ConsumerPublish,
}

/// The producer may store: by its own copy of the read index, fewer than
/// `capacity` items lie before the write index.
pub open spec fn producer_sees_room(write_idx: usize, cached_read_idx: usize, capacity: nat) -> bool {
    occupancy(write_idx, cached_read_idx) < capacity
}

/// The consumer may take: by its own copy of the write index, the read index
/// has not caught up.
pub open spec fn consumer_sees_item(read_idx: usize, cached_write_idx: usize) -> bool {
    cached_write_idx != read_idx
}

/// Exactly `capacity` items lie between the two indices.
pub open spec fn indices_full(write_idx: usize, read_idx: usize, capacity: nat) -> bool {
    occupancy(write_idx, read_idx) == capacity
}

/// The two indices are as far apart as one producer and one consumer can
/// bring them: at most `capacity` items lie between them.
pub open spec fn indices_agree(write_idx: usize, read_idx: usize, capacity: nat) -> bool {
    occupancy(write_idx, read_idx) <= capacity
}

/// A reading of the peer's index that no run of one producer and one
/// consumer can give: it puts more than `capacity` items between the indices.
#[derive(Debug, Clone, Copy, PartialEq, Eq)]
pub struct Crossed;

/// Tests whether exactly `capacity` items lie between the write index and a
/// reading of the read index.
pub fn is_full(write_idx: usize, read_idx: usize, capacity: usize) -> (full: bool)
    ensures
        full == indices_full(write_idx, read_idx, capacity as nat),
{
    proof {
        lemma_wrapping_sub_is_occupancy(write_idx, read_idx);
    }
    write_idx.wrapping_sub(read_idx) == capacity
}

/// Checks a reading of the peer's index against the own index: at most
/// `capacity` items may lie between the two.
pub fn within_capacity(write_idx: usize, read_idx: usize, capacity: usize) -> (ok: bool)
    ensures
        ok == indices_agree(write_idx, read_idx, capacity as nat),
{
    proof {
        lemma_wrapping_sub_is_occupancy(write_idx, read_idx);
    }
    write_idx.wrapping_sub(read_idx) <= capacity
}

/// Tests whether the producer may store, given the write index and a reading
/// of the read index: fewer than `capacity` items lie between them.
pub fn sees_room(write_idx: usize, read_idx: usize, capacity: usize) -> (room: bool)
    ensures
        room == producer_sees_room(write_idx, read_idx, capacity as nat),
{
    proof {
        lemma_wrapping_sub_is_occupancy(write_idx, read_idx);
    }
    write_idx.wrapping_sub(read_idx) < capacity
}

/// Tests whether the consumer may take, given the read index and a reading
/// of the write index: the two differ.
pub fn sees_item(read_idx: usize, write_idx: usize) -> (item: bool)
    ensures
        item == consumer_sees_item(read_idx, write_idx),
{
    write_idx != read_idx
}

/// A freshly made buffer: empty slots, all indices zero, nothing under way.
pub open spec fn initial<T>(capacity: usize, allocated: nat) -> Protocol<T> {
    Protocol {
        capacity,
        slots: Seq::new(allocated, |i: int| None::<T>),
        write_idx: 0,
        read_idx: 0,
        cached_read_idx: 0,
        cached_write_idx: 0,
        staged: None,
        taken: None,
        accepted: Seq::empty(),
        delivered: Seq::empty(),
    }
}

/// The step may be taken in state `s`.
pub open spec fn enabled<T>(s: Protocol<T>, step: Step<T>) -> bool {
    match step {
        Step::ProducerRefresh => s.staged is None,
        Step::ProducerStore(_) => s.staged is None && producer_sees_room(
            s.write_idx,
            s.cached_read_idx,
            s.capacity as nat,
        ),
        Step::ProducerPublish => s.staged is Some,
        Step::ConsumerRefresh => s.taken is None,
        Step::ConsumerTake => s.taken is None && consumer_sees_item(
            s.read_idx,
            s.cached_write_idx,
        ),
        Step::ConsumerPublish => s.taken is Some,
    }
}

/// The state after the step.
pub open spec fn apply<T>(s: Protocol<T>, step: Step<T>) -> Protocol<T> {
    let len = s.slots.len() as int;
    match step {
        Step::ProducerRefresh => Protocol { cached_read_idx: s.read_idx, ..s },
        Step::ProducerStore(item) => Protocol {
            slots: s.slots.update(slot_of(s.write_idx as int, len), Some(item)),
            staged: Some(item),
            ..s
        },
        Step::ProducerPublish => Protocol {
            write_idx: next_index(s.write_idx),
            staged: None,
            accepted: s.accepted.push(s.staged->Some_0),
            ..s
        },
        Step::ConsumerRefresh => Protocol { cached_write_idx: s.write_idx, ..s },
        Step::ConsumerTake => Protocol {
            slots: s.slots.update(slot_of(s.read_idx as int, len), None),
            taken: s.slots[slot_of(s.read_idx as int, len)],
            ..s
        },
        Step::ConsumerPublish => Protocol {
            read_idx: next_index(s.read_idx),
            taken: None,
            delivered: s.delivered.push(s.taken->Some_0),
            ..s
        },
    }
}

/// Each step of `steps` may be taken in turn, starting from `s`.
pub open spec fn admissible<T>(s: Protocol<T>, steps: Seq<Step<T>>) -> bool
    decreases steps.len(),
{
    steps.len() == 0 || (enabled(s, steps[0]) && admissible(apply(s, steps[0]), steps.skip(1)))
}

/// The state after taking each step of `steps` in turn, starting from `s`.
pub open spec fn run<T>(s: Protocol<T>, steps: Seq<Step<T>>) -> Protocol<T>
    decreases steps.len(),
{
    if steps.len() == 0 {
        s
    } else {
        run(apply(s, steps[0]), steps.skip(1))
    }
}

/// The steps that an enqueue of `item` takes when nothing comes in between:
/// a refresh only if the cached copy of the read index shows no room, then
/// the store and the publish if there is room.
pub open spec fn enqueue_steps<T>(s: Protocol<T>, item: T) -> Seq<Step<T>> {
    if producer_sees_room(s.write_idx, s.cached_read_idx, s.capacity as nat) {
        seq![Step::ProducerStore(item), Step::ProducerPublish]
    } else if producer_sees_room(s.write_idx, s.read_idx, s.capacity as nat) {
        seq![Step::ProducerRefresh, Step::ProducerStore(item), Step::ProducerPublish]
    } else {
        seq![Step::ProducerRefresh]
    }
}

/// The steps that a dequeue takes when nothing comes in between: a refresh
/// only if the cached copy of the write index shows no item, then the take
/// and the publish if there is an item.
pub open spec fn dequeue_steps<T>(s: Protocol<T>) -> Seq<Step<T>> {
    if consumer_sees_item(s.read_idx, s.cached_write_idx) {
        seq![Step::ConsumerTake, Step::ConsumerPublish]
    } else if consumer_sees_item(s.read_idx, s.write_idx) {
        seq![Step::ConsumerRefresh, Step::ConsumerTake, Step::ConsumerPublish]
    } else {
        seq![Step::ConsumerRefresh]
    }
}

/// The state in which both sides have just refreshed their copies. The
/// uncached variant is the machine with the copies always in this state.
pub open spec fn fresh_copies<T>(s: Protocol<T>) -> Protocol<T> {
    Protocol { cached_read_idx: s.read_idx, cached_write_idx: s.write_idx, ..s }
}

/// The steps of an enqueue, and those of a dequeue, may be taken in every
/// state that satisfies the invariant, whenever the side that takes them is
/// not in the middle of an operation.
pub proof fn lemma_operation_steps_admissible<T>(s: Protocol<T>, item: T)
    requires
        inv(s),
    ensures
        s.staged is None ==> admissible(s, enqueue_steps(s, item)),
        s.taken is None ==> admissible(s, dequeue_steps(s)),
{
    reveal_with_fuel(admissible, 4);
    let e = enqueue_steps(s, item);
    let d = dequeue_steps(s);
    assert(e.len() >= 2 ==> e.skip(1)[0] == e[1]);
    assert(e.len() >= 3 ==> e.skip(1).skip(1)[0] == e[2]);
    assert(d.len() >= 2 ==> d.skip(1)[0] == d[1]);
    assert(d.len() >= 3 ==> d.skip(1).skip(1)[0] == d[2]);
    if s.taken is None {
        if consumer_sees_item(s.read_idx, s.cached_write_idx) {
            lemma_cached_item_is_real(s);
        } else if consumer_sees_item(s.read_idx, s.write_idx) {
            let t = apply(s, Step::ConsumerRefresh);
            lemma_step_keeps_inv(s, Step::ConsumerRefresh);
            lemma_cached_item_is_real(t);
        }
    }
}

/// A run of one, two or three steps is the steps applied in turn.
pub proof fn lemma_short_runs<T>(s: Protocol<T>, a: Step<T>, b: Step<T>, c: Step<T>)
    ensures
        run(s, seq![a]) == apply(s, a),
        run(s, seq![a, b]) == apply(apply(s, a), b),
        run(s, seq![a, b, c]) == apply(apply(apply(s, a), b), c),
{
    reveal_with_fuel(run, 4);
    assert(seq![a, b].skip(1)[0] == b);
    assert(seq![a, b, c].skip(1)[0] == b);
    assert(seq![a, b, c].skip(1).skip(1)[0] == c);
}

/// The offset from the read index of the first slot that still holds an
/// item: one while the consumer has taken an item and not yet published.
pub open spec fn first_held<T>(s: Protocol<T>) -> int {
    if s.taken is Some {
        1
    } else {
        0
    }
}

/// The offset from the read index just past the last slot that holds an
/// item: one more than the published count while the producer has stored an
/// item and not yet published.
pub open spec fn end_held<T>(s: Protocol<T>) -> int {
    occupancy(s.write_idx, s.read_idx) + if s.staged is Some {
        1int
    } else {
        0int
    }
}

/// The items that are published and not yet taken, oldest first.
pub open spec fn pending<T>(s: Protocol<T>) -> Seq<T> {
    Seq::new(
        (occupancy(s.write_idx, s.read_idx) - first_held(s)) as nat,
        |k: int| s.slots[slot_at(s.read_idx, k + first_held(s), s.slots.len() as int)]->Some_0,
    )
}

/// The items that a completed dequeue has returned or a dequeue under way
/// has taken, oldest first.
pub open spec fn removed<T>(s: Protocol<T>) -> Seq<T> {
    if s.taken is Some {
        s.delivered.push(s.taken->Some_0)
    } else {
        s.delivered
    }
}

/// What holds in every state that the two sides can reach.
pub open spec fn inv<T>(s: Protocol<T>) -> bool {
    let len = s.slots.len() as int;
    let occ = occupancy(s.write_idx, s.read_idx);
    &&& 1 <= s.capacity
    &&& len <= MAX_CAPACITY
    &&& is_rounded_capacity(s.capacity as int, len)
    &&& occupancy(s.read_idx, s.cached_read_idx) + end_held(s) <= s.capacity
    &&& occupancy(s.cached_write_idx, s.read_idx) + occupancy(s.write_idx, s.cached_write_idx)
        == occ
    &&& s.taken is Some ==> occupancy(s.cached_write_idx, s.read_idx) >= 1
    &&& forall|k: int|
        0 <= k < len ==> (s.slots[#[trigger] slot_at(s.read_idx, k, len)] is Some <==> first_held(s)
            <= k < end_held(s))
    &&& s.staged is Some ==> s.slots[slot_at(s.read_idx, occ, len)] == s.staged
    &&& s.accepted == removed(s) + pending(s)
}

/// Counts between three indices add up, as long as the sum stays inside the
/// index range.
pub proof fn lemma_occupancy_adds(low: usize, mid: usize, high: usize)
    requires
        occupancy(mid, low) + occupancy(high, mid) < index_range(),
    ensures
        occupancy(high, low) == occupancy(mid, low) + occupancy(high, mid),
{
    lemma_wrapping_sub_is_occupancy(mid, low);
    lemma_wrapping_sub_is_occupancy(high, mid);
    lemma_wrapping_sub_is_occupancy(high, low);
}

/// A freshly made buffer satisfies the invariant.
pub proof fn lemma_initial_inv<T>(capacity: usize, allocated: nat)
    requires
        1 <= capacity <= MAX_CAPACITY,
        is_rounded_capacity(capacity as int, allocated as int),
    ensures
        inv(initial::<T>(capacity, allocated)),
{
    let s = initial::<T>(capacity, allocated);
    let len = allocated as int;
    lemma_index_range_is_power_of_two();
    lemma_wrapping_sub_is_occupancy(0, 0);
    assert forall|k: int| 0 <= k < len implies (s.slots[#[trigger] slot_at(s.read_idx, k, len)] is Some
        <==> first_held(s) <= k < end_held(s)) by {
        lemma_slot_in_bounds(0 + k, len);
    }
    assert(s.accepted =~= removed(s) + pending(s));
}

/// Every step that may be taken keeps the invariant.
pub proof fn lemma_step_keeps_inv<T>(s: Protocol<T>, step: Step<T>)
    requires
        inv(s),
        enabled(s, step),
    ensures
        inv(apply(s, step)),
{
    match step {
        Step::ProducerRefresh => lemma_producer_refresh(s),
        Step::ProducerStore(item) => lemma_producer_store(s, item),
        Step::ProducerPublish => lemma_producer_publish(s),
        Step::ConsumerRefresh => lemma_consumer_refresh(s),
        Step::ConsumerTake => lemma_consumer_take(s),
        Step::ConsumerPublish => lemma_consumer_publish(s),
    }
}

proof fn lemma_producer_refresh<T>(s: Protocol<T>)
    requires
        inv(s),
        enabled(s, Step::ProducerRefresh),
    ensures
        inv(apply(s, Step::ProducerRefresh)),
{
    let t = apply(s, Step::ProducerRefresh);
    lemma_wrapping_sub_is_occupancy(s.read_idx, s.read_idx);
    lemma_wrapping_sub_is_occupancy(s.read_idx, s.cached_read_idx);
    assert(pending(t) =~= pending(s));
}

proof fn lemma_consumer_refresh<T>(s: Protocol<T>)
    requires
        inv(s),
        enabled(s, Step::ConsumerRefresh),
    ensures
        inv(apply(s, Step::ConsumerRefresh)),
{
    let t = apply(s, Step::ConsumerRefresh);
    lemma_wrapping_sub_is_occupancy(s.write_idx, s.write_idx);
    assert(pending(t) =~= pending(s));
}

proof fn lemma_producer_store<T>(s: Protocol<T>, item: T)
    requires
        inv(s),
        enabled(s, Step::ProducerStore(item)),
    ensures
        inv(apply(s, Step::ProducerStore(item))),
{
    let t = apply(s, Step::ProducerStore(item));
    let len = s.slots.len() as int;
    let occ = occupancy(s.write_idx, s.read_idx);
    let at = slot_of(s.write_idx as int, len);
    lemma_index_range_is_power_of_two();
    lemma_wrapping_sub_is_occupancy(s.read_idx, s.cached_read_idx);
    lemma_wrapping_sub_is_occupancy(s.write_idx, s.read_idx);
    lemma_wrapping_sub_is_occupancy(s.cached_write_idx, s.read_idx);
    lemma_occupancy_adds(s.cached_read_idx, s.read_idx, s.write_idx);
    lemma_slot_in_bounds(s.write_idx as int, len);
    lemma_write_slot(s.write_idx, s.read_idx, len);
    assert(at == slot_at(s.read_idx, occ, len));
    assert(occ < s.capacity);
    assert forall|k: int| 0 <= k < len implies (t.slots[#[trigger] slot_at(t.read_idx, k, len)] is Some
        <==> first_held(t) <= k < end_held(t)) by {
        lemma_slot_in_bounds(s.read_idx + k, len);
        if slot_at(s.read_idx, k, len) == at {
            lemma_slot_unique(s.read_idx + k, s.read_idx + occ, len);
        }
    }
    assert forall|k: int| 0 <= k < occ - first_held(s) implies pending(t)[k] == pending(s)[k] by {
        let j = k + first_held(s);
        lemma_slot_in_bounds(s.read_idx + j, len);
        if slot_at(s.read_idx, j, len) == at {
            lemma_slot_unique(s.read_idx + j, s.read_idx + occ, len);
        }
    }
    assert(pending(t) =~= pending(s));
}

proof fn lemma_producer_publish<T>(s: Protocol<T>)
    requires
        inv(s),
        enabled(s, Step::ProducerPublish),
    ensures
        inv(apply(s, Step::ProducerPublish)),
{
    let t = apply(s, Step::ProducerPublish);
    let len = s.slots.len() as int;
    let occ = occupancy(s.write_idx, s.read_idx);
    lemma_index_range_is_power_of_two();
    lemma_wrapping_sub_is_occupancy(s.read_idx, s.cached_read_idx);
    lemma_wrapping_sub_is_occupancy(s.write_idx, s.read_idx);
    lemma_wrapping_sub_is_occupancy(s.cached_write_idx, s.read_idx);
    lemma_wrapping_sub_is_occupancy(s.write_idx, s.cached_write_idx);
    lemma_occupancy_after_write(s.write_idx, s.read_idx);
    lemma_occupancy_after_write(s.write_idx, s.cached_write_idx);
    assert(end_held(t) == end_held(s));
    assert(first_held(s) <= occ);
    assert forall|k: int| 0 <= k < occ + 1 - first_held(s) implies pending(t)[k] == pending(s).push(
        s.staged->Some_0,
    )[k] by {}
    assert(pending(t) =~= pending(s).push(s.staged->Some_0));
    assert(t.accepted =~= removed(t) + pending(t));
}

proof fn lemma_consumer_take<T>(s: Protocol<T>)
    requires
        inv(s),
        enabled(s, Step::ConsumerTake),
    ensures
        inv(apply(s, Step::ConsumerTake)),
{
    let t = apply(s, Step::ConsumerTake);
    let len = s.slots.len() as int;
    let occ = occupancy(s.write_idx, s.read_idx);
    let at = slot_of(s.read_idx as int, len);
    lemma_index_range_is_power_of_two();
    lemma_wrapping_sub_is_occupancy(s.read_idx, s.cached_read_idx);
    lemma_wrapping_sub_is_occupancy(s.write_idx, s.read_idx);
    lemma_wrapping_sub_is_occupancy(s.cached_write_idx, s.read_idx);
    lemma_wrapping_sub_is_occupancy(s.write_idx, s.cached_write_idx);
    lemma_slot_in_bounds(s.read_idx as int, len);
    assert(at == slot_at(s.read_idx, 0, len));
    assert(occ >= 1);
    assert(s.slots[slot_at(s.read_idx, 0, len)] is Some);
    assert forall|k: int| 0 <= k < len implies (t.slots[#[trigger] slot_at(t.read_idx, k, len)] is Some
        <==> first_held(t) <= k < end_held(t)) by {
        lemma_slot_in_bounds(s.read_idx + k, len);
        if slot_at(s.read_idx, k, len) == at {
            lemma_slot_unique(s.read_idx + k, s.read_idx + 0, len);
        }
    }
    if s.staged is Some {
        lemma_slot_in_bounds(s.read_idx + occ, len);
        if slot_at(s.read_idx, occ, len) == at {
            lemma_slot_unique(s.read_idx + occ, s.read_idx + 0, len);
        }
    }
    assert forall|k: int| 0 <= k < occ - 1 implies pending(t)[k] == pending(s).skip(1)[k] by {
        lemma_slot_in_bounds(s.read_idx + (k + 1), len);
        if slot_at(s.read_idx, k + 1, len) == at {
            lemma_slot_unique(s.read_idx + (k + 1), s.read_idx + 0, len);
        }
    }
    assert(pending(t) =~= pending(s).skip(1));
    assert(pending(s)[0] == t.taken->Some_0);
    assert(seq![pending(s)[0]] + pending(s).skip(1) =~= pending(s));
    assert(t.accepted =~= removed(t) + pending(t));
}

proof fn lemma_consumer_publish<T>(s: Protocol<T>)
    requires
        inv(s),
        enabled(s, Step::ConsumerPublish),
    ensures
        inv(apply(s, Step::ConsumerPublish)),
{
    let t = apply(s, Step::ConsumerPublish);
    let len = s.slots.len() as int;
    let occ = occupancy(s.write_idx, s.read_idx);
    lemma_index_range_is_power_of_two();
    lemma_wrapping_sub_is_occupancy(s.read_idx, s.cached_read_idx);
    lemma_wrapping_sub_is_occupancy(s.write_idx, s.read_idx);
    lemma_wrapping_sub_is_occupancy(s.cached_write_idx, s.read_idx);
    lemma_wrapping_sub_is_occupancy(s.write_idx, s.cached_write_idx);
    lemma_occupancy_after_read(s.write_idx, s.read_idx);
    lemma_occupancy_after_read(s.cached_write_idx, s.read_idx);
    lemma_occupancy_after_write(s.read_idx, s.cached_read_idx);
    lemma_wrapping_add_is_next(s.read_idx);
    assert forall|k: int| 0 <= k <= len implies slot_at(t.read_idx, k, len) == slot_at(
        s.read_idx,
        k + 1,
        len,
    ) by {
        lemma_congruent_slots(t.read_idx + k, s.read_idx + (k + 1), len);
    }
    assert forall|k: int| 0 <= k < len implies (t.slots[#[trigger] slot_at(t.read_idx, k, len)] is Some
        <==> first_held(t) <= k < end_held(t)) by {
        if k + 1 < len {
            assert(s.slots[slot_at(s.read_idx, k + 1, len)] is Some <==> first_held(s) <= k + 1
                < end_held(s));
        } else {
            lemma_congruent_len(s.read_idx as int, len);
            assert(s.slots[slot_at(s.read_idx, 0, len)] is Some <==> first_held(s) <= 0
                < end_held(s));
        }
    }
    assert forall|k: int| 0 <= k < occ - 1 implies pending(t)[k] == pending(s)[k] by {}
    assert(pending(t) =~= pending(s));
    assert(t.accepted =~= removed(t) + pending(t));
}

/// Every interleaving keeps the invariant: whatever steps the two sides take,
/// in whatever order, as long as each may be taken when its turn comes.
pub proof fn lemma_run_keeps_inv<T>(s: Protocol<T>, steps: Seq<Step<T>>)
    requires
        inv(s),
        admissible(s, steps),
    ensures
        inv(run(s, steps)),
    decreases steps.len(),
{
    if steps.len() > 0 {
        lemma_step_keeps_inv(s, steps[0]);
        lemma_run_keeps_inv(apply(s, steps[0]), steps.skip(1));
    }
}

/// The number of items between the published indices never exceeds the
/// capacity.
pub proof fn lemma_occupancy_bounded<T>(s: Protocol<T>)
    requires
        inv(s),
    ensures
        0 <= occupancy(s.write_idx, s.read_idx) <= s.capacity,
{
    lemma_wrapping_sub_is_occupancy(s.write_idx, s.read_idx);
    lemma_wrapping_sub_is_occupancy(s.read_idx, s.cached_read_idx);
}

/// What has come out is the beginning of what has gone in, in the same
/// order; when as many items have come out as have gone in, the two
/// sequences are the same.
pub proof fn lemma_delivered_in_order<T>(s: Protocol<T>)
    requires
        inv(s),
    ensures
        s.delivered.is_prefix_of(s.accepted),
        s.delivered.len() == s.accepted.len() ==> s.delivered == s.accepted,
{
    assert(s.delivered.is_prefix_of(removed(s)));
    assert(removed(s).is_prefix_of(removed(s) + pending(s)));
    if s.delivered.len() == s.accepted.len() {
        assert(s.delivered =~= s.accepted);
    }
}

/// The round trip between one producer and one consumer: start from a
/// freshly made buffer of any capacity and let the two sides take any steps
/// in any order. Then the count between the indices is within the capacity,
/// what the consumer has received is a prefix of what the producer has
/// handed over, and once it has received as many items it has received
/// exactly those, in order.
pub proof fn lemma_round_trip<T>(capacity: usize, allocated: nat, steps: Seq<Step<T>>)
    requires
        1 <= capacity <= MAX_CAPACITY,
        is_rounded_capacity(capacity as int, allocated as int),
        admissible(initial::<T>(capacity, allocated), steps),
    ensures
        ({
            let end = run(initial::<T>(capacity, allocated), steps);
            &&& inv(end)
            &&& occupancy(end.write_idx, end.read_idx) <= capacity
            &&& end.delivered.is_prefix_of(end.accepted)
            &&& end.delivered.len() == end.accepted.len() ==> end.delivered == end.accepted
        }),
{
    let start = initial::<T>(capacity, allocated);
    lemma_initial_inv::<T>(capacity, allocated);
    lemma_run_keeps_inv(start, steps);
    lemma_run_capacity(start, steps);
    let end = run(start, steps);
    lemma_occupancy_bounded(end);
    lemma_delivered_in_order(end);
}

/// No step changes the capacity.
pub proof fn lemma_run_capacity<T>(s: Protocol<T>, steps: Seq<Step<T>>)
    ensures
        run(s, steps).capacity == s.capacity,
    decreases steps.len(),
{
    if steps.len() > 0 {
        lemma_run_capacity(apply(s, steps[0]), steps.skip(1));
    }
}

/// A stale copy of the read index errs on the safe side only: when the
/// producer sees room by its copy, there is room.
pub proof fn lemma_cached_room_is_real<T>(s: Protocol<T>)
    requires
        inv(s),
        s.staged is None,
        producer_sees_room(s.write_idx, s.cached_read_idx, s.capacity as nat),
    ensures
        occupancy(s.write_idx, s.read_idx) < s.capacity,
{
    lemma_index_range_is_power_of_two();
    lemma_wrapping_sub_is_occupancy(s.read_idx, s.cached_read_idx);
    lemma_wrapping_sub_is_occupancy(s.write_idx, s.read_idx);
    lemma_occupancy_adds(s.cached_read_idx, s.read_idx, s.write_idx);
}

/// A stale copy of the write index errs on the safe side only: when the
/// consumer sees an item by its copy, there is one.
pub proof fn lemma_cached_item_is_real<T>(s: Protocol<T>)
    requires
        inv(s),
        s.taken is None,
        consumer_sees_item(s.read_idx, s.cached_write_idx),
    ensures
        occupancy(s.write_idx, s.read_idx) >= 1,
        s.slots[slot_of(s.read_idx as int, s.slots.len() as int)] == Some(pending(s)[0]),
{
    let len = s.slots.len() as int;
    lemma_wrapping_sub_is_occupancy(s.cached_write_idx, s.read_idx);
    lemma_wrapping_sub_is_occupancy(s.write_idx, s.cached_write_idx);
    assert(slot_of(s.read_idx as int, len) == slot_at(s.read_idx, 0, len));
    assert(s.slots[slot_at(s.read_idx, 0, len)] is Some);
}

/// The cached copies never cross the index of the side that keeps them: the
/// producer's copy of the read index lies at most `capacity` behind the
/// write index, and the consumer's copy of the write index lies between the
/// read index and the write index.
pub proof fn lemma_cached_indices_bounded<T>(s: Protocol<T>)
    requires
        inv(s),
    ensures
        occupancy(s.write_idx, s.cached_read_idx) <= s.capacity,
        occupancy(s.cached_write_idx, s.read_idx) <= occupancy(s.write_idx, s.read_idx),
{
    lemma_index_range_is_power_of_two();
    lemma_wrapping_sub_is_occupancy(s.read_idx, s.cached_read_idx);
    lemma_wrapping_sub_is_occupancy(s.write_idx, s.read_idx);
    lemma_wrapping_sub_is_occupancy(s.write_idx, s.cached_write_idx);
    lemma_occupancy_adds(s.cached_read_idx, s.read_idx, s.write_idx);
}

/// Right after a refresh the producer sees room exactly when there is room,
/// so it refuses an item only when the buffer is full.
pub proof fn lemma_fresh_room_is_exact<T>(s: Protocol<T>)
    requires
        inv(s),
        s.staged is None,
    ensures
        ({
            let t = apply(s, Step::ProducerRefresh);
            producer_sees_room(t.write_idx, t.cached_read_idx, t.capacity as nat) <==> occupancy(
                s.write_idx,
                s.read_idx,
            ) < s.capacity
        }),
        occupancy(s.write_idx, s.read_idx) < s.capacity <==> occupancy(s.write_idx, s.read_idx)
            != s.capacity,
{
    lemma_occupancy_bounded(s);
}

/// Right after a refresh the consumer sees an item exactly when there is
/// one, so it reports an empty buffer only when nothing is published.
pub proof fn lemma_fresh_item_is_exact<T>(s: Protocol<T>)
    requires
        inv(s),
        s.taken is None,
    ensures
        ({
            let t = apply(s, Step::ConsumerRefresh);
            consumer_sees_item(t.read_idx, t.cached_write_idx) <==> occupancy(
                s.write_idx,
                s.read_idx,
            ) >= 1
        }),
{
    lemma_wrapping_sub_is_occupancy(s.write_idx, s.read_idx);
}

/// A freshly made buffer shows the consumer no item, with or without a
/// refresh, and shows the producer room.
pub proof fn lemma_fresh_buffer_is_empty<T>(capacity: usize, allocated: nat)
    requires
        1 <= capacity,
    ensures
        ({
            let s = initial::<T>(capacity, allocated);
            &&& !enabled(s, Step::ConsumerTake)
            &&& !enabled(apply(s, Step::ConsumerRefresh), Step::ConsumerTake)
            &&& forall|item: T| enabled(s, Step::ProducerStore(item))
        }),
{
    lemma_wrapping_sub_is_occupancy(0, 0);
}

/// While neither side is in the middle of an operation, the shared state is
/// a well-formed ring, and it holds exactly the items that have gone in and
/// not yet come out.
pub proof fn lemma_quiescent_is_ring<T>(s: Protocol<T>)
    requires
        inv(s),
        s.staged is None,
        s.taken is None,
    ensures
        ring_wf(s.slots, s.capacity, s.read_idx, s.write_idx),
        s.accepted == s.delivered + ring_items(s.slots, s.read_idx, s.write_idx),
{
    lemma_wrapping_sub_is_occupancy(s.write_idx, s.read_idx);
    lemma_wrapping_sub_is_occupancy(s.read_idx, s.cached_read_idx);
    assert(pending(s) =~= ring_items(s.slots, s.read_idx, s.write_idx));
}

} // verus!
