//! The ring as a mathematical object: a sequence of optional slots, a read
//! index and a write index. The items held are those on the slots from the
//! read index up to the write index, oldest first.
use vstd::prelude::*;
use vstd::arithmetic::div_mod::{lemma_fundamental_div_mod, lemma_mod_multiples_basic};
use crate::index::{
    index_range, is_rounded_capacity, lemma_congruent_slots, lemma_index_range_is_power_of_two,
    lemma_occupancy_after_read, lemma_occupancy_after_write, lemma_slot_unique,
    lemma_wrapping_add_is_next, lemma_wrapping_sub_is_occupancy, next_index, occupancy, slot_of,
    MAX_CAPACITY,
};
use crate::queue::{after_dequeue, after_enqueue, front, has_room};

verus! {

/// The slot of the item that is `k` places behind the oldest one.
pub open spec fn slot_at(read_idx: usize, k: int, allocated: int) -> int {
    slot_of(read_idx + k, allocated)
}

/// The slots, the capacity and the two indices fit together: the number of
/// slots is the capacity rounded up to a power of two, at most `capacity`
/// items lie between the indices, and exactly the slots between the indices
/// are occupied.
pub open spec fn ring_wf<T>(
    slots: Seq<Option<T>>,
    capacity: usize,
    read_idx: usize,
    write_idx: usize,
) -> bool {
    &&& 1 <= capacity
    &&& slots.len() <= MAX_CAPACITY
    &&& is_rounded_capacity(capacity as int, slots.len() as int)
    &&& occupancy(write_idx, read_idx) <= capacity
    &&& forall|k: int|
        0 <= k < slots.len() ==> (slots[#[trigger] slot_at(read_idx, k, slots.len() as int)] is Some
            <==> k < occupancy(write_idx, read_idx))
}

/// The items in the ring, oldest first.
pub open spec fn ring_items<T>(slots: Seq<Option<T>>, read_idx: usize, write_idx: usize) -> Seq<T> {
    Seq::new(
        occupancy(write_idx, read_idx) as nat,
        |k: int| slots[slot_at(read_idx, k, slots.len() as int)]->Some_0,
    )
}

/// Every slot position computed for a well-formed ring lies inside it.
pub proof fn lemma_slot_in_bounds(idx: int, allocated: int)
    requires
        allocated > 0,
    ensures
        0 <= slot_of(idx, allocated) < allocated,
{
    lemma_fundamental_div_mod(idx, allocated);
    assert(0 <= idx % allocated < allocated) by (nonlinear_arith)
        requires
            allocated > 0,
    ;
}

/// The write index falls on the slot just behind the newest item.
pub proof fn lemma_write_slot(write_idx: usize, read_idx: usize, allocated: int)
    requires
        crate::index::is_power_of_two(allocated),
        allocated <= MAX_CAPACITY,
    ensures
        slot_of(write_idx as int, allocated) == slot_at(
            read_idx,
            occupancy(write_idx, read_idx),
            allocated,
        ),
{
    let d = write_idx - read_idx;
    let m = index_range();
    lemma_fundamental_div_mod(d, m);
    lemma_mod_multiples_basic(d / m, m);
    assert(d - d % m == (d / m) * m) by (nonlinear_arith)
        requires
            d == m * (d / m) + d % m,
    ;
    lemma_congruent_slots(write_idx as int, read_idx + occupancy(write_idx, read_idx), allocated);
}

/// A ring whose slots are all empty and whose indices coincide is well
/// formed and holds nothing.
pub proof fn lemma_ring_empty<T>(slots: Seq<Option<T>>, capacity: usize, idx: usize)
    requires
        1 <= capacity,
        slots.len() <= MAX_CAPACITY,
        is_rounded_capacity(capacity as int, slots.len() as int),
        forall|i: int| 0 <= i < slots.len() ==> slots[i] is None,
    ensures
        ring_wf(slots, capacity, idx, idx),
        ring_items(slots, idx, idx) == Seq::<T>::empty(),
        occupancy(idx, idx) == 0,
{
    lemma_wrapping_sub_is_occupancy(idx, idx);
    let len = slots.len() as int;
    assert forall|k: int| 0 <= k < len implies (slots[#[trigger] slot_at(idx, k, len)] is Some <==> k
        < occupancy(idx, idx)) by {
        lemma_slot_in_bounds(idx + k, len);
    }
    assert(ring_items(slots, idx, idx) =~= Seq::<T>::empty());
}

/// Storing an item on the write index's slot and advancing the write index
/// appends the item to the ring, provided the ring is not full.
pub proof fn lemma_ring_push<T>(
    slots: Seq<Option<T>>,
    capacity: usize,
    read_idx: usize,
    write_idx: usize,
    item: T,
)
    requires
        ring_wf(slots, capacity, read_idx, write_idx),
        occupancy(write_idx, read_idx) < capacity,
    ensures
        0 <= slot_of(write_idx as int, slots.len() as int) < slots.len(),
        slots[slot_of(write_idx as int, slots.len() as int)] is None,
        ring_wf(
            slots.update(slot_of(write_idx as int, slots.len() as int), Some(item)),
            capacity,
            read_idx,
            next_index(write_idx),
        ),
        ring_items(
            slots.update(slot_of(write_idx as int, slots.len() as int), Some(item)),
            read_idx,
            next_index(write_idx),
        ) == ring_items(slots, read_idx, write_idx).push(item),
{
    let len = slots.len() as int;
    let occ = occupancy(write_idx, read_idx);
    let s = slot_of(write_idx as int, len);
    let slots2 = slots.update(s, Some(item));
    let write2 = next_index(write_idx);
    lemma_wrapping_sub_is_occupancy(write_idx, read_idx);
    lemma_index_range_is_power_of_two();
    lemma_slot_in_bounds(write_idx as int, len);
    lemma_write_slot(write_idx, read_idx, len);
    lemma_occupancy_after_write(write_idx, read_idx);
    assert(s == slot_at(read_idx, occ, len));
    assert(slots[slot_at(read_idx, occ, len)] is None);
    assert forall|k: int| 0 <= k < len implies (slots2[#[trigger] slot_at(read_idx, k, len)] is Some
        <==> k < occ + 1) by {
        lemma_slot_in_bounds(read_idx + k, len);
        if slot_at(read_idx, k, len) == s {
            lemma_slot_unique(read_idx + k, read_idx + occ, len);
        }
    }
    let before = ring_items(slots, read_idx, write_idx);
    let after = ring_items(slots2, read_idx, write2);
    assert forall|k: int| 0 <= k < occ + 1 implies after[k] == before.push(item)[k] by {
        lemma_slot_in_bounds(read_idx + k, len);
        if slot_at(read_idx, k, len) == s {
            lemma_slot_unique(read_idx + k, read_idx + occ, len);
        }
    }
    assert(after =~= before.push(item));
}

/// Emptying the read index's slot and advancing the read index removes the
/// oldest item from the ring, provided the ring is not empty.
pub proof fn lemma_ring_pop<T>(
    slots: Seq<Option<T>>,
    capacity: usize,
    read_idx: usize,
    write_idx: usize,
)
    requires
        ring_wf(slots, capacity, read_idx, write_idx),
        occupancy(write_idx, read_idx) >= 1,
    ensures
        0 <= slot_of(read_idx as int, slots.len() as int) < slots.len(),
        slots[slot_of(read_idx as int, slots.len() as int)] == Some(
            ring_items(slots, read_idx, write_idx)[0],
        ),
        ring_wf(
            slots.update(slot_of(read_idx as int, slots.len() as int), None),
            capacity,
            next_index(read_idx),
            write_idx,
        ),
        ring_items(
            slots.update(slot_of(read_idx as int, slots.len() as int), None),
            next_index(read_idx),
            write_idx,
        ) == ring_items(slots, read_idx, write_idx).skip(1),
{
    let len = slots.len() as int;
    let occ = occupancy(write_idx, read_idx);
    let s = slot_of(read_idx as int, len);
    let slots2 = slots.update(s, None);
    let read2 = next_index(read_idx);
    lemma_index_range_is_power_of_two();
    lemma_slot_in_bounds(read_idx as int, len);
    lemma_occupancy_after_read(write_idx, read_idx);
    lemma_wrapping_add_is_next(read_idx);
    assert(s == slot_at(read_idx, 0, len));
    assert(slots[slot_at(read_idx, 0, len)] is Some);
    assert forall|k: int| 0 <= k < len implies slot_at(read2, k, len) == slot_at(
        read_idx,
        k + 1,
        len,
    ) by {
        lemma_congruent_slots(read2 + k, read_idx + (k + 1), len);
    }
    assert forall|k: int| 0 <= k < len implies (slots2[#[trigger] slot_at(read2, k, len)] is Some
        <==> k < occ - 1) by {
        lemma_slot_in_bounds(read_idx + (k + 1), len);
        if k + 1 < len {
            if slot_at(read_idx, k + 1, len) == s {
                lemma_slot_unique(read_idx + (k + 1), read_idx as int, len);
            }
            assert(slots[slot_at(read_idx, k + 1, len)] is Some <==> k + 1 < occ);
        } else {
            lemma_congruent_len(read_idx as int, len);
        }
    }
    let before = ring_items(slots, read_idx, write_idx);
    let after = ring_items(slots2, read2, write_idx);
    assert forall|k: int| 0 <= k < occ - 1 implies after[k] == before.skip(1)[k] by {
        lemma_slot_in_bounds(read_idx + (k + 1), len);
        if slot_at(read_idx, k + 1, len) == s {
            lemma_slot_unique(read_idx + (k + 1), read_idx as int, len);
        }
    }
    assert(after =~= before.skip(1));
}

/// One full turn round the ring comes back to the same slot.
pub proof fn lemma_congruent_len(idx: int, allocated: int)
    requires
        allocated > 0,
    ensures
        slot_of(idx + allocated, allocated) == slot_of(idx, allocated),
{
    vstd::arithmetic::div_mod::lemma_mod_add_multiples_vanish(idx, allocated);
}

/// A ring as a value: the slots, the capacity and the two indices.
pub struct Ring<T> {
    /// The slots.
    pub slots: Seq<Option<T>>,
    /// The largest number of items held at once.
    pub capacity: usize,
    /// The index of the oldest item.
    pub read_idx: usize,
    /// The index behind the newest item.
    pub write_idx: usize,
}

/// An operation on a queue.
pub enum Op<T> {
    /// Offer an item.
    Enqueue(T),
    /// Ask for the oldest item.
    Dequeue,
}

/// What an operation returns.
pub enum Outcome<T> {
    /// An enqueue says whether it stored the item.
    Stored(bool),
    /// A dequeue hands out the oldest item, if there was one.
    Taken(Option<T>),
}

impl<T> Ring<T> {
    /// The fields fit together.
    pub open spec fn wf(self) -> bool {
        ring_wf(self.slots, self.capacity, self.read_idx, self.write_idx)
    }

    /// The items held, oldest first.
    pub open spec fn items(self) -> Seq<T> {
        ring_items(self.slots, self.read_idx, self.write_idx)
    }

    /// The slot on which index `idx` falls.
    pub open spec fn slot(self, idx: usize) -> int {
        slot_of(idx as int, self.slots.len() as int)
    }

    /// The ring is full: exactly `capacity` items lie between the indices.
    pub open spec fn full(self) -> bool {
        occupancy(self.write_idx, self.read_idx) == self.capacity
    }

    /// The ring is empty: the indices coincide.
    pub open spec fn empty(self) -> bool {
        self.read_idx == self.write_idx
    }

    /// The ring after an operation, as every variant carries it out: the
    /// item goes on the write index's slot and the write index moves on, or
    /// the read index's slot is emptied and the read index moves on.
    pub open spec fn after(self, op: Op<T>) -> Ring<T> {
        match op {
            Op::Enqueue(item) => if self.full() {
                self
            } else {
                Ring {
                    slots: self.slots.update(self.slot(self.write_idx), Some(item)),
                    write_idx: next_index(self.write_idx),
                    ..self
                }
            },
            Op::Dequeue => if self.empty() {
                self
            } else {
                Ring {
                    slots: self.slots.update(self.slot(self.read_idx), None),
                    read_idx: next_index(self.read_idx),
                    ..self
                }
            },
        }
    }

    /// What the operation returns.
    pub open spec fn outcome(self, op: Op<T>) -> Outcome<T> {
        match op {
            Op::Enqueue(_) => Outcome::Stored(!self.full()),
            Op::Dequeue => Outcome::Taken(
                if self.empty() {
                    None
                } else {
                    self.slots[self.slot(self.read_idx)]
                },
            ),
        }
    }

    /// The ring after each of `ops` in turn.
    pub open spec fn after_all(self, ops: Seq<Op<T>>) -> Ring<T>
        decreases ops.len(),
    {
        if ops.len() == 0 {
            self
        } else {
            self.after(ops[0]).after_all(ops.skip(1))
        }
    }

    /// What each of `ops` returns, in turn.
    pub open spec fn outcomes(self, ops: Seq<Op<T>>) -> Seq<Outcome<T>>
        decreases ops.len(),
    {
        if ops.len() == 0 {
            Seq::empty()
        } else {
            seq![self.outcome(ops[0])] + self.after(ops[0]).outcomes(ops.skip(1))
        }
    }
}

/// The items of a bounded queue after an operation.
pub open spec fn queue_after<T>(items: Seq<T>, capacity: nat, op: Op<T>) -> Seq<T> {
    match op {
        Op::Enqueue(item) => after_enqueue(items, capacity, item),
        Op::Dequeue => after_dequeue(items),
    }
}

/// What an operation on a bounded queue returns.
pub open spec fn queue_outcome<T>(items: Seq<T>, capacity: nat, op: Op<T>) -> Outcome<T> {
    match op {
        Op::Enqueue(_) => Outcome::Stored(has_room(items, capacity)),
        Op::Dequeue => Outcome::Taken(front(items)),
    }
}

/// The items of a bounded queue after each of `ops` in turn.
pub open spec fn queue_after_all<T>(items: Seq<T>, capacity: nat, ops: Seq<Op<T>>) -> Seq<T>
    decreases ops.len(),
{
    if ops.len() == 0 {
        items
    } else {
        queue_after_all(queue_after(items, capacity, ops[0]), capacity, ops.skip(1))
    }
}

/// What each of `ops` on a bounded queue returns, in turn.
pub open spec fn queue_outcomes<T>(items: Seq<T>, capacity: nat, ops: Seq<Op<T>>) -> Seq<
    Outcome<T>,
>
    decreases ops.len(),
{
    if ops.len() == 0 {
        Seq::empty()
    } else {
        seq![queue_outcome(items, capacity, ops[0])] + queue_outcomes(
            queue_after(items, capacity, ops[0]),
            capacity,
            ops.skip(1),
        )
    }
}

/// One operation on a well-formed ring, wherever its indices stand, does to
/// the items what the operation does to a bounded queue, returns what the
/// queue returns, and leaves the ring well formed.
pub proof fn lemma_ring_is_queue<T>(ring: Ring<T>, op: Op<T>)
    requires
        ring.wf(),
    ensures
        ring.after(op).wf(),
        ring.after(op).capacity == ring.capacity,
        ring.after(op).items() == queue_after(ring.items(), ring.capacity as nat, op),
        ring.outcome(op) == queue_outcome(ring.items(), ring.capacity as nat, op),
{
    lemma_wrapping_sub_is_occupancy(ring.write_idx, ring.read_idx);
    match op {
        Op::Enqueue(item) => {
            if !ring.full() {
                lemma_ring_push(ring.slots, ring.capacity, ring.read_idx, ring.write_idx, item);
            }
        },
        Op::Dequeue => {
            if !ring.empty() {
                lemma_ring_pop(ring.slots, ring.capacity, ring.read_idx, ring.write_idx);
            }
        },
    }
}

/// Wraparound stability: however many operations a well-formed ring has
/// seen and will see, and however often its indices have passed the number
/// of slots or the largest index, it goes on behaving as a bounded first-in
/// first-out queue of its capacity.
pub proof fn lemma_ring_stays_queue<T>(ring: Ring<T>, ops: Seq<Op<T>>)
    requires
        ring.wf(),
    ensures
        ring.after_all(ops).wf(),
        ring.after_all(ops).capacity == ring.capacity,
        ring.after_all(ops).items() == queue_after_all(ring.items(), ring.capacity as nat, ops),
        ring.outcomes(ops) == queue_outcomes(ring.items(), ring.capacity as nat, ops),
    decreases ops.len(),
{
    if ops.len() > 0 {
        lemma_ring_is_queue(ring, ops[0]);
        lemma_ring_stays_queue(ring.after(ops[0]), ops.skip(1));
    }
}

} // verus!
