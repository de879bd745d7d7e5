//! Index arithmetic shared by every variant: rounding a capacity up to a power
//! of two, mapping an ever-growing index to a slot, and counting the items
//! between two indices when the indices are allowed to wrap around.
use vstd::prelude::*;
use vstd::arithmetic::div_mod::{
    lemma_fundamental_div_mod, lemma_mod_equivalence, lemma_mod_mod, lemma_mod_multiples_vanish,
    lemma_small_mod,
};
use vstd::arithmetic::power2::{
    lemma_pow2_adds, lemma_pow2_pos, lemma_pow2_strictly_increases, lemma_pow2_unfold, pow2,
};
use vstd::bits::{lemma_usize_low_bits_mask_is_mod, low_bits_mask};
use vstd::layout::unsigned_int_max_values;

verus! {

/// The largest capacity that can be rounded up to a power of two in a `usize`.
pub const MAX_CAPACITY: usize = usize::MAX / 2 + 1;

/// `n` is `2^k` for some natural `k`.
pub open spec fn is_power_of_two(n: int) -> bool {
    exists|k: nat| n == #[trigger] pow2(k)
}

/// `len` is the smallest power of two that is at least `capacity`.
pub open spec fn is_rounded_capacity(capacity: int, len: int) -> bool {
    &&& is_power_of_two(len)
    &&& capacity <= len
    &&& forall|p: int| is_power_of_two(p) && capacity <= p ==> len <= p
}

/// The number of values an index can take before it wraps around to zero.
pub open spec fn index_range() -> int {
    usize::MAX + 1
}

/// Two distinct powers of two differ at least by a factor of two.
pub proof fn lemma_power_of_two_gap(p: int, q: int)
    requires
        is_power_of_two(p),
        is_power_of_two(q),
        p < q,
    ensures
        2 * p <= q,
{
    let i = choose|k: nat| p == #[trigger] pow2(k);
    let j = choose|k: nat| q == #[trigger] pow2(k);
    if i >= j {
        if i > j {
            lemma_pow2_strictly_increases(j, i);
        }
    } else {
        lemma_pow2_unfold(i + 1);
        if i + 1 < j {
            lemma_pow2_strictly_increases(i + 1, j);
        }
    }
}

/// Doubling a power of two gives a power of two.
pub proof fn lemma_power_of_two_double(p: int)
    requires
        is_power_of_two(p),
    ensures
        is_power_of_two(2 * p),
        p >= 1,
{
    let i = choose|k: nat| p == #[trigger] pow2(k);
    lemma_pow2_unfold(i + 1);
    lemma_pow2_pos(i);
    assert(2 * p == pow2(i + 1));
}

/// The index range and the largest capacity are powers of two.
pub proof fn lemma_index_range_is_power_of_two()
    ensures
        is_power_of_two(index_range()),
        is_power_of_two(MAX_CAPACITY as int),
        index_range() == 2 * MAX_CAPACITY,
        index_range() == pow2(usize::BITS as nat),
{
    unsigned_int_max_values();
    let bits = usize::BITS as nat;
    assert(index_range() == pow2(bits));
    lemma_pow2_unfold(bits);
    assert(MAX_CAPACITY as int == pow2((bits - 1) as nat));
}

/// Rounds `capacity` up to the next power of two.
pub fn next_power_of_two(capacity: usize) -> (len: usize)
    requires
        1 <= capacity <= MAX_CAPACITY,
    ensures
        is_rounded_capacity(capacity as int, len as int),
        len < 2 * capacity,
{
    let mut len: usize = 1;
    proof {
        assert(1 == pow2(0)) by {
            vstd::arithmetic::power2::lemma2_to64();
        }
        lemma_index_range_is_power_of_two();
    }
    while len < capacity
        invariant
            1 <= capacity <= MAX_CAPACITY,
            1 <= len,
            is_power_of_two(len as int),
            is_power_of_two(MAX_CAPACITY as int),
            len == 1 || len < 2 * capacity,
            len == 1 || len / 2 < capacity,
        decreases 2 * MAX_CAPACITY - len,
    {
        proof {
            lemma_power_of_two_gap(len as int, MAX_CAPACITY as int);
            lemma_power_of_two_double(len as int);
        }
        len = len * 2;
    }
    proof {
        assert forall|p: int| is_power_of_two(p) && capacity <= p implies len <= p by {
            if p < len {
                lemma_power_of_two_gap(p, len as int);
            }
        }
    }
    len
}

/// The slot on which index `idx` falls in a buffer of `allocated` slots.
pub open spec fn slot_of(idx: int, allocated: int) -> int {
    idx % allocated
}

/// The number of items between a read index and a write index that both count
/// upwards and wrap around together.
pub open spec fn occupancy(write_idx: usize, read_idx: usize) -> int {
    (write_idx - read_idx) % index_range()
}

/// The index that follows `idx`; after the largest index comes zero.
pub open spec fn next_index(idx: usize) -> usize {
    ((idx + 1) % index_range()) as usize
}

/// The exponent of a power of two that fits a `usize` buffer length is below
/// the number of index bits, and the index range is a multiple of it.
pub proof fn lemma_range_is_multiple(allocated: int) -> (k: nat)
    requires
        is_power_of_two(allocated),
        allocated <= MAX_CAPACITY,
    ensures
        allocated == pow2(k),
        k < usize::BITS,
        allocated >= 1,
        index_range() == allocated * pow2((usize::BITS - k) as nat),
        pow2((usize::BITS - k) as nat) >= 1,
{
    let k = choose|k: nat| allocated == #[trigger] pow2(k);
    let bits = usize::BITS as nat;
    lemma_index_range_is_power_of_two();
    lemma_pow2_unfold(bits);
    if k >= bits {
        if k > bits {
            lemma_pow2_strictly_increases(bits, k);
        }
        lemma_pow2_pos(bits);
        assert(false);
    }
    lemma_pow2_adds(k, (bits - k) as nat);
    lemma_pow2_pos(k);
    lemma_pow2_pos((bits - k) as nat);
    k
}

/// Indices that differ by a multiple of the index range fall on the same slot.
pub proof fn lemma_congruent_slots(x: int, y: int, allocated: int)
    requires
        is_power_of_two(allocated),
        allocated <= MAX_CAPACITY,
        (x - y) % index_range() == 0,
    ensures
        slot_of(x, allocated) == slot_of(y, allocated),
{
    let k = lemma_range_is_multiple(allocated);
    let b = pow2((usize::BITS - k) as nat) as int;
    let d = x - y;
    lemma_mod_mod(d, allocated, b);
    assert(d % allocated == 0);
    lemma_mod_equivalence(x, y, allocated);
}

/// Two offsets from the same index that fall on the same slot and are less
/// than a buffer length apart are the same offset.
pub proof fn lemma_slot_unique(x: int, y: int, allocated: int)
    requires
        allocated > 0,
        slot_of(x, allocated) == slot_of(y, allocated),
        -allocated < x - y < allocated,
    ensures
        x == y,
{
    lemma_fundamental_div_mod(x, allocated);
    lemma_fundamental_div_mod(y, allocated);
    let qx = x / allocated;
    let qy = y / allocated;
    assert(x - y == allocated * (qx - qy)) by (nonlinear_arith)
        requires
            x == allocated * qx + x % allocated,
            y == allocated * qy + y % allocated,
            x % allocated == y % allocated,
    ;
    assert(qx == qy) by (nonlinear_arith)
        requires
            x - y == allocated * (qx - qy),
            -allocated < x - y < allocated,
            allocated > 0,
    ;
}

/// A bit mask of a power of two less one selects the remainder.
pub proof fn lemma_mask_is_remainder(idx: usize, allocated: usize)
    requires
        is_power_of_two(allocated as int),
    ensures
        idx & ((allocated - 1) as usize) == slot_of(idx as int, allocated as int),
        0 <= slot_of(idx as int, allocated as int) < allocated,
{
    lemma_index_range_is_power_of_two();
    if allocated > MAX_CAPACITY {
        lemma_power_of_two_gap(MAX_CAPACITY as int, allocated as int);
    }
    let k = lemma_range_is_multiple(allocated as int);
    lemma_usize_low_bits_mask_is_mod(idx, k);
    assert(low_bits_mask(k) == allocated - 1);
    assert(pow2(k) as usize == allocated);
}

/// What `wrapping_sub` computes is the occupancy.
pub proof fn lemma_wrapping_sub_is_occupancy(write_idx: usize, read_idx: usize)
    ensures
        write_idx.wrapping_sub(read_idx) == occupancy(write_idx, read_idx),
        0 <= occupancy(write_idx, read_idx) < index_range(),
{
    let d = write_idx - read_idx;
    if d < 0 {
        lemma_mod_multiples_vanish(1, d, index_range());
        lemma_small_mod((d + index_range()) as nat, index_range() as nat);
    } else {
        lemma_small_mod(d as nat, index_range() as nat);
    }
}

/// What `wrapping_add(1)` computes is the next index.
pub proof fn lemma_wrapping_add_is_next(idx: usize)
    ensures
        idx.wrapping_add(1) == next_index(idx),
        (next_index(idx) - (idx + 1)) % index_range() == 0,
{
    if idx + 1 > usize::MAX {
        lemma_mod_multiples_vanish(-1, idx + 1, index_range());
        lemma_small_mod(0, index_range() as nat);
    } else {
        lemma_small_mod((idx + 1) as nat, index_range() as nat);
    }
}

/// Finds the slot on which index `idx` falls in a buffer whose number of
/// slots is a power of two, by masking the index.
pub fn slot(idx: usize, allocated_size: usize) -> (at: usize)
    requires
        is_power_of_two(allocated_size as int),
    ensures
        at == slot_of(idx as int, allocated_size as int),
        at < allocated_size,
{
    proof {
        lemma_mask_is_remainder(idx, allocated_size);
    }
    idx & (allocated_size - 1)
}

/// Moves an index on by one place; after the largest index comes zero.
pub fn advance(idx: usize) -> (next: usize)
    ensures
        next == next_index(idx),
{
    proof {
        lemma_wrapping_add_is_next(idx);
    }
    idx.wrapping_add(1)
}

/// Advancing the write index adds one item, as long as the count still fits
/// the index range.
pub proof fn lemma_occupancy_after_write(write_idx: usize, read_idx: usize)
    requires
        occupancy(write_idx, read_idx) + 1 < index_range(),
    ensures
        occupancy(next_index(write_idx), read_idx) == occupancy(write_idx, read_idx) + 1,
{
    lemma_wrapping_sub_is_occupancy(write_idx, read_idx);
    lemma_wrapping_add_is_next(write_idx);
    lemma_wrapping_sub_is_occupancy(next_index(write_idx), read_idx);
}

/// Advancing the read index removes one item, if there is one.
pub proof fn lemma_occupancy_after_read(write_idx: usize, read_idx: usize)
    requires
        occupancy(write_idx, read_idx) >= 1,
    ensures
        occupancy(write_idx, next_index(read_idx)) == occupancy(write_idx, read_idx) - 1,
{
    lemma_wrapping_sub_is_occupancy(write_idx, read_idx);
    lemma_wrapping_add_is_next(read_idx);
    lemma_wrapping_sub_is_occupancy(write_idx, next_index(read_idx));
}

} // verus!
