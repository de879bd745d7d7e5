//! What a measurement run counts: the operations carried out and how many
//! of them fall to one millisecond.
use vstd::prelude::*;

verus! {

/// The operations of a run: each of `loop_count` rounds offers
/// `enqueue_count` items and asks for as many.
pub open spec fn operations(enqueue_count: usize, loop_count: usize) -> int {
    enqueue_count * loop_count * 2
}

/// The number of operations of a run and the number that fall to one
/// millisecond, rounded down. `None` when the run took less than a
/// millisecond or the number of operations does not fit a `usize`.
pub fn throughput(enqueue_count: usize, loop_count: usize, ms: usize) -> (r: Option<
    (usize, usize),
>)
    ensures
        r == if ms >= 1 && operations(enqueue_count, loop_count) <= usize::MAX {
            Some(
                (
                    operations(enqueue_count, loop_count) as usize,
                    (operations(enqueue_count, loop_count) / (ms as int)) as usize,
                ),
            )
        } else {
            None
        },
{
    if ms == 0 {
        return None;
    }
    let pairs = match enqueue_count.checked_mul(loop_count) {
        None => {
            assert(operations(enqueue_count, loop_count) > usize::MAX) by (nonlinear_arith)
                requires
                    enqueue_count * loop_count > usize::MAX,
                    operations(enqueue_count, loop_count) == enqueue_count * loop_count * 2,
            ;
            return None;
        },
        Some(pairs) => pairs,
    };
    let count = match pairs.checked_mul(2) {
        None => {
            return None;
        },
        Some(count) => count,
    };
    assert(0 <= operations(enqueue_count, loop_count) / (ms as int) <= operations(
        enqueue_count,
        loop_count,
    )) by (nonlinear_arith)
        requires
            ms >= 1,
            operations(enqueue_count, loop_count) >= 0,
    ;
    Some((count, count / ms))
}

} // verus!
