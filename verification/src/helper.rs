//! Storage allocation and the interfaces that the variants implement.
use vstd::prelude::*;
use crate::index::{is_rounded_capacity, next_power_of_two, MAX_CAPACITY};
use crate::queue::{after_dequeue, after_enqueue, front, has_room};

verus! {

/// Allocates the storage of a ring buffer: `capacity` rounded up to the next
/// power of two, in empty slots.
pub fn allocate_buffer<T>(capacity: usize) -> (buf: Vec<Option<T>>)
    requires
        1 <= capacity <= MAX_CAPACITY,
    ensures
        is_rounded_capacity(capacity as int, buf.len() as int),
        forall|i: int| 0 <= i < buf.len() ==> buf[i] is None,
{
    let adjusted_size = next_power_of_two(capacity);
    let mut buf: Vec<Option<T>> = Vec::with_capacity(adjusted_size);
    while buf.len() < adjusted_size
        invariant
            buf.len() <= adjusted_size,
            forall|i: int| 0 <= i < buf.len() ==> buf[i] is None,
        decreases adjusted_size - buf.len(),
    {
        buf.push(None);
    }
    buf
}

/// The assumed length of a cache line, in bytes.
pub const CACHELINE_LEN: usize = 64;

/// The assumed length of a word, in bytes.
pub const WORD_LEN: usize = 8;

/// The number of filler words that complete a group of `used` words to one
/// cache line.
pub fn cacheline_pad(used: usize) -> (pad: usize)
    requires
        used * vstd::layout::size_of::<usize>() <= CACHELINE_LEN,
    ensures
        (used + pad) * vstd::layout::size_of::<usize>() == CACHELINE_LEN,
{
    let word = std::mem::size_of::<usize>();
    proof {
        vstd::layout::unsigned_int_max_values();
        assert(usize::BITS == 32 || usize::BITS == 64);
        if word == 4 {
            assert(CACHELINE_LEN / word == 16);
            assert(used * 4 <= 64);
        } else {
            assert(word == 8);
            assert(CACHELINE_LEN / word == 8);
            assert(used * 8 <= 64);
        }
    }
    CACHELINE_LEN / word - used
}

/// A bounded queue with a single owner.
pub trait RingBufTrait<T> {
    /// The fields fit together.
    spec fn wf(&self) -> bool;

    /// The largest number of items held at once.
    spec fn limit(&self) -> nat;

    /// The items held, oldest first.
    spec fn items(&self) -> Seq<T>;

    /// Stores `item` behind the newest item and returns `true`, or returns
    /// `false` and stores nothing when the queue is full.
    fn enqueue(&mut self, item: T) -> (stored: bool)
        requires
            old(self).wf(),
        ensures
            final(self).wf(),
            final(self).limit() == old(self).limit(),
            stored == has_room(old(self).items(), old(self).limit()),
            final(self).items() == after_enqueue(old(self).items(), old(self).limit(), item),
    ;

    /// Removes and returns the oldest item, or returns `None` when the queue
    /// is empty.
    fn dequeue(&mut self) -> (item: Option<T>)
        requires
            old(self).wf(),
        ensures
            final(self).wf(),
            final(self).limit() == old(self).limit(),
            item == front(old(self).items()),
            final(self).items() == after_dequeue(old(self).items()),
    ;
}

/// The enqueuing side of a queue shared between two threads.
pub trait RingBufProducer<T> {
    /// Stores `item` and returns `true`, or returns `false` when the queue
    /// is full.
    fn enqueue(&self, item: T) -> bool;
}

/// The dequeuing side of a queue shared between two threads.
pub trait RingBufConsumer<T> {
    /// Removes and returns the oldest item, or returns `None` when the queue
    /// is empty.
    fn dequeue(&self) -> Option<T>;
}

} // verus!
