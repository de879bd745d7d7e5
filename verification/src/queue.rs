//! What a bounded queue does, stated over the sequence of items it holds,
//! oldest first. Every variant's contract is phrased in these terms.
use vstd::prelude::*;

verus! {

/// A queue holding `items` accepts one more item.
pub open spec fn has_room<T>(items: Seq<T>, capacity: nat) -> bool {
    items.len() < capacity
}

/// The items after an attempt to enqueue `item`: it goes behind the newest
/// one if there is room, and is refused otherwise.
pub open spec fn after_enqueue<T>(items: Seq<T>, capacity: nat, item: T) -> Seq<T> {
    if has_room(items, capacity) {
        items.push(item)
    } else {
        items
    }
}

/// What a dequeue returns: the oldest item, if there is any.
pub open spec fn front<T>(items: Seq<T>) -> Option<T> {
    if items.len() > 0 {
        Some(items[0])
    } else {
        None
    }
}

/// The items after a dequeue.
pub open spec fn after_dequeue<T>(items: Seq<T>) -> Seq<T> {
    if items.len() > 0 {
        items.skip(1)
    } else {
        items
    }
}

/// The items after attempting to enqueue each of `new` in order.
pub open spec fn after_enqueue_all<T>(items: Seq<T>, capacity: nat, new: Seq<T>) -> Seq<T>
    decreases new.len(),
{
    if new.len() == 0 {
        items
    } else {
        after_enqueue_all(after_enqueue(items, capacity, new[0]), capacity, new.skip(1))
    }
}

/// What `n` dequeues in a row return, in order.
pub open spec fn dequeue_results<T>(items: Seq<T>, n: nat) -> Seq<Option<T>>
    decreases n,
{
    if n == 0 {
        Seq::empty()
    } else {
        seq![front(items)] + dequeue_results(after_dequeue(items), (n - 1) as nat)
    }
}

/// The items after `n` dequeues in a row.
pub open spec fn after_dequeues<T>(items: Seq<T>, n: nat) -> Seq<T>
    decreases n,
{
    if n == 0 {
        items
    } else {
        after_dequeues(after_dequeue(items), (n - 1) as nat)
    }
}

/// Enqueuing a run of items that fits appends the run: none is refused and
/// the order is kept.
pub proof fn lemma_enqueue_all_appends<T>(items: Seq<T>, capacity: nat, new: Seq<T>)
    requires
        items.len() + new.len() <= capacity,
    ensures
        after_enqueue_all(items, capacity, new) == items + new,
    decreases new.len(),
{
    if new.len() == 0 {
        assert(items + new =~= items);
    } else {
        lemma_enqueue_all_appends(items.push(new[0]), capacity, new.skip(1));
        assert(items.push(new[0]) + new.skip(1) =~= items + new);
    }
}

/// Dequeuing as many times as there are items returns every item, oldest
/// first, and leaves the queue empty.
pub proof fn lemma_dequeues_return_items<T>(items: Seq<T>)
    ensures
        dequeue_results(items, items.len()) == items.map_values(|x: T| Some(x)),
        after_dequeues(items, items.len()) == Seq::<T>::empty(),
    decreases items.len(),
{
    let expected = items.map_values(|x: T| Some(x));
    if items.len() == 0 {
        assert(dequeue_results(items, 0) =~= expected);
        assert(items =~= Seq::<T>::empty());
    } else {
        let rest = items.skip(1);
        lemma_dequeues_return_items(rest);
        assert(seq![front(items)] + rest.map_values(|x: T| Some(x)) =~= expected);
    }
}

/// First in, first out: `new.len()` enqueues into an empty queue that can
/// hold them, followed by as many dequeues, return the enqueued items in the
/// order in which they went in, and the queue is empty again.
pub proof fn lemma_fifo<T>(capacity: nat, new: Seq<T>)
    requires
        new.len() <= capacity,
    ensures
        after_enqueue_all(Seq::<T>::empty(), capacity, new) == new,
        dequeue_results(after_enqueue_all(Seq::<T>::empty(), capacity, new), new.len())
            == new.map_values(|x: T| Some(x)),
        after_dequeues(after_enqueue_all(Seq::<T>::empty(), capacity, new), new.len())
            == Seq::<T>::empty(),
{
    lemma_enqueue_all_appends(Seq::<T>::empty(), capacity, new);
    assert(Seq::<T>::empty() + new =~= new);
    lemma_dequeues_return_items(new);
}

/// The same holds from any state, however many items have passed through
/// before: what is enqueued behind the items already held comes out behind
/// them, in order.
pub proof fn lemma_fifo_from<T>(items: Seq<T>, capacity: nat, new: Seq<T>)
    requires
        items.len() + new.len() <= capacity,
    ensures
        dequeue_results(
            after_enqueue_all(items, capacity, new),
            (items.len() + new.len()) as nat,
        ) == (items + new).map_values(|x: T| Some(x)),
        after_dequeues(after_enqueue_all(items, capacity, new), (items.len() + new.len()) as nat)
            == Seq::<T>::empty(),
{
    lemma_enqueue_all_appends(items, capacity, new);
    lemma_dequeues_return_items(items + new);
}

/// Bounded fullness: a queue filled to its capacity refuses the next item and
/// keeps what it holds.
pub proof fn lemma_full_refuses<T>(capacity: nat, new: Seq<T>, extra: T)
    requires
        new.len() == capacity,
    ensures
        after_enqueue_all(Seq::<T>::empty(), capacity, new) == new,
        !has_room(after_enqueue_all(Seq::<T>::empty(), capacity, new), capacity),
        after_enqueue(after_enqueue_all(Seq::<T>::empty(), capacity, new), capacity, extra)
            == new,
{
    lemma_fifo(capacity, new);
}

/// Each of the first `capacity` enqueues into an empty queue finds room.
pub proof fn lemma_room_until_full<T>(capacity: nat, new: Seq<T>, n: nat)
    requires
        n < new.len() <= capacity,
    ensures
        has_room(after_enqueue_all(Seq::<T>::empty(), capacity, new.take(n as int)), capacity),
{
    lemma_fifo(capacity, new.take(n as int));
}

/// A queue that holds nothing has nothing to give.
pub proof fn lemma_empty_has_no_front<T>()
    ensures
        front(Seq::<T>::empty()) == None::<T>,
        after_dequeue(Seq::<T>::empty()) == Seq::<T>::empty(),
{
}

} // verus!
