use ringbuf::helper::{allocate_buffer, cacheline_pad, CACHELINE_LEN};
use ringbuf::index::{advance, next_power_of_two, slot, MAX_CAPACITY};
use ringbuf::report::throughput;
use ringbuf::protocol::{is_full, sees_item, sees_room, within_capacity};

#[test]
fn rounds_up_to_a_power_of_two() {
    let expected = [
        (1, 1),
        (2, 2),
        (3, 4),
        (4, 4),
        (5, 8),
        (9, 16),
        (10, 16),
        (16, 16),
        (17, 32),
        (1000, 1024),
        (2097152, 2097152),
        (2097153, 4194304),
    ];
    for (capacity, len) in expected {
        assert_eq!(next_power_of_two(capacity), len);
        assert_eq!(next_power_of_two(capacity), capacity.next_power_of_two());
    }
    assert_eq!(next_power_of_two(MAX_CAPACITY), MAX_CAPACITY);
    assert_eq!(next_power_of_two(MAX_CAPACITY - 1), MAX_CAPACITY);
    assert_eq!(MAX_CAPACITY, usize::MAX / 2 + 1);
}

#[test]
fn storage_is_rounded_and_empty() {
    let buf = allocate_buffer::<String>(10);
    assert_eq!(buf.len(), 16);
    assert!(buf.iter().all(|slot| slot.is_none()));
    let buf = allocate_buffer::<u8>(1);
    assert_eq!(buf.len(), 1);
    let buf = allocate_buffer::<u8>(64);
    assert_eq!(buf.len(), 64);
}

#[test]
fn padding_completes_a_cache_line() {
    assert_eq!(CACHELINE_LEN, 64);
    let words = CACHELINE_LEN / std::mem::size_of::<usize>();
    assert_eq!(cacheline_pad(0), words);
    assert_eq!(cacheline_pad(2), words - 2);
    assert_eq!(cacheline_pad(3), words - 3);
    assert_eq!(cacheline_pad(words), 0);
    assert_eq!(ringbuf::r3::INDEX_PAD, 6);
    assert_eq!(ringbuf::r3::HEADER_PAD, 3);
}

#[test]
fn room_is_counted_across_the_wrap() {
    assert!(sees_room(0, 0, 1));
    assert!(!sees_room(1, 0, 1));
    assert!(sees_room(9, 0, 10));
    assert!(!sees_room(10, 0, 10));
    // two items between the largest index and one
    assert!(sees_room(1, usize::MAX, 3));
    assert!(!sees_room(1, usize::MAX, 2));
    // a read index ahead of the write index leaves no room
    assert!(!sees_room(3, 7, 16));
}

#[test]
fn the_index_after_the_largest_is_zero() {
    assert_eq!(advance(0), 1);
    assert_eq!(advance(41), 42);
    assert_eq!(advance(usize::MAX - 1), usize::MAX);
    assert_eq!(advance(usize::MAX), 0);
}

#[test]
fn operations_per_millisecond() {
    assert_eq!(throughput(1000, 500000, 10), Some((1000000000, 100000000)));
    assert_eq!(throughput(1000, 500000, 1), Some((1000000000, 1000000000)));
    assert_eq!(throughput(5, 1, 3), Some((10, 3)));
    assert_eq!(throughput(1, 1, 3), Some((2, 0)));
    assert_eq!(throughput(0, 7, 3), Some((0, 0)));
    // a run of less than a millisecond has no rate
    assert_eq!(throughput(1000, 500000, 0), None);
    // the count does not fit
    assert_eq!(throughput(usize::MAX, 2, 5), None);
    assert_eq!(throughput(usize::MAX / 2 + 1, 1, 5), None);
    assert_eq!(throughput(usize::MAX / 2, 1, 1), Some((usize::MAX - 1, usize::MAX - 1)));
}

#[test]
fn fullness_is_counted_across_the_wrap() {
    assert!(!is_full(0, 0, 1));
    assert!(is_full(1, 0, 1));
    assert!(is_full(5, 3, 2));
    assert!(!is_full(4, 3, 2));
    assert!(is_full(1, usize::MAX, 2));
    assert!(!is_full(1, usize::MAX, 3));
    // more than the capacity between the indices is not "exactly full"
    assert!(!is_full(7, 3, 2));
}

#[test]
fn readings_agree_up_to_the_capacity() {
    assert!(within_capacity(0, 0, 1));
    assert!(within_capacity(1, 0, 1));
    assert!(!within_capacity(2, 0, 1));
    assert!(within_capacity(1, usize::MAX, 2));
    assert!(!within_capacity(2, usize::MAX, 2));
    // a read index ahead of the write index has crossed it
    assert!(!within_capacity(3, 7, 16));
    assert!(!within_capacity(usize::MAX, 0, 16));
}

#[test]
fn slots_repeat_with_the_slot_count() {
    assert_eq!(slot(0, 16), 0);
    assert_eq!(slot(15, 16), 15);
    assert_eq!(slot(16, 16), 0);
    assert_eq!(slot(37, 16), 5);
    assert_eq!(slot(37, 1), 0);
    assert_eq!(slot(usize::MAX, 16), 15);
    assert_eq!(slot(advance(usize::MAX), 16), 0);
    for idx in [0usize, 1, 7, 8, 9, 1000, usize::MAX - 1, usize::MAX] {
        assert_eq!(slot(idx, 8), idx % 8);
    }
}

#[test]
fn an_item_is_seen_when_the_indices_differ() {
    assert!(!sees_item(0, 0));
    assert!(sees_item(0, 1));
    assert!(sees_item(usize::MAX, 0));
    assert!(!sees_item(usize::MAX, usize::MAX));
}
