use ringbuf::helper::{RingBufConsumer, RingBufProducer, RingBufTrait};
use ringbuf::r0::RingBuf0;
use ringbuf::r1::RingBuf;

fn check_ringbuf<R: RingBufTrait<i32>>(mut ringbuf: R) {
    for i in 0..10 {
        ringbuf.enqueue(i);
    }
    for i in 0..10 {
        assert_eq!(ringbuf.dequeue(), Some(i));
    }
}

fn check_pc<P: RingBufProducer<i32>, C: RingBufConsumer<i32>>(p: P, c: C) {
    for i in 0..10 {
        p.enqueue(i);
    }
    for i in 0..10 {
        assert_eq!(c.dequeue(), Some(i));
    }
}

#[test]
fn test_queue() {
    let cap = 10;
    check_ringbuf(RingBuf0::<i32>::with_capacity(cap));
    check_ringbuf(RingBuf::<i32>::with_capacity(cap));
    check_ringbuf(ringbuf::r2::Core::<i32>::with_capacity(cap));
    check_ringbuf(ringbuf::r3::Core::<i32>::with_capacity(cap));
    let (p, c) = ringbuf::r2::make::<i32>(cap);
    check_pc(p, c);
    let (p, c) = ringbuf::r3::make::<i32>(cap);
    check_pc(p, c);
}

fn scenario<R: RingBufTrait<i32>>(mut rb: R) {
    for i in 0..10 {
        assert!(rb.enqueue(i));
    }
    assert!(!rb.enqueue(10));
    for i in 0..10 {
        assert_eq!(rb.dequeue(), Some(i));
    }
    assert_eq!(rb.dequeue(), None);
}

#[test]
fn ten_of_sixteen_r0() {
    let rb = RingBuf0::<i32>::with_capacity(10);
    assert_eq!(rb.allocated_size(), 16);
    scenario(rb);
}

#[test]
fn ten_of_sixteen_plain_r2() {
    let rb = ringbuf::r2::Core::<i32>::with_capacity(10);
    assert_eq!(rb.allocated_size(), 16);
    scenario(rb);
}

#[test]
fn ten_of_sixteen_plain_r3() {
    let rb = ringbuf::r3::Core::<i32>::with_capacity(10);
    assert_eq!(rb.allocated_size(), 16);
    scenario(rb);
}

#[test]
fn ten_of_sixteen_r1() {
    let rb = RingBuf::<i32>::with_capacity(10);
    assert_eq!(rb.allocated_size(), 16);
    scenario(rb);
}

#[test]
fn empty_start_r0() {
    let mut rb = RingBuf0::<u8>::with_capacity(4);
    assert_eq!(rb.dequeue(), None);
    assert_eq!(rb.dequeue(), None);
    assert!(rb.enqueue(1));
}

#[test]
fn empty_start_r1() {
    let mut rb = RingBuf::<u8>::with_capacity(4);
    assert_eq!(rb.dequeue(), None);
    assert!(rb.enqueue(1));
    assert_eq!(rb.dequeue(), Some(1));
    assert_eq!(rb.dequeue(), None);
}

#[test]
fn capacity_one_r0() {
    let mut rb = RingBuf0::<&str>::with_capacity(1);
    assert_eq!(rb.allocated_size(), 1);
    assert!(rb.enqueue("a"));
    assert!(!rb.enqueue("b"));
    assert_eq!(rb.dequeue(), Some("a"));
    assert!(rb.enqueue("c"));
    assert_eq!(rb.dequeue(), Some("c"));
    assert_eq!(rb.dequeue(), None);
}

#[test]
fn full_buffer_keeps_content_r1() {
    let mut rb = RingBuf::<i32>::with_capacity(3);
    assert_eq!(rb.allocated_size(), 4);
    assert!(rb.enqueue(1));
    assert!(rb.enqueue(2));
    assert!(rb.enqueue(3));
    assert!(!rb.enqueue(4));
    assert!(!rb.enqueue(5));
    assert_eq!(rb.dequeue(), Some(1));
    assert!(rb.enqueue(6));
    assert_eq!(rb.dequeue(), Some(2));
    assert_eq!(rb.dequeue(), Some(3));
    assert_eq!(rb.dequeue(), Some(6));
    assert_eq!(rb.dequeue(), None);
}

fn many_rounds<R: RingBufTrait<usize>>(mut rb: R, capacity: usize) {
    let mut next_in = 0;
    let mut next_out = 0;
    for round in 0..1000 {
        let batch = 1 + round % capacity;
        for _ in 0..batch {
            assert!(rb.enqueue(next_in));
            next_in += 1;
        }
        for _ in 0..batch {
            assert_eq!(rb.dequeue(), Some(next_out));
            next_out += 1;
        }
        assert_eq!(rb.dequeue(), None);
    }
    for _ in 0..capacity {
        assert!(rb.enqueue(next_in));
        next_in += 1;
    }
    assert!(!rb.enqueue(next_in));
    for _ in 0..capacity {
        assert_eq!(rb.dequeue(), Some(next_out));
        next_out += 1;
    }
    assert_eq!(rb.dequeue(), None);
}

#[test]
fn wraparound_r0() {
    many_rounds(RingBuf0::<usize>::with_capacity(5), 5);
    many_rounds(RingBuf0::<usize>::with_capacity(8), 8);
}

#[test]
fn wraparound_plain_r2() {
    many_rounds(ringbuf::r2::Core::<usize>::with_capacity(5), 5);
    many_rounds(ringbuf::r2::Core::<usize>::with_capacity(8), 8);
    many_rounds(ringbuf::r2::Core::<usize>::with_capacity(1), 1);
}

#[test]
fn wraparound_plain_r3() {
    many_rounds(ringbuf::r3::Core::<usize>::with_capacity(5), 5);
    many_rounds(ringbuf::r3::Core::<usize>::with_capacity(8), 8);
    many_rounds(ringbuf::r3::Core::<usize>::with_capacity(1), 1);
}

#[test]
fn a_stale_copy_leads_to_a_refresh_plain_r3() {
    let mut b = ringbuf::r3::Core::<i32>::with_capacity(2);
    assert!(b.enqueue(1));
    assert!(b.enqueue(2));
    assert_eq!(b.dequeue(), Some(1));
    // the copy of the read index still says that the buffer is full
    assert!(b.enqueue(3));
    assert!(!b.enqueue(4));
    assert_eq!(b.dequeue(), Some(2));
    assert_eq!(b.dequeue(), Some(3));
    assert_eq!(b.dequeue(), None);
    assert!(b.enqueue(5));
    assert_eq!(b.dequeue(), Some(5));
    assert_eq!(b.dequeue(), None);
}

#[test]
fn plain_forms_drop_what_is_left_behind() {
    let witness = std::rc::Rc::new(());
    {
        let mut b = ringbuf::r2::Core::<std::rc::Rc<()>>::with_capacity(4);
        assert!(b.enqueue(witness.clone()));
        assert!(b.enqueue(witness.clone()));
        let mut c = ringbuf::r3::Core::<std::rc::Rc<()>>::with_capacity(4);
        assert!(c.enqueue(witness.clone()));
        assert_eq!(std::rc::Rc::strong_count(&witness), 4);
    }
    assert_eq!(std::rc::Rc::strong_count(&witness), 1);
}

#[test]
fn wraparound_r1() {
    many_rounds(RingBuf::<usize>::with_capacity(5), 5);
    many_rounds(RingBuf::<usize>::with_capacity(8), 8);
}

#[test]
fn items_left_behind_are_dropped() {
    let witness = std::rc::Rc::new(());
    {
        let mut rb = RingBuf0::<std::rc::Rc<()>>::with_capacity(4);
        assert!(rb.enqueue(witness.clone()));
        assert!(rb.enqueue(witness.clone()));
        assert!(rb.enqueue(witness.clone()));
        assert_eq!(std::rc::Rc::strong_count(&witness), 4);
        let first = rb.dequeue();
        assert!(first.is_some());
        assert_eq!(std::rc::Rc::strong_count(&witness), 4);
    }
    assert_eq!(std::rc::Rc::strong_count(&witness), 1);
    {
        let mut rb = RingBuf::<std::rc::Rc<()>>::with_capacity(4);
        assert!(rb.enqueue(witness.clone()));
        assert_eq!(std::rc::Rc::strong_count(&witness), 2);
    }
    assert_eq!(std::rc::Rc::strong_count(&witness), 1);
}
