use ringbuf::helper::{RingBufConsumer, RingBufProducer, RingBufTrait};

fn scenario<P: RingBufProducer<i32>, C: RingBufConsumer<i32>>(p: P, c: C) {
    assert_eq!(c.dequeue(), None);
    for i in 0..10 {
        assert!(p.enqueue(i));
    }
    assert!(!p.enqueue(10));
    for i in 0..10 {
        assert_eq!(c.dequeue(), Some(i));
    }
    assert_eq!(c.dequeue(), None);
}

#[test]
fn ten_of_sixteen_r2() {
    assert_eq!(ringbuf::r2::Buffer::<i32>::with_capacity(10).allocated_size(), 16);
    let (p, c) = ringbuf::r2::make::<i32>(10);
    scenario(p, c);
}

#[test]
fn ten_of_sixteen_r3() {
    assert_eq!(ringbuf::r3::Buffer::<i32>::with_capacity(10).allocated_size(), 16);
    let (p, c) = ringbuf::r3::make::<i32>(10);
    scenario(p, c);
}

fn many_rounds<P: RingBufProducer<usize>, C: RingBufConsumer<usize>>(p: P, c: C, capacity: usize) {
    let mut next_in = 0;
    let mut next_out = 0;
    for round in 0..1000 {
        let batch = 1 + round % capacity;
        for _ in 0..batch {
            assert!(p.enqueue(next_in));
            next_in += 1;
        }
        for _ in 0..batch {
            assert_eq!(c.dequeue(), Some(next_out));
            next_out += 1;
        }
        assert_eq!(c.dequeue(), None);
    }
    for _ in 0..capacity {
        assert!(p.enqueue(next_in));
        next_in += 1;
    }
    assert!(!p.enqueue(next_in));
    for _ in 0..capacity {
        assert_eq!(c.dequeue(), Some(next_out));
        next_out += 1;
    }
    assert_eq!(c.dequeue(), None);
}

#[test]
fn wraparound_r2() {
    let (p, c) = ringbuf::r2::make::<usize>(5);
    many_rounds(p, c, 5);
    let (p, c) = ringbuf::r2::make::<usize>(16);
    many_rounds(p, c, 16);
}

#[test]
fn wraparound_r3() {
    let (p, c) = ringbuf::r3::make::<usize>(5);
    many_rounds(p, c, 5);
    let (p, c) = ringbuf::r3::make::<usize>(16);
    many_rounds(p, c, 16);
}

#[test]
fn buffer_used_directly_r2() {
    let b = ringbuf::r2::Buffer::<char>::with_capacity(2);
    assert_eq!(b.dequeue(), None);
    assert!(b.enqueue('a'));
    assert!(b.enqueue('b'));
    assert!(!b.enqueue('c'));
    assert_eq!(b.dequeue(), Some('a'));
    assert_eq!(b.dequeue(), Some('b'));
    assert_eq!(b.dequeue(), None);
}

#[test]
fn buffer_used_directly_r3() {
    let b = ringbuf::r3::Buffer::<char>::with_capacity(2);
    assert_eq!(b.dequeue(), None);
    assert!(b.enqueue('a'));
    assert!(b.enqueue('b'));
    assert!(!b.enqueue('c'));
    assert_eq!(b.dequeue(), Some('a'));
    assert!(b.enqueue('d'));
    assert_eq!(b.dequeue(), Some('b'));
    assert_eq!(b.dequeue(), Some('d'));
    assert_eq!(b.dequeue(), None);
}

#[test]
fn a_stale_copy_leads_to_a_refresh_r3() {
    let b = ringbuf::r3::Buffer::<i32>::with_capacity(2);
    assert!(b.enqueue(1));
    assert!(b.enqueue(2));
    assert_eq!(b.dequeue(), Some(1));
    // the producer's copy of the read index still says that the buffer is full
    assert!(b.enqueue(3));
    assert!(!b.enqueue(4));
    assert_eq!(b.dequeue(), Some(2));
    assert_eq!(b.dequeue(), Some(3));
    assert_eq!(b.dequeue(), None);
    // the consumer's copy of the write index is stale after the next enqueue
    assert!(b.enqueue(5));
    assert_eq!(b.dequeue(), Some(5));
    assert_eq!(b.dequeue(), None);
}

#[test]
fn shared_items_left_behind_are_dropped() {
    let witness = std::rc::Rc::new(());
    {
        let (p, c) = ringbuf::r2::make::<std::rc::Rc<()>>(4);
        assert!(p.enqueue(witness.clone()));
        assert!(p.enqueue(witness.clone()));
        assert_eq!(std::rc::Rc::strong_count(&witness), 3);
        drop(p);
        assert_eq!(std::rc::Rc::strong_count(&witness), 3);
        assert!(c.dequeue().is_some());
    }
    assert_eq!(std::rc::Rc::strong_count(&witness), 1);
    {
        let (p, c) = ringbuf::r3::make::<std::rc::Rc<()>>(4);
        assert!(p.enqueue(witness.clone()));
        assert!(p.enqueue(witness.clone()));
        drop(c);
        assert_eq!(std::rc::Rc::strong_count(&witness), 3);
        drop(p);
    }
    assert_eq!(std::rc::Rc::strong_count(&witness), 1);
}

#[test]
fn checked_calls_answer_as_the_plain_ones_r3() {
    let (p, c) = ringbuf::r3::make::<i32>(2);
    assert_eq!(c.dequeue_checked(), Ok(None));
    assert_eq!(p.enqueue_checked(1), Ok(true));
    assert_eq!(p.enqueue_checked(2), Ok(true));
    assert_eq!(p.enqueue_checked(3), Ok(false));
    assert_eq!(c.dequeue_checked(), Ok(Some(1)));
    // the producer's copy of the read index is stale: a refresh, no refusal
    assert_eq!(p.enqueue_checked(4), Ok(true));
    assert_eq!(p.enqueue_checked(5), Ok(false));
    assert_eq!(c.dequeue_checked(), Ok(Some(2)));
    assert_eq!(c.dequeue_checked(), Ok(Some(4)));
    assert_eq!(c.dequeue_checked(), Ok(None));

    let b = ringbuf::r3::Buffer::<i32>::with_capacity(1);
    assert_eq!(b.dequeue_checked(), Ok(None));
    assert_eq!(b.enqueue_checked(9), Ok(true));
    assert_eq!(b.enqueue_checked(10), Ok(false));
    assert_eq!(b.dequeue_checked(), Ok(Some(9)));
    assert_eq!(b.dequeue_checked(), Ok(None));
}

#[test]
fn shared_and_plain_forms_answer_alike() {
    let mut plain2 = ringbuf::r2::Core::<u32>::with_capacity(3);
    let mut plain3 = ringbuf::r3::Core::<u32>::with_capacity(3);
    let mut single = ringbuf::r1::RingBuf::<u32>::with_capacity(3);
    let shared2 = ringbuf::r2::Buffer::<u32>::with_capacity(3);
    let shared3 = ringbuf::r3::Buffer::<u32>::with_capacity(3);
    // a fixed walk through fillings and drainings of every length
    let mut x: u32 = 12345;
    for turn in 0..5000u32 {
        x = x.wrapping_mul(1664525).wrapping_add(1013904223);
        if (x >> 16) % 3 != 0 {
            let expected = single.enqueue(turn);
            assert_eq!(plain2.enqueue(turn), expected);
            assert_eq!(plain3.enqueue(turn), expected);
            assert_eq!(shared2.enqueue(turn), expected);
            assert_eq!(shared3.enqueue(turn), expected);
        } else {
            let expected = single.dequeue();
            assert_eq!(plain2.dequeue(), expected);
            assert_eq!(plain3.dequeue(), expected);
            assert_eq!(shared2.dequeue(), expected);
            assert_eq!(shared3.dequeue(), expected);
        }
    }
}
