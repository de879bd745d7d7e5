use ringbuf::helper::{RingBufConsumer, RingBufProducer};

fn round_trip<P: RingBufProducer<i32>, C: RingBufConsumer<i32>>(p: P, c: C, n: i32) {
    let mut seen: Vec<i32> = Vec::new();
    let mut next = 0;
    let mut turn = 0;
    while seen.len() < n as usize {
        // the producer retries until accepted; the consumer takes what is there
        let burst = 1 + turn % 7;
        for _ in 0..burst {
            if next < n && p.enqueue(next) {
                next += 1;
            }
        }
        let burst = 1 + turn % 3;
        for _ in 0..burst {
            if let Some(v) = c.dequeue() {
                seen.push(v);
            }
        }
        turn += 1;
    }
    let expected: Vec<i32> = (0..n).collect();
    assert_eq!(seen, expected);
    assert_eq!(c.dequeue(), None);
}

#[test]
fn round_trip_with_retries_r2() {
    for capacity in [1, 2, 3, 8, 100] {
        let (p, c) = ringbuf::r2::make::<i32>(capacity);
        round_trip(p, c, 1000);
    }
}

#[test]
fn round_trip_with_retries_r3() {
    for capacity in [1, 2, 3, 8, 100] {
        let (p, c) = ringbuf::r3::make::<i32>(capacity);
        round_trip(p, c, 1000);
    }
}
