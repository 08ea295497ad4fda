use sentil::error::Error;
use sentil::signal::buffer::RingBuffer;

#[test]
fn pushes_and_evicts_in_order() {
    let mut buffer = RingBuffer::new(3, (0.0, 0.0)).unwrap();
    assert!(buffer.is_empty());
    for (t, v) in [(0.0, 1.0), (1.0, 2.0), (2.0, 3.0)] {
        assert_eq!(buffer.push((t, v)), None);
    }
    assert!(buffer.is_full());
    assert_eq!(buffer.push((3.0, 4.0)), Some((0.0, 1.0)));
    assert_eq!(buffer.front(), Some((1.0, 2.0)));
    assert_eq!(buffer.back(), Some((3.0, 4.0)));
    assert_eq!(buffer.get(1), Some((2.0, 3.0)));
    assert_eq!(buffer.len(), 3);
}

#[test]
fn rejects_a_zero_capacity() {
    match RingBuffer::new(0, 0u8) {
        Err(Error::InvalidConfig { context, message }) => {
            assert_eq!(context, "ring buffer");
            assert_eq!(message, "capacity must be at least 1");
        }
        _ => panic!("expected an invalid configuration"),
    }
}

#[test]
fn pops_from_either_end() {
    let mut buffer = RingBuffer::new(4, (0.0, 0.0)).unwrap();
    for (t, v) in [(0.0, 2.0), (1.0, 4.0), (2.0, 6.0), (3.0, 8.0)] {
        buffer.push((t, v));
    }
    assert_eq!(buffer.pop_back(), Some((3.0, 8.0)));
    assert_eq!(buffer.pop_front(), Some((0.0, 2.0)));
    assert_eq!(buffer.to_vec(), vec![(1.0, 4.0), (2.0, 6.0)]);
    buffer.push((4.0, 10.0));
    assert_eq!(buffer.back(), Some((4.0, 10.0)));
    let mut empty = RingBuffer::new(2, (0.0, 0.0)).unwrap();
    assert_eq!(empty.pop_front(), None);
    assert_eq!(empty.pop_back(), None);
}

#[test]
fn recent_yields_the_last_samples() {
    let mut buffer = RingBuffer::new(5, (0, 0)).unwrap();
    for (t, v) in [(0, 3), (1, 1), (2, 4), (3, 1), (4, 5)] {
        buffer.push((t, v));
    }
    assert_eq!(buffer.recent(2), vec![(3, 1), (4, 5)]);
    assert_eq!(buffer.recent(10).len(), 5);
}

#[test]
fn wrapping_keeps_the_order_and_the_capacity() {
    let mut buffer = RingBuffer::new(3, 0u32).unwrap();
    for i in 0..10u32 {
        let evicted = buffer.push(i);
        assert_eq!(evicted, if i >= 3 { Some(i - 3) } else { None });
    }
    assert_eq!(buffer.to_vec(), vec![7, 8, 9]);
    assert_eq!(buffer.capacity(), 3);
    buffer.pop_front();
    buffer.push(10);
    buffer.push(11);
    assert_eq!(buffer.to_vec(), vec![9, 10, 11]);
    assert_eq!(buffer.get(3), None);
    buffer.clear();
    assert!(buffer.is_empty());
    assert_eq!(buffer.front(), None);
}
