use wavesim::ring_buffer::RingBuffer;

#[test]
fn fresh_buffer_is_zeroed() {
    let buf: RingBuffer<i32> = RingBuffer::with_capacity(3);
    assert_eq!(buf.len(), 3);
    for i in 0..3 {
        assert_eq!(buf.get(i), Some(&0));
    }
    assert_eq!(buf.get(3), None);
}

#[test]
fn single_slot_buffer() {
    let mut buf: RingBuffer<u8> = RingBuffer::with_capacity(1);
    *buf.get_mut(0).unwrap() = 9;
    assert_eq!(buf.pop(), 9);
    assert_eq!(buf.pop(), 0);
    assert!(buf.get_mut(1).is_none());
}

#[test]
fn written_value_pops_after_its_offset() {
    // A value written at offset d is what the (d + 1)-th pop returns.
    let cap = 5;
    for d in 0..cap {
        let mut buf: RingBuffer<i64> = RingBuffer::with_capacity(cap);
        *buf.get_mut(d).unwrap() = 42;
        for k in 0..cap {
            let v = buf.pop();
            if k == d {
                assert_eq!(v, 42);
            } else {
                assert_eq!(v, 0);
            }
        }
    }
}

#[test]
fn write_at_step_j_pops_at_step_k() {
    // Written at step j through get_mut((k - j) mod C), popped at step k.
    let cap = 4usize;
    let k = 3usize;
    for j in 0..=k {
        let mut buf: RingBuffer<usize> = RingBuffer::with_capacity(cap);
        for step in 0..=k {
            if step == j {
                *buf.get_mut((k - j) % cap).unwrap() = 100 + j;
            }
            let v = buf.pop();
            if step == k {
                assert_eq!(v, 100 + j);
            } else {
                assert_eq!(v, 0);
            }
        }
    }
}

#[test]
fn writes_aimed_at_one_pop_accumulate() {
    let cap = 4usize;
    let k = 3usize;
    let mut buf: RingBuffer<usize> = RingBuffer::with_capacity(cap);
    for j in 0..=k {
        *buf.get_mut((k - j) % cap).unwrap() += j + 1;
        let v = buf.pop();
        if j < k {
            assert_eq!(v, 0);
        } else {
            assert_eq!(v, 1 + 2 + 3 + 4);
        }
    }
}

#[test]
fn popped_slots_read_zero() {
    let mut buf: RingBuffer<i32> = RingBuffer::with_capacity(3);
    for i in 0..3 {
        *buf.get_mut(i).unwrap() = (i as i32) + 1;
    }
    assert_eq!(buf.pop(), 1);
    assert_eq!(buf.pop(), 2);
    assert_eq!(buf.get(0), Some(&3));
    assert_eq!(buf.get(1), Some(&0));
    assert_eq!(buf.get(2), Some(&0));
    assert_eq!(buf.pop(), 3);
    assert_eq!(buf.pop(), 0);
}

#[test]
fn indices_wrap_past_the_end() {
    let mut buf: RingBuffer<i32> = RingBuffer::with_capacity(4);
    buf.pop();
    buf.pop();
    buf.pop();
    *buf.get_mut(2).unwrap() = 5;
    assert_eq!(buf.get(2), Some(&5));
    assert_eq!(buf.pop(), 0);
    assert_eq!(buf.pop(), 0);
    assert_eq!(buf.pop(), 5);
    assert_eq!(buf.get(4), None);
}
