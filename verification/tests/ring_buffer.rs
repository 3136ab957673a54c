use convolver::RingBuffer;

#[test]
fn test_wrapping() {
    // Test that ring buffer is a ring (wraps after more than `length` elements have entered).
    let capacity = 17;
    let delay = 5;
    let mut ring_buffer: RingBuffer<f32> = RingBuffer::new(capacity);

    for i in 0..delay {
        ring_buffer.push(i as f32);
    }

    for i in delay..capacity + 13 {
        assert_eq!(ring_buffer.len(), delay);
        assert_eq!(ring_buffer.pop(), (i - delay) as f32);
        ring_buffer.push(i as f32)
    }
}

#[test]
fn test_api() {
    // Basic test of all API functions.
    let capacity = 3;
    let mut ring_buffer = RingBuffer::new(capacity);
    assert_eq!(ring_buffer.capacity(), capacity);

    ring_buffer.put(3);
    assert_eq!(ring_buffer.peek(), 3);

    ring_buffer.set_write_index(1);
    assert_eq!(ring_buffer.get_write_index(), 1);

    ring_buffer.push(17);
    assert_eq!(ring_buffer.get_write_index(), 2);

    assert_eq!(ring_buffer.get_read_index(), 0);
    assert_eq!(ring_buffer.get(1), 17);
    assert_eq!(ring_buffer.pop(), 3);
    assert_eq!(ring_buffer.get_read_index(), 1);

    assert_eq!(ring_buffer.len(), 1);
    ring_buffer.push(42);
    assert_eq!(ring_buffer.len(), 2);

    assert_eq!(ring_buffer.get_write_index(), 0);

    // Should be unchanged.
    assert_eq!(ring_buffer.capacity(), capacity);
}

#[test]
fn test_capacity() {
    // Tricky: does `capacity` mean "size of internal buffer" or "number of elements before this is
    // full"?
    let capacity = 3;
    let mut ring_buffer = RingBuffer::new(3);
    for i in 0..(capacity - 1) {
        ring_buffer.push(i);
        assert_eq!(ring_buffer.len(), i + 1);
    }
}

#[test]
fn test_reset() {
    // Test state after initialization and reset.
    let mut ring_buffer = RingBuffer::new(512);

    // Check initial state.
    assert_eq!(ring_buffer.get_read_index(), 0);
    assert_eq!(ring_buffer.get_write_index(), 0);
    for i in 0..ring_buffer.capacity() {
        assert_eq!(ring_buffer.get(i), 0.0);
    }

    // Fill ring buffer, mess with indices.
    let fill = 123.456;
    for i in 0..ring_buffer.capacity() {
        ring_buffer.push(fill);
        assert_eq!(ring_buffer.get(i), fill);
    }

    ring_buffer.set_write_index(17);
    ring_buffer.set_read_index(42);

    // Check state after reset.
    ring_buffer.reset();
    assert_eq!(ring_buffer.get_read_index(), 0);
    assert_eq!(ring_buffer.get_write_index(), 0);
    for i in 0..ring_buffer.capacity() {
        assert_eq!(ring_buffer.get(i), 0.0);
    }
}

#[test]
fn test_weird_inputs() {
    let capacity = 5;
    let mut ring_buffer = RingBuffer::<f32>::new(capacity);

    ring_buffer.set_write_index(capacity);
    assert_eq!(ring_buffer.get_write_index(), 0);
    ring_buffer.set_write_index(capacity * 2 + 3);
    assert_eq!(ring_buffer.get_write_index(), 3);

    ring_buffer.set_read_index(capacity);
    assert_eq!(ring_buffer.get_read_index(), 0);
    ring_buffer.set_read_index(capacity * 2 + 3);
    assert_eq!(ring_buffer.get_read_index(), 3);
}

#[test]
fn cursors_and_length_stay_in_range() {
    let capacity = 7;
    let mut ring_buffer: RingBuffer<u32> = RingBuffer::new(capacity);
    let mut state: u32 = 12345;
    for step in 0..1000 {
        state = state.wrapping_mul(1664525).wrapping_add(1013904223);
        if state >> 31 == 0 {
            ring_buffer.push(step);
        } else {
            ring_buffer.pop();
        }
        assert!(ring_buffer.len() <= ring_buffer.capacity());
        assert!(ring_buffer.get_read_index() < capacity);
        assert!(ring_buffer.get_write_index() < capacity);
        assert_eq!(ring_buffer.capacity(), capacity);
    }
}

#[test]
fn length_is_the_distance_between_the_cursors() {
    let mut ring_buffer: RingBuffer<i32> = RingBuffer::new(5);
    assert_eq!(ring_buffer.len(), 0);
    ring_buffer.set_write_index(4);
    ring_buffer.set_read_index(1);
    assert_eq!(ring_buffer.len(), 3);
    ring_buffer.set_write_index(1);
    ring_buffer.set_read_index(4);
    assert_eq!(ring_buffer.len(), 2);
    ring_buffer.set_read_index(1);
    assert_eq!(ring_buffer.len(), 0);
}

#[test]
fn get_wraps_beyond_the_capacity() {
    let mut ring_buffer: RingBuffer<i32> = RingBuffer::new(4);
    for i in 0..4 {
        ring_buffer.push(10 + i);
    }
    ring_buffer.set_read_index(3);
    assert_eq!(ring_buffer.get(0), 13);
    assert_eq!(ring_buffer.get(1), 10);
    assert_eq!(ring_buffer.get(4), 13);
    assert_eq!(ring_buffer.get(4 * 1000 + 2), 11);
    assert_eq!(ring_buffer.get(usize::MAX), ring_buffer.get(usize::MAX % 4));
    // Nothing moved.
    assert_eq!(ring_buffer.get_read_index(), 3);
    assert_eq!(ring_buffer.get_write_index(), 0);
}

#[test]
fn put_and_peek_work_under_the_write_cursor() {
    let mut ring_buffer: RingBuffer<i32> = RingBuffer::new(3);
    ring_buffer.push(1);
    ring_buffer.put(7);
    assert_eq!(ring_buffer.peek(), 7);
    assert_eq!(ring_buffer.get_write_index(), 1);
    assert_eq!(ring_buffer.get_read_index(), 0);
    assert_eq!(ring_buffer.get(0), 1);
    assert_eq!(ring_buffer.get(1), 7);
    ring_buffer.push(8);
    assert_eq!(ring_buffer.get(1), 8);
    assert_eq!(ring_buffer.peek(), 0);
}

#[test]
fn a_ring_without_storage_can_be_made_and_reset() {
    let mut ring_buffer: RingBuffer<f32> = RingBuffer::new(0);
    assert_eq!(ring_buffer.capacity(), 0);
    assert_eq!(ring_buffer.len(), 0);
    assert_eq!(ring_buffer.get_read_index(), 0);
    assert_eq!(ring_buffer.get_write_index(), 0);
    ring_buffer.reset();
    assert_eq!(ring_buffer.capacity(), 0);
    assert_eq!(ring_buffer.len(), 0);
}
