use perfwin::ring_buffer::RingBuffer;

#[test]
fn drain_returns_pushed_in_order_and_empties() {
    let mut b: RingBuffer<u32> = RingBuffer::new();
    assert!(b.is_empty());
    b.push(1);
    b.push(2);
    b.push(3);
    assert_eq!(b.len(), 3);
    assert_eq!(b.drain(), vec![1, 2, 3]);
    assert!(b.is_empty());
    assert_eq!(b.drain(), Vec::<u32>::new());
    b.push(4);
    assert_eq!(b.drain(), vec![4]);
}

#[test]
fn default_is_empty() {
    let b: RingBuffer<String> = RingBuffer::default();
    assert_eq!(b.len(), 0);
}
