use watt::ui::sparkline::RingBuffer;

#[test]
fn empty_buffer_returns_nothing() {
    let rb: RingBuffer<u64> = RingBuffer::new(4);
    assert!(rb.as_vec().is_empty());
}

#[test]
fn zero_capacity_buffer_returns_nothing() {
    let rb: RingBuffer<u64> = RingBuffer::new(0);
    assert!(rb.as_vec().is_empty());
}

#[test]
fn capacity_one_keeps_only_latest() {
    let mut rb: RingBuffer<i32> = RingBuffer::new(1);
    for v in 0..10 {
        rb.push(v);
        assert_eq!(rb.as_vec(), vec![v]);
    }
}

#[test]
fn buffer_keeps_last_cap_values_after_many_wraps() {
    let cap = 7;
    let mut rb: RingBuffer<u32> = RingBuffer::new(cap);
    let mut pushed: Vec<u32> = Vec::new();
    for v in 0..50u32 {
        rb.push(v * 3);
        pushed.push(v * 3);
        let start = pushed.len().saturating_sub(cap);
        assert_eq!(rb.as_vec(), pushed[start..].to_vec());
    }
}

#[test]
fn float_history_as_in_the_charts() {
    let mut rb: RingBuffer<f32> = RingBuffer::new(120);
    rb.push(12.5);
    rb.push(99.0);
    assert_eq!(rb.as_vec(), vec![12.5f32, 99.0]);
}
