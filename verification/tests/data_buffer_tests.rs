use rust_course::data_buffer::DataBuffer;

#[test]
fn test_buffer() {
    let mut buffer = DataBuffer::<3>::new();

    assert!(buffer.push(10));
    assert!(buffer.push(20));
    assert!(buffer.push(30));
    assert!(!buffer.push(40)); // Should fail - at capacity

    assert_eq!(buffer.len(), 3);
    assert_eq!(buffer.sum(), 60);
}

#[test]
fn zero_capacity_refuses_everything() {
    let mut buffer = DataBuffer::<0>::new();
    assert!(!buffer.push(1));
    assert_eq!(buffer.len(), 0);
    assert_eq!(buffer.sum(), 0);
}
