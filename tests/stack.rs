use kairos::stack::Stack;

#[test]
fn pop_until_empty_then_nothing() {
    let mut stack = Stack::new(2, 1_000_000, 10, 0);
    assert!(stack.pop(0).is_some());
    assert!(stack.pop(0).is_some());
    assert!(stack.pop(0).is_none());
}

#[test]
fn push_returns_buffer_to_the_top() {
    let mut stack = Stack::new(1, 1_000_000, 10, 0);
    let mut buffer = stack.pop(0).unwrap();
    buffer.extend_from_slice(&[1, 2, 3]);
    stack.push(buffer, 10);
    assert_eq!(stack.pop(20), Some(vec![1, 2, 3]));
}

#[test]
fn outstanding_buffers_never_exceed_pool() {
    let mut stack = Stack::new(3, 1_000, 4, 0);
    let mut taken = Vec::new();
    for now in 0..10u64 {
        if let Some(buffer) = stack.pop(now * 100) {
            taken.push(buffer);
        }
    }
    assert_eq!(taken.len(), 3);
    for buffer in taken.drain(..) {
        stack.push(buffer, 2_000);
    }
    let mut again = 0;
    while stack.pop(3_000).is_some() {
        again += 1;
    }
    assert_eq!(again, 3);
}

#[test]
fn shrink_releases_buffers_unused_over_all_windows() {
    let mut stack = Stack::new(4, 1_000, 2, 0);
    let mut buffers: Vec<Vec<u8>> = (0..4).map(|_| stack.pop(0).unwrap()).collect();
    for buffer in buffers.iter_mut() {
        buffer.resize(100, 7);
    }
    for buffer in buffers.drain(..) {
        stack.push(buffer, 0);
    }
    // two windows pass with all four buffers idle
    stack.shrink_unused(1_000);
    stack.shrink_unused(2_000);
    stack.shrink_unused(3_000);
    let mut lengths = Vec::new();
    while let Some(buffer) = stack.pop(3_000) {
        lengths.push(buffer.len());
    }
    assert_eq!(lengths, vec![0, 0, 0, 0]);
}

#[test]
fn shrink_keeps_buffers_in_use_recently() {
    let mut stack = Stack::new(2, 1_000, 3, 0);
    let mut a = stack.pop(0).unwrap();
    let mut b = stack.pop(0).unwrap();
    a.resize(10, 1);
    b.resize(10, 2);
    stack.push(a, 0);
    stack.push(b, 0);
    // the current window saw the pool empty: nothing is released
    stack.shrink_unused(10);
    assert_eq!(stack.pop(10), Some(vec![2u8; 10]));
    assert_eq!(stack.pop(10), Some(vec![1u8; 10]));
}
