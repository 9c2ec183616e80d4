use audiovis::bridge::SpectrumBridge;

#[test]
fn query_before_any_publish_returns_empty_frame() {
    let bridge = SpectrumBridge::new();
    let frame = bridge.query();
    assert!(frame.is_empty());
    assert!(frame.iter().all(|&v| v == 0));
    // a second query is just as well-defined
    assert!(bridge.query().is_empty());
}

#[test]
fn publish_then_query_returns_the_frame() {
    let mut bridge = SpectrumBridge::new();
    assert!(bridge.publish(vec![1, 2, 3], 1));
    assert_eq!(bridge.query(), vec![1, 2, 3]);
}

#[test]
fn stale_publish_is_discarded() {
    let mut bridge = SpectrumBridge::new();
    assert!(bridge.publish(vec![1, 2, 3], 5));
    assert!(!bridge.publish(vec![9, 9, 9], 5));
    assert!(!bridge.publish(vec![9, 9, 9], 4));
    assert_eq!(bridge.query(), vec![1, 2, 3]);
    assert!(bridge.publish(vec![9, 9, 9], 6));
    assert_eq!(bridge.query(), vec![9, 9, 9]);
}

#[test]
fn publish_of_different_length_is_discarded() {
    let mut bridge = SpectrumBridge::new();
    assert!(bridge.publish(vec![1, 2, 3], 1));
    assert!(!bridge.publish(vec![7], 2));
    assert_eq!(bridge.query(), vec![1, 2, 3]);
}

#[test]
fn query_does_not_consume_the_frame() {
    let mut bridge = SpectrumBridge::new();
    assert!(bridge.publish(vec![4, 5], 1));
    assert_eq!(bridge.query(), vec![4, 5]);
    assert_eq!(bridge.query(), vec![4, 5]);
}
