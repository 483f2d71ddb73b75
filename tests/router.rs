use kairos::router::differs_from_last;
use kairos::ids::{ClientId, DeviceId, StreamId};
use kairos::router::Router;

fn events() -> StreamId {
    StreamId::new(DeviceId(0x000100), 0)
}

fn samples() -> StreamId {
    StreamId::new(DeviceId(0x000100), 1)
}

#[test]
fn subscribe_once_per_client_and_stream() {
    let mut router: Router<u32> = Router::new();
    router.add_stream(events());
    assert!(router.subscribe(events(), ClientId(1), 10));
    assert!(!router.subscribe(events(), ClientId(1), 11));
    assert!(router.subscribe(events(), ClientId(2), 20));
    assert_eq!(router.subscriber_count(events()), 2);
    assert_eq!(*router.subscriber(events(), 0), (ClientId(1), 10));
    assert_eq!(*router.subscriber(events(), 1), (ClientId(2), 20));
}

#[test]
fn subscribe_to_unknown_stream_fails() {
    let mut router: Router<u32> = Router::new();
    assert!(!router.subscribe(events(), ClientId(1), 10));
    assert_eq!(router.subscriber_count(events()), 0);
}

#[test]
fn disconnect_removes_client_from_every_stream() {
    let mut router: Router<u32> = Router::new();
    router.add_stream(events());
    router.add_stream(samples());
    assert!(router.subscribe(events(), ClientId(1), 10));
    assert!(router.subscribe(events(), ClientId(2), 20));
    assert!(router.subscribe(samples(), ClientId(1), 11));
    router.remove_client(ClientId(1));
    assert_eq!(router.subscriber_count(events()), 1);
    assert_eq!(*router.subscriber(events(), 0), (ClientId(2), 20));
    assert_eq!(router.subscriber_count(samples()), 0);
}

#[test]
fn unsubscribe_removes_one_stream_entry() {
    let mut router: Router<u32> = Router::new();
    router.add_stream(events());
    router.add_stream(samples());
    router.subscribe(events(), ClientId(1), 10);
    router.subscribe(samples(), ClientId(1), 11);
    assert_eq!(router.unsubscribe(events(), ClientId(1)), 1);
    assert_eq!(router.unsubscribe(events(), ClientId(1)), 0);
    assert_eq!(router.subscriber_count(samples()), 1);
}

#[test]
fn remove_stream_and_re_add_starts_empty() {
    let mut router: Router<u32> = Router::new();
    router.add_stream(events());
    router.subscribe(events(), ClientId(1), 10);
    router.remove_stream(events());
    assert_eq!(router.subscriber_count(events()), 0);
    router.add_stream(events());
    assert_eq!(router.subscriber_count(events()), 0);
    assert!(router.subscribe(events(), ClientId(1), 12));
}

#[test]
fn record_state_sends_only_changes() {
    assert!(differs_from_last(&None, &[1, 2]));
    assert!(!differs_from_last(&Some(vec![1, 2]), &[1, 2]));
    assert!(differs_from_last(&Some(vec![1, 2]), &[1, 3]));
    assert!(differs_from_last(&Some(vec![1, 2]), &[1, 2, 3]));
}
