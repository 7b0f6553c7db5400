use enrichment_pipeline::ingest::{IngestionLoop, OffsetTracker, Phase, SubscriptionError};

fn streaming_loop(max_in_flight: usize) -> IngestionLoop {
    let mut l = IngestionLoop::new(0, max_in_flight);
    l.on_subscribe(true).unwrap();
    l.start_streaming();
    l
}

#[test]
fn subscription_failure_is_fatal() {
    let mut l = IngestionLoop::new(0, 8);
    let r = l.on_subscribe(false);
    assert_eq!(r.unwrap_err(), SubscriptionError::SubscribeFailed);
    assert!(!l.may_pull());
}

#[test]
fn backpressure_bounds_in_flight() {
    let mut l = streaming_loop(2);
    assert!(l.may_pull());
    let o1 = l.dispatch();
    assert!(l.may_pull());
    let o2 = l.dispatch();
    assert_eq!((o1, o2), (1, 2));
    assert!(!l.may_pull());
    l.complete(o1, true);
    assert!(l.may_pull());
}

#[test]
fn commit_never_skips_an_unresolved_offset() {
    let mut l = streaming_loop(16);
    let offsets: Vec<u64> = (0..5).map(|_| l.dispatch()).collect();
    assert_eq!(offsets, vec![1, 2, 3, 4, 5]);
    l.complete(1, true);
    l.complete(2, true);
    l.complete(4, true);
    l.complete(5, true);
    assert_eq!(l.committed_offset(), 2);
    l.complete(3, false);
    assert_eq!(l.committed_offset(), 5);
}

#[test]
fn tracker_advances_over_resolved_prefix() {
    let mut t = OffsetTracker::new(10);
    let a = t.dispatch();
    let b = t.dispatch();
    let c = t.dispatch();
    assert_eq!((a, b, c), (11, 12, 13));
    assert_eq!(t.committed_offset(), 10);
    t.resolve(12);
    assert_eq!(t.committed_offset(), 10);
    t.resolve(11);
    assert_eq!(t.committed_offset(), 12);
    t.resolve(13);
    assert_eq!(t.committed_offset(), 13);
}

#[test]
fn shutdown_drains_and_reports_undrained() {
    let mut l = streaming_loop(16);
    let offsets: Vec<u64> = (0..10).map(|_| l.dispatch()).collect();
    l.shutdown();
    assert!(!l.may_pull());
    for &o in offsets.iter().take(7) {
        l.complete(o, true);
    }
    let done = l.poll_drain(false);
    assert!(!done);
    let done = l.poll_drain(true);
    assert!(done);
    assert_eq!(l.emitted_count(), 7);
    assert_eq!(l.committed_offset(), 7);
    assert_eq!(l.undrained_count(), 3);
    assert_eq!(l.dropped_count(), 0);
}

#[test]
fn clean_drain_terminates_without_loss() {
    let mut l = streaming_loop(4);
    let o1 = l.dispatch();
    let o2 = l.dispatch();
    l.shutdown();
    l.complete(o1, true);
    l.complete(o2, false);
    let done = l.poll_drain(false);
    assert!(done);
    assert_eq!(l.emitted_count(), 1);
    assert_eq!(l.dropped_count(), 1);
    assert_eq!(l.undrained_count(), 0);
    assert_eq!(l.committed_offset(), 2);
}

#[test]
fn phases_follow_the_lifecycle() {
    let mut l = IngestionLoop::new(0, 1);
    assert_eq!(l.current_phase(), Phase::Idle);
    l.on_subscribe(true).unwrap();
    assert_eq!(l.current_phase(), Phase::Subscribed);
    l.start_streaming();
    assert_eq!(l.current_phase(), Phase::Streaming);
    l.shutdown();
    assert_eq!(l.current_phase(), Phase::Draining);
    l.poll_drain(false);
    assert_eq!(l.current_phase(), Phase::Terminated);
}
