use dynamo_llm::debounce::{ActiveLoad, LoopAction, LoopEvent, PublishingLoop, DEBOUNCE_WINDOW_MS};
use dynamo_llm::metrics::{
    metrics_entry, record_metrics, MetricsMap, PublishError, WorkerMetrics,
    WorkerMetricsPublisher,
};

fn flush(state: &mut PublishingLoop, publisher: &WorkerMetricsPublisher) -> Vec<ActiveLoad> {
    let snapshot = publisher.current_metrics();
    let _ = state.step(LoopEvent::MetricsChanged(snapshot));
    match state.step(LoopEvent::TimerFired) {
        LoopAction::Publish(loads) => loads,
        LoopAction::Wait => Vec::new(),
        _ => panic!("unexpected action"),
    }
}

#[test]
fn test_single_rank_publish() {
    let publisher = WorkerMetricsPublisher::new().unwrap();

    publisher.publish(Some(0), Some(100), Some(50)).unwrap();

    let map = publisher.current_metrics();
    assert_eq!(map.len(), 1);

    let metrics = map.get(&0).unwrap();
    assert_eq!(metrics.active_decode_blocks, Some(100));
    assert_eq!(metrics.kv_used_blocks, Some(50));
}

#[test]
fn test_multi_rank_debounce_flush() {
    let publisher = WorkerMetricsPublisher::new().unwrap();
    let mut state = PublishingLoop::new(123);

    // Publish multiple ranks back-to-back (within debounce window)
    publisher.publish(Some(0), Some(100), Some(50)).unwrap();
    publisher.publish(Some(1), Some(200), Some(75)).unwrap();
    publisher.publish(Some(2), Some(150), Some(60)).unwrap();

    let events = flush(&mut state, &publisher);
    assert_eq!(
        events.len(),
        3,
        "Expected 3 published events, got {}",
        events.len()
    );

    let event0 = events.iter().find(|e| e.dp_rank == 0).unwrap();
    assert_eq!(event0.worker_id, 123);
    assert_eq!(event0.active_decode_blocks, Some(100));
    assert_eq!(event0.kv_used_blocks, Some(50));

    let event1 = events.iter().find(|e| e.dp_rank == 1).unwrap();
    assert_eq!(event1.worker_id, 123);
    assert_eq!(event1.active_decode_blocks, Some(200));
    assert_eq!(event1.kv_used_blocks, Some(75));

    let event2 = events.iter().find(|e| e.dp_rank == 2).unwrap();
    assert_eq!(event2.worker_id, 123);
    assert_eq!(event2.active_decode_blocks, Some(150));
    assert_eq!(event2.kv_used_blocks, Some(60));
}

#[test]
fn test_single_rank_update_only_publishes_that_rank() {
    let publisher = WorkerMetricsPublisher::new().unwrap();
    let mut state = PublishingLoop::new(456);

    // Initial publish of three ranks
    publisher.publish(Some(0), Some(100), Some(50)).unwrap();
    publisher.publish(Some(1), Some(200), Some(75)).unwrap();
    publisher.publish(Some(2), Some(150), Some(60)).unwrap();

    {
        let events = flush(&mut state, &publisher);
        assert_eq!(events.len(), 3, "Initial flush should publish 3 ranks");
    }

    // Update only rank 1
    publisher.publish(Some(1), Some(250), Some(80)).unwrap();

    let events = flush(&mut state, &publisher);
    assert_eq!(
        events.len(),
        1,
        "Only the updated rank should be published, got {}",
        events.len()
    );
    assert_eq!(events[0].dp_rank, 1);
    assert_eq!(events[0].active_decode_blocks, Some(250));
    assert_eq!(events[0].kv_used_blocks, Some(80));
}

#[test]
fn test_default_rank_zero() {
    let publisher = WorkerMetricsPublisher::new().unwrap();

    publisher.publish(None, Some(100), Some(50)).unwrap();

    let map = publisher.current_metrics();
    assert_eq!(map.len(), 1);
    assert!(map.contains_key(&0));
}

#[test]
fn test_publish_requires_at_least_one_metric() {
    let publisher = WorkerMetricsPublisher::new().unwrap();

    let result = publisher.publish(Some(0), None, None);
    assert!(result.is_err());
    assert!(result
        .unwrap_err()
        .message()
        .contains("at least one load metric"));
}

#[test]
fn test_publish_with_only_active_decode_blocks() {
    let publisher = WorkerMetricsPublisher::new().unwrap();

    publisher.publish(Some(0), Some(100), None).unwrap();

    let map = publisher.current_metrics();
    let metrics = map.get(&0).unwrap();
    assert_eq!(metrics.active_decode_blocks, Some(100));
    assert_eq!(metrics.kv_used_blocks, None);
}

#[test]
fn test_publish_with_only_kv_used_blocks() {
    let publisher = WorkerMetricsPublisher::new().unwrap();

    publisher.publish(Some(0), None, Some(50)).unwrap();

    let map = publisher.current_metrics();
    let metrics = map.get(&0).unwrap();
    assert_eq!(metrics.active_decode_blocks, None);
    assert_eq!(metrics.kv_used_blocks, Some(50));
}

#[test]
fn refused_publish_leaves_channel_unchanged() {
    let publisher = WorkerMetricsPublisher::new().unwrap();
    publisher.publish(Some(3), Some(1), Some(2)).unwrap();
    assert_eq!(publisher.publish(Some(3), None, None), Err(PublishError::MissingLoadMetric));
    let map = publisher.current_metrics();
    assert_eq!(map.len(), 1);
    assert_eq!(
        map.get(&3),
        Some(&WorkerMetrics { active_decode_blocks: Some(1), kv_used_blocks: Some(2) })
    );
}

#[test]
fn error_message_text() {
    assert_eq!(
        PublishError::MissingLoadMetric.message(),
        "worker metrics publish requires at least one load metric"
    );
}

#[test]
fn metrics_entry_defaults_rank_and_keeps_values() {
    assert_eq!(
        metrics_entry(None, Some(7), None),
        Ok((0, WorkerMetrics { active_decode_blocks: Some(7), kv_used_blocks: None }))
    );
    assert_eq!(
        metrics_entry(Some(9), None, Some(4)),
        Ok((9, WorkerMetrics { active_decode_blocks: None, kv_used_blocks: Some(4) }))
    );
    assert_eq!(metrics_entry(Some(9), None, None), Err(PublishError::MissingLoadMetric));
}

#[test]
fn republishing_a_rank_keeps_other_ranks() {
    let publisher = WorkerMetricsPublisher::new().unwrap();
    publisher.publish(Some(0), Some(1), Some(1)).unwrap();
    publisher.publish(Some(1), Some(2), Some(2)).unwrap();
    publisher.publish(Some(0), Some(3), None).unwrap();
    let map = publisher.current_metrics();
    assert_eq!(map.len(), 2);
    assert_eq!(map[&0], WorkerMetrics { active_decode_blocks: Some(3), kv_used_blocks: None });
    assert_eq!(map[&1], WorkerMetrics { active_decode_blocks: Some(2), kv_used_blocks: Some(2) });
}

#[test]
fn record_metrics_inserts_one_rank() {
    let mut map = MetricsMap::new();
    let m = WorkerMetrics { active_decode_blocks: Some(5), kv_used_blocks: Some(6) };
    record_metrics(&mut map, 4, m);
    record_metrics(&mut map, 2, m);
    let n = WorkerMetrics { active_decode_blocks: None, kv_used_blocks: Some(1) };
    record_metrics(&mut map, 4, n);
    assert_eq!(map.len(), 2);
    assert_eq!(map[&4], n);
    assert_eq!(map[&2], m);
}

#[test]
fn same_snapshot_twice_is_quiet() {
    let mut state = PublishingLoop::new(1);
    let mut snapshot = MetricsMap::new();
    snapshot.insert(0, WorkerMetrics { active_decode_blocks: Some(1), kv_used_blocks: None });
    assert!(matches!(state.step(LoopEvent::MetricsChanged(snapshot.clone())), LoopAction::ResetTimer { delay_ms: 1 }));
    assert!(matches!(state.step(LoopEvent::MetricsChanged(snapshot.clone())), LoopAction::Wait));
    assert_eq!(state.pending.len(), 1);
    assert!(matches!(state.step(LoopEvent::TimerFired), LoopAction::Publish(ref l) if l.len() == 1));
    assert!(matches!(state.step(LoopEvent::MetricsChanged(snapshot)), LoopAction::Wait));
    assert!(!state.has_pending());
    assert!(matches!(state.step(LoopEvent::TimerFired), LoopAction::Wait));
}

#[test]
fn pending_keeps_latest_value_until_flush() {
    let mut state = PublishingLoop::new(8);
    let mut snapshot = MetricsMap::new();
    snapshot.insert(5, WorkerMetrics { active_decode_blocks: Some(1), kv_used_blocks: None });
    assert!(state.on_metrics_changed(&snapshot));
    snapshot.insert(5, WorkerMetrics { active_decode_blocks: Some(2), kv_used_blocks: None });
    assert!(state.on_metrics_changed(&snapshot));
    let loads = state.on_timer();
    assert_eq!(
        loads,
        vec![ActiveLoad {
            worker_id: 8,
            dp_rank: 5,
            active_decode_blocks: Some(2),
            active_prefill_tokens: None,
            kv_used_blocks: None,
        }]
    );
    assert!(state.pending.is_empty());
    assert_eq!(state.last_metrics.len(), 1);
}

#[test]
fn changed_back_value_is_published_again() {
    let mut state = PublishingLoop::new(0);
    let a = WorkerMetrics { active_decode_blocks: Some(1), kv_used_blocks: Some(1) };
    let b = WorkerMetrics { active_decode_blocks: Some(2), kv_used_blocks: Some(1) };
    let mut snapshot = MetricsMap::new();
    snapshot.insert(0, a);
    state.on_metrics_changed(&snapshot);
    state.on_timer();
    snapshot.insert(0, b);
    assert!(state.on_metrics_changed(&snapshot));
    state.on_timer();
    snapshot.insert(0, a);
    assert!(state.on_metrics_changed(&snapshot));
    assert_eq!(state.on_timer().len(), 1);
}

#[test]
fn sender_dropped_stops() {
    let mut state = PublishingLoop::new(2);
    let mut snapshot = MetricsMap::new();
    snapshot.insert(0, WorkerMetrics { active_decode_blocks: None, kv_used_blocks: Some(3) });
    state.on_metrics_changed(&snapshot);
    assert!(matches!(state.step(LoopEvent::SenderDropped), LoopAction::Stop));
    assert_eq!(state.pending.len(), 1);
}

#[test]
fn change_arms_timer_one_window_ahead() {
    assert_eq!(DEBOUNCE_WINDOW_MS, 1);
    let mut state = PublishingLoop::new(3);
    let mut snapshot = MetricsMap::new();
    snapshot.insert(1, WorkerMetrics { active_decode_blocks: Some(4), kv_used_blocks: None });
    match state.step(LoopEvent::MetricsChanged(snapshot)) {
        LoopAction::ResetTimer { delay_ms } => assert_eq!(delay_ms, DEBOUNCE_WINDOW_MS),
        _ => panic!("expected the timer to be armed"),
    }
}

#[test]
fn flush_after_several_snapshots_sends_latest_of_changed_ranks() {
    let mut state = PublishingLoop::new(7);
    let a = WorkerMetrics { active_decode_blocks: Some(1), kv_used_blocks: None };
    let b = WorkerMetrics { active_decode_blocks: Some(2), kv_used_blocks: None };
    let c = WorkerMetrics { active_decode_blocks: None, kv_used_blocks: Some(9) };
    let mut snapshot = MetricsMap::new();
    snapshot.insert(0, a);
    snapshot.insert(1, c);
    state.on_metrics_changed(&snapshot);
    state.on_timer();
    // Rank 0 changes and changes back within one window; rank 1 never changes.
    snapshot.insert(0, b);
    assert!(state.on_metrics_changed(&snapshot));
    snapshot.insert(0, a);
    assert!(state.on_metrics_changed(&snapshot));
    let loads = state.on_timer();
    assert_eq!(
        loads,
        vec![ActiveLoad {
            worker_id: 7,
            dp_rank: 0,
            active_decode_blocks: Some(1),
            active_prefill_tokens: None,
            kv_used_blocks: None,
        }]
    );
}
