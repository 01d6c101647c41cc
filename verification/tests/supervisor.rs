use orderbook::book::{DepthDiff, DepthSnapshot, OrderBook};
use orderbook::decimal::Decimal;
use orderbook::level::PriceLevel;
use orderbook::supervisor::{is_rotation_due, Action, StreamEvent, StreamSupervisor};
use orderbook::sync::{SyncState, Synchronizer};

fn n(mantissa: i128, scale: u32) -> Decimal {
    Decimal::new(mantissa, scale).unwrap()
}

fn row(pm: i128, ps: u32, qm: i128) -> PriceLevel {
    PriceLevel::new(n(pm, ps), n(qm, 0))
}

fn full(id: u64, time: u64) -> DepthSnapshot {
    DepthSnapshot {
        last_update_id: id,
        event_time: time,
        bids: vec![row(100, 1, 5), row(99, 1, 6), row(98, 1, 7)],
        asks: vec![row(105, 1, 3), row(106, 1, 2), row(107, 1, 1)],
    }
}

fn change(first: u64, last: u64, previous: u64, time: u64) -> DepthDiff {
    DepthDiff {
        event_time: time,
        first_update_id: first,
        final_update_id: last,
        previous_final_update_id: previous,
        bids: vec![row(101, 1, 9)],
        asks: vec![],
    }
}

fn supervisor(levels: usize, rollover: u64) -> StreamSupervisor {
    let book = OrderBook::new("ethusdt".to_string(), 0);
    StreamSupervisor::new(Synchronizer::new(book), levels, rollover)
}

/// A supervisor that is connected and synced at update 105.
fn running(levels: usize, rollover: u64) -> StreamSupervisor {
    let mut s = supervisor(levels, rollover);
    assert!(matches!(s.handle(StreamEvent::Connected), Action::FetchSnapshot));
    assert!(matches!(s.handle(StreamEvent::Snapshot(full(100, 1_000))), Action::Publish(_)));
    assert!(matches!(s.handle(StreamEvent::Diff(change(99, 105, 98, 2_000))), Action::Publish(_)));
    assert_eq!(s.synchronizer().state(), SyncState::Synced);
    s
}

#[test]
fn supervisor_starts_by_connecting() {
    let s = supervisor(20, 0);
    assert!(matches!(s.start(), Action::Connect));
    assert!(!s.is_connected());
    assert!(!s.is_fetching());
    assert_eq!(s.synchronizer().state(), SyncState::AwaitingSnapshot);
}

#[test]
fn connection_is_answered_by_a_snapshot_fetch() {
    let mut s = supervisor(20, 0);
    assert!(matches!(s.handle(StreamEvent::Connected), Action::FetchSnapshot));
    assert!(s.is_connected());
    assert!(s.is_fetching());
}

#[test]
fn failed_connection_is_tried_again_without_limit() {
    let mut s = supervisor(20, 0);
    for _ in 0..50 {
        assert!(matches!(s.handle(StreamEvent::ConnectFailed), Action::Connect));
        assert!(!s.is_connected());
    }
}

#[test]
fn failed_fetch_is_tried_again_without_limit() {
    let mut s = supervisor(20, 0);
    s.handle(StreamEvent::Connected);
    for _ in 0..50 {
        assert!(matches!(s.handle(StreamEvent::SnapshotFailed), Action::FetchSnapshot));
        assert!(s.is_fetching());
    }
    assert!(matches!(s.handle(StreamEvent::Snapshot(full(100, 1_000))), Action::Publish(_)));
    assert!(!s.is_fetching());
}

#[test]
fn snapshot_is_published_to_the_configured_depth() {
    let mut s = supervisor(2, 5);
    s.handle(StreamEvent::Connected);
    match s.handle(StreamEvent::Snapshot(full(100, 1_000))) {
        Action::Publish(record) => {
            assert_eq!(record.symbol, "ethusdt");
            assert_eq!(record.timestamp, 1_000);
            assert_eq!(record.depth.ask_prices, vec![n(105, 1), n(106, 1)]);
            assert_eq!(record.depth.ask_quantities, vec![n(3, 0), n(2, 0)]);
            assert_eq!(record.depth.bid_prices, vec![n(100, 1), n(99, 1)]);
            assert_eq!(record.depth.bid_quantities, vec![n(5, 0), n(6, 0)]);
            assert!(!record.rotate);
        }
        other => panic!("expected a record, got {:?}", other),
    }
}

#[test]
fn applied_diff_is_published() {
    let mut s = running(20, 1_000_000);
    match s.handle(StreamEvent::Diff(change(106, 107, 105, 3_000))) {
        Action::Publish(record) => {
            assert_eq!(record.timestamp, 3_000);
            assert_eq!(record.depth.bid_prices[0], n(101, 1));
            assert_eq!(record.depth.bid_quantities[0], n(9, 0));
            assert_eq!(record.depth.bid_prices.len(), 4);
        }
        other => panic!("expected a record, got {:?}", other),
    }
    assert_eq!(s.synchronizer().book().final_update_id(), 107);
}

#[test]
fn gap_is_answered_by_a_snapshot_fetch() {
    let mut s = running(20, 1_000_000);
    assert!(matches!(s.handle(StreamEvent::Diff(change(106, 107, 104, 3_000))), Action::FetchSnapshot));
    assert!(s.is_fetching());
    assert_eq!(s.synchronizer().state(), SyncState::Resyncing);
    assert_eq!(s.synchronizer().book().final_update_id(), 105);
    assert!(matches!(s.handle(StreamEvent::Diff(change(108, 109, 107, 3_100))), Action::Idle));
    assert!(matches!(s.handle(StreamEvent::Snapshot(full(200, 4_000))), Action::Publish(_)));
    assert_eq!(s.synchronizer().state(), SyncState::AwaitingSnapshot);
    assert!(!s.is_fetching());
}

#[test]
fn diffs_during_the_fetch_are_held_and_replayed() {
    let mut s = supervisor(20, 1_000_000);
    s.handle(StreamEvent::Connected);
    assert!(matches!(s.handle(StreamEvent::Diff(change(99, 105, 98, 500))), Action::Idle));
    assert_eq!(s.synchronizer().pending_len(), 1);
    assert!(matches!(s.handle(StreamEvent::Snapshot(full(100, 400))), Action::Publish(_)));
    assert_eq!(s.synchronizer().state(), SyncState::Synced);
    assert_eq!(s.synchronizer().book().final_update_id(), 105);
}

#[test]
fn gap_among_held_diffs_fetches_again() {
    let mut s = supervisor(20, 1_000_000);
    s.handle(StreamEvent::Connected);
    s.handle(StreamEvent::Diff(change(103, 105, 102, 500)));
    assert!(matches!(s.handle(StreamEvent::Snapshot(full(100, 400))), Action::FetchSnapshot));
    assert!(s.is_fetching());
    assert_eq!(s.synchronizer().state(), SyncState::Resyncing);
}

#[test]
fn stale_diff_is_dropped_quietly() {
    let mut s = supervisor(20, 1_000_000);
    s.handle(StreamEvent::Connected);
    s.handle(StreamEvent::Snapshot(full(100, 400)));
    assert!(matches!(s.handle(StreamEvent::Diff(change(90, 95, 89, 300))), Action::Idle));
    assert_eq!(s.synchronizer().book().final_update_id(), 100);
}

#[test]
fn malformed_message_changes_nothing() {
    let mut s = running(20, 1_000_000);
    assert!(matches!(s.handle(StreamEvent::Malformed), Action::Idle));
    assert!(s.is_connected());
    assert_eq!(s.synchronizer().state(), SyncState::Synced);
    assert_eq!(s.synchronizer().book().final_update_id(), 105);
}

#[test]
fn disconnect_resets_the_synchronizer_and_reconnects() {
    let mut s = running(20, 1_000_000);
    assert!(matches!(s.handle(StreamEvent::Disconnected), Action::Connect));
    assert!(!s.is_connected());
    assert!(!s.is_fetching());
    assert_eq!(s.synchronizer().state(), SyncState::AwaitingSnapshot);
    assert!(s.synchronizer().needs_snapshot());
    assert!(matches!(s.handle(StreamEvent::Connected), Action::FetchSnapshot));
    assert_eq!(s.synchronizer().state(), SyncState::AwaitingSnapshot);
    assert!(matches!(s.handle(StreamEvent::Diff(change(106, 107, 105, 3_000))), Action::Idle));
    assert_eq!(s.synchronizer().pending_len(), 1);
}

#[test]
fn events_of_a_dead_session_are_dropped() {
    let mut s = running(20, 1_000_000);
    s.handle(StreamEvent::Disconnected);
    assert!(matches!(s.handle(StreamEvent::Diff(change(106, 107, 105, 3_000))), Action::Idle));
    assert!(matches!(s.handle(StreamEvent::Snapshot(full(300, 5_000))), Action::Idle));
    assert!(matches!(s.handle(StreamEvent::SnapshotFailed), Action::Idle));
    assert_eq!(s.synchronizer().pending_len(), 0);
    assert_eq!(s.synchronizer().book().final_update_id(), 105);
}

#[test]
fn rotation_is_due_past_the_deadline() {
    // The deadline is in seconds, the event time in milliseconds.
    let mut s = running(20, 10);
    match s.handle(StreamEvent::Diff(change(106, 107, 105, 10_999))) {
        Action::Publish(record) => assert!(!record.rotate),
        other => panic!("expected a record, got {:?}", other),
    }
    match s.handle(StreamEvent::Diff(change(108, 109, 107, 11_000))) {
        Action::Publish(record) => assert!(record.rotate),
        other => panic!("expected a record, got {:?}", other),
    }
}

#[test]
fn set_rollover_moves_the_deadline_and_nothing_else() {
    let mut s = running(20, 10);
    s.set_rollover(20);
    assert!(s.is_connected());
    assert_eq!(s.synchronizer().state(), SyncState::Synced);
    assert_eq!(s.synchronizer().book().final_update_id(), 105);
    match s.handle(StreamEvent::Diff(change(106, 107, 105, 11_000))) {
        Action::Publish(record) => assert!(!record.rotate),
        other => panic!("expected a record, got {:?}", other),
    }
    assert!(s.record().timestamp == 11_000 && !s.record().rotate);
}

#[test]
fn rotation_rule_compares_whole_seconds() {
    assert!(!is_rotation_due(0, 0));
    assert!(!is_rotation_due(999, 0));
    assert!(is_rotation_due(1_000, 0));
    assert!(!is_rotation_due(86_399_999, 86_399));
    assert!(is_rotation_due(86_400_000, 86_399));
    assert!(!is_rotation_due(u64::MAX, u64::MAX));
}
