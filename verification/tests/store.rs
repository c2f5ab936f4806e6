use trace_store::{EventRecord, Level, SpanRecord, State, TraceStore};

fn span(name: &str, start_ms: i64) -> SpanRecord {
    SpanRecord::new_at(Level::Debug, name.to_owned(), "test".to_owned(), start_ms, 0)
}

fn event(message: &str) -> EventRecord {
    EventRecord {
        time: 0,
        level: Level::Info,
        fields: vec![("message".to_owned(), message.to_owned())],
    }
}

// A fresh store holds exactly the sentinel root record.
#[test]
fn store_starts_with_root() {
    let store = TraceStore::new_at(0, 0);
    let records = store.spans();
    assert_eq!(records.len(), 1);
    assert_eq!(records[0].name, "root");
    assert_eq!(records[0].target, "root");
    assert_eq!(records[0].level, Level::Info);
    assert!(records[0].close_time.is_none());
    assert!(records[0].events.is_empty());
    assert!(store.contains(0));
}

// Scenario: one inserted span, one event for it, one event for an
// unknown identifier.
#[test]
fn store_insert_span_and_events() {
    let mut store = TraceStore::new_at(0, 0);
    store.insert_span(5, span("five", 10));
    store.insert_event(5, event("x"));
    store.insert_event(99, event("y"));
    let records = store.spans();
    assert_eq!(records.len(), 2);
    assert_eq!(records[0].name, "root");
    assert_eq!(records[1].name, "five");
    assert_eq!(records[1].events.len(), 1);
    assert_eq!(records[1].events[0].fields[0].0, "message");
    assert_eq!(records[1].events[0].fields[0].1, "x");
    assert!(!store.contains(99));
}

// An event for an unknown identifier is a no-op: size and contents
// unchanged.
#[test]
fn store_event_for_unknown_id_is_noop() {
    let mut store = TraceStore::new_at(0, 0);
    store.insert_span(5, span("five", 10));
    let before = store.spans();
    store.insert_event(99, event("y"));
    let after = store.spans();
    assert_eq!(after.len(), before.len());
    for (b, a) in before.iter().zip(after.iter()) {
        assert_eq!(a.name, b.name);
        assert_eq!(a.events.len(), b.events.len());
        assert_eq!(a.close_time, b.close_time);
    }
}

// Inserting at an existing identifier overwrites the record and keeps
// its position.
#[test]
fn store_insert_overwrites_in_place() {
    let mut store = TraceStore::new_at(0, 0);
    store.insert_span(5, span("five", 10));
    store.insert_span(7, span("seven", 11));
    store.insert_span(5, span("five-again", 12));
    let records = store.spans();
    assert_eq!(records.len(), 3);
    assert_eq!(records[1].name, "five-again");
    assert_eq!(records[2].name, "seven");
}

// Scenario: closing a span sets its close time no earlier than its
// start time and closes its timing.
#[test]
fn store_close_span() {
    let mut store = TraceStore::new_at(0, 0);
    store.insert_span(5, span("five", 0));
    store.close_span(5);
    let records = store.spans();
    let closed = &records[1];
    assert_eq!(closed.name, "five");
    let close_time = closed.close_time.expect("close time must be set");
    assert!(close_time >= closed.start_time);
    assert_eq!(closed.timing.state(), State::Closed);
}

// A close before the record's start time is clamped to the start time,
// and an earlier close time is never overwritten.
#[test]
fn store_close_span_clamps_and_keeps() {
    let mut store = TraceStore::new_at(0, 0);
    store.insert_span(5, span("five", 100));
    store.close_span_at(5, 50, 0);
    let records = store.spans();
    assert_eq!(records[1].close_time, Some(100));
    store.close_span_at(5, 500, 0);
    let records = store.spans();
    assert_eq!(records[1].close_time, Some(100));
}

// A record closed longer ago than the threshold is evicted; one closed
// within the threshold is retained.
#[test]
fn store_remove_expired_threshold() {
    let mut store = TraceStore::new_at(0, 0);
    store.insert_span(5, span("old", 0));
    store.close_span_at(5, 1000, 0);
    store.remove_expired_at(1501, 500);
    assert!(!store.contains(5));

    store.insert_span(6, span("recent", 0));
    store.close_span_at(6, 1000, 0);
    store.remove_expired_at(1500, 500);
    assert!(store.contains(6));
}

// Open records and the sentinel root are retained regardless of age.
#[test]
fn store_remove_expired_keeps_open_and_root() {
    let mut store = TraceStore::new_at(0, 0);
    store.insert_span(5, span("open", 0));
    store.remove_expired_at(i64::MAX, 0);
    assert!(store.contains(0));
    assert!(store.contains(5));
    assert_eq!(store.spans().len(), 2);

    // Even a closed root survives a sweep.
    store.close_span_at(0, 1000, 0);
    store.remove_expired_at(i64::MAX, 0);
    assert!(store.contains(0));
}

// The adapter files an event without an enclosing span under the root.
#[test]
fn adapter_event_without_span_goes_to_root() {
    let mut store = TraceStore::new_at(0, 0);
    store.on_event_at(
        None,
        Level::Warn,
        vec![("message".to_owned(), "hello".to_owned())],
        7,
    );
    let records = store.spans();
    assert_eq!(records[0].events.len(), 1);
    assert_eq!(records[0].events[0].time, 7);
    assert_eq!(records[0].events[0].level, Level::Warn);
    assert_eq!(records[0].events[0].fields[0].1, "hello");
}

// The adapter files an event under its enclosing span, and drops one
// whose span is gone.
#[test]
fn adapter_event_with_span() {
    let mut store = TraceStore::new_at(0, 0);
    store.on_span_created_at(5, Level::Trace, "five".to_owned(), "t".to_owned(), 0, 0);
    store.on_event_at(
        Some(5),
        Level::Error,
        vec![("message".to_owned(), "boom".to_owned())],
        9,
    );
    store.on_event_at(
        Some(42),
        Level::Error,
        vec![("message".to_owned(), "lost".to_owned())],
        9,
    );
    let records = store.spans();
    assert_eq!(records.len(), 2);
    assert_eq!(records[1].events.len(), 1);
    assert_eq!(records[1].events[0].fields[0].1, "boom");
    assert_eq!(records[0].events.len(), 0);
}

// The adapter creates a record with the notification's metadata and a
// fresh timing snapshot.
#[test]
fn adapter_span_created() {
    let mut store = TraceStore::new_at(0, 0);
    store.on_span_created_at(3, Level::Info, "work".to_owned(), "app".to_owned(), 25, 0);
    let records = store.spans();
    assert_eq!(records.len(), 2);
    assert_eq!(records[1].name, "work");
    assert_eq!(records[1].target, "app");
    assert_eq!(records[1].level, Level::Info);
    assert_eq!(records[1].start_time, 25);
    assert!(records[1].close_time.is_none());
    assert_eq!(records[1].timing.state(), State::Idle);
    assert_eq!(records[1].timing.enter_count(), 0);
}

// Enter and exit notifications update the stored timing snapshot.
#[test]
fn adapter_enter_and_exit_update_timing() {
    const SEC: u64 = 1_000_000_000;
    let mut store = TraceStore::new_at(0, 0);
    store.on_span_created_at(5, Level::Debug, "five".to_owned(), "t".to_owned(), 0, 0);
    store.on_span_entered_at(5, SEC);
    let records = store.spans();
    assert_eq!(records[1].timing.state(), State::Busy);
    assert_eq!(records[1].timing.idle_duration(), SEC);
    assert_eq!(records[1].timing.enter_count(), 1);
    store.on_span_exited_at(5, 3 * SEC);
    let records = store.spans();
    assert_eq!(records[1].timing.state(), State::Idle);
    assert_eq!(records[1].timing.busy_duration(), 2 * SEC);
    assert_eq!(records[1].timing.exit_count(), 1);
    // Notifications for an unknown identifier change nothing.
    store.on_span_entered_at(42, 10 * SEC);
    assert_eq!(store.spans().len(), 2);
}

// The default store and the clocked operations work with real clocks.
#[test]
fn store_with_real_clocks() {
    let mut store = TraceStore::default();
    assert_eq!(store.spans().len(), 1);
    store.on_span_created(5, Level::Info, "five".to_owned(), "t".to_owned());
    store.on_span_entered(5);
    store.on_span_exited(5);
    store.on_event(Some(5), Level::Info, vec![("message".to_owned(), "m".to_owned())]);
    store.close_span(5);
    store.remove_expired(10_000);
    let records = store.spans();
    assert_eq!(records.len(), 2);
    assert_eq!(records[1].events.len(), 1);
    assert_eq!(records[1].timing.state(), State::Closed);
    assert!(records[1].close_time.is_some());
}
