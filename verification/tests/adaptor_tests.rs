//! Tests that drive the batching state machine the way its driver does:
//! feeding source and timer readiness events and collecting the batches.

use chunks::adaptor::{Chunks, Error, SourceEvent, Step, TimerEvent};

type Machine = Chunks<i32, String, String>;

/// Drives the machine over an always-ready source holding `items`, then the
/// end of the source, collecting every batch handed out; asserts that the
/// run finishes with a clean end of sequence.
fn collect_batches(capacity: usize, duration_ms: u64, items: Vec<i32>) -> Vec<Vec<i32>> {
    let mut machine: Machine = Chunks::new(capacity, duration_ms);
    let mut out: Vec<Vec<i32>> = Vec::new();
    assert!(machine.take_deferred().is_none());
    for item in items {
        match machine.on_source(SourceEvent::Item(item)) {
            Step::Drained => {}
            Step::Batch(batch) => out.push(batch),
            _ => panic!("unexpected step while draining"),
        }
    }
    loop {
        assert!(machine.take_deferred().is_none());
        match machine.on_source(SourceEvent::End) {
            Step::Batch(batch) => out.push(batch),
            Step::End => break,
            _ => panic!("unexpected step at end of source"),
        }
    }
    out
}

#[test]
fn messages_pass_through() {
    let v = collect_batches(5, 10_000, vec![5]);
    assert_eq!(vec![vec![5]], v);
}

#[test]
fn message_chunks() {
    let v = collect_batches(5, 10_000, vec![0, 1, 2, 3, 4, 5, 6, 7, 8, 9]);
    assert_eq!(vec![vec![0, 1, 2, 3, 4], vec![5, 6, 7, 8, 9]], v);
}

#[test]
fn message_early_exit() {
    let v = collect_batches(5, 100_000, vec![1, 2, 3, 4]);
    assert_eq!(vec![vec![1, 2, 3, 4]], v);
}

#[test]
fn message_timeout() {
    // Capacity 5, wait 100 ms. Items 1..=4 arrive at once; the timer then
    // elapses before item 5 arrives, so the first batch is the timed-out
    // partial one; items 5..=8 arrive and the source ends, so the second
    // batch is the final partial flush.
    let mut machine: Machine = Chunks::new(5, 100);
    let mut batches: Vec<Vec<i32>> = Vec::new();

    assert!(machine.take_deferred().is_none());
    for item in [1, 2, 3, 4] {
        assert!(matches!(machine.on_source(SourceEvent::Item(item)), Step::Drained));
    }
    // Item 5 is not due for another 200 ms: the source reports pending, the
    // timer has not elapsed yet, the driver suspends.
    assert!(matches!(machine.on_source(SourceEvent::Pending), Step::CheckTimer));
    assert!(matches!(machine.on_timer(TimerEvent::Pending), Step::Suspend));
    // The 100 ms deadline fires first.
    assert!(matches!(machine.on_source(SourceEvent::Pending), Step::CheckTimer));
    match machine.on_timer(TimerEvent::Elapsed) {
        Step::Batch(batch) => batches.push(batch),
        _ => panic!("timer elapse must flush"),
    }
    // Nothing buffered while waiting for item 5: no timer armed.
    assert!(matches!(machine.on_source(SourceEvent::Pending), Step::CheckTimer));
    assert!(matches!(machine.on_timer(TimerEvent::Unarmed), Step::Suspend));
    // Items 5..=8 arrive, then the source ends.
    assert!(machine.take_deferred().is_none());
    for item in [5, 6, 7, 8] {
        assert!(matches!(machine.on_source(SourceEvent::Item(item)), Step::Drained));
    }
    match machine.on_source(SourceEvent::End) {
        Step::Batch(batch) => batches.push(batch),
        _ => panic!("exhaustion with a non-empty buffer must flush"),
    }
    assert!(matches!(machine.on_source(SourceEvent::End), Step::End));

    let results = vec![vec![1, 2, 3, 4], vec![5, 6, 7, 8]];
    assert_eq!(batches, results);
}

#[test]
fn chunking_with_remainder() {
    let v = collect_batches(3, 1_000, vec![1, 2, 3, 4, 5, 6, 7]);
    assert_eq!(vec![vec![1, 2, 3], vec![4, 5, 6], vec![7]], v);
}

#[test]
fn empty_source_ends_without_batch() {
    let v = collect_batches(4, 1_000, vec![]);
    assert!(v.is_empty());
}

#[test]
fn capacity_one_flushes_every_item() {
    let v = collect_batches(1, 1_000, vec![9, 8, 7]);
    assert_eq!(vec![vec![9], vec![8], vec![7]], v);
}

#[test]
fn timer_arms_at_first_item_only() {
    let mut machine: Machine = Chunks::new(3, 50);
    assert!(!machine.is_timer_armed());
    assert!(matches!(machine.on_source(SourceEvent::Item(1)), Step::Drained));
    assert!(machine.is_timer_armed());
    assert!(matches!(machine.on_source(SourceEvent::Item(2)), Step::Drained));
    assert!(machine.is_timer_armed());
    // The flush by count disarms the timer.
    match machine.on_source(SourceEvent::Item(3)) {
        Step::Batch(batch) => assert_eq!(batch, vec![1, 2, 3]),
        _ => panic!("reaching the capacity must flush"),
    }
    assert!(!machine.is_timer_armed());
    // The next batch's timer is armed afresh by its own first item.
    assert!(matches!(machine.on_source(SourceEvent::Item(4)), Step::Drained));
    assert!(machine.is_timer_armed());
}

#[test]
fn timeout_flush_holds_exactly_the_buffered_items() {
    let mut machine: Machine = Chunks::new(5, 100);
    for item in [10, 20] {
        assert!(matches!(machine.on_source(SourceEvent::Item(item)), Step::Drained));
    }
    assert!(matches!(machine.on_source(SourceEvent::Pending), Step::CheckTimer));
    match machine.on_timer(TimerEvent::Elapsed) {
        Step::Batch(batch) => assert_eq!(batch, vec![10, 20]),
        _ => panic!("timer elapse must flush"),
    }
    assert!(machine.is_empty());
    assert!(machine.take_deferred().is_none());
}

#[test]
fn source_error_with_buffered_items_is_deferred() {
    let mut machine: Machine = Chunks::new(5, 1_000);
    assert!(matches!(machine.on_source(SourceEvent::Item(1)), Step::Drained));
    assert!(matches!(machine.on_source(SourceEvent::Item(2)), Step::Drained));
    // The batch is handed out first...
    match machine.on_source(SourceEvent::Failed(String::from("boom"))) {
        Step::Batch(batch) => assert_eq!(batch, vec![1, 2]),
        _ => panic!("failure with a non-empty buffer must flush first"),
    }
    // ...and the very next advance reports the tagged error.
    match machine.take_deferred() {
        Some(Error::Inner(e)) => assert_eq!(e, "boom"),
        _ => panic!("the source error must be deferred"),
    }
    // The slot is cleared: a further advance finds nothing staged.
    assert!(machine.take_deferred().is_none());
}

#[test]
fn source_error_with_empty_buffer_is_immediate() {
    let mut machine: Machine = Chunks::new(5, 1_000);
    match machine.on_source(SourceEvent::Failed(String::from("gone"))) {
        Step::Fail(Error::Inner(e)) => assert_eq!(e, "gone"),
        _ => panic!("failure with an empty buffer must be reported at once"),
    }
    assert!(machine.take_deferred().is_none());
}

#[test]
fn timer_error_with_buffered_items_is_deferred() {
    let mut machine: Machine = Chunks::new(5, 1_000);
    assert!(matches!(machine.on_source(SourceEvent::Item(7)), Step::Drained));
    assert!(matches!(machine.on_source(SourceEvent::Pending), Step::CheckTimer));
    match machine.on_timer(TimerEvent::Failed(String::from("clock"))) {
        Step::Batch(batch) => assert_eq!(batch, vec![7]),
        _ => panic!("failure with a non-empty buffer must flush first"),
    }
    match machine.take_deferred() {
        Some(Error::Timer(e)) => assert_eq!(e, "clock"),
        _ => panic!("the timer error must be deferred"),
    }
}

#[test]
fn timer_error_with_empty_buffer_is_immediate() {
    let mut machine: Machine = Chunks::new(5, 1_000);
    assert!(matches!(machine.on_source(SourceEvent::Pending), Step::CheckTimer));
    match machine.on_timer(TimerEvent::Failed(String::from("clock"))) {
        Step::Fail(Error::Timer(e)) => assert_eq!(e, "clock"),
        _ => panic!("failure with an empty buffer must be reported at once"),
    }
}

#[test]
fn configuration_is_kept() {
    let mut machine: Machine = Chunks::new(6, 250);
    assert_eq!(machine.capacity(), 6);
    assert_eq!(machine.duration_millis(), 250);
    assert_eq!(machine.len(), 0);
    assert!(machine.is_empty());
    assert!(matches!(machine.on_source(SourceEvent::Item(1)), Step::Drained));
    assert_eq!(machine.len(), 1);
    assert!(!machine.is_empty());
    assert_eq!(machine.capacity(), 6);
    assert_eq!(machine.duration_millis(), 250);
}
