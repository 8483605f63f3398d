//! Debouncer tests: bursts collapse into one notification per source, and
//! nothing is released before the quiet window has elapsed.

use agent_board::watcher::{Debouncer, FileChange};

#[test]
fn burst_collapses_to_one_notification() {
    let mut d = Debouncer::new(100);
    d.record(FileChange::TasksChanged, 1000);
    d.record(FileChange::TasksChanged, 1020);
    d.record(FileChange::TasksChanged, 1040);
    // still inside the quiet window of the last raw report
    assert_eq!(d.poll(1100), None);
    // window elapsed: exactly one notification, then silence
    assert_eq!(d.poll(1140), Some(FileChange::TasksChanged));
    assert_eq!(d.poll(1150), None);
}

#[test]
fn sources_are_debounced_independently() {
    let mut d = Debouncer::new(100);
    d.record(FileChange::TasksChanged, 1000);
    d.record(FileChange::HooksChanged, 1050);
    assert_eq!(d.poll(1100), Some(FileChange::TasksChanged));
    // the event-log source is still inside its own window
    assert_eq!(d.poll(1100), None);
    assert_eq!(d.poll(1150), Some(FileChange::HooksChanged));
    assert_eq!(d.poll(1200), None);
}

#[test]
fn tasks_take_precedence_when_both_due() {
    let mut d = Debouncer::new(100);
    d.record(FileChange::HooksChanged, 1000);
    d.record(FileChange::TasksChanged, 1000);
    assert_eq!(d.poll(1200), Some(FileChange::TasksChanged));
    assert_eq!(d.poll(1200), Some(FileChange::HooksChanged));
    assert_eq!(d.poll(1200), None);
}

#[test]
fn nothing_pending_nothing_released() {
    let mut d = Debouncer::new(100);
    assert_eq!(d.poll(5000), None);
}

#[test]
fn new_raw_report_restarts_the_window() {
    let mut d = Debouncer::new(100);
    d.record(FileChange::TasksChanged, 1000);
    d.record(FileChange::TasksChanged, 1090);
    // 1100 is 100ms after the first report but only 10ms after the last
    assert_eq!(d.poll(1100), None);
    assert_eq!(d.poll(1190), Some(FileChange::TasksChanged));
}
