//! Debouncing of filesystem change notifications.
//!
//! The observation itself (watching paths, timers, the channel) is plain
//! I/O and lives outside the library. What is verified here is the decision
//! core: raw change reports are recorded per source, and a notification for
//! a source is released only once a full quiet window has passed since that
//! source's last raw report — so a burst of raw events collapses into a
//! single notification.

use vstd::prelude::*;

verus! {

/// Which source changed. A notification carries nothing else: the consumer
/// re-reads the source.
#[derive(Debug, Clone, Copy, PartialEq, Eq, Structural)]
pub enum FileChange {
    /// The task document changed.
    TasksChanged,
    /// The hook event log directory changed.
    HooksChanged,
}

/// A source is due when it has a pending report and its quiet window has
/// fully elapsed.
pub open spec fn due(pending: bool, last_ms: u64, window_ms: u64, now_ms: u64) -> bool {
    pending && now_ms >= last_ms && now_ms - last_ms >= window_ms
}

/// Per-source debounce state over a millisecond clock supplied by the
/// caller.
#[derive(Debug, Clone, Copy, PartialEq, Eq, Structural)]
pub struct Debouncer {
    /// Length of the quiet window in milliseconds.
    pub window_ms: u64,
    pub tasks_pending: bool,
    /// Time of the last raw report for the task document.
    pub tasks_last: u64,
    pub hooks_pending: bool,
    /// Time of the last raw report for the event log directory.
    pub hooks_last: u64,
}

impl Debouncer {
    /// A debouncer with the given quiet window and nothing pending.
    pub fn new(window_ms: u64) -> (r: Debouncer)
        ensures
            r.window_ms == window_ms,
            !r.tasks_pending,
            !r.hooks_pending,
            r.tasks_last == 0,
            r.hooks_last == 0,
    {
        Debouncer {
            window_ms,
            tasks_pending: false,
            tasks_last: 0,
            hooks_pending: false,
            hooks_last: 0,
        }
    }

    /// Record one raw filesystem report for `change` at time `now_ms`: the
    /// source becomes pending and its quiet window restarts at the latest
    /// report time seen.
    pub fn record(&mut self, change: FileChange, now_ms: u64)
        ensures
            final(self).window_ms == old(self).window_ms,
            change == FileChange::TasksChanged ==> final(self).tasks_pending
                && final(self).tasks_last == (
            if old(self).tasks_pending && old(self).tasks_last > now_ms {
                old(self).tasks_last
            } else {
                now_ms
            }) && final(self).hooks_pending == old(self).hooks_pending && final(self).hooks_last
                == old(self).hooks_last,
            change == FileChange::HooksChanged ==> final(self).hooks_pending
                && final(self).hooks_last == (
            if old(self).hooks_pending && old(self).hooks_last > now_ms {
                old(self).hooks_last
            } else {
                now_ms
            }) && final(self).tasks_pending == old(self).tasks_pending && final(self).tasks_last
                == old(self).tasks_last,
    {
        match change {
            FileChange::TasksChanged => {
                if !(self.tasks_pending && self.tasks_last > now_ms) {
                    self.tasks_last = now_ms;
                }
                self.tasks_pending = true;
            },
            FileChange::HooksChanged => {
                if !(self.hooks_pending && self.hooks_last > now_ms) {
                    self.hooks_last = now_ms;
                }
                self.hooks_pending = true;
            },
        }
    }

    /// Release at most one notification at time `now_ms`: a source is
    /// notified only when due — pending, with a full quiet window elapsed
    /// since its last raw report — and its pending flag is cleared, so a
    /// burst of raw reports yields a single notification. The task document
    /// takes precedence when both are due.
    pub fn poll(&mut self, now_ms: u64) -> (r: Option<FileChange>)
        ensures
            final(self).window_ms == old(self).window_ms,
            final(self).tasks_last == old(self).tasks_last,
            final(self).hooks_last == old(self).hooks_last,
            r == Some(FileChange::TasksChanged) <==> due(
                old(self).tasks_pending,
                old(self).tasks_last,
                old(self).window_ms,
                now_ms,
            ),
            r == Some(FileChange::HooksChanged) <==> !due(
                old(self).tasks_pending,
                old(self).tasks_last,
                old(self).window_ms,
                now_ms,
            ) && due(old(self).hooks_pending, old(self).hooks_last, old(self).window_ms, now_ms),
            r is None <==> !due(
                old(self).tasks_pending,
                old(self).tasks_last,
                old(self).window_ms,
                now_ms,
            ) && !due(old(self).hooks_pending, old(self).hooks_last, old(self).window_ms, now_ms),
            r == Some(FileChange::TasksChanged) ==> !final(self).tasks_pending
                && final(self).hooks_pending == old(self).hooks_pending,
            r == Some(FileChange::HooksChanged) ==> !final(self).hooks_pending
                && final(self).tasks_pending == old(self).tasks_pending,
            r is None ==> *final(self) == *old(self),
    {
        if self.tasks_pending && now_ms >= self.tasks_last && now_ms - self.tasks_last
            >= self.window_ms {
            self.tasks_pending = false;
            Some(FileChange::TasksChanged)
        } else if self.hooks_pending && now_ms >= self.hooks_last && now_ms - self.hooks_last
            >= self.window_ms {
            self.hooks_pending = false;
            Some(FileChange::HooksChanged)
        } else {
            None
        }
    }
}

} // verus!
