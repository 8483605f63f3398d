//! Application state: the snapshot, the selection, the focused pane and the
//! run/help flags, with the operations the input loop calls.

use vstd::prelude::*;

verus! {

use crate::gantt::{next_index, prev_index, resolve, GanttState};
use crate::layout::{toggled, FocusedPane};
use crate::state::DashboardState;
use crate::tasks_parser::phase_views;

/// Main application state.
pub struct App {
    pub running: bool,
    pub dashboard: DashboardState,
    pub gantt_state: GanttState,
    pub focused: FocusedPane,
    pub show_help: bool,
}

impl App {
    /// A fresh application: running, task list focused, empty snapshot.
    pub fn new() -> (r: App)
        ensures
            r.running,
            !r.show_help,
            r.focused == FocusedPane::TaskList,
            r.dashboard.wf(),
            r.dashboard.phases@.len() == 0,
            r.dashboard.agents@.len() == 0,
            r.dashboard.recent_errors@.len() == 0,
            r.gantt_state.selected == 0,
            r.gantt_state.total_items == 0,
            r.gantt_state.offset == 0,
    {
        App {
            running: true,
            dashboard: DashboardState::new(),
            gantt_state: GanttState { selected: 0, total_items: 0, offset: 0 },
            focused: FocusedPane::TaskList,
            show_help: false,
        }
    }

    /// The same application over the given snapshot.
    pub fn with_dashboard(self, dashboard: DashboardState) -> (r: App)
        ensures
            r.dashboard == dashboard,
            r.running == self.running,
            r.gantt_state == self.gantt_state,
            r.focused == self.focused,
            r.show_help == self.show_help,
    {
        App {
            running: self.running,
            dashboard,
            gantt_state: self.gantt_state,
            focused: self.focused,
            show_help: self.show_help,
        }
    }

    /// Stop the main loop.
    pub fn quit(&mut self)
        ensures
            !final(self).running,
            final(self).dashboard == old(self).dashboard,
            final(self).gantt_state == old(self).gantt_state,
            final(self).focused == old(self).focused,
            final(self).show_help == old(self).show_help,
    {
        self.running = false;
    }

    /// Show or hide the help overlay.
    pub fn toggle_help(&mut self)
        ensures
            final(self).show_help == !old(self).show_help,
            final(self).running == old(self).running,
            final(self).dashboard == old(self).dashboard,
            final(self).gantt_state == old(self).gantt_state,
            final(self).focused == old(self).focused,
    {
        self.show_help = !self.show_help;
    }

    /// Rotate focus to the next pane.
    pub fn toggle_focus(&mut self)
        ensures
            final(self).focused == toggled(old(self).focused),
            final(self).running == old(self).running,
            final(self).dashboard == old(self).dashboard,
            final(self).gantt_state == old(self).gantt_state,
            final(self).show_help == old(self).show_help,
    {
        self.focused = self.focused.toggle();
    }

    /// Move the selection down one row, clamped to the last row.
    pub fn move_down(&mut self)
        ensures
            final(self).running == old(self).running,
            final(self).dashboard == old(self).dashboard,
            final(self).focused == old(self).focused,
            final(self).show_help == old(self).show_help,
            final(self).gantt_state.total_items == old(self).gantt_state.total_items,
            final(self).gantt_state.offset == old(self).gantt_state.offset,
            final(self).gantt_state.selected as int == next_index(
                old(self).gantt_state.selected as int,
                old(self).gantt_state.total_items as int,
            ),
    {
        self.gantt_state.select_next();
    }

    /// Move the selection up one row; a move up from row zero is a no-op.
    pub fn move_up(&mut self)
        ensures
            final(self).running == old(self).running,
            final(self).dashboard == old(self).dashboard,
            final(self).focused == old(self).focused,
            final(self).show_help == old(self).show_help,
            final(self).gantt_state.total_items == old(self).gantt_state.total_items,
            final(self).gantt_state.offset == old(self).gantt_state.offset,
            final(self).gantt_state.selected as int == prev_index(
                old(self).gantt_state.selected as int,
            ),
    {
        self.gantt_state.select_prev();
    }

    /// The currently selected task as `(phase_index, task_index)`, or None
    /// when a phase header or an out-of-range row is selected.
    pub fn selected_task(&self) -> (r: Option<(usize, usize)>)
        ensures
            ({
                let phases = phase_views(self.dashboard.phases@);
                match r {
                    Some(pt) => resolve(phases, self.gantt_state.selected as int) == Some(
                        (pt.0 as int, pt.1 as int),
                    ),
                    None => resolve(phases, self.gantt_state.selected as int) is None,
                }
            }),
    {
        self.gantt_state.selected_task(&self.dashboard)
    }
}

impl Default for App {
    /// Same as [`App::new`].
    fn default() -> (r: App)
        ensures
            r.running,
            !r.show_help,
            r.focused == FocusedPane::TaskList,
            r.dashboard.wf(),
            r.dashboard.phases@.len() == 0,
            r.dashboard.agents@.len() == 0,
            r.dashboard.recent_errors@.len() == 0,
            r.gantt_state.selected == 0,
            r.gantt_state.total_items == 0,
            r.gantt_state.offset == 0,
    {
        App::new()
    }
}

} // verus!
