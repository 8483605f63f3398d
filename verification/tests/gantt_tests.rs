//! Flattened selection tests: cursor movement bounds, index resolution and
//! the rows of the task view.

use agent_board::gantt::{status_icon, GanttRow, GanttState, GanttWidget};
use agent_board::state::DashboardState;
use agent_board::tasks_parser::TaskStatus;

const SAMPLE_TASKS: &str = "# Project Tasks\n\
\n\
## Phase 0: Setup\n\
- [x] P0-T1: Initialize repository @bootstrap-agent\n\
- [ ] P0-T2: Configure tooling\n\
\n\
## Phase 1: Build\n\
- [InProgress] P1-T1: Implement parser @backend-specialist-1\n\
- [ ] P1-T2: Implement aggregator\n\
- [Failed] P1-T3: Integrate watcher\n\
\n\
## Phase 2: Polish\n\
- [Blocked] P2-T1: Document interfaces\n\
- [ ] P2-T2: Tune rendering\n\
- [ ] P2-T3: Prepare release\n";

fn sample_state() -> DashboardState {
    DashboardState::from_tasks_content(SAMPLE_TASKS).unwrap()
}

#[test]
fn gantt_state_navigation() {
    let mut gs = GanttState { selected: 0, total_items: 5, offset: 0 };
    gs.select_next();
    assert_eq!(gs.selected, 1);
    gs.select_prev();
    assert_eq!(gs.selected, 0);
    gs.select_prev(); // should not go below 0
    assert_eq!(gs.selected, 0);
}

#[test]
fn gantt_state_max_bound() {
    let mut gs = GanttState { selected: 4, total_items: 5, offset: 0 };
    gs.select_next(); // should cap at 4
    assert_eq!(gs.selected, 4);
}

#[test]
fn selected_task_phase_header() {
    let state = sample_state();
    let gs = GanttState { selected: 0, total_items: 11, offset: 0 };
    assert!(gs.selected_task(&state).is_none());
}

#[test]
fn selected_task_first_task() {
    let state = sample_state();
    let gs = GanttState { selected: 1, total_items: 11, offset: 0 };
    assert_eq!(gs.selected_task(&state), Some((0, 0)));
}

#[test]
fn selected_task_second_phase() {
    let state = sample_state();
    // Phase 0: header(0) + 2 tasks(1,2) = 3 rows; Phase 1: header(3)
    let gs = GanttState { selected: 3, total_items: 11, offset: 0 };
    assert!(gs.selected_task(&state).is_none()); // phase 1 header
    let gs2 = GanttState { selected: 4, total_items: 11, offset: 0 };
    assert_eq!(gs2.selected_task(&state), Some((1, 0)));
}

#[test]
fn selected_task_out_of_range() {
    let state = sample_state();
    let gs = GanttState { selected: 11, total_items: 11, offset: 0 };
    assert!(gs.selected_task(&state).is_none());
}

#[test]
fn status_icons_all_mapped() {
    assert_eq!(status_icon(&TaskStatus::Completed), "[x]");
    assert_eq!(status_icon(&TaskStatus::InProgress), "[/]");
    assert_eq!(status_icon(&TaskStatus::Pending), "[ ]");
    assert_eq!(status_icon(&TaskStatus::Failed), "[!]");
    assert_eq!(status_icon(&TaskStatus::Blocked), "[B]");
}

#[test]
fn build_lines_count() {
    let state = sample_state();
    let widget = GanttWidget::new(&state, true);
    let gs = GanttState { selected: 0, total_items: 0, offset: 0 };
    let rows = widget.build_rows(&gs);
    // 3 phase headers + 8 tasks = 11 rows
    assert_eq!(rows.len(), 11);
}

#[test]
fn build_rows_shape_and_selection() {
    let state = sample_state();
    let widget = GanttWidget::new(&state, true);
    let gs = GanttState { selected: 1, total_items: 11, offset: 0 };
    let rows = widget.build_rows(&gs);
    match &rows[0] {
        GanttRow::PhaseRow { id, name, percent, selected } => {
            assert_eq!(id, "Phase 0");
            assert_eq!(name, "Setup");
            assert_eq!(*percent, 50);
            assert!(!selected);
        },
        GanttRow::TaskRow { .. } => panic!("row 0 should be a phase header"),
    }
    match &rows[1] {
        GanttRow::TaskRow { icon, id, name, status, agent, selected } => {
            assert_eq!(icon, "[x]");
            assert_eq!(id, "P0-T1");
            assert_eq!(name, "Initialize repository");
            assert_eq!(*status, TaskStatus::Completed);
            assert_eq!(agent.as_deref(), Some("bootstrap-agent"));
            assert!(selected);
        },
        GanttRow::PhaseRow { .. } => panic!("row 1 should be a task"),
    }
}

#[test]
fn adjust_offset_keeps_selection_visible() {
    let mut gs = GanttState { selected: 9, total_items: 11, offset: 0 };
    gs.adjust_offset(5);
    assert_eq!(gs.offset, 5); // selection at the bottom of the window
    gs.selected = 2;
    gs.adjust_offset(5);
    assert_eq!(gs.offset, 2); // scrolled back up to the selection
    gs.selected = 4;
    gs.adjust_offset(5);
    assert_eq!(gs.offset, 2); // already visible: unchanged
}
