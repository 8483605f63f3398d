//! Task document parser tests: grammar, counters and the overall-progress
//! scenario.

use agent_board::state::DashboardState;
use agent_board::tasks_parser::{parse_task_document, TaskStatus};

const SAMPLE_TASKS: &str = "# Project Tasks\n\
\n\
## Phase 0: Setup\n\
- [x] P0-T1: Initialize repository @bootstrap-agent\n\
- [ ] P0-T2: Configure tooling\n\
\n\
## Phase 1: Build\n\
- [InProgress] P1-T1: Implement parser @backend-specialist-1\n\
- [ ] P1-T2: Implement aggregator\n\
- [Failed] P1-T3: Integrate watcher\n\
\n\
## Phase 2: Polish\n\
- [Blocked] P2-T1: Document interfaces\n\
- [ ] P2-T2: Tune rendering\n\
- [ ] P2-T3: Prepare release\n";

#[test]
fn parses_phases_and_tasks() {
    let doc = parse_task_document(SAMPLE_TASKS).unwrap();
    assert_eq!(doc.phases.len(), 3);
    assert_eq!(doc.phases[0].tasks.len(), 2);
    assert_eq!(doc.phases[1].tasks.len(), 3);
    assert_eq!(doc.phases[2].tasks.len(), 3);
    assert_eq!(doc.total_tasks, 8);
    assert_eq!(doc.completed_tasks, 1);
    assert_eq!(doc.failed_tasks, 1);
}

#[test]
fn phase_heading_splits_id_and_name() {
    let doc = parse_task_document(SAMPLE_TASKS).unwrap();
    assert_eq!(doc.phases[0].id, "Phase 0");
    assert_eq!(doc.phases[0].name, "Setup");
    assert_eq!(doc.phases[2].id, "Phase 2");
    assert_eq!(doc.phases[2].name, "Polish");
}

#[test]
fn task_line_splits_id_name_status_agent() {
    let doc = parse_task_document(SAMPLE_TASKS).unwrap();
    let t = &doc.phases[0].tasks[0];
    assert_eq!(t.id, "P0-T1");
    assert_eq!(t.name, "Initialize repository");
    assert_eq!(t.status, TaskStatus::Completed);
    assert_eq!(t.agent.as_deref(), Some("bootstrap-agent"));
    let u = &doc.phases[0].tasks[1];
    assert_eq!(u.status, TaskStatus::Pending);
    assert!(u.agent.is_none());
}

#[test]
fn all_five_statuses_are_recognized() {
    let doc = parse_task_document(SAMPLE_TASKS).unwrap();
    assert_eq!(doc.phases[1].tasks[0].status, TaskStatus::InProgress);
    assert_eq!(doc.phases[1].tasks[2].status, TaskStatus::Failed);
    assert_eq!(doc.phases[2].tasks[0].status, TaskStatus::Blocked);
}

#[test]
fn unrecognized_lines_are_ignored() {
    let text = "## Phase 0: Only\nfree-form commentary\n- [maybe] X1: Not a status\n- [x] X2: Done\n";
    let doc = parse_task_document(text).unwrap();
    assert_eq!(doc.phases.len(), 1);
    assert_eq!(doc.phases[0].tasks.len(), 1);
    assert_eq!(doc.phases[0].tasks[0].id, "X2");
}

#[test]
fn task_before_any_phase_is_dropped() {
    let text = "- [x] T0: Early task\n## Phase 0: Late\n- [ ] T1: Counted\n";
    let doc = parse_task_document(text).unwrap();
    assert_eq!(doc.phases.len(), 1);
    assert_eq!(doc.total_tasks, 1);
    assert_eq!(doc.phases[0].tasks[0].id, "T1");
}

#[test]
fn heading_without_colon_has_empty_name() {
    let text = "## Standalone\n- [ ] T1: Work\n";
    let doc = parse_task_document(text).unwrap();
    assert_eq!(doc.phases[0].id, "Standalone");
    assert_eq!(doc.phases[0].name, "");
}

#[test]
fn document_without_phases_is_rejected() {
    assert!(parse_task_document("just some text\n").is_err());
    assert!(parse_task_document("").is_err());
}

#[test]
fn phase_progress_percent() {
    let doc = parse_task_document(SAMPLE_TASKS).unwrap();
    assert_eq!(doc.phases[0].progress_percent(), 50);
    assert_eq!(doc.phases[1].progress_percent(), 0);
}

#[test]
fn scenario_overall_progress_strictly_between_bounds() {
    let state = DashboardState::from_tasks_content(SAMPLE_TASKS).unwrap();
    assert_eq!(state.total_tasks, 8);
    let p = state.overall_progress_percent();
    assert!(p > 0 && p < 100);
    assert_eq!(p, 12);
}

#[test]
fn rebuild_keeps_previous_phases_on_parse_failure() {
    let mut state = DashboardState::from_tasks_content(SAMPLE_TASKS).unwrap();
    state.rebuild_from_tasks("no structure here");
    assert_eq!(state.phases.len(), 3);
    assert_eq!(state.total_tasks, 8);
    state.rebuild_from_tasks("## Phase 9: New\n- [ ] N1: Fresh\n");
    assert_eq!(state.phases.len(), 1);
    assert_eq!(state.total_tasks, 1);
}
