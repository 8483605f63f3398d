//! Application state tests: flags, focus cycling and cursor navigation over
//! a parsed document.

use agent_board::app::App;
use agent_board::layout::FocusedPane;
use agent_board::state::DashboardState;

const SAMPLE_TASKS: &str = "# Project Tasks\n\
\n\
## Phase 0: Setup\n\
- [x] P0-T1: Initialize repository @bootstrap-agent\n\
- [ ] P0-T2: Configure tooling\n\
\n\
## Phase 1: Build\n\
- [InProgress] P1-T1: Implement parser @backend-specialist-1\n\
- [ ] P1-T2: Implement aggregator\n\
- [Failed] P1-T3: Integrate watcher\n\
\n\
## Phase 2: Polish\n\
- [Blocked] P2-T1: Document interfaces\n\
- [ ] P2-T2: Tune rendering\n\
- [ ] P2-T3: Prepare release\n";

#[test]
fn app_default() {
    let app = App::new();
    assert!(app.running);
    assert!(!app.show_help);
    assert_eq!(app.focused, FocusedPane::TaskList);
}

#[test]
fn app_quit() {
    let mut app = App::new();
    app.quit();
    assert!(!app.running);
}

#[test]
fn app_toggle_help() {
    let mut app = App::new();
    assert!(!app.show_help);
    app.toggle_help();
    assert!(app.show_help);
    app.toggle_help();
    assert!(!app.show_help);
}

#[test]
fn app_toggle_focus() {
    let mut app = App::new();
    assert_eq!(app.focused, FocusedPane::TaskList);
    app.toggle_focus();
    assert_eq!(app.focused, FocusedPane::Detail);
    app.toggle_focus();
    assert_eq!(app.focused, FocusedPane::Agents);
    app.toggle_focus();
    assert_eq!(app.focused, FocusedPane::TaskList);
}

#[test]
fn app_navigation() {
    let dashboard = DashboardState::from_tasks_content(SAMPLE_TASKS).unwrap();
    let mut app = App::new().with_dashboard(dashboard);
    app.gantt_state.total_items = 11;

    app.move_down();
    assert_eq!(app.gantt_state.selected, 1);
    assert_eq!(app.selected_task(), Some((0, 0)));

    app.move_up();
    assert_eq!(app.gantt_state.selected, 0);
    assert!(app.selected_task().is_none()); // phase header
}

#[test]
fn app_with_dashboard() {
    let dashboard = DashboardState::from_tasks_content(SAMPLE_TASKS).unwrap();
    let app = App::new().with_dashboard(dashboard);
    assert_eq!(app.dashboard.total_tasks, 8);
}

#[test]
fn focus_toggle_3way() {
    assert_eq!(FocusedPane::TaskList.toggle(), FocusedPane::Detail);
    assert_eq!(FocusedPane::Detail.toggle(), FocusedPane::Agents);
    assert_eq!(FocusedPane::Agents.toggle(), FocusedPane::TaskList);
}
