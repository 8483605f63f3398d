//! Agent panel and status line tests, including the error-classification
//! scenario through the full event path.

use agent_board::agent_panel::{short_message, AgentPanel};
use agent_board::hook_parser::parse_hook_events;
use agent_board::rules::ErrorCategory;
use agent_board::state::DashboardState;
use agent_board::statusbar::StatusBar;

const AGENT_EVENTS: &str = r#"{"event_type":"agent_start","timestamp":"2024-01-15T10:30:00Z","agent_id":"backend-specialist-1","task_id":"P1-R1-T1","session_id":"sess-001"}
{"event_type":"tool_start","timestamp":"2024-01-15T10:30:05Z","agent_id":"backend-specialist-1","task_id":"P1-R1-T1","session_id":"sess-001","tool_name":"Read"}
{"event_type":"tool_end","timestamp":"2024-01-15T10:30:07Z","agent_id":"backend-specialist-1","task_id":"P1-R1-T1","session_id":"sess-001","tool_name":"Read"}
{"event_type":"tool_start","timestamp":"2024-01-15T10:30:12Z","agent_id":"backend-specialist-1","task_id":"P1-R1-T1","session_id":"sess-001","tool_name":"Edit"}
{"event_type":"tool_end","timestamp":"2024-01-15T10:30:20Z","agent_id":"backend-specialist-1","task_id":"P1-R1-T1","session_id":"sess-001","tool_name":"Edit"}
{"event_type":"agent_end","timestamp":"2024-01-15T10:31:00Z","agent_id":"backend-specialist-1","task_id":"P1-R1-T1","session_id":"sess-001"}
"#;

const ERROR_EVENTS: &str = r#"{"event_type":"agent_start","timestamp":"2024-01-15T11:00:00Z","agent_id":"db-agent","task_id":"P2-T1","session_id":"sess-002"}
{"event_type":"error","timestamp":"2024-01-15T11:00:05Z","agent_id":"db-agent","task_id":"P2-T1","session_id":"sess-002","error_message":"permission denied: /etc/shadow"}
{"event_type":"error","timestamp":"2024-01-15T11:00:09Z","agent_id":"db-agent","task_id":"P2-T1","session_id":"sess-002","error_message":"connection refused: host:5432"}
{"event_type":"agent_end","timestamp":"2024-01-15T11:00:20Z","agent_id":"db-agent","task_id":"P2-T1","session_id":"sess-002"}
"#;

fn state_with_agents() -> DashboardState {
    let result = parse_hook_events(AGENT_EVENTS);
    let mut state = DashboardState::default();
    state.update_from_events(&result.events);
    state
}

fn state_with_errors() -> DashboardState {
    let result = parse_hook_events(ERROR_EVENTS);
    let mut state = DashboardState::default();
    state.update_from_events(&result.events);
    state
}

#[test]
fn rows_are_sorted_by_agent_id() {
    let input = r#"{"event_type":"agent_start","timestamp":"2024-01-15T10:30:00Z","agent_id":"zz-agent","task_id":"t","session_id":"s"}
{"event_type":"agent_start","timestamp":"2024-01-15T10:30:01Z","agent_id":"aa-agent","task_id":"t","session_id":"s"}
{"event_type":"agent_start","timestamp":"2024-01-15T10:30:02Z","agent_id":"mm-agent","task_id":"t","session_id":"s"}
"#;
    let result = parse_hook_events(input);
    let mut state = DashboardState::default();
    state.update_from_events(&result.events);
    let rows = AgentPanel::new(&state).rows();
    assert_eq!(rows.len(), 3);
    assert_eq!(rows[0].agent_id, "aa-agent");
    assert_eq!(rows[1].agent_id, "mm-agent");
    assert_eq!(rows[2].agent_id, "zz-agent");
}

#[test]
fn selection_follows_display_order() {
    let input = r#"{"event_type":"agent_start","timestamp":"2024-01-15T10:30:00Z","agent_id":"zz-agent","task_id":"t","session_id":"s"}
{"event_type":"agent_start","timestamp":"2024-01-15T10:30:01Z","agent_id":"aa-agent","task_id":"t","session_id":"s"}
"#;
    let result = parse_hook_events(input);
    let mut state = DashboardState::default();
    state.update_from_events(&result.events);
    let rows = AgentPanel::new(&state).with_focused(true).with_selected_index(0).rows();
    // the cursor rests on the first displayed row, which is the alphabetically
    // first agent, not the first seen
    assert!(rows[0].selected);
    assert_eq!(rows[0].agent_id, "aa-agent");
    assert!(!rows[1].selected);
}

#[test]
fn build_lines_with_agents() {
    let state = state_with_agents();
    let panel = AgentPanel::new(&state);
    let rows = panel.rows();
    assert!(!rows.is_empty());
}

#[test]
fn with_selected_agent_highlights() {
    let state = state_with_agents();
    let panel = AgentPanel::new(&state).with_selected_agent(Some("backend-specialist"));
    let rows = panel.rows();
    assert!(rows.iter().any(|r| r.highlighted));
}

#[test]
fn build_lines_shows_error_summary() {
    let state = state_with_errors();
    let panel = AgentPanel::new(&state);
    let rows = panel.rows();
    assert!(rows.len() >= 1);
    assert!(
        rows.iter().any(|r| r.last_error.is_some()),
        "should have error summary line"
    );
}

#[test]
fn error_summary_shows_category() {
    let state = state_with_errors();
    let panel = AgentPanel::new(&state);
    let rows = panel.rows();
    let has_category = rows.iter().any(|r| match &r.last_error {
        Some(e) => {
            e.category.label().contains("Network") || e.category.label().contains("Permission")
        },
        None => false,
    });
    assert!(has_category, "error summary should show category");
}

#[test]
fn focused_panel_highlights_selected() {
    let state = state_with_agents();
    let panel = AgentPanel::new(&state).with_focused(true).with_selected_index(0);
    let rows = panel.rows();
    assert!(rows.iter().any(|r| r.selected), "focused panel should mark the selected row");
}

#[test]
fn unfocused_panel_no_selector() {
    let state = state_with_agents();
    let panel = AgentPanel::new(&state).with_focused(false).with_selected_index(0);
    let rows = panel.rows();
    assert!(!rows.iter().any(|r| r.selected), "unfocused panel should mark no row");
}

#[test]
fn last_error_is_most_recent_for_agent() {
    let state = state_with_errors();
    let panel = AgentPanel::new(&state);
    let rows = panel.rows();
    let row = rows.iter().find(|r| r.agent_id == "db-agent").unwrap();
    let err = row.last_error.as_ref().unwrap();
    assert_eq!(err.message, "connection refused: host:5432");
}

#[test]
fn scenario_error_record_classified_network_retryable() {
    let state = state_with_errors();
    let rec = state
        .recent_errors
        .iter()
        .find(|e| e.message == "connection refused: host:5432")
        .unwrap();
    assert_eq!(rec.category, ErrorCategory::Network);
    assert!(rec.retryable);
    assert_eq!(rec.suggestion, "Check if service is running");
    let first = state
        .recent_errors
        .iter()
        .find(|e| e.message == "permission denied: /etc/shadow")
        .unwrap();
    assert_eq!(first.category, ErrorCategory::Permission);
    assert!(!first.retryable);
}

#[test]
fn error_counts_accumulate_on_agent() {
    let state = state_with_errors();
    assert_eq!(state.agents.len(), 1);
    assert_eq!(state.agents[0].error_count, 2);
    assert_eq!(state.agents[0].event_count, 4);
}

#[test]
fn short_message_truncates_over_forty_chars() {
    let long = "abcdefghijklmnopqrstuvwxyzabcdefghijklmnopqrstuvwxyz";
    let short = short_message(long);
    assert_eq!(short.chars().count(), 40);
    assert!(short.ends_with("..."));
    assert_eq!(short_message("brief"), "brief");
}

#[test]
fn statusbar_summary_counts() {
    let mut state = state_with_agents();
    state.rebuild_from_tasks(
        "## Phase 0: Setup\n- [x] A: Done\n- [ ] B: Open\n- [Failed] C: Broken\n- [ ] D: Open\n",
    );
    let bar = StatusBar::new(&state);
    let s = bar.summary();
    assert_eq!(s.total_tasks, 4);
    assert_eq!(s.completed_tasks, 1);
    assert_eq!(s.failed_tasks, 1);
    assert_eq!(s.percent, 25);
    assert_eq!(s.running_agents, 0); // lifecycle ended with agent_end
    assert_eq!(s.error_agents, 0);
}

#[test]
fn statusbar_counts_running_and_error_agents() {
    let input = r#"{"event_type":"agent_start","timestamp":"2024-01-15T10:30:00Z","agent_id":"a-1","task_id":"t","session_id":"s"}
{"event_type":"agent_start","timestamp":"2024-01-15T10:30:01Z","agent_id":"a-2","task_id":"t","session_id":"s"}
{"event_type":"error","timestamp":"2024-01-15T10:30:02Z","agent_id":"a-2","task_id":"t","session_id":"s","error_message":"oom"}
"#;
    let result = parse_hook_events(input);
    let mut state = DashboardState::default();
    state.update_from_events(&result.events);
    let bar = StatusBar::new(&state);
    let s = bar.summary();
    assert_eq!(s.running_agents, 1);
    assert_eq!(s.error_agents, 1);
}
