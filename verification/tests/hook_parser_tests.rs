//! Decoder tests: whole-log decoding, per-line failure isolation, field
//! extraction, filtering, and the single-agent lifecycle scenario.

use agent_board::hook_parser::{events_for_agent, events_for_session, parse_hook_events, EventType};
use agent_board::state::{AgentStatus, DashboardState};

const AGENT_EVENTS: &str = r#"{"event_type":"agent_start","timestamp":"2024-01-15T10:30:00Z","agent_id":"backend-specialist-1","task_id":"P1-R1-T1","session_id":"sess-001"}
{"event_type":"tool_start","timestamp":"2024-01-15T10:30:05Z","agent_id":"backend-specialist-1","task_id":"P1-R1-T1","session_id":"sess-001","tool_name":"Read"}
{"event_type":"tool_end","timestamp":"2024-01-15T10:30:07Z","agent_id":"backend-specialist-1","task_id":"P1-R1-T1","session_id":"sess-001","tool_name":"Read"}
{"event_type":"tool_start","timestamp":"2024-01-15T10:30:12Z","agent_id":"backend-specialist-1","task_id":"P1-R1-T1","session_id":"sess-001","tool_name":"Edit"}
{"event_type":"tool_end","timestamp":"2024-01-15T10:30:20Z","agent_id":"backend-specialist-1","task_id":"P1-R1-T1","session_id":"sess-001","tool_name":"Edit"}
{"event_type":"agent_end","timestamp":"2024-01-15T10:31:00Z","agent_id":"backend-specialist-1","task_id":"P1-R1-T1","session_id":"sess-001"}
"#;

const MALFORMED: &str = r#"{"event_type":"agent_start","timestamp":"2024-01-15T10:30:00Z","agent_id":"a-1","task_id":"T1","session_id":"s-1"}
this is not valid json
{"event_type":"tool_start","timestamp":"2024-01-15T10:30:05Z","agent_id":"a-1","task_id":"T1","session_id":"s-1","tool_name":"Read"}
{"event_type": broken
{"event_type":"agent_end","timestamp":"2024-01-15T10:31:00Z","agent_id":"a-1","task_id":"T1","session_id":"s-1"}
"#;

#[test]
fn parse_agent_events() {
    let result = parse_hook_events(AGENT_EVENTS);
    assert_eq!(result.events.len(), 6);
    assert!(result.errors.is_empty());
}

#[test]
fn parse_agent_event_types() {
    let result = parse_hook_events(AGENT_EVENTS);
    assert_eq!(result.events[0].event_type, EventType::AgentStart);
    assert_eq!(result.events[1].event_type, EventType::ToolStart);
    assert_eq!(result.events[2].event_type, EventType::ToolEnd);
    assert_eq!(result.events[5].event_type, EventType::AgentEnd);
}

#[test]
fn parse_agent_event_fields() {
    let result = parse_hook_events(AGENT_EVENTS);
    let first = &result.events[0];
    assert_eq!(first.agent_id, "backend-specialist-1");
    assert_eq!(first.task_id, "P1-R1-T1");
    assert_eq!(first.session_id, "sess-001");
    assert!(first.tool_name.is_none());
}

#[test]
fn parse_tool_event_has_tool_name() {
    let result = parse_hook_events(AGENT_EVENTS);
    let tool_start = &result.events[1];
    assert_eq!(tool_start.tool_name.as_deref(), Some("Read"));
}

const ERROR_EVENTS: &str = r#"{"event_type":"agent_start","timestamp":"2024-01-15T11:00:00Z","agent_id":"db-agent","task_id":"P2-T1","session_id":"sess-002"}
{"event_type":"error","timestamp":"2024-01-15T11:00:05Z","agent_id":"db-agent","task_id":"P2-T1","session_id":"sess-002","error_message":"permission denied: /etc/shadow"}
{"event_type":"error","timestamp":"2024-01-15T11:00:09Z","agent_id":"db-agent","task_id":"P2-T1","session_id":"sess-002","error_message":"connection refused: host:5432"}
{"event_type":"agent_end","timestamp":"2024-01-15T11:00:20Z","agent_id":"db-agent","task_id":"P2-T1","session_id":"sess-002"}
"#;

#[test]
fn parse_error_events() {
    let result = parse_hook_events(ERROR_EVENTS);
    assert_eq!(result.events.len(), 4);
    assert!(result.errors.is_empty());
}

#[test]
fn parse_error_event_message() {
    let result = parse_hook_events(ERROR_EVENTS);
    let err_event = &result.events[1];
    assert_eq!(err_event.event_type, EventType::Error);
    assert_eq!(
        err_event.error_message.as_deref(),
        Some("permission denied: /etc/shadow")
    );
}

#[test]
fn parse_malformed_gracefully() {
    let result = parse_hook_events(MALFORMED);
    assert_eq!(result.events.len(), 3);
    assert_eq!(result.errors.len(), 2);
}

#[test]
fn malformed_error_has_line_info() {
    let result = parse_hook_events(MALFORMED);
    assert_eq!(result.errors[0].line_number, 2);
    assert!(result.errors[0].line_content.contains("not valid json"));
    assert_eq!(result.errors[1].line_number, 4);
}

#[test]
fn empty_input() {
    let result = parse_hook_events("");
    assert!(result.events.is_empty());
    assert!(result.errors.is_empty());
}

#[test]
fn blank_lines_are_skipped_silently() {
    let input = "\n   \n\t\n";
    let result = parse_hook_events(input);
    assert!(result.events.is_empty());
    assert!(result.errors.is_empty());
}

#[test]
fn events_plus_errors_count_non_blank_lines() {
    let input = r#"
{"event_type":"agent_start","timestamp":"2024-01-15T10:30:00Z","agent_id":"a","task_id":"t","session_id":"s"}

nonsense line
{"event_type":"error","timestamp":"2024-01-15T10:30:01Z","agent_id":"a","task_id":"t","session_id":"s","error_message":"boom"}
"#;
    let result = parse_hook_events(input);
    assert_eq!(result.events.len() + result.errors.len(), 3);
}

#[test]
fn missing_required_field_is_an_error() {
    let input = r#"{"event_type":"agent_start","timestamp":"2024-01-15T10:30:00Z","agent_id":"a","task_id":"t"}"#;
    let result = parse_hook_events(input);
    assert!(result.events.is_empty());
    assert_eq!(result.errors.len(), 1);
    assert_eq!(result.errors[0].line_number, 1);
    assert_eq!(result.errors[0].error, "missing or non-string session_id");
}

#[test]
fn error_keeps_the_original_line_text() {
    let input = "   this is not valid json   \n";
    let result = parse_hook_events(input);
    assert_eq!(result.errors.len(), 1);
    // the line is reported as it stood, surrounding whitespace included
    assert_eq!(result.errors[0].line_content, "   this is not valid json   ");
    assert_eq!(result.errors[0].error, "missing or non-string event_type");
}

#[test]
fn unknown_event_type_is_an_error() {
    let input = r#"{"event_type":"agent_pause","timestamp":"2024-01-15T10:30:00Z","agent_id":"a","task_id":"t","session_id":"s"}"#;
    let result = parse_hook_events(input);
    assert!(result.events.is_empty());
    assert_eq!(result.errors.len(), 1);
}

#[test]
fn invalid_timestamp_is_an_error() {
    let input = r#"{"event_type":"agent_start","timestamp":"yesterday","agent_id":"a","task_id":"t","session_id":"s"}"#;
    let result = parse_hook_events(input);
    assert!(result.events.is_empty());
    assert_eq!(result.errors.len(), 1);
}

#[test]
fn timestamp_parses_to_epoch_milliseconds() {
    let input = r#"{"event_type":"agent_start","timestamp":"1970-01-01T00:00:01Z","agent_id":"a","task_id":"t","session_id":"s"}"#;
    let result = parse_hook_events(input);
    assert_eq!(result.events.len(), 1);
    assert_eq!(result.events[0].timestamp, 1000);
}

#[test]
fn timestamps_are_ordered() {
    let result = parse_hook_events(AGENT_EVENTS);
    for window in result.events.windows(2) {
        assert!(window[0].timestamp <= window[1].timestamp);
    }
}

#[test]
fn filter_by_agent() {
    let result = parse_hook_events(AGENT_EVENTS);
    let filtered = events_for_agent(&result.events, "backend-specialist-1");
    assert_eq!(filtered.len(), 6);
    let filtered_none = events_for_agent(&result.events, "nonexistent");
    assert!(filtered_none.is_empty());
}

#[test]
fn filter_by_session() {
    let result = parse_hook_events(AGENT_EVENTS);
    let filtered = events_for_session(&result.events, "sess-001");
    assert_eq!(filtered.len(), 6);
    let filtered_none = events_for_session(&result.events, "sess-999");
    assert!(filtered_none.is_empty());
}

#[test]
fn scenario_single_agent_lifecycle() {
    let result = parse_hook_events(AGENT_EVENTS);
    assert_eq!(result.events.len(), 6);
    assert!(result.errors.is_empty());
    let mut state = DashboardState::default();
    state.update_from_events(&result.events);
    assert_eq!(state.agents.len(), 1);
    assert_eq!(state.agents[0].status, AgentStatus::Idle);
    assert_eq!(state.agents[0].event_count, 6);
}

#[test]
fn tool_end_keeps_current_task() {
    let input = r#"{"event_type":"tool_start","timestamp":"2024-01-15T10:30:00Z","agent_id":"a","task_id":"T7","session_id":"s","tool_name":"Read"}
{"event_type":"tool_end","timestamp":"2024-01-15T10:30:01Z","agent_id":"a","task_id":"T7","session_id":"s"}
"#;
    let result = parse_hook_events(input);
    let mut state = DashboardState::default();
    state.update_from_events(&result.events);
    assert_eq!(state.agents.len(), 1);
    assert_eq!(state.agents[0].current_task.as_deref(), Some("T7"));
    assert!(state.agents[0].current_tool.is_none());
    assert_eq!(state.agents[0].status, AgentStatus::Running);
}
