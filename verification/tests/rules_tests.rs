//! Classifier tests: one per rule of the table, the fallback, case
//! insensitivity and the priority order.

use agent_board::rules::{analyze_error, ErrorCategory};

#[test]
fn permission_denied() {
    let r = analyze_error("permission denied: /etc/shadow");
    assert_eq!(r.category, ErrorCategory::Permission);
    assert!(!r.retryable);
    assert_eq!(r.suggestion, "Check file permissions");
}

#[test]
fn access_denied() {
    let r = analyze_error("Access Denied for resource X");
    assert_eq!(r.category, ErrorCategory::Permission);
    assert!(!r.retryable);
}

#[test]
fn connection_refused() {
    let r = analyze_error("connection refused: localhost:5432");
    assert_eq!(r.category, ErrorCategory::Network);
    assert!(r.retryable);
    assert_eq!(r.suggestion, "Check if service is running");
}

#[test]
fn timeout() {
    let r = analyze_error("request timed out after 30s");
    assert_eq!(r.category, ErrorCategory::Network);
    assert!(r.retryable);
}

#[test]
fn timeout_variant() {
    let r = analyze_error("connection timeout");
    assert_eq!(r.category, ErrorCategory::Network);
    assert!(r.retryable);
}

#[test]
fn rate_limit() {
    let r = analyze_error("rate limit exceeded: 429");
    assert_eq!(r.category, ErrorCategory::Network);
    assert!(r.retryable);
    assert_eq!(r.suggestion, "Wait and retry");
}

#[test]
fn dns_resolution() {
    let r = analyze_error("DNS lookup failed for api.example.com");
    assert_eq!(r.category, ErrorCategory::Network);
    assert!(r.retryable);
}

#[test]
fn type_error() {
    let r = analyze_error("type error: expected i32 got &str");
    assert_eq!(r.category, ErrorCategory::Type);
    assert!(!r.retryable);
}

#[test]
fn not_found() {
    let r = analyze_error("module 'foo' not found");
    assert_eq!(r.category, ErrorCategory::Type);
    assert!(!r.retryable);
    assert_eq!(r.suggestion, "Check imports and paths");
}

#[test]
fn undefined_variable() {
    let r = analyze_error("undefined reference to 'bar'");
    assert_eq!(r.category, ErrorCategory::Type);
    assert!(!r.retryable);
}

#[test]
fn out_of_memory() {
    let r = analyze_error("fatal: out of memory allocating 1GB");
    assert_eq!(r.category, ErrorCategory::Runtime);
    assert!(!r.retryable);
}

#[test]
fn stack_overflow() {
    let r = analyze_error("thread 'main' has overflowed its stack overflow");
    assert_eq!(r.category, ErrorCategory::Runtime);
    assert!(!r.retryable);
}

#[test]
fn panic_unwrap() {
    let r = analyze_error("thread 'main' panicked at 'called unwrap on None'");
    assert_eq!(r.category, ErrorCategory::Runtime);
    assert!(!r.retryable);
}

#[test]
fn unknown_fallback() {
    let r = analyze_error("something completely unexpected happened");
    assert_eq!(r.category, ErrorCategory::Unknown);
    assert!(!r.retryable);
    assert_eq!(r.suggestion, "Investigate error details");
}

#[test]
fn case_insensitive() {
    let r = analyze_error("PERMISSION DENIED");
    assert_eq!(r.category, ErrorCategory::Permission);
}

#[test]
fn case_insensitive_matches_lowercase_exactly() {
    let upper = analyze_error("PERMISSION DENIED");
    let lower = analyze_error("permission denied");
    assert_eq!(upper.category, lower.category);
    assert_eq!(upper.retryable, lower.retryable);
    assert_eq!(upper.suggestion, lower.suggestion);
}

#[test]
fn display_categories() {
    assert_eq!(ErrorCategory::Type.label(), "Type");
    assert_eq!(ErrorCategory::Runtime.label(), "Runtime");
    assert_eq!(ErrorCategory::Network.label(), "Network");
    assert_eq!(ErrorCategory::Permission.label(), "Permission");
    assert_eq!(ErrorCategory::Unknown.label(), "Unknown");
}

#[test]
fn priority_order_permission_before_not_found() {
    let r = analyze_error("permission denied: file not found");
    assert_eq!(r.category, ErrorCategory::Permission);
}

#[test]
fn resolve_matches_network() {
    let r = analyze_error("could not resolve host");
    assert_eq!(r.category, ErrorCategory::Network);
    assert!(r.retryable);
}

#[test]
fn empty_message_is_unknown() {
    let r = analyze_error("");
    assert_eq!(r.category, ErrorCategory::Unknown);
    assert!(!r.retryable);
    assert_eq!(r.suggestion, "Investigate error details");
}
