//! Rule-based error analysis.
//!
//! A fixed, ordered table of substring rules maps a free-text error message to
//! a category, a retryable hint and a short suggestion. Matching is
//! case-insensitive and the first rule with a matching pattern wins, so the
//! order of the table is observable and is part of the contract.

use vstd::prelude::*;

verus! {

use crate::text::{contains_sub, has_sub};

/// The case-folded form of `s`, as `str::to_lowercase` computes it.
pub uninterp spec fn lower_of(s: Seq<char>) -> Seq<char>;

/// Relies on `str::to_lowercase`: the result depends on the characters of the
/// input alone.
#[verifier::external_body]
fn lowercase(s: &str) -> (r: String)
    ensures
        r@ == lower_of(s@),
{
    s.to_lowercase()
}

/// Error category derived from pattern matching.
#[derive(Debug, Clone, Copy, PartialEq, Eq, Structural)]
pub enum ErrorCategory {
    Type,
    Runtime,
    Network,
    Permission,
    Unknown,
}

/// Display name of a category.
pub open spec fn category_label(c: ErrorCategory) -> Seq<char> {
    match c {
        ErrorCategory::Type => "Type"@,
        ErrorCategory::Runtime => "Runtime"@,
        ErrorCategory::Network => "Network"@,
        ErrorCategory::Permission => "Permission"@,
        ErrorCategory::Unknown => "Unknown"@,
    }
}

impl ErrorCategory {
    /// The display name of the category, as shown by the renderer.
    pub fn label(&self) -> (r: String)
        ensures
            r@ == category_label(*self),
    {
        match self {
            ErrorCategory::Type => "Type".to_owned(),
            ErrorCategory::Runtime => "Runtime".to_owned(),
            ErrorCategory::Network => "Network".to_owned(),
            ErrorCategory::Permission => "Permission".to_owned(),
            ErrorCategory::Unknown => "Unknown".to_owned(),
        }
    }
}

/// Result of analyzing an error message.
#[derive(Debug, Clone)]
pub struct ErrorAnalysis {
    pub category: ErrorCategory,
    pub retryable: bool,
    pub suggestion: String,
}

/// Mathematical model of an [`ErrorAnalysis`].
pub ghost struct ErrorAnalysisV {
    pub category: ErrorCategory,
    pub retryable: bool,
    pub suggestion: Seq<char>,
}

impl View for ErrorAnalysis {
    type V = ErrorAnalysisV;

    open spec fn view(&self) -> ErrorAnalysisV {
        ErrorAnalysisV {
            category: self.category,
            retryable: self.retryable,
            suggestion: self.suggestion@,
        }
    }
}

/// The rule table, evaluated top-down on a case-folded message `l`: the first
/// rule with a matching substring decides the analysis, and a message that
/// matches no rule is Unknown.
pub open spec fn analysis_of(l: Seq<char>) -> ErrorAnalysisV {
    if has_sub(l, "permission denied"@) {
        (ErrorAnalysisV {
            category: ErrorCategory::Permission,
            retryable: false,
            suggestion: "Check file permissions"@,
        })
    } else if has_sub(l, "access denied"@) {
        (ErrorAnalysisV {
            category: ErrorCategory::Permission,
            retryable: false,
            suggestion: "Check access rights"@,
        })
    } else if has_sub(l, "connection refused"@) {
        (ErrorAnalysisV {
            category: ErrorCategory::Network,
            retryable: true,
            suggestion: "Check if service is running"@,
        })
    } else if has_sub(l, "timeout"@) || has_sub(l, "timed out"@) {
        (ErrorAnalysisV {
            category: ErrorCategory::Network,
            retryable: true,
            suggestion: "Retry or increase timeout"@,
        })
    } else if has_sub(l, "rate limit"@) {
        (ErrorAnalysisV {
            category: ErrorCategory::Network,
            retryable: true,
            suggestion: "Wait and retry"@,
        })
    } else if has_sub(l, "dns"@) || has_sub(l, "resolve"@) {
        (ErrorAnalysisV {
            category: ErrorCategory::Network,
            retryable: true,
            suggestion: "Check network connection"@,
        })
    } else if has_sub(l, "type error"@) || has_sub(l, "type mismatch"@) {
        (ErrorAnalysisV {
            category: ErrorCategory::Type,
            retryable: false,
            suggestion: "Fix type annotations"@,
        })
    } else if has_sub(l, "cannot find"@) || has_sub(l, "not found"@) {
        (ErrorAnalysisV {
            category: ErrorCategory::Type,
            retryable: false,
            suggestion: "Check imports and paths"@,
        })
    } else if has_sub(l, "undefined"@) || has_sub(l, "unresolved"@) {
        (ErrorAnalysisV {
            category: ErrorCategory::Type,
            retryable: false,
            suggestion: "Check variable/module names"@,
        })
    } else if has_sub(l, "out of memory"@) || has_sub(l, "oom"@) {
        (ErrorAnalysisV {
            category: ErrorCategory::Runtime,
            retryable: false,
            suggestion: "Reduce memory usage"@,
        })
    } else if has_sub(l, "stack overflow"@) {
        (ErrorAnalysisV {
            category: ErrorCategory::Runtime,
            retryable: false,
            suggestion: "Check for infinite recursion"@,
        })
    } else if has_sub(l, "panic"@) || has_sub(l, "unwrap"@) {
        (ErrorAnalysisV {
            category: ErrorCategory::Runtime,
            retryable: false,
            suggestion: "Add proper error handling"@,
        })
    } else {
        (ErrorAnalysisV {
            category: ErrorCategory::Unknown,
            retryable: false,
            suggestion: "Investigate error details"@,
        })
    }
}

/// Some rule of the table matches the case-folded message `l`.
pub open spec fn matches_any_rule(l: Seq<char>) -> bool {
    ||| has_sub(l, "permission denied"@)
    ||| has_sub(l, "access denied"@)
    ||| has_sub(l, "connection refused"@)
    ||| has_sub(l, "timeout"@)
    ||| has_sub(l, "timed out"@)
    ||| has_sub(l, "rate limit"@)
    ||| has_sub(l, "dns"@)
    ||| has_sub(l, "resolve"@)
    ||| has_sub(l, "type error"@)
    ||| has_sub(l, "type mismatch"@)
    ||| has_sub(l, "cannot find"@)
    ||| has_sub(l, "not found"@)
    ||| has_sub(l, "undefined"@)
    ||| has_sub(l, "unresolved"@)
    ||| has_sub(l, "out of memory"@)
    ||| has_sub(l, "oom"@)
    ||| has_sub(l, "stack overflow"@)
    ||| has_sub(l, "panic"@)
    ||| has_sub(l, "unwrap"@)
}

/// Evaluates the rule table on a message that is already case-folded.
///
/// Callers that hold the folded text of a message can check the exact result
/// of the table here; [`analyze_error`] folds and then delegates to this.
pub fn classify_lowered(lowered: &str) -> (r: ErrorAnalysis)
    ensures
        r@ == analysis_of(lowered@),
{
    if contains_sub(lowered, "permission denied") {
        ErrorAnalysis {
            category: ErrorCategory::Permission,
            retryable: false,
            suggestion: "Check file permissions".to_owned(),
        }
    } else if contains_sub(lowered, "access denied") {
        ErrorAnalysis {
            category: ErrorCategory::Permission,
            retryable: false,
            suggestion: "Check access rights".to_owned(),
        }
    } else if contains_sub(lowered, "connection refused") {
        ErrorAnalysis {
            category: ErrorCategory::Network,
            retryable: true,
            suggestion: "Check if service is running".to_owned(),
        }
    } else if contains_sub(lowered, "timeout") || contains_sub(lowered, "timed out") {
        ErrorAnalysis {
            category: ErrorCategory::Network,
            retryable: true,
            suggestion: "Retry or increase timeout".to_owned(),
        }
    } else if contains_sub(lowered, "rate limit") {
        ErrorAnalysis {
            category: ErrorCategory::Network,
            retryable: true,
            suggestion: "Wait and retry".to_owned(),
        }
    } else if contains_sub(lowered, "dns") || contains_sub(lowered, "resolve") {
        ErrorAnalysis {
            category: ErrorCategory::Network,
            retryable: true,
            suggestion: "Check network connection".to_owned(),
        }
    } else if contains_sub(lowered, "type error") || contains_sub(lowered, "type mismatch") {
        ErrorAnalysis {
            category: ErrorCategory::Type,
            retryable: false,
            suggestion: "Fix type annotations".to_owned(),
        }
    } else if contains_sub(lowered, "cannot find") || contains_sub(lowered, "not found") {
        ErrorAnalysis {
            category: ErrorCategory::Type,
            retryable: false,
            suggestion: "Check imports and paths".to_owned(),
        }
    } else if contains_sub(lowered, "undefined") || contains_sub(lowered, "unresolved") {
        ErrorAnalysis {
            category: ErrorCategory::Type,
            retryable: false,
            suggestion: "Check variable/module names".to_owned(),
        }
    } else if contains_sub(lowered, "out of memory") || contains_sub(lowered, "oom") {
        ErrorAnalysis {
            category: ErrorCategory::Runtime,
            retryable: false,
            suggestion: "Reduce memory usage".to_owned(),
        }
    } else if contains_sub(lowered, "stack overflow") {
        ErrorAnalysis {
            category: ErrorCategory::Runtime,
            retryable: false,
            suggestion: "Check for infinite recursion".to_owned(),
        }
    } else if contains_sub(lowered, "panic") || contains_sub(lowered, "unwrap") {
        ErrorAnalysis {
            category: ErrorCategory::Runtime,
            retryable: false,
            suggestion: "Add proper error handling".to_owned(),
        }
    } else {
        ErrorAnalysis {
            category: ErrorCategory::Unknown,
            retryable: false,
            suggestion: "Investigate error details".to_owned(),
        }
    }
}

/// Analyze an error message and return its category, retryable hint and
/// suggestion: the message is case-folded and the rule table is evaluated
/// top-down on the folded text.
pub fn analyze_error(message: &str) -> (r: ErrorAnalysis)
    ensures
        r@ == analysis_of(lower_of(message@)),
{
    let lowered = lowercase(message);
    classify_lowered(lowered.as_str())
}

/// The classifier is case-insensitive: the analysis of a message is a function
/// of its case-folded form alone, so any two messages that fold to the same
/// text classify identically.
pub proof fn lemma_classifier_case_insensitive(m1: Seq<char>, m2: Seq<char>)
    requires
        lower_of(m1) == lower_of(m2),
    ensures
        analysis_of(lower_of(m1)) == analysis_of(lower_of(m2)),
{
}

/// Rule priority: a message containing "permission denied" classifies as
/// Permission and not retryable, whatever else it contains — in particular
/// also when "not found" occurs in the same message.
pub proof fn lemma_permission_priority(l: Seq<char>)
    requires
        has_sub(l, "permission denied"@),
    ensures
        analysis_of(l).category == ErrorCategory::Permission,
        !analysis_of(l).retryable,
{
}

/// A message matched by no rule of the table yields Unknown, not retryable,
/// with the fixed fallback suggestion.
pub proof fn lemma_unmatched_is_unknown(l: Seq<char>)
    requires
        !matches_any_rule(l),
    ensures
        analysis_of(l) == (ErrorAnalysisV {
            category: ErrorCategory::Unknown,
            retryable: false,
            suggestion: "Investigate error details"@,
        }),
{
}

} // verus!
