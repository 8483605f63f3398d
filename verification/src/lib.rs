//! State aggregation engine for a terminal dashboard that follows a
//! multi-agent automation run.
//!
//! The library parses a hierarchical task document and a line-oriented event
//! log, folds events into per-agent status, classifies error messages under a
//! fixed priority order, and exposes a snapshot with a stable, flattened
//! selection model. Rendering, keyboard handling and filesystem observation
//! live outside the library and only read the snapshot or feed it plain
//! values.

pub mod agent_panel;
pub mod app;
pub mod gantt;
pub mod hook_parser;
pub mod layout;
pub mod rules;
pub mod state;
pub mod statusbar;
pub mod tasks_parser;
pub mod text;
pub mod watcher;
