//! Focus cycling between the dashboard's panes.
//!
//! The screen-geometry computation itself belongs to the renderer; the
//! library only tracks which pane has focus and how focus rotates.

use vstd::prelude::*;

verus! {

/// The pane that currently has focus.
#[derive(Debug, Clone, Copy, PartialEq, Eq, Structural)]
pub enum FocusedPane {
    TaskList,
    Detail,
    Agents,
}

/// The pane after one focus rotation.
pub open spec fn toggled(p: FocusedPane) -> FocusedPane {
    match p {
        FocusedPane::TaskList => FocusedPane::Detail,
        FocusedPane::Detail => FocusedPane::Agents,
        FocusedPane::Agents => FocusedPane::TaskList,
    }
}

impl FocusedPane {
    /// Rotate focus: task list, detail, agents, and around again.
    pub fn toggle(self) -> (r: Self)
        ensures
            r == toggled(self),
    {
        match self {
            FocusedPane::TaskList => FocusedPane::Detail,
            FocusedPane::Detail => FocusedPane::Agents,
            FocusedPane::Agents => FocusedPane::TaskList,
        }
    }
}

} // verus!
