//! Flattened task-list selection and the rows the task view renders.
//!
//! The tree of phases and tasks is flattened, in document order, into one row
//! per phase header followed by one row per task. A single linear index into
//! this sequence is the unit of cursor movement; movement clamps at the ends
//! and resolving an index yields either the task coordinates or "no task
//! selected" for a header or an out-of-range index.

use vstd::prelude::*;

verus! {

use crate::state::DashboardState;
use crate::tasks_parser::{
    count_status_in, percent_of, phase_views, PhaseV, TaskStatus, TaskV,
};

/// Number of rows in the flattened view: one header per phase plus its tasks.
pub open spec fn flat_len(phases: Seq<PhaseV>) -> int
    decreases phases.len(),
{
    if phases.len() == 0 {
        0int
    } else {
        1 + phases[0].tasks.len() + flat_len(phases.drop_first())
    }
}

/// Row index of the header of phase `p`.
pub open spec fn header_start(phases: Seq<PhaseV>, p: int) -> int {
    flat_len(phases.subrange(0, p))
}

/// The task coordinates a flattened index denotes, or None for a phase
/// header or an index out of range.
pub open spec fn resolve(phases: Seq<PhaseV>, idx: int) -> Option<(int, int)>
    decreases phases.len(),
{
    if phases.len() == 0 || idx < 0 {
        None
    } else if idx == 0 {
        None
    } else if idx <= phases[0].tasks.len() {
        Some((0int, idx - 1))
    } else {
        match resolve(phases.drop_first(), idx - 1 - phases[0].tasks.len()) {
            Some(pt) => Some((pt.0 + 1, pt.1)),
            None => None,
        }
    }
}

pub proof fn lemma_flat_len_nonneg(phases: Seq<PhaseV>)
    ensures
        flat_len(phases) >= 0,
    decreases phases.len(),
{
    if phases.len() > 0 {
        lemma_flat_len_nonneg(phases.drop_first());
    }
}

/// Unfolds `header_start` one phase at a time.
pub proof fn lemma_header_start_step(phases: Seq<PhaseV>, p: int)
    requires
        0 < p <= phases.len(),
    ensures
        header_start(phases, p) == 1 + phases[0].tasks.len() + header_start(
            phases.drop_first(),
            p - 1,
        ),
{
    let sub = phases.subrange(0, p);
    assert(sub[0] == phases[0]);
    assert(sub.drop_first() =~= phases.drop_first().subrange(0, p - 1));
}

/// A phase header always resolves to "no task selected".
pub proof fn lemma_resolve_header(phases: Seq<PhaseV>, p: int)
    requires
        0 <= p < phases.len(),
    ensures
        resolve(phases, header_start(phases, p)) is None,
    decreases p,
{
    if p == 0 {
        assert(phases.subrange(0, 0) =~= Seq::<PhaseV>::empty());
    } else {
        lemma_header_start_step(phases, p);
        lemma_resolve_header(phases.drop_first(), p - 1);
        lemma_flat_len_nonneg(phases.drop_first().subrange(0, p - 1));
    }
}

/// The row after a header plus a task offset resolves to that task.
pub proof fn lemma_resolve_task(phases: Seq<PhaseV>, p: int, ti: int)
    requires
        0 <= p < phases.len(),
        0 <= ti < phases[p].tasks.len(),
    ensures
        resolve(phases, header_start(phases, p) + 1 + ti) == Some((p, ti)),
    decreases p,
{
    if p == 0 {
        assert(phases.subrange(0, 0) =~= Seq::<PhaseV>::empty());
    } else {
        lemma_header_start_step(phases, p);
        lemma_resolve_task(phases.drop_first(), p - 1, ti);
        lemma_flat_len_nonneg(phases.drop_first().subrange(0, p - 1));
        assert(phases.drop_first()[p - 1] == phases[p]);
    }
}

/// An index at or past the end of the flattened view resolves to nothing.
pub proof fn lemma_resolve_out_of_range(phases: Seq<PhaseV>, idx: int)
    requires
        idx >= flat_len(phases),
    ensures
        resolve(phases, idx) is None,
    decreases phases.len(),
{
    if phases.len() > 0 {
        lemma_flat_len_nonneg(phases.drop_first());
        if idx > phases[0].tasks.len() {
            lemma_resolve_out_of_range(phases.drop_first(), idx - 1 - phases[0].tasks.len());
        }
    }
}

/// The selection index after a move down: clamped to the last row.
pub open spec fn next_index(sel: int, total: int) -> int {
    if total == 0 {
        sel
    } else if sel + 1 < total {
        sel + 1
    } else {
        total - 1
    }
}

/// The selection index after a move up: clamped to the first row.
pub open spec fn prev_index(sel: int) -> int {
    if sel > 0 {
        sel - 1
    } else {
        0int
    }
}

/// Cursor movement never leaves `[0, total_items - 1]`: from an in-range
/// index, the index after a move down or a move up is in range, a move down
/// from the last index is a no-op, and a move up from index zero is a no-op.
pub proof fn lemma_movement_in_bounds(sel: int, total: int)
    requires
        0 < total,
        0 <= sel < total,
    ensures
        0 <= next_index(sel, total) < total,
        0 <= prev_index(sel) < total,
        sel == total - 1 ==> next_index(sel, total) == sel,
        sel == 0 ==> prev_index(sel) == sel,
{
}

/// Selection state of the flattened task view.
#[derive(Debug, Clone)]
pub struct GanttState {
    /// Index into the flattened list of phase headers and tasks.
    pub selected: usize,
    /// Total number of selectable rows.
    pub total_items: usize,
    /// Scroll offset of the view.
    pub offset: usize,
}

impl GanttState {
    /// Move the cursor down one row, clamped to the last row; a move down
    /// from the last row is a no-op and the index never leaves
    /// `[0, total_items - 1]`.
    pub fn select_next(&mut self)
        ensures
            final(self).total_items == old(self).total_items,
            final(self).offset == old(self).offset,
            final(self).selected as int == next_index(
                old(self).selected as int,
                old(self).total_items as int,
            ),
    {
        if self.total_items > 0 {
            let cap = self.total_items - 1;
            if self.selected < cap {
                self.selected = self.selected + 1;
            } else {
                self.selected = cap;
            }
        }
    }

    /// Move the cursor up one row; a move up from row zero is a no-op.
    pub fn select_prev(&mut self)
        ensures
            final(self).total_items == old(self).total_items,
            final(self).offset == old(self).offset,
            final(self).selected as int == prev_index(old(self).selected as int),
    {
        if self.selected > 0 {
            self.selected = self.selected - 1;
        }
    }

    /// The `(phase_index, task_index)` of the current selection, or None when
    /// a phase header or an out-of-range index is selected.
    pub fn selected_task(&self, state: &DashboardState) -> (r: Option<(usize, usize)>)
        ensures
            ({
                let phases = phase_views(state.phases@);
                match r {
                    Some(pt) => resolve(phases, self.selected as int) == Some(
                        (pt.0 as int, pt.1 as int),
                    ),
                    None => resolve(phases, self.selected as int) is None,
                }
            }),
    {
        let ghost phases = phase_views(state.phases@);
        let mut idx: usize = 0;
        let mut pi: usize = 0;
        proof {
            assert(phases.subrange(0, 0) =~= Seq::<PhaseV>::empty());
        }
        while pi < state.phases.len()
            invariant
                pi <= state.phases@.len(),
                phases == phase_views(state.phases@),
                idx as int == header_start(phases, pi as int),
                self.selected >= idx,
            decreases state.phases@.len() - pi,
        {
            if idx == self.selected {
                proof {
                    lemma_resolve_header(phases, pi as int);
                }
                return None;
            }
            idx = idx + 1;
            let nt = state.phases[pi].tasks.len();
            let mut ti: usize = 0;
            while ti < nt
                invariant
                    pi < state.phases@.len(),
                    phases == phase_views(state.phases@),
                    nt == phases[pi as int].tasks.len(),
                    ti <= nt,
                    idx as int == header_start(phases, pi as int) + 1 + ti,
                    self.selected >= idx,
                decreases nt - ti,
            {
                if idx == self.selected {
                    proof {
                        lemma_resolve_task(phases, pi as int, ti as int);
                    }
                    return Some((pi, ti));
                }
                idx = idx + 1;
                ti = ti + 1;
            }
            proof {
                lemma_header_start_step_up(phases, pi as int);
            }
            pi = pi + 1;
        }
        proof {
            assert(phases.subrange(0, pi as int) =~= phases);
            lemma_resolve_out_of_range(phases, self.selected as int);
        }
        None
    }

    /// Moves the scroll offset the least amount that keeps the selected row
    /// inside a window of `visible_height` rows.
    pub fn adjust_offset(&mut self, visible_height: usize)
        ensures
            final(self).selected == old(self).selected,
            final(self).total_items == old(self).total_items,
            final(self).offset as int == if visible_height == 0 {
                old(self).selected as int
            } else if old(self).selected < old(self).offset {
                old(self).selected as int
            } else if old(self).selected >= old(self).offset + visible_height {
                old(self).selected - visible_height + 1 as int
            } else {
                old(self).offset as int
            },
    {
        if visible_height == 0 {
            self.offset = self.selected;
        } else if self.selected < self.offset {
            self.offset = self.selected;
        } else if self.selected - self.offset >= visible_height {
            self.offset = self.selected - visible_height + 1;
        }
    }
}

/// Advancing the header start from phase `p` to `p + 1` adds the rows of
/// phase `p`.
pub proof fn lemma_header_start_step_up(phases: Seq<PhaseV>, p: int)
    requires
        0 <= p < phases.len(),
    ensures
        header_start(phases, p + 1) == header_start(phases, p) + 1 + phases[p].tasks.len(),
    decreases p,
{
    if p == 0 {
        assert(phases.subrange(0, 0) =~= Seq::<PhaseV>::empty());
        let sub = phases.subrange(0, 1);
        assert(sub[0] == phases[0]);
        assert(sub.drop_first() =~= Seq::<PhaseV>::empty());
    } else {
        lemma_header_start_step(phases, p);
        lemma_header_start_step(phases, p + 1);
        lemma_header_start_step_up(phases.drop_first(), p - 1);
        assert(phases.drop_first()[p - 1] == phases[p]);
    }
}

impl Default for GanttState {
    /// The zero selection: first row, no rows known, no scroll.
    fn default() -> (r: GanttState)
        ensures
            r.selected == 0,
            r.total_items == 0,
            r.offset == 0,
    {
        GanttState { selected: 0, total_items: 0, offset: 0 }
    }
}

/// Display text of a status icon.
pub open spec fn icon_of(st: TaskStatus) -> Seq<char> {
    match st {
        TaskStatus::Completed => "[x]"@,
        TaskStatus::InProgress => "[/]"@,
        TaskStatus::Pending => "[ ]"@,
        TaskStatus::Failed => "[!]"@,
        TaskStatus::Blocked => "[B]"@,
    }
}

/// Status icon text for a task status.
pub fn status_icon(status: &TaskStatus) -> (r: String)
    ensures
        r@ == icon_of(*status),
{
    match status {
        TaskStatus::Completed => "[x]".to_owned(),
        TaskStatus::InProgress => "[/]".to_owned(),
        TaskStatus::Pending => "[ ]".to_owned(),
        TaskStatus::Failed => "[!]".to_owned(),
        TaskStatus::Blocked => "[B]".to_owned(),
    }
}

/// One row of the flattened task view.
#[derive(Debug, Clone)]
pub enum GanttRow {
    PhaseRow { id: String, name: String, percent: u8, selected: bool },
    TaskRow {
        icon: String,
        id: String,
        name: String,
        status: TaskStatus,
        agent: Option<String>,
        selected: bool,
    },
}

/// Mathematical model of a [`GanttRow`].
pub ghost enum GanttRowV {
    PhaseRow { id: Seq<char>, name: Seq<char>, percent: int, selected: bool },
    TaskRow {
        icon: Seq<char>,
        id: Seq<char>,
        name: Seq<char>,
        status: TaskStatus,
        agent: Option<Seq<char>>,
        selected: bool,
    },
}

impl View for GanttRow {
    type V = GanttRowV;

    open spec fn view(&self) -> GanttRowV {
        match self {
            GanttRow::PhaseRow { id, name, percent, selected } => GanttRowV::PhaseRow {
                id: id@,
                name: name@,
                percent: *percent as int,
                selected: *selected,
            },
            GanttRow::TaskRow { icon, id, name, status, agent, selected } => GanttRowV::TaskRow {
                icon: icon@,
                id: id@,
                name: name@,
                status: *status,
                agent: agent.deep_view(),
                selected: *selected,
            },
        }
    }
}

/// The header row of phase `ph` at selection flag `sel`.
pub open spec fn phase_row_of(ph: PhaseV, sel: bool) -> GanttRowV {
    GanttRowV::PhaseRow {
        id: ph.id,
        name: ph.name,
        percent: percent_of(count_status_in(ph.tasks, TaskStatus::Completed), ph.tasks.len() as int),
        selected: sel,
    }
}

/// The row of task `t` at selection flag `sel`.
pub open spec fn task_row_of(t: TaskV, sel: bool) -> GanttRowV {
    GanttRowV::TaskRow {
        icon: icon_of(t.status),
        id: t.id,
        name: t.name,
        status: t.status,
        agent: t.agent,
        selected: sel,
    }
}

/// Row `i` of the flattened view of `phases` under selection `sel` is `row`.
pub open spec fn row_ok(phases: Seq<PhaseV>, sel: int, i: int, row: GanttRowV) -> bool {
    match resolve(phases, i) {
        Some(pt) => row == task_row_of(phases[pt.0].tasks[pt.1], i == sel),
        None => exists|p: int|
            0 <= p < phases.len() && i == #[trigger] header_start(phases, p) && row == phase_row_of(
                phases[p],
                i == sel,
            ),
    }
}

/// The task view: flattens the snapshot's phases and tasks into rows.
pub struct GanttWidget<'a> {
    pub state: &'a DashboardState,
    pub focused: bool,
}

impl<'a> GanttWidget<'a> {
    pub fn new(state: &'a DashboardState, focused: bool) -> (r: Self)
        ensures
            r.state == state,
            r.focused == focused,
    {
        GanttWidget { state, focused }
    }

    /// The rows of the flattened view, one per phase header and one per
    /// task, in document order, with the selection flag taken from
    /// `gantt_state`.
    pub fn build_rows(&self, gantt_state: &GanttState) -> (r: Vec<GanttRow>)
        ensures
            r@.len() == flat_len(phase_views(self.state.phases@)),
            forall|i: int|
                0 <= i < r@.len() ==> row_ok(
                    phase_views(self.state.phases@),
                    gantt_state.selected as int,
                    i,
                    (#[trigger] r@[i])@,
                ),
    {
        let ghost phases = phase_views(self.state.phases@);
        let ghost sel = gantt_state.selected as int;
        let mut rows: Vec<GanttRow> = Vec::new();
        let mut pi: usize = 0;
        proof {
            assert(phases.subrange(0, 0) =~= Seq::<PhaseV>::empty());
        }
        while pi < self.state.phases.len()
            invariant
                pi <= self.state.phases@.len(),
                phases == phase_views(self.state.phases@),
                sel == gantt_state.selected as int,
                rows@.len() == header_start(phases, pi as int),
                forall|i: int|
                    0 <= i < rows@.len() ==> row_ok(phases, sel, i, (#[trigger] rows@[i])@),
            decreases self.state.phases@.len() - pi,
        {
            let ph = &self.state.phases[pi];
            proof {
                assert(phases[pi as int] == self.state.phases@[pi as int]@);
            }
            let percent = ph.progress_percent();
            let is_sel = rows.len() == gantt_state.selected;
            let ghost prev_rows = rows@;
            rows.push(
                GanttRow::PhaseRow {
                    id: ph.id.clone(),
                    name: ph.name.clone(),
                    percent,
                    selected: is_sel,
                },
            );
            proof {
                lemma_resolve_header(phases, pi as int);
                assert(rows@[rows@.len() - 1]@ == phase_row_of(phases[pi as int], is_sel));
                assert forall|i: int|
                    0 <= i < rows@.len() implies row_ok(phases, sel, i, (#[trigger] rows@[i])@) by {
                    if i < prev_rows.len() {
                        assert(rows@[i] == prev_rows[i]);
                    } else {
                        assert(i == header_start(phases, pi as int));
                        assert(row_ok(phases, sel, i, rows@[i]@));
                    }
                }
            }
            let nt = ph.tasks.len();
            let mut ti: usize = 0;
            while ti < nt
                invariant
                    pi < self.state.phases@.len(),
                    phases == phase_views(self.state.phases@),
                    phases[pi as int] == self.state.phases@[pi as int]@,
                    sel == gantt_state.selected as int,
                    nt == phases[pi as int].tasks.len(),
                    ti <= nt,
                    rows@.len() == header_start(phases, pi as int) + 1 + ti,
                    forall|i: int|
                        0 <= i < rows@.len() ==> row_ok(phases, sel, i, (#[trigger] rows@[i])@),
                decreases nt - ti,
            {
                let ph2 = &self.state.phases[pi];
                let t = &ph2.tasks[ti];
                proof {
                    assert(phases[pi as int].tasks[ti as int] == ph2.tasks@[ti as int]@);
                }
                let is_sel2 = rows.len() == gantt_state.selected;
                let ghost prev_rows2 = rows@;
                rows.push(
                    GanttRow::TaskRow {
                        icon: status_icon(&t.status),
                        id: t.id.clone(),
                        name: t.name.clone(),
                        status: t.status,
                        agent: match &t.agent {
                            Some(a) => Some(a.clone()),
                            None => None,
                        },
                        selected: is_sel2,
                    },
                );
                proof {
                    lemma_resolve_task(phases, pi as int, ti as int);
                    assert(rows@[rows@.len() - 1]@ == task_row_of(
                        phases[pi as int].tasks[ti as int],
                        is_sel2,
                    ));
                    assert forall|i: int|
                        0 <= i < rows@.len() implies row_ok(phases, sel, i, (#[trigger] rows@[i])@)
                        by {
                        if i < prev_rows2.len() {
                            assert(rows@[i] == prev_rows2[i]);
                        } else {
                            assert(resolve(phases, i) == Some((pi as int, ti as int)));
                            assert(row_ok(phases, sel, i, rows@[i]@));
                        }
                    }
                }
                ti = ti + 1;
            }
            proof {
                lemma_header_start_step_up(phases, pi as int);
            }
            pi = pi + 1;
        }
        proof {
            assert(phases.subrange(0, pi as int) =~= phases);
        }
        rows
    }
}

} // verus!
