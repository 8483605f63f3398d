//! Agent activity rows: which agents have been seen, their status, their
//! current task and tool, and each agent's most recent classified error.
//!
//! Rows are displayed ascending by agent identifier, so the panel stays
//! stable however the agents were first seen. The panel computes plain rows;
//! drawing them is the renderer's business.

use vstd::prelude::*;

verus! {

use vstd::string::{StrSliceExecFns, StringExecFns};
use crate::state::{AgentState, AgentStatus, DashboardState, ErrorRecord, ErrorRecordV, error_views};
use crate::text::{
    contains_sub, has_sub, lemma_seq_char_lt_total, lemma_seq_char_lt_trans, seq_char_le,
    seq_char_lt, str_lt,
};

impl ErrorRecord {
    /// An owned copy whose view equals `self`'s.
    pub fn duplicate(&self) -> (r: ErrorRecord)
        ensures
            r@ == self@,
    {
        ErrorRecord {
            agent_id: self.agent_id.clone(),
            timestamp: self.timestamp,
            message: self.message.clone(),
            category: self.category,
            retryable: self.retryable,
            suggestion: self.suggestion.clone(),
        }
    }
}

/// The most recent record of `errs` carrying agent identifier `id`.
pub open spec fn last_error_for(errs: Seq<ErrorRecordV>, id: Seq<char>) -> Option<ErrorRecordV>
    decreases errs.len(),
{
    if errs.len() == 0 {
        None
    } else if errs.last().agent_id == id {
        Some(errs.last())
    } else {
        last_error_for(errs.drop_last(), id)
    }
}

/// A message shortened for single-line display: over 40 characters, the
/// first 37 followed by an ellipsis.
pub open spec fn shortened(m: Seq<char>) -> Seq<char> {
    if m.len() > 40 {
        m.subrange(0, 37) + "..."@
    } else {
        m
    }
}

/// Shorten a message for single-line display.
pub fn short_message(m: &str) -> (r: String)
    ensures
        r@ == shortened(m@),
{
    let n = m.unicode_len();
    if n > 40 {
        let mut s = m.substring_char(0, 37).to_owned();
        s.append("...");
        s
    } else {
        m.to_owned()
    }
}

/// One row of the agent activity panel.
#[derive(Debug, Clone)]
pub struct AgentRow {
    pub agent_id: String,
    pub status: AgentStatus,
    pub current_task: Option<String>,
    pub current_tool: Option<String>,
    pub error_count: u64,
    pub event_count: u64,
    /// The cursor of a focused panel rests on this row.
    pub selected: bool,
    /// Selected, or matched by the selected task's assigned agent.
    pub highlighted: bool,
    /// This agent's most recent error, if any.
    pub last_error: Option<ErrorRecord>,
}

/// Mathematical model of an [`AgentRow`].
pub ghost struct AgentRowV {
    pub agent_id: Seq<char>,
    pub status: AgentStatus,
    pub current_task: Option<Seq<char>>,
    pub current_tool: Option<Seq<char>>,
    pub error_count: int,
    pub event_count: int,
    pub selected: bool,
    pub highlighted: bool,
    pub last_error: Option<ErrorRecordV>,
}

impl View for AgentRow {
    type V = AgentRowV;

    open spec fn view(&self) -> AgentRowV {
        AgentRowV {
            agent_id: self.agent_id@,
            status: self.status,
            current_task: self.current_task.deep_view(),
            current_tool: self.current_tool.deep_view(),
            error_count: self.error_count as int,
            event_count: self.event_count as int,
            selected: self.selected,
            highlighted: self.highlighted,
            last_error: match self.last_error {
                Some(e) => Some(e@),
                None => None,
            },
        }
    }
}

/// The agent activity panel over a snapshot.
pub struct AgentPanel<'a> {
    pub state: &'a DashboardState,
    /// Agent name assigned to the currently selected task, if any.
    pub selected_agent: Option<&'a str>,
    pub focused: bool,
    pub selected_index: usize,
}

/// The row at display position `k` of the panel presents agent `i` of the
/// snapshot.
pub open spec fn agent_row_ok(
    state: DashboardState,
    selected_agent: Option<Seq<char>>,
    focused: bool,
    selected_index: int,
    k: int,
    i: int,
    row: AgentRowV,
) -> bool {
    let a = state.agents@[i]@;
    let sel = focused && k == selected_index;
    &&& row.agent_id == a.agent_id
    &&& row.status == a.status
    &&& row.current_task == a.current_task
    &&& row.current_tool == a.current_tool
    &&& row.error_count == a.error_count
    &&& row.event_count == a.event_count
    &&& row.selected == sel
    &&& row.highlighted == (sel || match selected_agent {
        Some(name) => has_sub(a.agent_id, name),
        None => false,
    })
    &&& row.last_error == last_error_for(error_views(state.recent_errors@), a.agent_id)
}

/// The views of a sequence of panel rows.
pub open spec fn row_views(s: Seq<AgentRow>) -> Seq<AgentRowV> {
    Seq::new(s.len(), |k: int| s[k]@)
}

/// Some agent of the snapshot stands at display position `k` as `row`.
pub open spec fn row_presents(
    state: DashboardState,
    selected_agent: Option<Seq<char>>,
    focused: bool,
    selected_index: int,
    k: int,
    row: AgentRowV,
) -> bool {
    exists|i: int|
        0 <= i < state.agents@.len() && agent_row_ok(
            state,
            selected_agent,
            focused,
            selected_index,
            k,
            i,
            row,
        )
}

/// Agent `i` of the snapshot is presented by some row of `rows`.
pub open spec fn agent_shown(
    state: DashboardState,
    selected_agent: Option<Seq<char>>,
    focused: bool,
    selected_index: int,
    rows: Seq<AgentRowV>,
    i: int,
) -> bool {
    exists|k: int|
        0 <= k < rows.len() && agent_row_ok(
            state,
            selected_agent,
            focused,
            selected_index,
            k,
            i,
            rows[k],
        )
}

impl<'a> AgentPanel<'a> {
    pub fn new(state: &'a DashboardState) -> (r: Self)
        ensures
            r.state == state,
            r.selected_agent is None,
            !r.focused,
            r.selected_index == 0,
    {
        AgentPanel { state, selected_agent: None, focused: false, selected_index: 0 }
    }

    pub fn with_selected_agent(self, agent: Option<&'a str>) -> (r: Self)
        ensures
            r.state == self.state,
            r.selected_agent == agent,
            r.focused == self.focused,
            r.selected_index == self.selected_index,
    {
        AgentPanel {
            state: self.state,
            selected_agent: agent,
            focused: self.focused,
            selected_index: self.selected_index,
        }
    }

    pub fn with_focused(self, focused: bool) -> (r: Self)
        ensures
            r.state == self.state,
            r.selected_agent == self.selected_agent,
            r.focused == focused,
            r.selected_index == self.selected_index,
    {
        AgentPanel {
            state: self.state,
            selected_agent: self.selected_agent,
            focused,
            selected_index: self.selected_index,
        }
    }

    pub fn with_selected_index(self, index: usize) -> (r: Self)
        ensures
            r.state == self.state,
            r.selected_agent == self.selected_agent,
            r.focused == self.focused,
            r.selected_index == index,
    {
        AgentPanel {
            state: self.state,
            selected_agent: self.selected_agent,
            focused: self.focused,
            selected_index: index,
        }
    }

    /// This agent's most recent error in the history, if any.
    fn find_last_error(&self, id: &str) -> (r: Option<ErrorRecord>)
        ensures
            match r {
                Some(e) => last_error_for(error_views(self.state.recent_errors@), id@) == Some(e@),
                None => last_error_for(error_views(self.state.recent_errors@), id@) is None,
            },
    {
        let ghost errs = error_views(self.state.recent_errors@);
        let n = self.state.recent_errors.len();
        let mut j: usize = n;
        proof {
            assert(errs.subrange(0, n as int) =~= errs);
        }
        while j > 0
            invariant
                j <= n,
                n == self.state.recent_errors@.len(),
                errs == error_views(self.state.recent_errors@),
                last_error_for(errs, id@) == last_error_for(errs.subrange(0, j as int), id@),
            decreases j,
        {
            let ghost pre = errs.subrange(0, j as int);
            proof {
                assert(pre.last() == errs[j - 1]);
                assert(pre.drop_last() =~= errs.subrange(0, j - 1));
                assert(errs[j - 1] == self.state.recent_errors@[j - 1]@);
            }
            let e = &self.state.recent_errors[j - 1];
            if crate::text::str_eq(e.agent_id.as_str(), id) {
                return Some(e.duplicate());
            }
            j = j - 1;
        }
        proof {
            assert(errs.subrange(0, 0) =~= Seq::<ErrorRecordV>::empty());
        }
        None
    }

    /// The display order of the agents: indices into the snapshot's agent
    /// vector, ascending by agent identifier; every agent appears once.
    fn sorted_agent_order(agents: &Vec<AgentState>) -> (r: Vec<usize>)
        ensures
            r@.len() == agents@.len(),
            forall|k: int| 0 <= k < r@.len() ==> (#[trigger] r@[k]) < agents@.len(),
            forall|p: int, q: int|
                #![trigger r@[p], r@[q]]
                0 <= p < q < r@.len() ==> seq_char_le(
                    agents@[r@[p] as int]@.agent_id,
                    agents@[r@[q] as int]@.agent_id,
                ),
            forall|i: int| 0 <= i < agents@.len() ==> #[trigger] r@.contains(i as usize),
    {
        let n = agents.len();
        let mut order: Vec<usize> = Vec::new();
        let mut m: usize = 0;
        while m < n
            invariant
                m <= n,
                n == agents@.len(),
                order@.len() == m,
                forall|k: int| 0 <= k < order@.len() ==> (#[trigger] order@[k]) < m,
                forall|p: int, q: int|
                    #![trigger order@[p], order@[q]]
                    0 <= p < q < order@.len() ==> seq_char_le(
                        agents@[order@[p] as int]@.agent_id,
                        agents@[order@[q] as int]@.agent_id,
                    ),
                forall|i: int| 0 <= i < m ==> #[trigger] order@.contains(i as usize),
            decreases n - m,
        {
            let ghost nk = agents@[m as int]@.agent_id;
            let mut p: usize = 0;
            while p < order.len() && !str_lt(
                agents[m].agent_id.as_str(),
                agents[order[p]].agent_id.as_str(),
            )
                invariant
                    m < n,
                    n == agents@.len(),
                    order@.len() == m,
                    nk == agents@[m as int]@.agent_id,
                    p <= order@.len(),
                    forall|k: int| 0 <= k < order@.len() ==> (#[trigger] order@[k]) < m,
                    forall|j: int|
                        0 <= j < p ==> !seq_char_lt(
                            nk,
                            agents@[(#[trigger] order@[j]) as int]@.agent_id,
                        ),
                decreases order@.len() - p,
            {
                p = p + 1;
            }
            let ghost prev_order = order@;
            order.insert(p, m);
            proof {
                assert(order@ == prev_order.insert(p as int, m));
                prev_order.insert_ensures(p as int, m);
                assert forall|k: int| 0 <= k < order@.len() implies (#[trigger] order@[k]) < m
                    + 1 by {
                    if k < p {
                        assert(order@[k] == prev_order[k]);
                    } else if k > p {
                        assert(order@[k] == prev_order[k - 1]);
                    }
                }
                assert forall|p2: int, q2: int|
                    #![trigger order@[p2], order@[q2]]
                    0 <= p2 < q2 < order@.len() implies seq_char_le(
                    agents@[order@[p2] as int]@.agent_id,
                    agents@[order@[q2] as int]@.agent_id,
                ) by {
                    let pk = p as int;
                    if q2 < pk {
                        assert(order@[p2] == prev_order[p2]);
                        assert(order@[q2] == prev_order[q2]);
                    } else if p2 < pk && q2 == pk {
                        assert(order@[p2] == prev_order[p2]);
                        assert(order@[q2] == m);
                        assert(!seq_char_lt(nk, agents@[prev_order[p2] as int]@.agent_id));
                        lemma_seq_char_lt_total(nk, agents@[prev_order[p2] as int]@.agent_id);
                    } else if p2 < pk && q2 > pk {
                        assert(order@[p2] == prev_order[p2]);
                        assert(order@[q2] == prev_order[q2 - 1]);
                        if q2 - 1 == p2 {
                        } else {
                            assert(seq_char_le(
                                agents@[prev_order[p2] as int]@.agent_id,
                                agents@[prev_order[q2 - 1] as int]@.agent_id,
                            ));
                        }
                    } else if p2 == pk {
                        assert(order@[p2] == m);
                        assert(order@[q2] == prev_order[q2 - 1]);
                        // the loop stopped because the new key is below row p
                        assert(pk < prev_order.len());
                        assert(seq_char_lt(nk, agents@[prev_order[pk] as int]@.agent_id));
                        if q2 - 1 == pk {
                        } else {
                            assert(seq_char_le(
                                agents@[prev_order[pk] as int]@.agent_id,
                                agents@[prev_order[q2 - 1] as int]@.agent_id,
                            ));
                            if seq_char_lt(
                                agents@[prev_order[pk] as int]@.agent_id,
                                agents@[prev_order[q2 - 1] as int]@.agent_id,
                            ) {
                                lemma_seq_char_lt_trans(
                                    nk,
                                    agents@[prev_order[pk] as int]@.agent_id,
                                    agents@[prev_order[q2 - 1] as int]@.agent_id,
                                );
                            }
                        }
                    } else {
                        assert(order@[p2] == prev_order[p2 - 1]);
                        assert(order@[q2] == prev_order[q2 - 1]);
                    }
                }
                assert forall|i: int| 0 <= i < m + 1 implies #[trigger] order@.contains(
                    i as usize,
                ) by {
                    if i == m {
                        assert(order@[p as int] == m);
                    } else {
                        assert(prev_order.contains(i as usize));
                        let k0 = choose|k0: int|
                            0 <= k0 < prev_order.len() && #[trigger] prev_order[k0] == i as usize;
                        if k0 < p {
                            assert(order@[k0] == i as usize);
                        } else {
                            assert(order@[k0 + 1] == i as usize);
                        }
                    }
                }
            }
            m = m + 1;
        }
        order
    }

    /// One row per agent ever seen, ascending by agent identifier, with
    /// selection and highlight flags by display position and each agent's
    /// most recent error. The panel's selection index refers to a position
    /// in this displayed order.
    pub fn rows(&self) -> (r: Vec<AgentRow>)
        requires
            self.state.wf(),
        ensures
            r@.len() == self.state.agents@.len(),
            forall|p: int, q: int|
                #![trigger r@[p], r@[q]]
                0 <= p < q < r@.len() ==> seq_char_le(r@[p]@.agent_id, r@[q]@.agent_id),
            forall|k: int|
                0 <= k < r@.len() ==> #[trigger] row_presents(
                    *self.state,
                    self.selected_agent.deep_view(),
                    self.focused,
                    self.selected_index as int,
                    k,
                    r@[k]@,
                ),
            forall|i: int|
                0 <= i < self.state.agents@.len() ==> #[trigger] agent_shown(
                    *self.state,
                    self.selected_agent.deep_view(),
                    self.focused,
                    self.selected_index as int,
                    row_views(r@),
                    i,
                ),
    {
        let order = Self::sorted_agent_order(&self.state.agents);
        let mut rows: Vec<AgentRow> = Vec::new();
        let mut k: usize = 0;
        while k < order.len()
            invariant
                k <= order@.len(),
                order@.len() == self.state.agents@.len(),
                forall|k2: int| 0 <= k2 < order@.len() ==> (#[trigger] order@[k2])
                    < self.state.agents@.len(),
                forall|p: int, q: int|
                    #![trigger order@[p], order@[q]]
                    0 <= p < q < order@.len() ==> seq_char_le(
                        self.state.agents@[order@[p] as int]@.agent_id,
                        self.state.agents@[order@[q] as int]@.agent_id,
                    ),
                forall|i: int|
                    0 <= i < self.state.agents@.len() ==> #[trigger] order@.contains(i as usize),
                rows@.len() == k,
                forall|p: int|
                    0 <= p < k ==> agent_row_ok(
                        *self.state,
                        self.selected_agent.deep_view(),
                        self.focused,
                        self.selected_index as int,
                        p,
                        order@[p] as int,
                        (#[trigger] rows@[p])@,
                    ),
            decreases order@.len() - k,
        {
            let i = order[k];
            let a = &self.state.agents[i];
            let selected = self.focused && k == self.selected_index;
            let highlighted = selected || match self.selected_agent {
                Some(name) => contains_sub(a.agent_id.as_str(), name),
                None => false,
            };
            let last_error = self.find_last_error(a.agent_id.as_str());
            let ghost prev = rows@;
            rows.push(
                AgentRow {
                    agent_id: a.agent_id.clone(),
                    status: a.status,
                    current_task: match &a.current_task {
                        Some(t) => Some(t.clone()),
                        None => None,
                    },
                    current_tool: match &a.current_tool {
                        Some(t) => Some(t.clone()),
                        None => None,
                    },
                    error_count: a.error_count,
                    event_count: a.event_count,
                    selected,
                    highlighted,
                    last_error,
                },
            );
            proof {
                assert forall|p: int|
                    0 <= p < rows@.len() implies agent_row_ok(
                    *self.state,
                    self.selected_agent.deep_view(),
                    self.focused,
                    self.selected_index as int,
                    p,
                    order@[p] as int,
                    (#[trigger] rows@[p])@,
                ) by {
                    if p < prev.len() {
                        assert(rows@[p] == prev[p]);
                    } else {
                        assert(rows@[p]@.agent_id == self.state.agents@[i as int]@.agent_id);
                    }
                }
            }
            k = k + 1;
        }
        proof {
            let ghost sa = self.selected_agent.deep_view();
            let ghost si = self.selected_index as int;
            assert forall|p: int, q: int|
                #![trigger rows@[p], rows@[q]]
                0 <= p < q < rows@.len() implies seq_char_le(
                rows@[p]@.agent_id,
                rows@[q]@.agent_id,
            ) by {
                assert(agent_row_ok(*self.state, sa, self.focused, si, p, order@[p] as int, rows@[p]@));
                assert(agent_row_ok(*self.state, sa, self.focused, si, q, order@[q] as int, rows@[q]@));
            }
            assert forall|k2: int|
                0 <= k2 < rows@.len() implies #[trigger] row_presents(
                *self.state,
                sa,
                self.focused,
                si,
                k2,
                rows@[k2]@,
            ) by {
                let w = order@[k2] as int;
                assert(0 <= w < self.state.agents@.len());
                assert(agent_row_ok(*self.state, sa, self.focused, si, k2, w, rows@[k2]@));
            }
            assert forall|i2: int|
                0 <= i2 < self.state.agents@.len() implies #[trigger] agent_shown(
                *self.state,
                sa,
                self.focused,
                si,
                row_views(rows@),
                i2,
            ) by {
                assert(order@.contains(i2 as usize));
                let k0 = choose|k0: int|
                    0 <= k0 < order@.len() && #[trigger] order@[k0] == i2 as usize;
                assert(agent_row_ok(*self.state, sa, self.focused, si, k0, i2, rows@[k0]@));
                assert(row_views(rows@)[k0] == rows@[k0]@);
            }
        }
        rows
    }
}

} // verus!
