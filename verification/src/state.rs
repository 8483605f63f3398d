//! The dashboard snapshot: per-agent lifecycle aggregation, the bounded
//! recent-error history, and the composition of parsed phases with streamed
//! events.
//!
//! The snapshot is rebuilt deterministically from its two sources. Folding
//! events is strictly sequential: each event updates the state of the agent
//! it names (creating an Idle entry on first sight), and an Error event also
//! classifies its message and appends to the bounded history, evicting the
//! oldest record once the capacity is reached.

use vstd::prelude::*;

verus! {

use crate::hook_parser::{EventType, HookEvent, HookEventV};
use crate::rules::{analysis_of, analyze_error, lower_of, ErrorCategory};
use crate::tasks_parser::{
    count_status, lemma_count_status_le, parse_doc, percent_exec, percent_of, phase_views,
    task_count, DocumentFormatError, Phase, TaskStatus,
};
use crate::text::{split_lines, str_eq};

/// Lifecycle state of one agent.
#[derive(Debug, Clone, Copy, PartialEq, Eq, Structural)]
pub enum AgentStatus {
    Idle,
    Running,
    Error,
}

/// Everything known about one agent ever seen in the event stream.
#[derive(Debug, Clone)]
pub struct AgentState {
    pub agent_id: String,
    pub status: AgentStatus,
    pub current_task: Option<String>,
    pub current_tool: Option<String>,
    pub error_count: u64,
    pub event_count: u64,
}

/// Mathematical model of an [`AgentState`].
pub ghost struct AgentStateV {
    pub agent_id: Seq<char>,
    pub status: AgentStatus,
    pub current_task: Option<Seq<char>>,
    pub current_tool: Option<Seq<char>>,
    pub error_count: int,
    pub event_count: int,
}

impl View for AgentState {
    type V = AgentStateV;

    open spec fn view(&self) -> AgentStateV {
        AgentStateV {
            agent_id: self.agent_id@,
            status: self.status,
            current_task: self.current_task.deep_view(),
            current_tool: self.current_tool.deep_view(),
            error_count: self.error_count as int,
            event_count: self.event_count as int,
        }
    }
}

/// One classified error from the stream.
#[derive(Debug, Clone)]
pub struct ErrorRecord {
    pub agent_id: String,
    pub timestamp: i64,
    pub message: String,
    pub category: ErrorCategory,
    pub retryable: bool,
    pub suggestion: String,
}

/// Mathematical model of an [`ErrorRecord`].
pub ghost struct ErrorRecordV {
    pub agent_id: Seq<char>,
    pub timestamp: i64,
    pub message: Seq<char>,
    pub category: ErrorCategory,
    pub retryable: bool,
    pub suggestion: Seq<char>,
}

impl View for ErrorRecord {
    type V = ErrorRecordV;

    open spec fn view(&self) -> ErrorRecordV {
        ErrorRecordV {
            agent_id: self.agent_id@,
            timestamp: self.timestamp,
            message: self.message@,
            category: self.category,
            retryable: self.retryable,
            suggestion: self.suggestion@,
        }
    }
}

/// Capacity of the recent-error history.
pub const MAX_RECENT_ERRORS: usize = 50;

/// The views of a sequence of agent states.
pub open spec fn agent_views(s: Seq<AgentState>) -> Seq<AgentStateV> {
    Seq::new(s.len(), |i: int| s[i]@)
}

/// The views of a sequence of error records.
pub open spec fn error_views(s: Seq<ErrorRecord>) -> Seq<ErrorRecordV> {
    Seq::new(s.len(), |i: int| s[i]@)
}

/// The views of a sequence of events.
pub open spec fn event_views(s: Seq<HookEvent>) -> Seq<HookEventV> {
    Seq::new(s.len(), |i: int| s[i]@)
}

/// Saturating increment: counters stick at the ceiling instead of wrapping.
pub open spec fn inc_sat(x: int, max: int) -> int {
    if x < max {
        x + 1
    } else {
        x
    }
}

/// Index of the first agent with identifier `id`, or -1.
pub open spec fn find_agent(agents: Seq<AgentStateV>, id: Seq<char>) -> int
    decreases agents.len(),
{
    if agents.len() == 0 {
        -1
    } else if agents[0].agent_id == id {
        0
    } else {
        let r = find_agent(agents.drop_first(), id);
        if r == -1 {
            -1
        } else {
            r + 1
        }
    }
}

pub proof fn lemma_find_agent_props(agents: Seq<AgentStateV>, id: Seq<char>)
    ensures
        -1 <= find_agent(agents, id) < agents.len(),
        find_agent(agents, id) == -1 ==> forall|j: int|
            0 <= j < agents.len() ==> (#[trigger] agents[j]).agent_id != id,
        find_agent(agents, id) >= 0 ==> agents[find_agent(agents, id)].agent_id == id,
    decreases agents.len(),
{
    if agents.len() > 0 && agents[0].agent_id != id {
        lemma_find_agent_props(agents.drop_first(), id);
        if find_agent(agents, id) == -1 {
            assert forall|j: int|
                0 <= j < agents.len() implies (#[trigger] agents[j]).agent_id != id by {
                if j > 0 {
                    assert(agents.drop_first()[j - 1].agent_id != id);
                }
            }
        }
    }
}

pub proof fn lemma_find_agent_eq(agents: Seq<AgentStateV>, id: Seq<char>, k: int)
    requires
        0 <= k <= agents.len(),
        forall|j: int| 0 <= j < k ==> (#[trigger] agents[j]).agent_id != id,
        k < agents.len() ==> agents[k].agent_id == id,
    ensures
        find_agent(agents, id) == if k == agents.len() {
            -1int
        } else {
            k
        },
    decreases agents.len(),
{
    if agents.len() > 0 && agents[0].agent_id != id {
        assert(k != 0);
        lemma_find_agent_eq(agents.drop_first(), id, k - 1);
    }
}

/// No two entries carry the same agent identifier.
pub open spec fn agents_unique(agents: Seq<AgentStateV>) -> bool {
    forall|i: int, j: int|
        0 <= i < j < agents.len() ==> (#[trigger] agents[i]).agent_id != (
        #[trigger] agents[j]).agent_id
}

/// A fresh agent entry, Idle, with nothing tracked yet.
pub open spec fn fresh_agent(id: Seq<char>) -> AgentStateV {
    AgentStateV {
        agent_id: id,
        status: AgentStatus::Idle,
        current_task: None,
        current_tool: None,
        error_count: 0,
        event_count: 0,
    }
}

/// The transition one event makes on the state of its agent.
pub open spec fn step_agent(a: AgentStateV, ev: HookEventV) -> AgentStateV {
    match ev.event_type {
        EventType::AgentStart => AgentStateV {
            agent_id: a.agent_id,
            status: AgentStatus::Running,
            current_task: None,
            current_tool: None,
            error_count: a.error_count,
            event_count: inc_sat(a.event_count, u64::MAX as int),
        },
        EventType::ToolStart => AgentStateV {
            agent_id: a.agent_id,
            status: AgentStatus::Running,
            current_task: Some(ev.task_id),
            current_tool: ev.tool_name,
            error_count: a.error_count,
            event_count: inc_sat(a.event_count, u64::MAX as int),
        },
        EventType::ToolEnd => AgentStateV {
            agent_id: a.agent_id,
            status: a.status,
            // the task is left set: it is the last task this agent touched
            current_task: a.current_task,
            current_tool: None,
            error_count: a.error_count,
            event_count: inc_sat(a.event_count, u64::MAX as int),
        },
        EventType::AgentEnd => AgentStateV {
            agent_id: a.agent_id,
            status: AgentStatus::Idle,
            current_task: None,
            current_tool: None,
            error_count: a.error_count,
            event_count: inc_sat(a.event_count, u64::MAX as int),
        },
        EventType::Error => AgentStateV {
            agent_id: a.agent_id,
            status: AgentStatus::Error,
            current_task: a.current_task,
            current_tool: a.current_tool,
            error_count: inc_sat(a.error_count, u64::MAX as int),
            event_count: inc_sat(a.event_count, u64::MAX as int),
        },
    }
}

/// The classified record an Error event appends; an absent message classifies
/// as the empty string does.
pub open spec fn error_record_of(ev: HookEventV) -> ErrorRecordV {
    let msg = match ev.error_message {
        Some(m) => m,
        None => Seq::empty(),
    };
    let an = analysis_of(lower_of(msg));
    ErrorRecordV {
        agent_id: ev.agent_id,
        timestamp: ev.timestamp,
        message: msg,
        category: an.category,
        retryable: an.retryable,
        suggestion: an.suggestion,
    }
}

/// Append to the bounded history, evicting the oldest record over `cap`.
pub open spec fn push_bounded(
    errs: Seq<ErrorRecordV>,
    r: ErrorRecordV,
    cap: int,
) -> Seq<ErrorRecordV> {
    let e2 = errs.push(r);
    if e2.len() > cap {
        e2.drop_first()
    } else {
        e2
    }
}

/// One event folded into the agent map and the error history.
pub open spec fn apply_event(
    agents: Seq<AgentStateV>,
    errs: Seq<ErrorRecordV>,
    ev: HookEventV,
    cap: int,
) -> (Seq<AgentStateV>, Seq<ErrorRecordV>) {
    let agents1 = if find_agent(agents, ev.agent_id) == -1 {
        agents.push(fresh_agent(ev.agent_id))
    } else {
        agents
    };
    let i = find_agent(agents1, ev.agent_id);
    let agents2 = agents1.update(i, step_agent(agents1[i], ev));
    let errs2 = if ev.event_type == EventType::Error {
        push_bounded(errs, error_record_of(ev), cap)
    } else {
        errs
    };
    (agents2, errs2)
}

/// A sequence of events folded in arrival order.
pub open spec fn apply_events(
    agents: Seq<AgentStateV>,
    errs: Seq<ErrorRecordV>,
    evs: Seq<HookEventV>,
    cap: int,
) -> (Seq<AgentStateV>, Seq<ErrorRecordV>)
    decreases evs.len(),
{
    if evs.len() == 0 {
        (agents, errs)
    } else {
        let p = apply_events(agents, errs, evs.drop_last(), cap);
        apply_event(p.0, p.1, evs.last(), cap)
    }
}

/// Saturating increment on machine counters.
fn sat_inc(x: u64) -> (r: u64)
    ensures
        r as int == inc_sat(x as int, u64::MAX as int),
{
    if x < u64::MAX {
        x + 1
    } else {
        x
    }
}

/// An owned copy of an optional string, equal in the view.
fn clone_opt(o: &Option<String>) -> (r: Option<String>)
    ensures
        r.deep_view() == o.deep_view(),
{
    match o {
        Some(s) => Some(s.clone()),
        None => None,
    }
}

/// Index of the first agent entry carrying `id`, mirroring [`find_agent`].
fn find_agent_index(agents: &Vec<AgentState>, id: &str) -> (r: Option<usize>)
    ensures
        match r {
            Some(i) => i < agents@.len() && find_agent(agent_views(agents@), id@) == i as int,
            None => find_agent(agent_views(agents@), id@) == -1,
        },
{
    let n = agents.len();
    let mut i: usize = 0;
    while i < n
        invariant
            i <= n,
            n == agents@.len(),
            forall|j: int| 0 <= j < i ==> (#[trigger] agents@[j])@.agent_id != id@,
        decreases n - i,
    {
        if str_eq(agents[i].agent_id.as_str(), id) {
            proof {
                assert forall|j: int|
                    0 <= j < i implies (#[trigger] agent_views(agents@)[j]).agent_id != id@ by {
                    assert(agents@[j]@.agent_id != id@);
                }
                lemma_find_agent_eq(agent_views(agents@), id@, i as int);
            }
            return Some(i);
        }
        i = i + 1;
    }
    proof {
        assert forall|j: int|
            0 <= j < n implies (#[trigger] agent_views(agents@)[j]).agent_id != id@ by {
            assert(agents@[j]@.agent_id != id@);
        }
        lemma_find_agent_eq(agent_views(agents@), id@, n as int);
    }
    None
}

/// The canonical snapshot: phases with derived counters, the agent map, and
/// the bounded recent-error history. Rebuilt from its sources, mutated by a
/// single owner.
#[derive(Debug)]
pub struct DashboardState {
    pub phases: Vec<Phase>,
    pub agents: Vec<AgentState>,
    pub recent_errors: Vec<ErrorRecord>,
    pub total_tasks: usize,
    pub completed_tasks: usize,
    pub failed_tasks: usize,
}

impl DashboardState {
    /// The counters agree with the phases and the error history is within
    /// its bound.
    pub open spec fn wf(&self) -> bool {
        &&& self.total_tasks as int == task_count(phase_views(self.phases@))
        &&& self.completed_tasks as int == count_status(
            phase_views(self.phases@),
            TaskStatus::Completed,
        )
        &&& self.failed_tasks as int == count_status(phase_views(self.phases@), TaskStatus::Failed)
        &&& self.recent_errors@.len() <= MAX_RECENT_ERRORS
        &&& agents_unique(agent_views(self.agents@))
    }

    /// An empty snapshot: no phases, no agents, no errors.
    pub fn new() -> (r: DashboardState)
        ensures
            r.wf(),
            r.phases@.len() == 0,
            r.agents@.len() == 0,
            r.recent_errors@.len() == 0,
            r.total_tasks == 0,
            r.completed_tasks == 0,
            r.failed_tasks == 0,
    {
        let r = DashboardState {
            phases: Vec::new(),
            agents: Vec::new(),
            recent_errors: Vec::new(),
            total_tasks: 0,
            completed_tasks: 0,
            failed_tasks: 0,
        };
        proof {
            assert(phase_views(r.phases@) =~= Seq::<crate::tasks_parser::PhaseV>::empty());
            assert(agent_views(r.agents@) =~= Seq::<AgentStateV>::empty());
        }
        r
    }

    /// Build a snapshot from the raw text of a task document; fails exactly
    /// when the text holds no recognizable phase structure.
    pub fn from_tasks_content(text: &str) -> (r: Result<DashboardState, DocumentFormatError>)
        ensures
            ({
                let doc = parse_doc(split_lines(text@));
                match r {
                    Ok(s) => doc.len() > 0 && s.wf() && phase_views(s.phases@) == doc
                        && s.agents@.len() == 0 && s.recent_errors@.len() == 0,
                    Err(_) => doc.len() == 0,
                }
            }),
    {
        match crate::tasks_parser::parse_task_document(text) {
            Ok(d) => Ok(
                DashboardState {
                    phases: d.phases,
                    agents: Vec::new(),
                    recent_errors: Vec::new(),
                    total_tasks: d.total_tasks,
                    completed_tasks: d.completed_tasks,
                    failed_tasks: d.failed_tasks,
                },
            ),
            Err(e) => Err(e),
        }
    }

    /// Overall progress in percent: completed over total tasks, zero when
    /// there are none.
    pub fn overall_progress_percent(&self) -> (r: u8)
        requires
            self.wf(),
        ensures
            r as int == percent_of(self.completed_tasks as int, self.total_tasks as int),
    {
        proof {
            lemma_count_status_le(phase_views(self.phases@), TaskStatus::Completed);
        }
        percent_exec(self.completed_tasks, self.total_tasks)
    }

    /// Replace phases and counters from a fresh parse of the document text;
    /// on a parse failure the previous phases are kept, stale but valid.
    /// Agents and recent errors are never touched.
    pub fn rebuild_from_tasks(&mut self, text: &str)
        requires
            old(self).wf(),
        ensures
            final(self).wf(),
            final(self).agents == old(self).agents,
            final(self).recent_errors == old(self).recent_errors,
            ({
                let doc = parse_doc(split_lines(text@));
                if doc.len() > 0 {
                    phase_views(final(self).phases@) == doc
                } else {
                    final(self).phases == old(self).phases && final(self).total_tasks == old(
                        self,
                    ).total_tasks && final(self).completed_tasks == old(self).completed_tasks
                        && final(self).failed_tasks == old(self).failed_tasks
                }
            }),
    {
        match crate::tasks_parser::parse_task_document(text) {
            Ok(d) => {
                self.phases = d.phases;
                self.total_tasks = d.total_tasks;
                self.completed_tasks = d.completed_tasks;
                self.failed_tasks = d.failed_tasks;
            },
            Err(_) => {},
        }
    }

    /// Fold a sequence of events, in arrival order, into the agent map and
    /// the recent-error history. Phases and counters are not touched.
    pub fn update_from_events(&mut self, events: &[HookEvent])
        requires
            old(self).wf(),
        ensures
            final(self).wf(),
            final(self).phases == old(self).phases,
            final(self).total_tasks == old(self).total_tasks,
            final(self).completed_tasks == old(self).completed_tasks,
            final(self).failed_tasks == old(self).failed_tasks,
            ({
                let p = apply_events(
                    agent_views(old(self).agents@),
                    error_views(old(self).recent_errors@),
                    event_views(events@),
                    MAX_RECENT_ERRORS as int,
                );
                agent_views(final(self).agents@) == p.0 && error_views(final(self).recent_errors@)
                    == p.1
            }),
    {
        let ghost agents0 = agent_views(self.agents@);
        let ghost errs0 = error_views(self.recent_errors@);
        let ghost evs = event_views(events@);
        let n = events.len();
        let mut k: usize = 0;
        proof {
            assert(evs.subrange(0, 0) =~= Seq::<HookEventV>::empty());
        }
        while k < n
            invariant
                k <= n,
                n == events@.len(),
                evs == event_views(events@),
                self.phases == old(self).phases,
                self.total_tasks == old(self).total_tasks,
                self.completed_tasks == old(self).completed_tasks,
                self.failed_tasks == old(self).failed_tasks,
                self.recent_errors@.len() <= MAX_RECENT_ERRORS,
                agents_unique(agent_views(self.agents@)),
                ({
                    let p = apply_events(agents0, errs0, evs.subrange(0, k as int), MAX_RECENT_ERRORS as int);
                    agent_views(self.agents@) == p.0 && error_views(self.recent_errors@) == p.1
                }),
            decreases n - k,
        {
            let ghost pre = apply_events(agents0, errs0, evs.subrange(0, k as int), MAX_RECENT_ERRORS as int);
            proof {
                let sub1 = evs.subrange(0, k + 1 as int);
                assert(sub1.drop_last() =~= evs.subrange(0, k as int));
                assert(sub1.last() == evs[k as int]);
                assert(evs[k as int] == events@[k as int]@);
            }
            let ev = &events[k];
            let ghost evv = ev@;
            let i: usize = match find_agent_index(&self.agents, ev.agent_id.as_str()) {
                Some(i) => i,
                None => {
                    let ghost before = self.agents@;
                    self.agents.push(
                        AgentState {
                            agent_id: ev.agent_id.clone(),
                            status: AgentStatus::Idle,
                            current_task: None,
                            current_tool: None,
                            error_count: 0,
                            event_count: 0,
                        },
                    );
                    proof {
                        assert(agent_views(self.agents@) =~= agent_views(before).push(
                            fresh_agent(evv.agent_id),
                        ));
                        lemma_find_agent_props(agent_views(before), evv.agent_id);
                        let av = agent_views(self.agents@);
                        assert forall|j: int|
                            0 <= j < av.len() - 1 implies (#[trigger] av[j]).agent_id
                            != evv.agent_id by {
                            assert(av[j] == agent_views(before)[j]);
                            assert(agent_views(before)[j].agent_id != evv.agent_id);
                        }
                        assert(av[av.len() - 1].agent_id == evv.agent_id);
                        lemma_find_agent_eq(av, evv.agent_id, av.len() - 1);
                        assert(agents_unique(av)) by {
                            assert forall|x: int, y: int|
                                0 <= x < y < av.len() implies (#[trigger] av[x]).agent_id != (
                            #[trigger] av[y]).agent_id by {
                                if y < av.len() - 1 {
                                    assert(agent_views(before)[x].agent_id != agent_views(
                                        before,
                                    )[y].agent_id);
                                } else {
                                    assert(agent_views(before)[x].agent_id != evv.agent_id);
                                }
                            }
                        }
                    }
                    self.agents.len() - 1
                },
            };
            let ghost agents1 = agent_views(self.agents@);
            proof {
                assert(find_agent(agents1, evv.agent_id) == i as int);
                assert(agents1[i as int] == self.agents@[i as int]@);
            }
            let kind = ev.event_type;
            let a = &mut self.agents[i];
            let updated: AgentState = match kind {
                EventType::AgentStart => AgentState {
                    agent_id: a.agent_id.clone(),
                    status: AgentStatus::Running,
                    current_task: None,
                    current_tool: None,
                    error_count: a.error_count,
                    event_count: sat_inc(a.event_count),
                },
                EventType::ToolStart => AgentState {
                    agent_id: a.agent_id.clone(),
                    status: AgentStatus::Running,
                    current_task: Some(ev.task_id.clone()),
                    current_tool: clone_opt(&ev.tool_name),
                    error_count: a.error_count,
                    event_count: sat_inc(a.event_count),
                },
                EventType::ToolEnd => AgentState {
                    agent_id: a.agent_id.clone(),
                    status: a.status,
                    current_task: clone_opt(&a.current_task),
                    current_tool: None,
                    error_count: a.error_count,
                    event_count: sat_inc(a.event_count),
                },
                EventType::AgentEnd => AgentState {
                    agent_id: a.agent_id.clone(),
                    status: AgentStatus::Idle,
                    current_task: None,
                    current_tool: None,
                    error_count: a.error_count,
                    event_count: sat_inc(a.event_count),
                },
                EventType::Error => AgentState {
                    agent_id: a.agent_id.clone(),
                    status: AgentStatus::Error,
                    current_task: clone_opt(&a.current_task),
                    current_tool: clone_opt(&a.current_tool),
                    error_count: sat_inc(a.error_count),
                    event_count: sat_inc(a.event_count),
                },
            };
            *a = updated;
            proof {
                assert(agent_views(self.agents@) =~= agents1.update(
                    i as int,
                    step_agent(agents1[i as int], evv),
                ));
                // the step keeps every identifier, so uniqueness carries over
                let av2 = agent_views(self.agents@);
                assert(agents_unique(av2)) by {
                    assert forall|x: int, y: int|
                        0 <= x < y < av2.len() implies (#[trigger] av2[x]).agent_id != (
                    #[trigger] av2[y]).agent_id by {
                        assert(av2[x].agent_id == agents1[x].agent_id);
                        assert(av2[y].agent_id == agents1[y].agent_id);
                        assert(agents1[x].agent_id != agents1[y].agent_id);
                    }
                }
            }
            if kind == EventType::Error {
                let msg: String = match &ev.error_message {
                    Some(m) => m.clone(),
                    None => String::new(),
                };
                let an = analyze_error(msg.as_str());
                let rec = ErrorRecord {
                    agent_id: ev.agent_id.clone(),
                    timestamp: ev.timestamp,
                    message: msg,
                    category: an.category,
                    retryable: an.retryable,
                    suggestion: an.suggestion,
                };
                proof {
                    assert(rec@ == error_record_of(evv));
                }
                let ghost errs_before = error_views(self.recent_errors@);
                if self.recent_errors.len() == MAX_RECENT_ERRORS {
                    self.recent_errors.remove(0);
                    self.recent_errors.push(rec);
                    proof {
                        assert(error_views(self.recent_errors@) =~= errs_before.push(
                            error_record_of(evv),
                        ).drop_first());
                        assert(error_views(self.recent_errors@) =~= push_bounded(
                            errs_before,
                            error_record_of(evv),
                            MAX_RECENT_ERRORS as int,
                        ));
                    }
                } else {
                    self.recent_errors.push(rec);
                    proof {
                        assert(error_views(self.recent_errors@) =~= push_bounded(
                            errs_before,
                            error_record_of(evv),
                            MAX_RECENT_ERRORS as int,
                        ));
                    }
                }
            }
            k = k + 1;
        }
        proof {
            assert(evs.subrange(0, k as int) =~= evs);
        }
    }
}

impl Default for DashboardState {
    /// Same as [`DashboardState::new`].
    fn default() -> (r: DashboardState)
        ensures
            r.wf(),
            r.phases@.len() == 0,
            r.agents@.len() == 0,
            r.recent_errors@.len() == 0,
            r.total_tasks == 0,
            r.completed_tasks == 0,
            r.failed_tasks == 0,
    {
        DashboardState::new()
    }
}

} // verus!
