//! The status line summary: task totals, overall progress, and agent
//! activity counts.

use vstd::prelude::*;

verus! {

use crate::state::{agent_views, AgentStateV, AgentStatus, DashboardState};
use crate::tasks_parser::{percent_exec, percent_of, phase_views, lemma_count_status_le, TaskStatus};

/// Number of agents in `agents` with status `st`.
pub open spec fn count_agents_with(agents: Seq<AgentStateV>, st: AgentStatus) -> int
    decreases agents.len(),
{
    if agents.len() == 0 {
        0int
    } else {
        count_agents_with(agents.drop_last(), st) + if agents.last().status == st {
            1int
        } else {
            0int
        }
    }
}

/// What the status line shows, as plain numbers.
#[derive(Debug, Clone, Copy, PartialEq, Eq, Structural)]
pub struct StatusSummary {
    pub completed_tasks: usize,
    pub total_tasks: usize,
    pub failed_tasks: usize,
    /// Overall progress in percent, zero when there are no tasks.
    pub percent: u8,
    pub running_agents: usize,
    pub error_agents: usize,
}

/// The status bar at the bottom of the screen.
pub struct StatusBar<'a> {
    pub state: &'a DashboardState,
}

impl<'a> StatusBar<'a> {
    pub fn new(state: &'a DashboardState) -> (r: Self)
        ensures
            r.state == state,
    {
        StatusBar { state }
    }

    /// Count this snapshot's agents with status `st`.
    fn count_agents(&self, st: AgentStatus) -> (r: usize)
        ensures
            r as int == count_agents_with(agent_views(self.state.agents@), st),
    {
        let ghost agents = agent_views(self.state.agents@);
        let n = self.state.agents.len();
        let mut c: usize = 0;
        let mut i: usize = 0;
        proof {
            assert(agents.subrange(0, 0) =~= Seq::<AgentStateV>::empty());
        }
        while i < n
            invariant
                i <= n,
                n == self.state.agents@.len(),
                agents == agent_views(self.state.agents@),
                c <= i,
                c as int == count_agents_with(agents.subrange(0, i as int), st),
            decreases n - i,
        {
            proof {
                let pre1 = agents.subrange(0, i + 1 as int);
                assert(pre1.drop_last() =~= agents.subrange(0, i as int));
                assert(pre1.last() == agents[i as int]);
                assert(agents[i as int] == self.state.agents@[i as int]@);
            }
            if self.state.agents[i].status == st {
                c = c + 1;
            }
            i = i + 1;
        }
        proof {
            assert(agents.subrange(0, i as int) =~= agents);
        }
        c
    }

    /// The numbers of the status line: counters, overall percentage, and how
    /// many agents are running or in error.
    pub fn summary(&self) -> (r: StatusSummary)
        requires
            self.state.wf(),
        ensures
            r.completed_tasks == self.state.completed_tasks,
            r.total_tasks == self.state.total_tasks,
            r.failed_tasks == self.state.failed_tasks,
            r.percent as int == percent_of(
                self.state.completed_tasks as int,
                self.state.total_tasks as int,
            ),
            r.running_agents as int == count_agents_with(
                agent_views(self.state.agents@),
                AgentStatus::Running,
            ),
            r.error_agents as int == count_agents_with(
                agent_views(self.state.agents@),
                AgentStatus::Error,
            ),
    {
        proof {
            lemma_count_status_le(phase_views(self.state.phases@), TaskStatus::Completed);
        }
        let percent = percent_exec(self.state.completed_tasks, self.state.total_tasks);
        StatusSummary {
            completed_tasks: self.state.completed_tasks,
            total_tasks: self.state.total_tasks,
            failed_tasks: self.state.failed_tasks,
            percent,
            running_agents: self.count_agents(AgentStatus::Running),
            error_agents: self.count_agents(AgentStatus::Error),
        }
    }
}

} // verus!
