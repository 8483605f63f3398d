//! Hierarchical task document parser.
//!
//! The document is plain text. A line whose trimmed form starts with `"## "`
//! introduces a new phase; the text after the marker is split at the first
//! `':'` into the phase identifier and its display name (with no colon, the
//! whole text is the identifier and the name is empty). A line whose trimmed
//! form starts with `"- ["` and carries one of the five status tokens —
//! `x`, a space, `InProgress`, `Failed`, `Blocked`, recognized case
//! sensitively between the brackets — adds a task to the most recently
//! introduced phase; the remainder is split the same way into identifier and
//! name, after an optional trailing `" @agent"` marker is removed. Every
//! other line is inert, so free-form commentary is tolerated. Progress and
//! totals are derived from the tasks, never read from the document.

use vstd::prelude::*;

verus! {

use vstd::string::StrSliceExecFns;
use crate::text::{
    find_ch, find_char_in, has_prefix, is_prefix, lemma_find_ch_eq, line_spans, span_ok,
    split_lines, str_eq, trim_bounds, trim_spec,
};

/// The five lifecycle states a task can be in.
#[derive(Debug, Clone, Copy, PartialEq, Eq, Structural)]
pub enum TaskStatus {
    Pending,
    InProgress,
    Completed,
    Failed,
    Blocked,
}

/// A unit of work with a status and an optional assigned agent.
#[derive(Debug, Clone)]
pub struct Task {
    pub id: String,
    pub name: String,
    pub status: TaskStatus,
    pub agent: Option<String>,
}

/// Mathematical model of a [`Task`].
pub ghost struct TaskV {
    pub id: Seq<char>,
    pub name: Seq<char>,
    pub status: TaskStatus,
    pub agent: Option<Seq<char>>,
}

impl View for Task {
    type V = TaskV;

    open spec fn view(&self) -> TaskV {
        TaskV {
            id: self.id@,
            name: self.name@,
            status: self.status,
            agent: self.agent.deep_view(),
        }
    }
}

impl DeepView for Task {
    type V = TaskV;

    open spec fn deep_view(&self) -> TaskV {
        self.view()
    }
}

/// A named group of tasks, in document order.
#[derive(Debug, Clone)]
pub struct Phase {
    pub id: String,
    pub name: String,
    pub tasks: Vec<Task>,
}

/// Mathematical model of a [`Phase`].
pub ghost struct PhaseV {
    pub id: Seq<char>,
    pub name: Seq<char>,
    pub tasks: Seq<TaskV>,
}

impl View for Phase {
    type V = PhaseV;

    open spec fn view(&self) -> PhaseV {
        PhaseV { id: self.id@, name: self.name@, tasks: self.tasks.deep_view() }
    }
}

/// The views of a sequence of phases.
pub open spec fn phase_views(s: Seq<Phase>) -> Seq<PhaseV> {
    Seq::new(s.len(), |i: int| s[i]@)
}

/// The document held no recognizable phase structure.
#[derive(Debug, Clone, Copy, PartialEq, Eq, Structural)]
pub struct DocumentFormatError;

/// Splits `part` at its first `':'` into a trimmed identifier and a trimmed
/// name; with no colon, `part` itself is the identifier and the name is empty.
pub open spec fn split_id_name(part: Seq<char>) -> (Seq<char>, Seq<char>) {
    let c = find_ch(part, ':');
    if c < part.len() {
        (trim_spec(part.subrange(0, c)), trim_spec(part.subrange(c + 1, part.len() as int)))
    } else {
        (part, Seq::empty())
    }
}

/// The status named by the token between the brackets of a task line.
pub open spec fn status_token_kind(tok: Seq<char>) -> Option<TaskStatus> {
    if tok == "x"@ {
        Some(TaskStatus::Completed)
    } else if tok == " "@ {
        Some(TaskStatus::Pending)
    } else if tok == "InProgress"@ {
        Some(TaskStatus::InProgress)
    } else if tok == "Failed"@ {
        Some(TaskStatus::Failed)
    } else if tok == "Blocked"@ {
        Some(TaskStatus::Blocked)
    } else {
        None
    }
}

/// Position of the agent marker in a trimmed task remainder: the last `'@'`
/// that directly follows a space, or -1 if there is none.
pub open spec fn marker_pos(s: Seq<char>) -> int
    decreases s.len(),
{
    if s.len() < 2 {
        -1
    } else if s[s.len() - 1] == '@' && s[s.len() - 2] == ' ' {
        s.len() - 1
    } else {
        marker_pos(s.drop_last())
    }
}

pub proof fn lemma_marker_pos_at(s: Seq<char>, a: int)
    requires
        1 <= a < s.len(),
        s[a] == '@',
        s[a - 1] == ' ',
        forall|j: int| a < j < s.len() ==> !(#[trigger] s[j] == '@' && s[j - 1] == ' '),
    ensures
        marker_pos(s) == a,
    decreases s.len(),
{
    if a == s.len() - 1 {
    } else {
        assert(!(s[s.len() - 1] == '@' && s[s.len() - 2] == ' '));
        lemma_marker_pos_at(s.drop_last(), a);
    }
}

pub proof fn lemma_marker_pos_none(s: Seq<char>)
    requires
        forall|j: int| 1 <= j < s.len() ==> !(#[trigger] s[j] == '@' && s[j - 1] == ' '),
    ensures
        marker_pos(s) == -1,
    decreases s.len(),
{
    if s.len() >= 2 {
        lemma_marker_pos_none(s.drop_last());
    }
}

/// The task denoted by a trimmed line `t` that starts with `"- ["`, if its
/// status token closes and is recognized.
pub open spec fn task_of(t: Seq<char>) -> Option<TaskV> {
    let body = t.subrange(3, t.len() as int);
    let k = find_ch(body, ']');
    if k == body.len() {
        None
    } else {
        match status_token_kind(body.subrange(0, k)) {
            None => None,
            Some(st) => {
                let rest = trim_spec(body.subrange(k + 1, body.len() as int));
                let a = marker_pos(rest);
                let part = if a >= 0 {
                    trim_spec(rest.subrange(0, a))
                } else {
                    rest
                };
                let ag = if a >= 0 {
                    let g = trim_spec(rest.subrange(a + 1, rest.len() as int));
                    if g.len() > 0 {
                        Some(g)
                    } else {
                        None
                    }
                } else {
                    None
                };
                let idn = split_id_name(part);
                Some(TaskV { id: idn.0, name: idn.1, status: st, agent: ag })
            },
        }
    }
}

/// The phase introduced by a trimmed line `t` that starts with `"## "`.
pub open spec fn phase_of(t: Seq<char>) -> PhaseV {
    let content = trim_spec(t.subrange(3, t.len() as int));
    let idn = split_id_name(content);
    PhaseV { id: idn.0, name: idn.1, tasks: Seq::empty() }
}

/// What one raw line of the document contributes.
pub ghost enum LineKind {
    Heading(PhaseV),
    Entry(TaskV),
    Plain,
}

/// Classification of one raw line: its trimmed form decides.
pub open spec fn classify_line(l: Seq<char>) -> LineKind {
    let t = trim_spec(l);
    if is_prefix(t, "## "@) {
        LineKind::Heading(phase_of(t))
    } else if is_prefix(t, "- ["@) {
        match task_of(t) {
            Some(tv) => LineKind::Entry(tv),
            None => LineKind::Plain,
        }
    } else {
        LineKind::Plain
    }
}

/// Folds the lines of the document into phases: a heading appends a fresh
/// phase, a task entry joins the most recent phase (and is dropped if no
/// phase was introduced yet), anything else is inert.
pub open spec fn parse_doc(lines: Seq<Seq<char>>) -> Seq<PhaseV>
    decreases lines.len(),
{
    if lines.len() == 0 {
        Seq::empty()
    } else {
        let prev = parse_doc(lines.drop_last());
        match classify_line(lines.last()) {
            LineKind::Heading(ph) => prev.push(ph),
            LineKind::Entry(tv) => if prev.len() == 0 {
                prev
            } else {
                let last = prev.last();
                prev.update(
                    prev.len() - 1,
                    PhaseV { id: last.id, name: last.name, tasks: last.tasks.push(tv) },
                )
            },
            LineKind::Plain => prev,
        }
    }
}

/// Total number of tasks across `phases`.
pub open spec fn task_count(phases: Seq<PhaseV>) -> int
    decreases phases.len(),
{
    if phases.len() == 0 {
        0int
    } else {
        task_count(phases.drop_last()) + phases.last().tasks.len()
    }
}

/// Number of tasks in `tasks` with status `st`.
pub open spec fn count_status_in(tasks: Seq<TaskV>, st: TaskStatus) -> int
    decreases tasks.len(),
{
    if tasks.len() == 0 {
        0int
    } else {
        count_status_in(tasks.drop_last(), st) + if tasks.last().status == st {
            1int
        } else {
            0int
        }
    }
}

/// Number of tasks across `phases` with status `st`.
pub open spec fn count_status(phases: Seq<PhaseV>, st: TaskStatus) -> int
    decreases phases.len(),
{
    if phases.len() == 0 {
        0int
    } else {
        count_status(phases.drop_last(), st) + count_status_in(phases.last().tasks, st)
    }
}

pub proof fn lemma_count_status_in_le(tasks: Seq<TaskV>, st: TaskStatus)
    ensures
        0 <= count_status_in(tasks, st) <= tasks.len(),
    decreases tasks.len(),
{
    if tasks.len() > 0 {
        lemma_count_status_in_le(tasks.drop_last(), st);
    }
}

pub proof fn lemma_count_status_le(phases: Seq<PhaseV>, st: TaskStatus)
    ensures
        0 <= count_status(phases, st) <= task_count(phases),
    decreases phases.len(),
{
    if phases.len() > 0 {
        lemma_count_status_le(phases.drop_last(), st);
        lemma_count_status_in_le(phases.last().tasks, st);
    }
}

/// Integer percentage `c` of `t`, zero when `t` is zero.
pub open spec fn percent_of(c: int, t: int) -> int {
    if t == 0 {
        0int
    } else {
        c * 100 / t
    }
}

/// Computes `percent_of` on machine integers.
pub fn percent_exec(c: usize, t: usize) -> (r: u8)
    requires
        c <= t,
    ensures
        r as int == percent_of(c as int, t as int),
{
    if t == 0 {
        0
    } else {
        let w: u128 = (c as u128) * 100 / (t as u128);
        proof {
            vstd::arithmetic::mul::lemma_mul_inequality(c as int, t as int, 100);
            vstd::arithmetic::div_mod::lemma_div_is_ordered(
                c as int * 100,
                t as int * 100,
                t as int,
            );
            vstd::arithmetic::div_mod::lemma_div_multiples_vanish(100, t as int);
            assert(w as int == percent_of(c as int, t as int));
            assert(w <= 100);
        }
        w as u8
    }
}

impl Phase {
    /// Number of tasks of this phase with status `st`.
    pub fn count_with_status(&self, st: TaskStatus) -> (r: usize)
        ensures
            r as int == count_status_in(self@.tasks, st),
            r <= self.tasks@.len(),
    {
        let mut n: usize = 0;
        let mut i: usize = 0;
        proof {
            assert(self@.tasks.subrange(0, 0) =~= Seq::<TaskV>::empty());
        }
        while i < self.tasks.len()
            invariant
                i <= self.tasks@.len(),
                self@.tasks.len() == self.tasks@.len(),
                n as int == count_status_in(self@.tasks.subrange(0, i as int), st),
                n <= i,
            decreases self.tasks@.len() - i,
        {
            proof {
                let pre = self@.tasks.subrange(0, i as int);
                let pre1 = self@.tasks.subrange(0, i + 1 as int);
                assert(pre1.drop_last() =~= pre);
                assert(pre1.last() == self@.tasks[i as int]);
                assert(self@.tasks[i as int] == self.tasks@[i as int]@);
            }
            if self.tasks[i].status == st {
                n = n + 1;
            }
            i = i + 1;
        }
        proof {
            assert(self@.tasks.subrange(0, i as int) =~= self@.tasks);
        }
        n
    }

    /// Progress of the phase in percent: completed tasks over all tasks,
    /// zero for an empty phase.
    pub fn progress_percent(&self) -> (r: u8)
        ensures
            r as int == percent_of(
                count_status_in(self@.tasks, TaskStatus::Completed),
                self@.tasks.len() as int,
            ),
    {
        let c = self.count_with_status(TaskStatus::Completed);
        percent_exec(c, self.tasks.len())
    }
}

/// A parsed task document: the phases plus the derived aggregate counters.
#[derive(Debug)]
pub struct TaskDocument {
    pub phases: Vec<Phase>,
    pub total_tasks: usize,
    pub completed_tasks: usize,
    pub failed_tasks: usize,
}

/// Splits `s[from..to]` at its first `':'` as [`split_id_name`] does.
fn split_id_name_exec(s: &str, from: usize, to: usize) -> (r: (String, String))
    requires
        from <= to <= s@.len(),
    ensures
        ({
            let idn = split_id_name(s@.subrange(from as int, to as int));
            r.0@ == idn.0 && r.1@ == idn.1
        }),
{
    let ghost part = s@.subrange(from as int, to as int);
    match find_char_in(s, from, to, ':') {
        Some(ci) => {
            proof {
                assert forall|j: int| 0 <= j < ci - from implies part[j] != ':' by {
                    assert(part[j] == s@[from + j]);
                }
                assert(part[ci - from] == s@[ci as int]);
                lemma_find_ch_eq(part, ':', ci - from);
            }
            let (a0, a1) = trim_bounds(s, from, ci);
            let (b0, b1) = trim_bounds(s, ci + 1, to);
            proof {
                assert(part.subrange(0, ci - from) =~= s@.subrange(from as int, ci as int));
                assert(part.subrange(ci - from + 1, part.len() as int) =~= s@.subrange(
                    ci + 1,
                    to as int,
                ));
            }
            let id = s.substring_char(a0, a1).to_owned();
            let name = s.substring_char(b0, b1).to_owned();
            (id, name)
        },
        None => {
            proof {
                assert forall|j: int| 0 <= j < part.len() implies part[j] != ':' by {
                    assert(part[j] == s@[from + j]);
                }
                lemma_find_ch_eq(part, ':', part.len() as int);
            }
            let id = s.substring_char(from, to).to_owned();
            (id, String::new())
        },
    }
}

/// Parse the raw text of a task document into phases and derived counters.
///
/// Fails exactly when no phase heading is recognized anywhere in the text.
#[verifier::rlimit(100)]
#[verifier::spinoff_prover]
pub fn parse_task_document(text: &str) -> (r: Result<TaskDocument, DocumentFormatError>)
    ensures
        ({
            let doc = parse_doc(split_lines(text@));
            match r {
                Ok(d) => doc.len() > 0 && phase_views(d.phases@) == doc && d.total_tasks as int
                    == task_count(doc) && d.completed_tasks as int == count_status(
                    doc,
                    TaskStatus::Completed,
                ) && d.failed_tasks as int == count_status(doc, TaskStatus::Failed),
                Err(_) => doc.len() == 0,
            }
        }),
{
    let ghost lines = split_lines(text@);
    let spans = line_spans(text);
    let mut phases: Vec<Phase> = Vec::new();
    let mut total: usize = 0;
    let mut completed: usize = 0;
    let mut failed: usize = 0;
    let mut k: usize = 0;
    proof {
        assert(lines.subrange(0, 0) =~= Seq::<Seq<char>>::empty());
        assert(phase_views(phases@) =~= parse_doc(lines.subrange(0, 0)));
    }
    while k < spans.len()
        invariant
            k <= spans.len(),
            spans@.len() == lines.len(),
            lines == split_lines(text@),
            forall|i: int| 0 <= i < spans@.len() ==> #[trigger] span_ok(text@, lines, spans@[i], i),
            phase_views(phases@) == parse_doc(lines.subrange(0, k as int)),
            total as int == task_count(parse_doc(lines.subrange(0, k as int))),
            total <= k,
            completed as int == count_status(
                parse_doc(lines.subrange(0, k as int)),
                TaskStatus::Completed,
            ),
            completed <= total,
            failed as int == count_status(
                parse_doc(lines.subrange(0, k as int)),
                TaskStatus::Failed,
            ),
            failed <= total,
        decreases spans.len() - k,
    {
        let ghost done = lines.subrange(0, k as int);
        let ghost done1 = lines.subrange(0, k + 1 as int);
        let ghost prev = parse_doc(done);
        proof {
            assert(span_ok(text@, lines, spans@[k as int], k as int));
            assert(done1.drop_last() =~= done);
            assert(done1.last() == lines[k as int]);
        }
        let sp = spans[k];
        let (ts, te) = trim_bounds(text, sp.0, sp.1);
        let ghost line = lines[k as int];
        let ghost t = trim_spec(line);
        proof {
            assert(text@.subrange(sp.0 as int, sp.1 as int) == line);
            assert(text@.subrange(ts as int, te as int) == t);
        }
        let t_str = text.substring_char(ts, te);
        let tn = te - ts;
        proof {
            assert(t_str@ == t);
            assert(tn == t.len());
            reveal_strlit("## ");
            reveal_strlit("- [");
        }
        if has_prefix(t_str, "## ") {
            let (cs, ce) = trim_bounds(t_str, 3, tn);
            let (id, name) = split_id_name_exec(t_str, cs, ce);
            let ph = Phase { id, name, tasks: Vec::new() };
            proof {
                let phv = phase_of(t);
                assert(t.subrange(3, t.len() as int) == t_str@.subrange(3, tn as int));
                assert(ph@.tasks =~= Seq::<TaskV>::empty());
                assert(ph@ == phv);
                assert(classify_line(line) == LineKind::Heading(phv));
                assert(parse_doc(done1) == prev.push(phv));
            }
            let ghost prev_phases = phases@;
            phases.push(ph);
            proof {
                assert(phase_views(phases@) =~= phase_views(prev_phases).push(
                    phases@[phases@.len() - 1]@,
                ));
                assert(phase_views(phases@) =~= parse_doc(done1));
                assert(parse_doc(done1).drop_last() =~= prev);
                assert(parse_doc(done1).last() == phase_of(t));
                assert(phase_of(t).tasks.len() == 0);
                assert(task_count(parse_doc(done1)) == task_count(prev));
                assert(count_status(parse_doc(done1), TaskStatus::Completed) == count_status(
                    prev,
                    TaskStatus::Completed,
                ));
                assert(count_status(parse_doc(done1), TaskStatus::Failed) == count_status(
                    prev,
                    TaskStatus::Failed,
                ));
            }
        } else if has_prefix(t_str, "- [") {
            let ghost body = t.subrange(3, t.len() as int);
            match find_char_in(t_str, 3, tn, ']') {
                Some(bi) => {
                    proof {
                        assert forall|j: int| 0 <= j < bi - 3 implies body[j] != ']' by {
                            assert(body[j] == t[3 + j]);
                        }
                        assert(body[bi - 3] == t[bi as int]);
                        lemma_find_ch_eq(body, ']', bi - 3);
                    }
                    let token = t_str.substring_char(3, bi);
                    proof {
                        assert(token@ =~= body.subrange(0, bi - 3));
                    }
                    let status: Option<TaskStatus> = if str_eq(token, "x") {
                        Some(TaskStatus::Completed)
                    } else if str_eq(token, " ") {
                        Some(TaskStatus::Pending)
                    } else if str_eq(token, "InProgress") {
                        Some(TaskStatus::InProgress)
                    } else if str_eq(token, "Failed") {
                        Some(TaskStatus::Failed)
                    } else if str_eq(token, "Blocked") {
                        Some(TaskStatus::Blocked)
                    } else {
                        None
                    };
                    match status {
                        Some(st) => {
                            proof {
                                assert(status_token_kind(body.subrange(0, bi - 3)) == Some(st));
                            }
                            let (rs, re) = trim_bounds(t_str, bi + 1, tn);
                            let ghost rest = trim_spec(body.subrange(bi - 3 + 1, body.len() as int));
                            proof {
                                assert(body.subrange(bi - 3 + 1, body.len() as int) =~= t.subrange(
                                    bi + 1,
                                    tn as int,
                                ));
                                assert(t_str@.subrange(rs as int, re as int) == rest);
                            }
                            // search for the agent marker, rightmost first
                            let mut mi: usize = re;
                            let mut marker: usize = 0;
                            let mut have: bool = false;
                            while mi - rs > 1 && !have
                                invariant
                                    rs <= mi <= re,
                                    rs <= re <= t_str@.len(),
                                    re - rs == rest.len(),
                                    rest == t_str@.subrange(rs as int, re as int),
                                    !have ==> forall|j: int|
                                        mi <= j < re ==> !(#[trigger] t_str@[j] == '@'
                                            && t_str@[j - 1] == ' '),
                                    have ==> rs + 1 <= marker < re && t_str@[marker as int] == '@'
                                        && t_str@[marker - 1] == ' ' && forall|j: int|
                                        marker < j < re ==> !(#[trigger] t_str@[j] == '@'
                                            && t_str@[j - 1] == ' '),
                                decreases mi,
                            {
                                if t_str.get_char(mi - 1) == '@' && t_str.get_char(mi - 2) == ' ' {
                                    marker = mi - 1;
                                    have = true;
                                    mi = rs + 1;
                                } else {
                                    mi = mi - 1;
                                }
                            }
                            let ghost a = marker_pos(rest);
                            proof {
                                if have {
                                    assert forall|j: int|
                                        marker - rs < j < rest.len() implies !(#[trigger] rest[j]
                                        == '@' && rest[j - 1] == ' ') by {
                                        assert(rest[j] == t_str@[rs + j]);
                                        assert(rest[j - 1] == t_str@[rs + j - 1]);
                                    }
                                    assert(rest[marker - rs] == t_str@[marker as int]);
                                    assert(rest[marker - rs - 1] == t_str@[marker - 1]);
                                    lemma_marker_pos_at(rest, marker - rs);
                                    assert(a == marker - rs);
                                } else {
                                    assert forall|j: int|
                                        1 <= j < rest.len() implies !(#[trigger] rest[j] == '@'
                                        && rest[j - 1] == ' ') by {
                                        assert(rest[j] == t_str@[rs + j]);
                                        assert(rest[j - 1] == t_str@[rs + j - 1]);
                                    }
                                    lemma_marker_pos_none(rest);
                                    assert(a == -1);
                                }
                            }
                            let (ps, pe) = if have {
                                trim_bounds(t_str, rs, marker)
                            } else {
                                (rs, re)
                            };
                            let agent: Option<String> = if have {
                                let (gs, ge) = trim_bounds(t_str, marker + 1, re);
                                if ge > gs {
                                    Some(t_str.substring_char(gs, ge).to_owned())
                                } else {
                                    None
                                }
                            } else {
                                None
                            };
                            let (id, name) = split_id_name_exec(t_str, ps, pe);
                            let task = Task { id, name, status: st, agent };
                            let ghost tv = task_of(t)->Some_0;
                            proof {
                                if have {
                                    assert(rest.subrange(0, a) =~= t_str@.subrange(
                                        rs as int,
                                        marker as int,
                                    ));
                                    assert(rest.subrange(a + 1, rest.len() as int) =~= t_str@
                                        .subrange(marker + 1, re as int));
                                } else {
                                    assert(t_str@.subrange(ps as int, pe as int) == rest);
                                }
                                assert(task_of(t) is Some);
                                assert(task@ == tv);
                                assert(classify_line(line) == LineKind::Entry(tv));
                            }
                            if phases.len() == 0 {
                                proof {
                                    assert(prev.len() == 0);
                                    assert(parse_doc(done1) == prev);
                                }
                            } else {
                                let ghost prev_phases = phases@;
                                let mut ph = match phases.pop() {
                                    Some(p) => p,
                                    None => {
                                        proof {
                                            assert(false);
                                        }
                                        Phase {
                                            id: String::new(),
                                            name: String::new(),
                                            tasks: Vec::new(),
                                        }
                                    },
                                };
                                let ghost old_ph = ph@;
                                ph.tasks.push(task);
                                proof {
                                    assert(ph@.tasks =~= old_ph.tasks.push(tv));
                                }
                                phases.push(ph);
                                proof {
                                    let lastv = prev.last();
                                    assert(lastv == prev_phases[prev_phases.len() - 1]@);
                                    assert(old_ph == lastv);
                                    let upd = PhaseV {
                                        id: lastv.id,
                                        name: lastv.name,
                                        tasks: lastv.tasks.push(tv),
                                    };
                                    assert(parse_doc(done1) == prev.update(prev.len() - 1, upd));
                                    assert(phase_views(phases@) =~= parse_doc(done1));
                                    // counters: the update adds exactly one task
                                    assert(parse_doc(done1).drop_last() =~= prev.drop_last());
                                    assert(parse_doc(done1).last() == upd);
                                    assert(upd.tasks.drop_last() =~= lastv.tasks);
                                    assert(task_count(parse_doc(done1)) == task_count(prev) + 1);
                                    assert(count_status_in(upd.tasks, TaskStatus::Completed)
                                        == count_status_in(lastv.tasks, TaskStatus::Completed) + (
                                    if st == TaskStatus::Completed {
                                        1int
                                    } else {
                                        0int
                                    }));
                                    assert(count_status_in(upd.tasks, TaskStatus::Failed)
                                        == count_status_in(lastv.tasks, TaskStatus::Failed) + (
                                    if st == TaskStatus::Failed {
                                        1int
                                    } else {
                                        0int
                                    }));
                                }
                                total = total + 1;
                                if st == TaskStatus::Completed {
                                    completed = completed + 1;
                                }
                                if st == TaskStatus::Failed {
                                    failed = failed + 1;
                                }
                            }
                        },
                        None => {
                            proof {
                                assert(status_token_kind(body.subrange(0, bi - 3)) is None);
                                assert(task_of(t) is None);
                                assert(classify_line(line) == LineKind::Plain);
                                assert(parse_doc(done1) == prev);
                            }
                        },
                    }
                },
                None => {
                    proof {
                        assert forall|j: int| 0 <= j < body.len() implies body[j] != ']' by {
                            assert(body[j] == t[3 + j]);
                        }
                        lemma_find_ch_eq(body, ']', body.len() as int);
                        assert(task_of(t) is None);
                        assert(classify_line(line) == LineKind::Plain);
                        assert(parse_doc(done1) == prev);
                    }
                },
            }
        } else {
            proof {
                assert(classify_line(line) == LineKind::Plain);
                assert(parse_doc(done1) == prev);
            }
        }
        k = k + 1;
    }
    proof {
        assert(lines.subrange(0, k as int) =~= lines);
    }
    if phases.is_empty() {
        proof {
            assert(phase_views(phases@).len() == 0);
        }
        Err(DocumentFormatError)
    } else {
        Ok(TaskDocument { phases, total_tasks: total, completed_tasks: completed, failed_tasks: failed })
    }
}

} // verus!
