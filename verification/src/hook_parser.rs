//! Line-oriented event log decoder.
//!
//! The log holds one JSON object per line. Blank lines are skipped; every
//! other line decodes independently into a [`HookEvent`] or is reported as a
//! [`ParseError`] carrying its 1-based line number, so one malformed line
//! never discards or reorders the rest. The JSON field access and the
//! timestamp parse are the only trusted steps; the framing, the field
//! requirements and the bookkeeping are verified.

use vstd::prelude::*;

verus! {

use vstd::string::StrSliceExecFns;
use crate::text::{
    line_spans, span_ok, split_lines, str_eq, trim_bounds, trim_spec,
};

/// Known event kinds of the log.
#[derive(Debug, Clone, Copy, PartialEq, Eq, Structural)]
pub enum EventType {
    AgentStart,
    AgentEnd,
    ToolStart,
    ToolEnd,
    Error,
}

/// One decoded event of the log.
#[derive(Debug, Clone)]
pub struct HookEvent {
    pub event_type: EventType,
    /// Milliseconds since the Unix epoch of the event's timestamp.
    pub timestamp: i64,
    pub agent_id: String,
    pub task_id: String,
    pub session_id: String,
    pub tool_name: Option<String>,
    pub error_message: Option<String>,
}

/// Mathematical model of a [`HookEvent`].
pub ghost struct HookEventV {
    pub event_type: EventType,
    pub timestamp: i64,
    pub agent_id: Seq<char>,
    pub task_id: Seq<char>,
    pub session_id: Seq<char>,
    pub tool_name: Option<Seq<char>>,
    pub error_message: Option<Seq<char>>,
}

impl View for HookEvent {
    type V = HookEventV;

    open spec fn view(&self) -> HookEventV {
        HookEventV {
            event_type: self.event_type,
            timestamp: self.timestamp,
            agent_id: self.agent_id@,
            task_id: self.task_id@,
            session_id: self.session_id@,
            tool_name: self.tool_name.deep_view(),
            error_message: self.error_message.deep_view(),
        }
    }
}

impl HookEvent {
    /// An owned copy whose view equals `self`'s.
    pub fn duplicate(&self) -> (r: HookEvent)
        ensures
            r@ == self@,
    {
        HookEvent {
            event_type: self.event_type,
            timestamp: self.timestamp,
            agent_id: self.agent_id.clone(),
            task_id: self.task_id.clone(),
            session_id: self.session_id.clone(),
            tool_name: match &self.tool_name {
                Some(s) => Some(s.clone()),
                None => None,
            },
            error_message: match &self.error_message {
                Some(s) => Some(s.clone()),
                None => None,
            },
        }
    }
}

/// A single line that failed to decode.
#[derive(Debug, Clone)]
pub struct ParseError {
    /// 1-based line number in the log text.
    pub line_number: usize,
    /// The offending line, as it stood in the log text.
    pub line_content: String,
    /// Decoder-reported reason.
    pub error: String,
}

/// Mathematical model of a [`ParseError`].
pub ghost struct ParseErrorV {
    pub line_number: int,
    pub line_content: Seq<char>,
    pub error: Seq<char>,
}

impl View for ParseError {
    type V = ParseErrorV;

    open spec fn view(&self) -> ParseErrorV {
        ParseErrorV {
            line_number: self.line_number as int,
            line_content: self.line_content@,
            error: self.error@,
        }
    }
}

/// Result of decoding a log text: events plus the per-line failures.
#[derive(Debug)]
pub struct ParseResult {
    pub events: Vec<HookEvent>,
    pub errors: Vec<ParseError>,
}

/// The string value at top-level key `key` of the JSON object that `line`
/// parses to; None if `line` is not a JSON object, the key is absent, or the
/// value there is not a string.
pub uninterp spec fn json_field_str(line: Seq<char>, key: Seq<char>) -> Option<Seq<char>>;

/// Relies on serde_json: `from_str` parses the line as a JSON document, and
/// `Value::get` / `Value::as_str` read a top-level string field. The result
/// depends on the two texts alone.
#[verifier::external_body]
fn json_string_field(line: &str, key: &str) -> (r: Option<String>)
    ensures
        (r is Some) == (json_field_str(line@, key@) is Some),
        r matches Some(s) ==> json_field_str(line@, key@) == Some(s@),
{
    match serde_json::from_str::<serde_json::Value>(line) {
        Ok(v) => match v.get(key) {
            Some(f) => match f.as_str() {
                Some(s) => Some(s.to_string()),
                None => None,
            },
            None => None,
        },
        Err(_) => None,
    }
}

/// Milliseconds since the Unix epoch denoted by `s` as an RFC 3339 timestamp;
/// None if `s` is not one.
pub uninterp spec fn ts_of(s: Seq<char>) -> Option<i64>;

/// Relies on chrono's `DateTime::parse_from_rfc3339` and `timestamp_millis`:
/// the result depends on the text alone.
#[verifier::external_body]
fn parse_timestamp_millis(s: &str) -> (r: Option<i64>)
    ensures
        r == ts_of(s@),
{
    match chrono::DateTime::parse_from_rfc3339(s) {
        Ok(d) => Some(d.timestamp_millis()),
        Err(_) => None,
    }
}

/// The event kind denoted by the tag `t`, if any.
pub open spec fn tag_kind(t: Seq<char>) -> Option<EventType> {
    if t == "agent_start"@ {
        Some(EventType::AgentStart)
    } else if t == "agent_end"@ {
        Some(EventType::AgentEnd)
    } else if t == "tool_start"@ {
        Some(EventType::ToolStart)
    } else if t == "tool_end"@ {
        Some(EventType::ToolEnd)
    } else if t == "error"@ {
        Some(EventType::Error)
    } else {
        None
    }
}

/// The event a single (already trimmed, non-blank) line decodes to: the five
/// required fields must be present as strings, the tag must name one of the
/// five kinds, and the timestamp must parse; the two optional fields are taken
/// as they are.
pub open spec fn decode_line_spec(l: Seq<char>) -> Option<HookEventV> {
    let tag = json_field_str(l, "event_type"@);
    let ts = json_field_str(l, "timestamp"@);
    let agent = json_field_str(l, "agent_id"@);
    let task = json_field_str(l, "task_id"@);
    let sess = json_field_str(l, "session_id"@);
    if tag is Some && tag_kind(tag->Some_0) is Some && ts is Some && ts_of(ts->Some_0) is Some
        && agent is Some && task is Some && sess is Some {
        Some(
            HookEventV {
                event_type: tag_kind(tag->Some_0)->Some_0,
                timestamp: ts_of(ts->Some_0)->Some_0,
                agent_id: agent->Some_0,
                task_id: task->Some_0,
                session_id: sess->Some_0,
                tool_name: json_field_str(l, "tool_name"@),
                error_message: json_field_str(l, "error_message"@),
            },
        )
    } else {
        None
    }
}

/// The reason the decoder reports for a line that fails to decode: the first
/// missing or unusable field in the order the fields are checked.
pub open spec fn decode_reason(l: Seq<char>) -> Seq<char> {
    let tag = json_field_str(l, "event_type"@);
    let ts = json_field_str(l, "timestamp"@);
    if tag is None {
        "missing or non-string event_type"@
    } else if tag_kind(tag->Some_0) is None {
        "unknown event_type"@
    } else if ts is None {
        "missing or non-string timestamp"@
    } else if ts_of(ts->Some_0) is None {
        "invalid timestamp"@
    } else if json_field_str(l, "agent_id"@) is None {
        "missing or non-string agent_id"@
    } else if json_field_str(l, "task_id"@) is None {
        "missing or non-string task_id"@
    } else if json_field_str(l, "session_id"@) is None {
        "missing or non-string session_id"@
    } else {
        Seq::empty()
    }
}

/// Decodes one trimmed, non-blank line.
fn decode_line(line: &str) -> (r: Result<HookEvent, String>)
    ensures
        match r {
            Ok(ev) => decode_line_spec(line@) == Some(ev@),
            Err(m) => decode_line_spec(line@) is None && m@ == decode_reason(line@),
        },
{
    let tag = match json_string_field(line, "event_type") {
        Some(t) => t,
        None => {
            return Err("missing or non-string event_type".to_owned());
        },
    };
    let kind = if str_eq(tag.as_str(), "agent_start") {
        EventType::AgentStart
    } else if str_eq(tag.as_str(), "agent_end") {
        EventType::AgentEnd
    } else if str_eq(tag.as_str(), "tool_start") {
        EventType::ToolStart
    } else if str_eq(tag.as_str(), "tool_end") {
        EventType::ToolEnd
    } else if str_eq(tag.as_str(), "error") {
        EventType::Error
    } else {
        return Err("unknown event_type".to_owned());
    };
    let ts_text = match json_string_field(line, "timestamp") {
        Some(t) => t,
        None => {
            return Err("missing or non-string timestamp".to_owned());
        },
    };
    let timestamp = match parse_timestamp_millis(ts_text.as_str()) {
        Some(v) => v,
        None => {
            return Err("invalid timestamp".to_owned());
        },
    };
    let agent_id = match json_string_field(line, "agent_id") {
        Some(v) => v,
        None => {
            return Err("missing or non-string agent_id".to_owned());
        },
    };
    let task_id = match json_string_field(line, "task_id") {
        Some(v) => v,
        None => {
            return Err("missing or non-string task_id".to_owned());
        },
    };
    let session_id = match json_string_field(line, "session_id") {
        Some(v) => v,
        None => {
            return Err("missing or non-string session_id".to_owned());
        },
    };
    let tool_name = json_string_field(line, "tool_name");
    let error_message = json_string_field(line, "error_message");
    let ev = HookEvent {
        event_type: kind,
        timestamp,
        agent_id,
        task_id,
        session_id,
        tool_name,
        error_message,
    };
    Ok(ev)
}

/// Events contributed by one raw line: none if the line is blank or fails to
/// decode, the decoded event otherwise.
pub open spec fn line_events(l: Seq<char>) -> Seq<HookEventV> {
    let t = trim_spec(l);
    if t.len() == 0 {
        Seq::empty()
    } else {
        match decode_line_spec(t) {
            Some(ev) => seq![ev],
            None => Seq::empty(),
        }
    }
}

/// Error entries contributed by one raw line carrying 1-based number `num`:
/// the number, the original line text and the decoder's reason, exactly when
/// the line is non-blank and fails to decode.
pub open spec fn line_errors(l: Seq<char>, num: int) -> Seq<(int, Seq<char>, Seq<char>)> {
    let t = trim_spec(l);
    if t.len() == 0 {
        Seq::empty()
    } else {
        match decode_line_spec(t) {
            Some(_) => Seq::empty(),
            None => seq![(num, l, decode_reason(t))],
        }
    }
}

/// All events decoded from `lines`, in line order.
pub open spec fn decoded_events(lines: Seq<Seq<char>>) -> Seq<HookEventV>
    decreases lines.len(),
{
    if lines.len() == 0 {
        Seq::empty()
    } else {
        decoded_events(lines.drop_last()) + line_events(lines.last())
    }
}

/// All decode failures of `lines`, in line order, with 1-based line numbers.
pub open spec fn decoded_errors(lines: Seq<Seq<char>>) -> Seq<(int, Seq<char>, Seq<char>)>
    decreases lines.len(),
{
    if lines.len() == 0 {
        Seq::empty()
    } else {
        decoded_errors(lines.drop_last()) + line_errors(lines.last(), lines.len() as int)
    }
}

/// Number of lines whose trimmed content is non-empty.
pub open spec fn non_blank_count(lines: Seq<Seq<char>>) -> int
    decreases lines.len(),
{
    if lines.len() == 0 {
        0int
    } else {
        non_blank_count(lines.drop_last()) + if trim_spec(lines.last()).len() == 0 {
            0int
        } else {
            1int
        }
    }
}

/// Every non-blank line yields exactly one event or one error: the two counts
/// partition the non-blank line count.
pub proof fn lemma_decode_partition(lines: Seq<Seq<char>>)
    ensures
        decoded_events(lines).len() + decoded_errors(lines).len() == non_blank_count(lines),
    decreases lines.len(),
{
    if lines.len() > 0 {
        lemma_decode_partition(lines.drop_last());
    }
}

/// Decoding is order-preserving: the events of a concatenation of two line
/// sequences are the events of the first followed by the events of the
/// second, so decoded events keep the relative order of their source lines.
pub proof fn lemma_decode_order(a: Seq<Seq<char>>, b: Seq<Seq<char>>)
    ensures
        decoded_events(a + b) == decoded_events(a) + decoded_events(b),
    decreases b.len(),
{
    if b.len() == 0 {
        assert(a + b =~= a);
        assert(decoded_events(a) + decoded_events(b) =~= decoded_events(a));
    } else {
        lemma_decode_order(a, b.drop_last());
        assert((a + b).drop_last() =~= a + b.drop_last());
        assert((a + b).last() == b.last());
        assert(decoded_events(a + b) =~= decoded_events(a) + decoded_events(b));
    }
}

/// Parse a log text into hook events, collecting an error for each malformed
/// non-blank line; blank lines are skipped silently.
pub fn parse_hook_events(input: &str) -> (r: ParseResult)
    ensures
        ({
            let lines = split_lines(input@);
            let evs = decoded_events(lines);
            let errs = decoded_errors(lines);
            &&& r.events@.len() == evs.len()
            &&& forall|i: int| 0 <= i < evs.len() ==> r.events@[i]@ == evs[i]
            &&& r.errors@.len() == errs.len()
            &&& forall|i: int|
                0 <= i < errs.len() ==> (#[trigger] r.errors@[i])@.line_number == errs[i].0
                    && r.errors@[i]@.line_content == errs[i].1 && r.errors@[i]@.error == errs[i].2
            &&& r.events@.len() + r.errors@.len() == non_blank_count(lines)
        }),
{
    let ghost lines = split_lines(input@);
    let spans = line_spans(input);
    let mut events: Vec<HookEvent> = Vec::new();
    let mut errors: Vec<ParseError> = Vec::new();
    let mut k: usize = 0;
    proof {
        assert(lines.subrange(0, 0) =~= Seq::<Seq<char>>::empty());
    }
    while k < spans.len()
        invariant
            k <= spans.len(),
            spans@.len() == lines.len(),
            lines == split_lines(input@),
            forall|i: int| 0 <= i < spans@.len() ==> #[trigger] span_ok(input@, lines, spans@[i], i),
            events@.len() == decoded_events(lines.subrange(0, k as int)).len(),
            forall|i: int|
                0 <= i < events@.len() ==> #[trigger] events@[i]@ == decoded_events(
                    lines.subrange(0, k as int),
                )[i],
            errors@.len() == decoded_errors(lines.subrange(0, k as int)).len(),
            forall|i: int|
                0 <= i < errors@.len() ==> (#[trigger] errors@[i])@.line_number == decoded_errors(
                    lines.subrange(0, k as int),
                )[i].0 && errors@[i]@.line_content == decoded_errors(
                    lines.subrange(0, k as int),
                )[i].1 && errors@[i]@.error == decoded_errors(lines.subrange(0, k as int))[i].2,
        decreases spans.len() - k,
    {
        let ghost done = lines.subrange(0, k as int);
        let ghost done1 = lines.subrange(0, k + 1 as int);
        proof {
            assert(span_ok(input@, lines, spans@[k as int], k as int));
            assert(done1.drop_last() =~= done);
            assert(done1.last() == lines[k as int]);
        }
        let sp = spans[k];
        let (ts, te) = trim_bounds(input, sp.0, sp.1);
        let ghost line = lines[k as int];
        let ghost t = trim_spec(line);
        proof {
            assert(input@.subrange(sp.0 as int, sp.1 as int) == line);
            assert(input@.subrange(ts as int, te as int) == t);
        }
        if ts == te {
            proof {
                assert(t.len() == 0);
                assert(decoded_events(done1) =~= decoded_events(done));
                assert(decoded_errors(done1) =~= decoded_errors(done));
            }
        } else {
            let line_str = input.substring_char(ts, te);
            proof {
                assert(line_str@ == t);
                assert(t.len() > 0);
            }
            match decode_line(line_str) {
                Ok(ev) => {
                    proof {
                        assert(line_events(line) =~= seq![ev@]);
                        assert(line_errors(line, k + 1 as int) =~= Seq::<
                            (int, Seq<char>, Seq<char>),
                        >::empty());
                        assert(decoded_events(done1) =~= decoded_events(done).push(ev@));
                        assert(decoded_errors(done1) =~= decoded_errors(done));
                    }
                    events.push(ev);
                },
                Err(msg) => {
                    let raw_line = input.substring_char(sp.0, sp.1);
                    let pe = ParseError {
                        line_number: k + 1,
                        line_content: raw_line.to_owned(),
                        error: msg,
                    };
                    proof {
                        assert(line_events(line) =~= Seq::<HookEventV>::empty());
                        assert(line_errors(line, k + 1 as int) =~= seq![
                            (k + 1 as int, line, decode_reason(t)),
                        ]);
                        assert(decoded_events(done1) =~= decoded_events(done));
                        assert(decoded_errors(done1) =~= decoded_errors(done).push(
                            (k + 1 as int, line, decode_reason(t)),
                        ));
                    }
                    let ghost prev_errors = errors@;
                    let ghost pev = pe@;
                    errors.push(pe);
                    proof {
                        assert forall|i: int|
                            0 <= i < errors@.len() implies (#[trigger] errors@[i])@.line_number
                            == decoded_errors(done1)[i].0 && errors@[i]@.line_content
                            == decoded_errors(done1)[i].1 && errors@[i]@.error == decoded_errors(
                            done1,
                        )[i].2 by {
                            if i < prev_errors.len() {
                                assert(errors@[i] == prev_errors[i]);
                                assert(prev_errors[i]@.line_number == decoded_errors(done)[i].0);
                                assert(prev_errors[i]@.line_content == decoded_errors(done)[i].1);
                                assert(prev_errors[i]@.error == decoded_errors(done)[i].2);
                                assert(decoded_errors(done1)[i] == decoded_errors(done)[i]);
                            } else {
                                assert(errors@[i]@ == pev);
                                assert(decoded_errors(done1)[i] == (
                                    k + 1 as int,
                                    line,
                                    decode_reason(t),
                                ));
                            }
                        }
                    }
                },
            }
        }
        k = k + 1;
    }
    proof {
        assert(lines.subrange(0, k as int) =~= lines);
        lemma_decode_partition(lines);
    }
    ParseResult { events, errors }
}

/// The events of `evs` whose agent identifier is `id`, in order.
pub open spec fn filtered_by_agent(evs: Seq<HookEvent>, id: Seq<char>) -> Seq<HookEventV>
    decreases evs.len(),
{
    if evs.len() == 0 {
        Seq::empty()
    } else {
        filtered_by_agent(evs.drop_last(), id) + if evs.last()@.agent_id == id {
            seq![evs.last()@]
        } else {
            Seq::empty()
        }
    }
}

/// The events of `evs` whose session identifier is `id`, in order.
pub open spec fn filtered_by_session(evs: Seq<HookEvent>, id: Seq<char>) -> Seq<HookEventV>
    decreases evs.len(),
{
    if evs.len() == 0 {
        Seq::empty()
    } else {
        filtered_by_session(evs.drop_last(), id) + if evs.last()@.session_id == id {
            seq![evs.last()@]
        } else {
            Seq::empty()
        }
    }
}

/// Filter events by agent identifier; equality match, order-preserving,
/// non-mutating.
pub fn events_for_agent(events: &[HookEvent], agent_id: &str) -> (r: Vec<HookEvent>)
    ensures
        r@.len() == filtered_by_agent(events@, agent_id@).len(),
        forall|i: int|
            0 <= i < r@.len() ==> #[trigger] r@[i]@ == filtered_by_agent(events@, agent_id@)[i],
{
    let mut r: Vec<HookEvent> = Vec::new();
    let n = events.len();
    let mut k: usize = 0;
    proof {
        assert(events@.subrange(0, 0) =~= Seq::<HookEvent>::empty());
    }
    while k < n
        invariant
            k <= n,
            n == events@.len(),
            r@.len() == filtered_by_agent(events@.subrange(0, k as int), agent_id@).len(),
            forall|i: int|
                0 <= i < r@.len() ==> #[trigger] r@[i]@ == filtered_by_agent(
                    events@.subrange(0, k as int),
                    agent_id@,
                )[i],
        decreases n - k,
    {
        let ghost done = events@.subrange(0, k as int);
        let ghost done1 = events@.subrange(0, k + 1 as int);
        proof {
            assert(done1.drop_last() =~= done);
            assert(done1.last() == events@[k as int]);
        }
        let ev = &events[k];
        if str_eq(ev.agent_id.as_str(), agent_id) {
            r.push(ev.duplicate());
            proof {
                assert(filtered_by_agent(done1, agent_id@) =~= filtered_by_agent(
                    done,
                    agent_id@,
                ).push(events@[k as int]@));
            }
        } else {
            proof {
                assert(filtered_by_agent(done1, agent_id@) =~= filtered_by_agent(done, agent_id@));
            }
        }
        k = k + 1;
    }
    proof {
        assert(events@.subrange(0, k as int) =~= events@);
    }
    r
}

/// Filter events by session identifier; equality match, order-preserving,
/// non-mutating.
pub fn events_for_session(events: &[HookEvent], session_id: &str) -> (r: Vec<HookEvent>)
    ensures
        r@.len() == filtered_by_session(events@, session_id@).len(),
        forall|i: int|
            0 <= i < r@.len() ==> #[trigger] r@[i]@ == filtered_by_session(events@, session_id@)[i],
{
    let mut r: Vec<HookEvent> = Vec::new();
    let n = events.len();
    let mut k: usize = 0;
    proof {
        assert(events@.subrange(0, 0) =~= Seq::<HookEvent>::empty());
    }
    while k < n
        invariant
            k <= n,
            n == events@.len(),
            r@.len() == filtered_by_session(events@.subrange(0, k as int), session_id@).len(),
            forall|i: int|
                0 <= i < r@.len() ==> #[trigger] r@[i]@ == filtered_by_session(
                    events@.subrange(0, k as int),
                    session_id@,
                )[i],
        decreases n - k,
    {
        let ghost done = events@.subrange(0, k as int);
        let ghost done1 = events@.subrange(0, k + 1 as int);
        proof {
            assert(done1.drop_last() =~= done);
            assert(done1.last() == events@[k as int]);
        }
        let ev = &events[k];
        if str_eq(ev.session_id.as_str(), session_id) {
            r.push(ev.duplicate());
            proof {
                assert(filtered_by_session(done1, session_id@) =~= filtered_by_session(
                    done,
                    session_id@,
                ).push(events@[k as int]@));
            }
        } else {
            proof {
                assert(filtered_by_session(done1, session_id@) =~= filtered_by_session(
                    done,
                    session_id@,
                ));
            }
        }
        k = k + 1;
    }
    proof {
        assert(events@.subrange(0, k as int) =~= events@);
    }
    r
}

} // verus!
