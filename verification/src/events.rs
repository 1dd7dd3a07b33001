//! The events that one line of a session record stands for.
//!
//! A session record is a JSON Lines file. Each line is one JSON object with a
//! `type` and a `payload`; the lines that matter here say that a turn started,
//! that a turn completed (possibly with an error), or that the user sent a
//! message.

use vstd::prelude::*;

use crate::classifier::{
    capacity_decision, classify_capacity, last_agent_message_of, CapacityDecision,
    LastAgentMessageState,
};
use crate::clock::{now_micros, number_micros, parse_number_micros, parse_rfc3339_micros, rfc3339_micros, Micros};
use crate::json::{deref_opt, member, parse_json, json_document, text_field, text_of, Json};
use crate::policy::EventKey;
use crate::text::{
    chars_eq, chars_of, contains_chars, has_infix, owned, string_of, trim_chars,
    trimmed,
};

verus! {

/// The message sent to continue a task, unless the user chose another.
pub const DEFAULT_RETRY_MESSAGE: &'static str = "继续";

/// A completed turn that ended in a capacity error.
#[derive(Debug)]
pub struct FailureEvent {
    pub key: EventKey,
    pub completed_at: Micros,
    pub error_info: String,
    pub last_agent_message: LastAgentMessageState,
    pub decision: CapacityDecision,
}

/// What a [`FailureEvent`] holds.
pub struct FailureView {
    pub key: (Seq<char>, Seq<char>),
    pub completed_at: Micros,
    pub error_info: Seq<char>,
    pub last_agent_message: LastAgentMessageState,
    pub decision: CapacityDecision,
}

impl View for FailureEvent {
    type V = FailureView;

    open spec fn view(&self) -> FailureView {
        FailureView {
            key: self.key@,
            completed_at: self.completed_at,
            error_info: self.error_info@,
            last_agent_message: self.last_agent_message,
            decision: self.decision,
        }
    }
}

impl FailureEvent {
    /// A copy of this event.
    pub fn duplicate(&self) -> (r: FailureEvent)
        ensures
            r@ == self@,
    {
        FailureEvent {
            key: self.key.duplicate(),
            completed_at: self.completed_at,
            error_info: self.error_info.clone(),
            last_agent_message: self.last_agent_message,
            decision: self.decision,
        }
    }
}

impl Clone for FailureEvent {
    fn clone(&self) -> Self {
        self.duplicate()
    }
}

/// One event of a session record.
#[derive(Debug)]
pub enum SessionEvent {
    Started { task_id: String, turn_id: String, started_at: Micros },
    UserMessage { task_id: String, turn_id: String, automatic: bool, at: Micros },
    Completed { task_id: String, turn_id: String, completed_at: Micros },
    Failure(FailureEvent),
}

/// What a [`SessionEvent`] holds.
pub enum EventView {
    Started { task_id: Seq<char>, turn_id: Seq<char>, started_at: Micros },
    UserMessage { task_id: Seq<char>, turn_id: Seq<char>, automatic: bool, at: Micros },
    Completed { task_id: Seq<char>, turn_id: Seq<char>, completed_at: Micros },
    Failure(FailureView),
}

impl View for SessionEvent {
    type V = EventView;

    open spec fn view(&self) -> EventView {
        match self {
            SessionEvent::Started { task_id, turn_id, started_at } => EventView::Started {
                task_id: task_id@,
                turn_id: turn_id@,
                started_at: *started_at,
            },
            SessionEvent::UserMessage { task_id, turn_id, automatic, at } => EventView::UserMessage {
                task_id: task_id@,
                turn_id: turn_id@,
                automatic: *automatic,
                at: *at,
            },
            SessionEvent::Completed { task_id, turn_id, completed_at } => EventView::Completed {
                task_id: task_id@,
                turn_id: turn_id@,
                completed_at: *completed_at,
            },
            SessionEvent::Failure(f) => EventView::Failure(f@),
        }
    }
}

impl EventView {
    /// When the event happened.
    pub open spec fn occurred_at(self) -> Micros {
        match self {
            EventView::Started { started_at, .. } => started_at,
            EventView::UserMessage { at, .. } => at,
            EventView::Completed { completed_at, .. } => completed_at,
            EventView::Failure(f) => f.completed_at,
        }
    }

    /// The task the event belongs to.
    pub open spec fn task(self) -> Seq<char> {
        match self {
            EventView::Started { task_id, .. } => task_id,
            EventView::UserMessage { task_id, .. } => task_id,
            EventView::Completed { task_id, .. } => task_id,
            EventView::Failure(f) => f.key.0,
        }
    }
}

impl SessionEvent {
    /// When the event happened.
    pub fn occurred_at(&self) -> (r: Micros)
        ensures
            r == self@.occurred_at(),
    {
        match self {
            SessionEvent::Started { started_at, .. } => *started_at,
            SessionEvent::UserMessage { at, .. } => *at,
            SessionEvent::Completed { completed_at, .. } => *completed_at,
            SessionEvent::Failure(event) => event.completed_at,
        }
    }

    /// The task the event belongs to.
    pub fn task_id(&self) -> (r: &String)
        ensures
            r@ == self@.task(),
    {
        match self {
            SessionEvent::Started { task_id, .. } => task_id,
            SessionEvent::UserMessage { task_id, .. } => task_id,
            SessionEvent::Completed { task_id, .. } => task_id,
            SessionEvent::Failure(event) => &event.key.task_id,
        }
    }
}

// ---------------------------------------------------------------------------
// Reading values of a record
// ---------------------------------------------------------------------------

/// The member `key` of an optional value.
pub open spec fn member_of(value: Option<Json>, key: Seq<char>) -> Option<Json> {
    match value {
        Some(v) => v.field(key),
        None => None,
    }
}

/// The microseconds of a JSON number of seconds.
pub open spec fn number_of(value: Option<Json>) -> Option<Micros> {
    match value {
        Some(Json::Number(t)) => number_micros(t@),
        _ => None,
    }
}

/// A time given as a number of seconds or as an RFC 3339 text.
pub open spec fn timestamp_of(value: Option<Json>) -> Option<Micros> {
    match number_of(value) {
        Some(t) => Some(t),
        None => match value {
            Some(Json::Str(s)) => rfc3339_micros(s@),
            _ => None,
        },
    }
}

/// Reads a JSON number of seconds as microseconds.
pub fn number(value: Option<&Json>) -> (r: Option<Micros>)
    ensures
        r == number_of(deref_opt(value)),
{
    match value {
        Some(Json::Number(t)) => parse_number_micros(t.as_str()),
        _ => None,
    }
}

/// Reads a time given as a number of seconds or as an RFC 3339 text.
pub fn timestamp(value: Option<&Json>) -> (r: Option<Micros>)
    ensures
        r == timestamp_of(deref_opt(value)),
{
    match number(value) {
        Some(t) => Some(t),
        None => match value {
            Some(Json::Str(s)) => parse_rfc3339_micros(s.as_str()),
            _ => None,
        },
    }
}

/// The texts of the items that have a string member `text`.
pub open spec fn item_texts(items: Seq<Json>) -> Seq<Seq<char>>
    decreases items.len(),
{
    if items.len() == 0 {
        Seq::empty()
    } else {
        let rest = item_texts(items.drop_last());
        match items.last().field("text"@) {
            Some(Json::Str(s)) => rest.push(s@),
            _ => rest,
        }
    }
}

/// The parts joined with `sep` between each two.
pub open spec fn joined(parts: Seq<Seq<char>>, sep: Seq<char>) -> Seq<char>
    decreases parts.len(),
{
    if parts.len() == 0 {
        Seq::empty()
    } else if parts.len() == 1 {
        parts[0]
    } else {
        joined(parts.drop_last(), sep) + sep + parts.last()
    }
}

/// The text of a message payload: the texts of its content items, one per
/// line; empty when it has no content list.
pub open spec fn message_text(payload: Json) -> Seq<char> {
    match payload.field("content"@) {
        Some(Json::Array(items)) => joined(item_texts(items@), "\n"@),
        _ => Seq::empty(),
    }
}

/// Reads the text of a message payload.
fn read_message_text(payload: &Json) -> (r: Vec<char>)
    ensures
        r@ == message_text(*payload),
{
    let mut out: Vec<char> = Vec::new();
    match payload.get("content") {
        Some(Json::Array(items)) => {
            let mut i: usize = 0;
            let mut first = true;
            proof {
                reveal_strlit("\n");
                assert(items@.take(0) =~= Seq::<Json>::empty());
            }
            while i < items.len()
                invariant
                    i <= items@.len(),
                    "\n"@ == seq!['\n'],
                    out@ == joined(item_texts(items@.take(i as int)), "\n"@),
                    first == (item_texts(items@.take(i as int)).len() == 0),
                decreases items@.len() - i,
            {
                let ghost before = items@.take(i as int);
                assert(items@.take(i + 1).drop_last() =~= before);
                match items[i].get("text") {
                    Some(Json::Str(s)) => {
                        if !first {
                            out.push('\n');
                        }
                        let cs = chars_of(s.as_str());
                        let mut j: usize = 0;
                        let ghost base = out@;
                        while j < cs.len()
                            invariant
                                j <= cs@.len(),
                                out@ == base + cs@.take(j as int),
                            decreases cs@.len() - j,
                        {
                            out.push(cs[j]);
                            j += 1;
                            assert(cs@.take(j as int) =~= cs@.take(j - 1).push(cs@[j - 1]));
                        }
                        assert(cs@.take(j as int) =~= cs@);
                        first = false;
                        proof {
                            let parts = item_texts(before);
                            assert(item_texts(items@.take(i + 1)) == parts.push(s@));
                            assert(parts.push(s@).drop_last() =~= parts);
                            if parts.len() == 0 {
                                assert(joined(parts.push(s@), "\n"@) == s@);
                                assert(out@ =~= s@);
                            } else {
                                assert(out@ =~= joined(parts, "\n"@) + "\n"@ + s@);
                            }
                        }
                    },
                    _ => {},
                }
                i += 1;
            }
            assert(items@.take(items@.len() as int) =~= items@);
        },
        _ => {},
    }
    out
}

/// Whether a user message is context that the desktop app injects rather
/// than something the user typed.
pub open spec fn injected_context(text: Seq<char>) -> bool {
    ||| has_infix(text, "<recommended_plugins>"@)
    ||| has_infix(text, "# AGENTS.md instructions"@)
    ||| has_infix(text, "<environment_context>"@)
    ||| has_infix(text, "<app-context>"@)
    ||| has_infix(text, "<skills_instructions>"@)
    ||| has_infix(text, "<permissions instructions>"@)
    ||| has_infix(text, "<collaboration_mode>"@)
    ||| has_infix(text, "<apps_instructions>"@)
    ||| has_infix(text, "<plugins_instructions>"@)
}

/// Whether a user message is injected context.
pub fn is_injected_context_message(text: &str) -> (r: bool)
    ensures
        r == injected_context(text@),
{
    let t = chars_of(text);
    contains_chars(&t, &chars_of("<recommended_plugins>")) || contains_chars(
        &t,
        &chars_of("# AGENTS.md instructions"),
    ) || contains_chars(&t, &chars_of("<environment_context>")) || contains_chars(
        &t,
        &chars_of("<app-context>"),
    ) || contains_chars(&t, &chars_of("<skills_instructions>")) || contains_chars(
        &t,
        &chars_of("<permissions instructions>"),
    ) || contains_chars(&t, &chars_of("<collaboration_mode>")) || contains_chars(
        &t,
        &chars_of("<apps_instructions>"),
    ) || contains_chars(&t, &chars_of("<plugins_instructions>"))
}

fn chars_injected(text: &Vec<char>) -> (r: bool)
    ensures
        r == injected_context(text@),
{
    is_injected_context_message(string_of(text).as_str())
}

// ---------------------------------------------------------------------------
// Reading a record line
// ---------------------------------------------------------------------------

/// The event that a record stands for, read as the session `task_id`
/// describes it. `retry` is the continuation message, by which a user message
/// is told to be automatic; `now` is the time used when the record gives none.
pub open spec fn record_event(record: Json, task_id: Seq<char>, retry: Seq<char>, now: Micros) -> Option<
    EventView,
> {
    let payload = record.field("payload"@);
    let record_type = text_field(Some(record), "type"@);
    let payload_type = match text_field(payload, "type"@) {
        Some(t) => t,
        None => Seq::empty(),
    };
    let time = match number_of(member_of(payload, "started_at"@)) {
        Some(t) => t,
        None => match timestamp_of(record.field("timestamp"@)) {
            Some(t) => t,
            None => now,
        },
    };
    if record_type is None || payload is None {
        None
    } else if record_type == Some("event_msg"@) && payload_type == "task_started"@ {
        match text_field(payload, "turn_id"@) {
            Some(turn_id) => Some(EventView::Started { task_id, turn_id, started_at: time }),
            None => None,
        }
    } else if record_type == Some("event_msg"@) && payload_type == "task_complete"@ {
        match text_field(payload, "turn_id"@) {
            None => None,
            Some(turn_id) => {
                let completed_at = match number_of(member_of(payload, "completed_at"@)) {
                    Some(t) => t,
                    None => time,
                };
                let completed = EventView::Completed { task_id, turn_id, completed_at };
                match member_of(payload, "error"@) {
                    Some(Json::Object(entries)) => {
                        let error = Some(Json::Object(entries));
                        let message = match text_field(error, "message"@) {
                            Some(m) => m,
                            None => Seq::empty(),
                        };
                        let error_info = match text_field(error, "codex_error_info"@) {
                            Some(m) => m,
                            None => Seq::empty(),
                        };
                        let last = last_agent_message_of(payload.unwrap());
                        let decision = capacity_decision(message, error_info, last);
                        if decision != CapacityDecision::NotCapacity {
                            Some(
                                EventView::Failure(
                                    FailureView {
                                        key: (task_id, turn_id),
                                        completed_at,
                                        error_info,
                                        last_agent_message: last,
                                        decision,
                                    },
                                ),
                            )
                        } else {
                            Some(completed)
                        }
                    },
                    _ => Some(completed),
                }
            },
        }
    } else if record_type == Some("response_item"@) && payload_type == "message"@ && text_field(
        payload,
        "role"@,
    ) == Some("user"@) {
        let from_metadata = text_field(
            member_of(payload, "internal_chat_message_metadata_passthrough"@),
            "turn_id"@,
        );
        let turn = match from_metadata {
            Some(t) => Some(t),
            None => text_field(payload, "turn_id"@),
        };
        match turn {
            None => None,
            Some(turn_id) => {
                let text = message_text(payload.unwrap());
                if injected_context(text) {
                    None
                } else {
                    Some(
                        EventView::UserMessage {
                            task_id,
                            turn_id,
                            automatic: trimmed(text) == retry,
                            at: time,
                        },
                    )
                }
            },
        }
    } else {
        None
    }
}

/// The event that a record line stands for.
pub open spec fn line_event(line: Seq<char>, task_id: Seq<char>, retry: Seq<char>, now: Micros) -> Option<
    EventView,
> {
    match json_document(line) {
        Some(record) => record_event(record, task_id, retry, now),
        None => None,
    }
}

fn text_is(value: &Option<Vec<char>>, lit: &str) -> (r: bool)
    ensures
        r == (match value {
            Some(v) => v@ == lit@,
            None => false,
        }),
{
    match value {
        Some(v) => chars_eq(v, &chars_of(lit)),
        None => false,
    }
}

/// Reads the event of a record line, taking `now` as the time when the record
/// gives none.
pub fn parse_line_at(line: &str, task_id: &str, retry: &str, now: Micros) -> (r: Option<SessionEvent>)
    ensures
        match r {
            Some(e) => line_event(line@, task_id@, retry@, now) == Some(e@),
            None => line_event(line@, task_id@, retry@, now) is None,
        },
{
    match parse_json(line) {
        Some(record) => record_event_at(&record, task_id, retry, now),
        None => None,
    }
}

/// Reads the event of a parsed record, taking `now` as the time when the
/// record gives none; a user message is automatic when its text is `retry`.
pub fn record_event_at(record: &Json, task_id: &str, retry: &str, now: Micros) -> (r: Option<
    SessionEvent,
>)
    ensures
        match r {
            Some(e) => record_event(*record, task_id@, retry@, now) == Some(e@),
            None => record_event(*record, task_id@, retry@, now) is None,
        },
{
    let record_type = text_of(record.get("type"));
    let payload_ref = record.get("payload");
    let payload = match payload_ref {
        Some(p) => p,
        None => return None,
    };
    if record_type.is_none() {
        return None;
    }
    let payload_type = match text_of(payload.get("type")) {
        Some(t) => t,
        None => Vec::new(),
    };
    let time = match number(payload.get("started_at")) {
        Some(t) => t,
        None => match timestamp(record.get("timestamp")) {
            Some(t) => t,
            None => now,
        },
    };
    let is_event_msg = text_is(&record_type, "event_msg");
    if is_event_msg && chars_eq(&payload_type, &chars_of("task_started")) {
        return match text_of(payload.get("turn_id")) {
            Some(turn_id) => Some(
                SessionEvent::Started {
                    task_id: owned(task_id),
                    turn_id: string_of(&turn_id),
                    started_at: time,
                },
            ),
            None => None,
        };
    }
    if is_event_msg && chars_eq(&payload_type, &chars_of("task_complete")) {
        let turn_id = match text_of(payload.get("turn_id")) {
            Some(t) => t,
            None => return None,
        };
        let completed_at = match number(payload.get("completed_at")) {
            Some(t) => t,
            None => time,
        };
        match payload.get("error") {
            Some(Json::Object(entries)) => {
                let error = payload.get("error");
                let message = match text_of(member(error, "message")) {
                    Some(m) => string_of(&m),
                    None => String::new(),
                };
                let error_info = match text_of(member(error, "codex_error_info")) {
                    Some(m) => string_of(&m),
                    None => String::new(),
                };
                let last = LastAgentMessageState::from_payload(payload);
                let decision = classify_capacity(message.as_str(), error_info.as_str(), &last);
                if decision != CapacityDecision::NotCapacity {
                    return Some(
                        SessionEvent::Failure(
                            FailureEvent {
                                key: EventKey { task_id: owned(task_id), turn_id: string_of(&turn_id) },
                                completed_at,
                                error_info,
                                last_agent_message: last,
                                decision,
                            },
                        ),
                    );
                }
            },
            _ => {},
        }
        return Some(
            SessionEvent::Completed {
                task_id: owned(task_id),
                turn_id: string_of(&turn_id),
                completed_at,
            },
        );
    }
    if text_is(&record_type, "response_item") && chars_eq(&payload_type, &chars_of("message"))
        && text_is(&text_of(payload.get("role")), "user") {
        let metadata = payload.get("internal_chat_message_metadata_passthrough");
        let turn_id = match text_of(member(metadata, "turn_id")) {
            Some(t) => t,
            None => match text_of(payload.get("turn_id")) {
                Some(t) => t,
                None => return None,
            },
        };
        let text = read_message_text(payload);
        if chars_injected(&text) {
            return None;
        }
        let automatic = chars_eq(&trim_chars(&text), &chars_of(retry));
        return Some(
            SessionEvent::UserMessage {
                task_id: owned(task_id),
                turn_id: string_of(&turn_id),
                automatic,
                at: time,
            },
        );
    }
    None
}

/// Reads the event of a record line, taking the current time when the record
/// gives none; a user message is automatic when its text is `retry`.
pub fn parse_line_with(line: &str, task_id: &str, retry: &str) -> (r: Option<SessionEvent>)
    ensures
        exists|now: Micros|
            match r {
                Some(e) => line_event(line@, task_id@, retry@, now) == Some(e@),
                None => line_event(line@, task_id@, retry@, now) is None,
            },
{
    let now = now_micros();
    parse_line_at(line, task_id, retry, now)
}

/// Reads the event of a record line, with the default continuation message.
pub fn parse_line(line: &str, task_id: &str) -> (r: Option<SessionEvent>)
    ensures
        exists|now: Micros|
            match r {
                Some(e) => line_event(line@, task_id@, DEFAULT_RETRY_MESSAGE@, now) == Some(e@),
                None => line_event(line@, task_id@, DEFAULT_RETRY_MESSAGE@, now) is None,
            },
{
    parse_line_with(line, task_id, DEFAULT_RETRY_MESSAGE)
}

/// Only a record of the right kind gives each event: a start comes from a
/// `task_started` event, a completion or failure from a `task_complete`
/// event, and a user message only from a `response_item` message whose role
/// is `user`; a `response_item` of any other role gives no event.
pub proof fn law_events_come_from_their_records(
    record: Json,
    task_id: Seq<char>,
    retry: Seq<char>,
    now: Micros,
)
    ensures
        ({
            let e = record_event(record, task_id, retry, now);
            let payload = record.field("payload"@);
            let record_type = text_field(Some(record), "type"@);
            &&& e matches Some(EventView::UserMessage { .. }) ==> record_type == Some(
                "response_item"@,
            ) && text_field(payload, "type"@) == Some("message"@) && text_field(payload, "role"@)
                == Some("user"@)
            &&& e matches Some(EventView::Started { .. }) ==> record_type == Some("event_msg"@)
                && text_field(payload, "type"@) == Some("task_started"@)
            &&& (e matches Some(EventView::Completed { .. }) || e matches Some(
                EventView::Failure(_),
            )) ==> record_type == Some("event_msg"@) && text_field(payload, "type"@) == Some(
                "task_complete"@,
            )
            &&& record_type == Some("response_item"@) && text_field(payload, "role"@) != Some(
                "user"@,
            ) ==> e is None
        }),
{
    reveal_strlit("response_item");
    reveal_strlit("event_msg");
    assert("response_item"@[0] != "event_msg"@[0]);
    assert("response_item"@ != "event_msg"@);
    let payload = record.field("payload"@);
    match text_field(payload, "type"@) {
        Some(t) => {},
        None => {
            reveal_strlit("task_started");
            reveal_strlit("task_complete");
            reveal_strlit("message");
            assert(Seq::<char>::empty() != "task_started"@);
            assert(Seq::<char>::empty() != "task_complete"@);
            assert(Seq::<char>::empty() != "message"@);
        },
    }
}

/// A user message that the user typed (not injected context) is read with
/// the turn of its record, the task being read, and its time; it is automatic
/// exactly when its trimmed text is the continuation message.
pub proof fn law_user_message_read(record: Json, task_id: Seq<char>, retry: Seq<char>, now: Micros)
    requires
        text_field(Some(record), "type"@) == Some("response_item"@),
        text_field(record.field("payload"@), "type"@) == Some("message"@),
        text_field(record.field("payload"@), "role"@) == Some("user"@),
        text_field(
            member_of(record.field("payload"@), "internal_chat_message_metadata_passthrough"@),
            "turn_id"@,
        ) is None,
        text_field(record.field("payload"@), "turn_id"@) is Some,
        !injected_context(message_text(record.field("payload"@).unwrap())),
    ensures
        record_event(record, task_id, retry, now) matches Some(
            EventView::UserMessage { task_id: t, turn_id, automatic, .. },
        ) && t == task_id && Some(turn_id) == text_field(record.field("payload"@), "turn_id"@)
            && automatic == (trimmed(message_text(record.field("payload"@).unwrap())) == retry),
{
    reveal_strlit("response_item");
    reveal_strlit("event_msg");
    assert("response_item"@[0] != "event_msg"@[0]);
    assert("response_item"@ != "event_msg"@);
}

} // verus!
