//! Recognising model-capacity failures and whether a failed turn still
//! produced a final answer.

use vstd::prelude::*;

use crate::json::Json;
use crate::text::{
    ascii_lowercase, chars_eq, chars_of, contains_chars, has_infix, lowered, trim_chars, trimmed,
};

verus! {

/// The error text of a model-capacity failure.
pub const CAPACITY_MESSAGE: &'static str = "Selected model is at capacity";

/// The error text of a model-capacity failure during a remote compaction.
pub const REMOTE_COMPACT_CAPACITY_MESSAGE: &'static str =
    "Error running remote compact task: Selected model is at capacity";

/// The error kind that Codex records for an overloaded server.
pub const SERVER_OVERLOADED: &'static str = "server_overloaded";

/// What a completed turn's record says of its final agent message.
#[derive(Debug, Clone, Copy, PartialEq, Eq, Structural)]
pub enum LastAgentMessageState {
    /// The field is `null` or a blank string: the turn produced no answer.
    ExplicitlyEmpty,
    /// The field holds a non-blank string.
    Present,
    /// The field is absent or of another type.
    Missing,
}

/// The verdict on a completed turn that ended in an error.
#[derive(Debug, Clone, Copy, PartialEq, Eq, Structural)]
pub enum CapacityDecision {
    /// A capacity failure with no final answer: the task may be continued.
    Eligible,
    /// A capacity failure after which the turn still answered.
    CompletedWithOutput,
    /// A capacity failure whose record does not say whether the turn answered.
    Unknown,
    /// Not a capacity failure.
    NotCapacity,
}

/// What the `last_agent_message` member of a record payload says.
pub open spec fn last_agent_message_of(payload: Json) -> LastAgentMessageState {
    match payload.field("last_agent_message"@) {
        Some(Json::Str(t)) => if trimmed(t@).len() > 0 {
            LastAgentMessageState::Present
        } else {
            LastAgentMessageState::ExplicitlyEmpty
        },
        Some(Json::Null) => LastAgentMessageState::ExplicitlyEmpty,
        _ => LastAgentMessageState::Missing,
    }
}

impl LastAgentMessageState {
    /// Reads the `last_agent_message` member of a record payload.
    pub fn from_payload(payload: &Json) -> (r: Self)
        ensures
            r == last_agent_message_of(*payload),
    {
        match payload.get("last_agent_message") {
            Some(Json::Str(text)) => {
                let t = trim_chars(&chars_of(text.as_str()));
                if t.len() > 0 {
                    LastAgentMessageState::Present
                } else {
                    LastAgentMessageState::ExplicitlyEmpty
                }
            },
            Some(Json::Null) => LastAgentMessageState::ExplicitlyEmpty,
            _ => LastAgentMessageState::Missing,
        }
    }
}

/// Whether an error with this message and error kind is a model-capacity
/// failure: the kind is `server_overloaded` (ignoring surrounding white
/// space), or the message contains one of the two capacity texts, ignoring
/// ASCII case.
pub open spec fn capacity_error(message: Seq<char>, error_info: Seq<char>) -> bool {
    ||| trimmed(error_info) == SERVER_OVERLOADED@
    ||| has_infix(lowered(message), lowered(CAPACITY_MESSAGE@))
    ||| has_infix(lowered(message), lowered(REMOTE_COMPACT_CAPACITY_MESSAGE@))
}

/// Whether an error is a model-capacity failure.
pub fn is_capacity_error(message: &str, error_info: &str) -> (r: bool)
    ensures
        r == capacity_error(message@, error_info@),
{
    let message = ascii_lowercase(message);
    let info = trim_chars(&chars_of(error_info));
    chars_eq(&info, &chars_of(SERVER_OVERLOADED)) || contains_chars(
        &message,
        &ascii_lowercase(CAPACITY_MESSAGE),
    ) || contains_chars(&message, &ascii_lowercase(REMOTE_COMPACT_CAPACITY_MESSAGE))
}

/// The verdict on a failed turn.
pub open spec fn capacity_decision(
    message: Seq<char>,
    error_info: Seq<char>,
    last_agent_message: LastAgentMessageState,
) -> CapacityDecision {
    if !capacity_error(message, error_info) {
        CapacityDecision::NotCapacity
    } else {
        match last_agent_message {
            LastAgentMessageState::ExplicitlyEmpty => CapacityDecision::Eligible,
            LastAgentMessageState::Present => CapacityDecision::CompletedWithOutput,
            LastAgentMessageState::Missing => CapacityDecision::Unknown,
        }
    }
}

/// Classifies a failed turn: only a capacity failure whose final message is
/// explicitly empty is eligible for continuation.
pub fn classify_capacity(
    message: &str,
    error_info: &str,
    last_agent_message: &LastAgentMessageState,
) -> (r: CapacityDecision)
    ensures
        r == capacity_decision(message@, error_info@, *last_agent_message),
{
    if !is_capacity_error(message, error_info) {
        return CapacityDecision::NotCapacity;
    }
    match last_agent_message {
        LastAgentMessageState::ExplicitlyEmpty => CapacityDecision::Eligible,
        LastAgentMessageState::Present => CapacityDecision::CompletedWithOutput,
        LastAgentMessageState::Missing => CapacityDecision::Unknown,
    }
}

/// Only a capacity failure whose final message is explicitly empty is
/// continued: a turn that answered, or whose record does not say, never is.
pub proof fn law_only_unanswered_capacity_failures_are_eligible(
    message: Seq<char>,
    error_info: Seq<char>,
    last_agent_message: LastAgentMessageState,
)
    ensures
        capacity_decision(message, error_info, last_agent_message) == CapacityDecision::Eligible
            <==> capacity_error(message, error_info) && last_agent_message
            == LastAgentMessageState::ExplicitlyEmpty,
        !capacity_error(message, error_info) ==> capacity_decision(
            message,
            error_info,
            last_agent_message,
        ) == CapacityDecision::NotCapacity,
{
}

/// A message that holds the capacity text anywhere, in any ASCII case, is a
/// capacity failure, whatever its error kind; so is any error whose kind is
/// `server_overloaded`.
pub proof fn law_capacity_text_anywhere(prefix: Seq<char>, suffix: Seq<char>, error_info: Seq<char>)
    ensures
        capacity_error(prefix + CAPACITY_MESSAGE@ + suffix, error_info),
        capacity_error(prefix + lowered(CAPACITY_MESSAGE@) + suffix, error_info),
        trimmed(error_info) == SERVER_OVERLOADED@ ==> capacity_error(prefix, error_info),
        has_infix(lowered(prefix), lowered(CAPACITY_MESSAGE@)) ==> capacity_error(prefix, error_info),
{
    lemma_infix_lowered(prefix, CAPACITY_MESSAGE@, suffix);
    let c = CAPACITY_MESSAGE@;
    assert(lowered(lowered(c)) =~= lowered(c)) by {
        assert forall|i: int| 0 <= i < c.len() implies lowered(lowered(c))[i] == lowered(c)[i] by {
            let ch = c[i];
            if 'A' <= ch && ch <= 'Z' {
                assert(((ch as u32) + 32) as char as u32 == (ch as u32) + 32);
            }
        }
    }
    lemma_infix_lowered(prefix, lowered(c), suffix);
}

proof fn lemma_infix_lowered(prefix: Seq<char>, needle: Seq<char>, suffix: Seq<char>)
    ensures
        has_infix(lowered(prefix + needle + suffix), lowered(needle)),
{
    let m = prefix + needle + suffix;
    let i = prefix.len() as int;
    assert(lowered(m).subrange(i, i + needle.len()) =~= lowered(needle));
    assert(crate::text::occurs_at(lowered(m), lowered(needle), i));
}

/// An error with neither capacity text in its message, in any ASCII case,
/// and a kind other than `server_overloaded`, is no capacity failure, and its
/// turn is never continued.
pub proof fn law_other_errors_are_not_capacity(
    message: Seq<char>,
    error_info: Seq<char>,
    last_agent_message: LastAgentMessageState,
)
    requires
        trimmed(error_info) != SERVER_OVERLOADED@,
        !has_infix(lowered(message), lowered(CAPACITY_MESSAGE@)),
        !has_infix(lowered(message), lowered(REMOTE_COMPACT_CAPACITY_MESSAGE@)),
    ensures
        !capacity_error(message, error_info),
        capacity_decision(message, error_info, last_agent_message) == CapacityDecision::NotCapacity,
{
}

} // verus!
