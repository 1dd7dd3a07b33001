use turnmender::classifier::{
    classify_capacity, is_capacity_error, CapacityDecision, LastAgentMessageState,
    CAPACITY_MESSAGE,
};
use turnmender::json::Json;
use turnmender::transport::decode_message;

fn parse_json(text: &str) -> Option<Json> {
    decode_message(&text.as_bytes().to_vec()).ok()
}

#[test]
fn recognizes_capacity_variants() {
    assert!(is_capacity_error(
        "Selected model is at capacity. Please try again",
        ""
    ));
    assert!(is_capacity_error("anything", "server_overloaded"));
    assert!(is_capacity_error(
        "Error running remote compact task: Selected model is at capacity",
        ""
    ));
    assert!(!is_capacity_error("network timeout", ""));
}

#[test]
fn distinguishes_missing_and_empty_final_message() {
    let null_message = parse_json(r#"{"last_agent_message": null}"#).unwrap();
    let done_message = parse_json(r#"{"last_agent_message": "done"}"#).unwrap();
    let no_message = parse_json("{}").unwrap();
    assert_eq!(
        LastAgentMessageState::from_payload(&null_message),
        LastAgentMessageState::ExplicitlyEmpty
    );
    assert_eq!(
        LastAgentMessageState::from_payload(&done_message),
        LastAgentMessageState::Present
    );
    assert_eq!(
        LastAgentMessageState::from_payload(&no_message),
        LastAgentMessageState::Missing
    );
}

#[test]
fn only_empty_final_message_is_eligible() {
    assert_eq!(
        classify_capacity(
            CAPACITY_MESSAGE,
            "server_overloaded",
            &LastAgentMessageState::ExplicitlyEmpty
        ),
        CapacityDecision::Eligible
    );
    assert_eq!(
        classify_capacity(
            CAPACITY_MESSAGE,
            "server_overloaded",
            &LastAgentMessageState::Present
        ),
        CapacityDecision::CompletedWithOutput
    );
    assert_eq!(
        classify_capacity(
            CAPACITY_MESSAGE,
            "server_overloaded",
            &LastAgentMessageState::Missing
        ),
        CapacityDecision::Unknown
    );
}

#[test]
fn capacity_match_ignores_ascii_case() {
    assert!(is_capacity_error("SELECTED MODEL IS AT CAPACITY", ""));
    assert!(is_capacity_error("x", "  server_overloaded  "));
    assert!(!is_capacity_error("x", "server_overloaded_later"));
}

#[test]
fn ordinary_errors_are_not_capacity() {
    assert_eq!(
        classify_capacity(
            "permission denied",
            "",
            &LastAgentMessageState::ExplicitlyEmpty
        ),
        CapacityDecision::NotCapacity
    );
}

#[test]
fn blank_final_message_counts_as_empty() {
    let blank = parse_json(r#"{"last_agent_message": "   "}"#).unwrap();
    assert_eq!(
        LastAgentMessageState::from_payload(&blank),
        LastAgentMessageState::ExplicitlyEmpty
    );
}
