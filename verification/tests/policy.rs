use turnmender::policy::{EventKey, PolicyState};

fn key(task: &str, turn: &str) -> EventKey {
    EventKey {
        task_id: task.into(),
        turn_id: turn.into(),
    }
}

#[test]
fn deduplicates_events_and_tracks_automatic_chain() {
    let mut state = PolicyState::default();
    assert!(state.mark_processed(key("a", "1")));
    assert!(!state.mark_processed(key("a", "1")));
    state.note_automatic_turn("a", "2");
    state.note_automatic_turn("a", "2");
    assert_eq!(state.chain_failures("a"), 1);
    assert!(state.is_automatic_turn("2"));
    state.reset_chain("a");
    assert_eq!(state.chain_failures("a"), 0);
}

#[test]
fn handled_failure_stays_handled() {
    let mut state = PolicyState::default();
    state.mark_processed(key("a", "1"));
    state.mark_processed(key("a", "1"));
    assert!(state.is_processed(&key("a", "1")));
    assert!(!state.is_processed(&key("a", "2")));
    assert_eq!(state.processed.len(), 1);
}

#[test]
fn new_automatic_turns_add_one_each() {
    let mut state = PolicyState::default();
    state.note_automatic_turn("a", "t1");
    state.note_automatic_turn("a", "t2");
    state.note_automatic_turn("b", "t3");
    assert_eq!(state.chain_failures("a"), 2);
    assert_eq!(state.chain_failures("b"), 1);
    assert_eq!(state.chain_failures("c"), 0);
}

#[test]
fn reset_clears_only_that_task() {
    let mut state = PolicyState::default();
    state.note_automatic_turn("a", "t1");
    state.note_automatic_turn("b", "t2");
    state.reset_chain("a");
    assert_eq!(state.chain_failures("a"), 0);
    assert_eq!(state.chain_failures("b"), 1);
    assert!(state.is_automatic_turn("t1"));
}

#[test]
fn trim_keeps_the_greatest_handled_failures() {
    let mut state = PolicyState::default();
    state.mark_processed(key("b", "2"));
    state.mark_processed(key("a", "9"));
    state.mark_processed(key("c", "1"));
    state.mark_processed(key("b", "1"));
    state.note_automatic_turn("a", "t1");
    state.trim(2);
    assert_eq!(state.processed.len(), 2);
    assert!(state.is_processed(&key("c", "1")));
    assert!(state.is_processed(&key("b", "2")));
    assert!(!state.is_processed(&key("a", "9")));
    assert!(!state.is_processed(&key("b", "1")));
    assert_eq!(state.chain_failures("a"), 1);
}

#[test]
fn trim_below_the_limit_changes_nothing() {
    let mut state = PolicyState::default();
    state.mark_processed(key("a", "1"));
    state.trim(5);
    assert_eq!(state.processed.len(), 1);
    assert!(state.is_processed(&key("a", "1")));
}
