use turnmender::clock::micros_from_millis;
use turnmender::classifier::{CapacityDecision, LastAgentMessageState};
use turnmender::events::{parse_line, timestamp, FailureEvent, SessionEvent};
use turnmender::ingest::{
    discovery_due, project_path_from_first_line, split_text, task_id_from_stem, task_names_from_lines,
};
use turnmender::json::Json;
use turnmender::policy::{EventKey, PolicyState};
use turnmender::state::TaskState;
use turnmender::watcher::{SessionWatcher, CATCH_UP_MICROS};

fn failure(task: &str, turn: &str, completed_at: i64) -> FailureEvent {
    FailureEvent {
        key: EventKey {
            task_id: task.into(),
            turn_id: turn.into(),
        },
        completed_at,
        error_info: "server_overloaded".into(),
        last_agent_message: LastAgentMessageState::ExplicitlyEmpty,
        decision: CapacityDecision::Eligible,
    }
}

fn watcher() -> SessionWatcher {
    let mut watcher = SessionWatcher::new(String::new(), PolicyState::default());
    watcher.initial_cutoff = None;
    watcher
}

#[test]
fn parses_capacity_with_empty_final_message() {
    let line = r#"{"type":"event_msg","timestamp":10,"payload":{"type":"task_complete","turn_id":"turn-1","last_agent_message":null,"completed_at":11,"error":{"message":"Selected model is at capacity","codex_error_info":"server_overloaded"}}}"#;
    let event = parse_line(line, "task-1").unwrap();
    match event {
        SessionEvent::Failure(failure) => {
            assert_eq!(failure.decision, CapacityDecision::Eligible)
        }
        _ => panic!("wrong event"),
    }
}

#[test]
fn capacity_with_output_is_not_eligible() {
    let line = r#"{"type":"event_msg","payload":{"type":"task_complete","turn_id":"turn-1","last_agent_message":"已经完成","completed_at":11,"error":{"message":"Selected model is at capacity","codex_error_info":"server_overloaded"}}}"#;
    match parse_line(line, "task-1").unwrap() {
        SessionEvent::Failure(failure) => {
            assert_eq!(failure.decision, CapacityDecision::CompletedWithOutput)
        }
        _ => panic!("wrong event"),
    }
}

#[test]
fn normal_completion_returns_to_idle_event() {
    let line = r#"{"type":"event_msg","payload":{"type":"task_complete","turn_id":"turn-1","completed_at":12,"last_agent_message":"完成"}}"#;
    match parse_line(line, "task-1").unwrap() {
        SessionEvent::Completed {
            turn_id,
            completed_at,
            ..
        } => {
            assert_eq!(turn_id, "turn-1");
            assert_eq!(completed_at, 12_000_000);
        }
        _ => panic!("wrong event"),
    }
}

#[test]
fn taken_candidate_can_be_requeued() {
    let mut watcher = SessionWatcher::new(String::new(), PolicyState::default());
    let event = failure("task-1", "turn-1", 1_000_000);
    watcher.requeue(event.clone());
    assert_eq!(watcher.take_candidates().len(), 1);
    watcher.requeue(event);
    assert_eq!(watcher.take_candidates().len(), 1);
}

#[test]
fn ignores_injected_context_messages() {
    let line = r#"{"type":"response_item","payload":{"type":"message","role":"user","internal_chat_message_metadata_passthrough":{"turn_id":"turn-1"},"content":[{"type":"input_text","text":"<environment_context>injected</environment_context>"}]}}"#;
    assert!(parse_line(line, "task-1").is_none());
}

#[test]
fn a_user_message_keeps_the_task_running() {
    let mut watcher = SessionWatcher::new(String::new(), PolicyState::default());
    watcher.initial_cutoff = None;
    watcher.handle(SessionEvent::Started {
        task_id: "task-1".into(),
        turn_id: "turn-1".into(),
        started_at: 10_000_000,
    });
    watcher.handle(SessionEvent::UserMessage {
        task_id: "task-1".into(),
        turn_id: "turn-1".into(),
        automatic: false,
        at: 11_000_000,
    });

    let snapshot = watcher.registry.snapshots().pop().unwrap();
    assert_eq!(snapshot.state, TaskState::Running);
    assert_eq!(snapshot.latest_turn_id.as_deref(), Some("turn-1"));
}

#[test]
fn parses_record_timestamp_for_user_messages() {
    let parsed = timestamp(Some(&Json::Str("2026-08-10T04:42:29.000Z".into()))).unwrap();
    assert_eq!(parsed, 1_786_336_949_000_000);
}

#[test]
fn ignores_partial_line_until_next_poll() {
    assert!(parse_line("{", "task-1").is_none());
}

const FAILURE_LINE: &str = r#"{"type":"event_msg","payload":{"type":"task_complete","turn_id":"turn-1","last_agent_message":null,"completed_at":COMPLETED,"error":{"message":"Selected model is at capacity","codex_error_info":"server_overloaded"}}}"#;

fn failure_line(completed_at_seconds: i64) -> String {
    FAILURE_LINE.replace("COMPLETED", &completed_at_seconds.to_string())
}

#[test]
fn waits_for_complete_jsonl_line_before_queueing() {
    let task_id = "123e4567-e89b-12d3-a456-426614174000";
    let path = format!("/sessions/rollout-2026-08-10T00-00-00-{task_id}.jsonl");
    let line = failure_line(1_786_336_949);
    let mut watcher = SessionWatcher::new_at(
        "/sessions".into(),
        PolicyState::default(),
        "继续",
        1_786_336_950_000_000,
    );
    let size = line.len() as u64;
    assert!(watcher.begin_file(&path, size, true));
    let start = watcher.delta_start(&path, size).unwrap();
    watcher.ingest_delta(&path, start, &line, size, Some(task_id));
    assert!(watcher.take_candidates().is_empty());

    let start = watcher.delta_start(&path, size + 1).unwrap();
    assert_eq!(start, size);
    watcher.ingest_delta(&path, start, "\n", 1, Some(task_id));
    assert_eq!(watcher.take_candidates().len(), 1);
}

#[test]
fn startup_does_not_queue_old_failure_from_recent_file() {
    let now = 1_786_336_949_000_000i64;
    let old_seconds = (now - CATCH_UP_MICROS) / 1_000_000 - 30;
    let line = format!("{}\n", failure_line(old_seconds));
    let mut watcher = SessionWatcher::new_at("/sessions".into(), PolicyState::default(), "继续", now);
    let path = "/sessions/rollout-2026-08-10T00-00-00-123e4567-e89b-12d3-a456-426614174000.jsonl";
    let size = line.len() as u64;
    assert!(watcher.begin_file(path, size, true));
    let start = watcher.delta_start(path, size).unwrap();
    watcher.ingest_delta(
        path,
        start,
        &line,
        size,
        Some("123e4567-e89b-12d3-a456-426614174000"),
    );
    watcher.finish_poll();
    assert!(watcher.take_candidates().is_empty());
}

#[test]
fn loads_latest_task_name_from_session_index() {
    let contents = [
        "{\"id\":\"task-1\",\"thread_name\":\"旧名称\"}\n",
        "not json\n",
        "{\"id\":\"task-1\",\"thread_name\":\"重新设计 APP 界面\"}\n",
    ]
    .join("");
    let (lines, _rest) = split_text(&contents);
    let task_names = task_names_from_lines(&lines);
    let found = task_names
        .iter()
        .find(|(id, _)| id == "task-1")
        .map(|(_, name)| name.as_str());
    assert_eq!(found, Some("重新设计 APP 界面"));
}

#[test]
fn loads_project_path_from_session_metadata() {
    let task_id = "123e4567-e89b-12d3-a456-426614174000";
    let first = format!(
        "{{\"type\":\"session_meta\",\"payload\":{{\"id\":\"{task_id}\",\"cwd\":\"/Users/example/Workspace/TurnMender\"}}}}"
    );
    let project_path = project_path_from_first_line(&first).unwrap();
    let mut watcher = watcher();
    watcher.record_project_paths(vec![(task_id.to_string(), project_path)]);
    watcher.handle(SessionEvent::Started {
        task_id: task_id.into(),
        turn_id: "turn-1".into(),
        started_at: 1_000_000,
    });
    let snapshot = watcher.registry.snapshots().pop().unwrap();
    assert_eq!(
        snapshot.project_path.as_deref(),
        Some("/Users/example/Workspace/TurnMender")
    );
}

#[test]
fn old_events_are_ignored_at_startup() {
    let mut watcher = SessionWatcher::new_at(String::new(), PolicyState::default(), "继续", 1_000_000_000);
    watcher.handle(SessionEvent::Started {
        task_id: "task-1".into(),
        turn_id: "turn-1".into(),
        started_at: 1_000_000_000 - CATCH_UP_MICROS - 1,
    });
    assert!(watcher.registry.snapshots().is_empty());
    watcher.handle(SessionEvent::Started {
        task_id: "task-1".into(),
        turn_id: "turn-2".into(),
        started_at: 1_000_000_000 - CATCH_UP_MICROS,
    });
    assert_eq!(watcher.registry.snapshots().len(), 1);
}

#[test]
fn handled_failure_is_not_queued_again() {
    let mut watcher = watcher();
    watcher.handle(SessionEvent::Failure(failure("task-1", "turn-1", 5_000_000)));
    let taken = watcher.take_candidates();
    assert_eq!(taken.len(), 1);
    watcher.mark_sent(&taken[0]);
    watcher.handle(SessionEvent::Failure(failure("task-1", "turn-1", 5_000_000)));
    assert!(watcher.take_candidates().is_empty());
}

#[test]
fn a_manual_message_cancels_queued_failures_and_resets_the_count() {
    let mut watcher = watcher();
    watcher.note_automatic_turn("task-1", "auto-1");
    assert_eq!(watcher.policy.chain_failures("task-1"), 1);
    watcher.handle(SessionEvent::Failure(failure("task-1", "turn-1", 5_000_000)));
    watcher.handle(SessionEvent::UserMessage {
        task_id: "task-1".into(),
        turn_id: "turn-2".into(),
        automatic: false,
        at: 6_000_000,
    });
    assert!(watcher.take_candidates().is_empty());
    assert_eq!(watcher.policy.chain_failures("task-1"), 0);
    assert!(watcher.policy.is_processed(&EventKey {
        task_id: "task-1".into(),
        turn_id: "turn-1".into()
    }));
}

#[test]
fn the_continuation_message_counts_as_automatic() {
    let mut watcher = watcher();
    let line = r#"{"type":"response_item","timestamp":20,"payload":{"type":"message","role":"user","turn_id":"turn-9","content":[{"type":"input_text","text":"  继续 "}]}}"#;
    let event = parse_line(line, "task-1").unwrap();
    match &event {
        SessionEvent::UserMessage { automatic, at, .. } => {
            assert!(*automatic);
            assert_eq!(*at, 20_000_000);
        }
        _ => panic!("wrong event"),
    }
    watcher.handle(event);
    assert_eq!(watcher.policy.chain_failures("task-1"), 1);
}

#[test]
fn newer_activity_supersedes_a_queued_failure() {
    let mut watcher = watcher();
    watcher.handle(SessionEvent::Failure(failure("task-1", "turn-1", 5_000_000)));
    watcher.handle(SessionEvent::Started {
        task_id: "task-1".into(),
        turn_id: "turn-2".into(),
        started_at: 6_000_000,
    });
    assert!(watcher.take_candidates().is_empty());
}

#[test]
fn candidates_come_earliest_first() {
    let mut watcher = watcher();
    watcher.handle(SessionEvent::Failure(failure("task-2", "turn-1", 9_000_000)));
    watcher.handle(SessionEvent::Failure(failure("task-1", "turn-1", 5_000_000)));
    let taken = watcher.take_candidates();
    assert_eq!(taken.len(), 2);
    assert_eq!(taken[0].key.task_id, "task-1");
    assert_eq!(taken[1].key.task_id, "task-2");
}

#[test]
fn task_id_comes_from_the_file_name() {
    assert_eq!(
        task_id_from_stem("rollout-2026-08-10T00-00-00-123e4567-e89b-12d3-a456-426614174000")
            .as_deref(),
        Some("123e4567-e89b-12d3-a456-426614174000")
    );
    assert_eq!(task_id_from_stem("rollout-2026-08-10"), None);
}

#[test]
fn fractional_seconds_are_kept_in_microseconds() {
    let value = Json::Number("12.5".into());
    assert_eq!(timestamp(Some(&value)), Some(12_500_000));
}

#[test]
fn a_failure_read_twice_is_queued_once() {
    let mut watcher = watcher();
    watcher.handle(SessionEvent::Failure(failure("task-1", "turn-1", 5_000_000)));
    watcher.handle(SessionEvent::Failure(failure("task-1", "turn-1", 5_000_000)));
    let taken = watcher.take_candidates();
    assert_eq!(taken.len(), 1);
    assert!(watcher.take_candidates().is_empty());
    watcher.requeue(taken[0].clone());
    assert_eq!(watcher.take_candidates().len(), 1);
}

#[test]
fn record_files_are_listed_again_every_five_seconds() {
    assert!(discovery_due(None));
    assert!(!discovery_due(Some(4_999)));
    assert!(discovery_due(Some(5_000)));
}

#[test]
fn milliseconds_become_microseconds_when_they_fit() {
    assert_eq!(micros_from_millis(1_700_000_000_123), Some(1_700_000_000_123_000));
    assert_eq!(micros_from_millis(-5), Some(-5_000));
    assert_eq!(micros_from_millis(i64::MAX / 100), None);
}
