use turnmender::state::{TaskRegistry, TaskState};

#[test]
fn normal_completion_returns_running_task_to_idle() {
    let mut registry = TaskRegistry::default();
    registry.started("task-1", "turn-1", 10_000_000);
    registry.completed("task-1", "turn-1", 12_000_000);
    let snapshot = registry.snapshots().pop().unwrap();
    assert_eq!(snapshot.state, TaskState::Idle);
    assert!(snapshot.pending_failure.is_none());
}

#[test]
fn older_completion_does_not_replace_newer_running_turn() {
    let mut registry = TaskRegistry::default();
    registry.started("task-1", "turn-new", 20_000_000);
    registry.completed("task-1", "turn-old", 12_000_000);
    let snapshot = registry.snapshots().pop().unwrap();
    assert_eq!(snapshot.state, TaskState::Running);
    assert_eq!(snapshot.latest_turn_id.as_deref(), Some("turn-new"));
}

#[test]
fn task_name_is_included_in_snapshot() {
    let mut registry = TaskRegistry::default();
    registry.started("task-1", "turn-1", 10_000_000);
    registry.set_name("task-1", "重新设计 APP 界面");

    let snapshot = registry.snapshots().pop().unwrap();
    assert_eq!(snapshot.task_name.as_deref(), Some("重新设计 APP 界面"));
}

#[test]
fn project_path_is_included_in_snapshot() {
    let mut registry = TaskRegistry::default();
    registry.started("task-1", "turn-1", 10_000_000);
    registry.set_project_path("task-1", "/Users/example/Workspace/CodexGuard");

    let snapshot = registry.snapshots().pop().unwrap();
    assert_eq!(
        snapshot.project_path.as_deref(),
        Some("/Users/example/Workspace/CodexGuard")
    );
}

#[test]
fn dismissed_task_returns_after_new_activity() {
    let mut registry = TaskRegistry::default();
    registry.started("task-1", "turn-1", 10_000_000);

    assert!(registry.dismiss("task-1"));
    assert!(registry.snapshots().is_empty());
    assert!(!registry.dismiss("missing-task"));

    registry.started("task-1", "turn-2", 20_000_000);
    let snapshot = registry.snapshots().pop().unwrap();
    assert_eq!(snapshot.latest_turn_id.as_deref(), Some("turn-2"));
}

#[test]
fn failure_marks_task_waiting_with_pending_turn() {
    let mut registry = TaskRegistry::default();
    registry.started("task-1", "turn-1", 10_000_000);
    registry.failure_waiting("task-1", "turn-1", 11_000_000);
    let snapshot = registry.snapshots().pop().unwrap();
    assert_eq!(snapshot.state, TaskState::WaitingContinuation);
    assert_eq!(snapshot.pending_failure.as_deref(), Some("turn-1"));
    assert_eq!(snapshot.last_activity_at, Some(11_000_000));
}

#[test]
fn latest_start_never_moves_back() {
    let mut registry = TaskRegistry::default();
    registry.started("task-1", "turn-2", 20_000_000);
    registry.started("task-1", "turn-1", 10_000_000);
    assert_eq!(registry.latest_started_at("task-1"), Some(20_000_000));
    assert_eq!(registry.latest_started_at("missing"), None);
}

#[test]
fn snapshots_run_from_most_recent_activity() {
    let mut registry = TaskRegistry::default();
    registry.started("old", "t", 10_000_000);
    registry.started("new", "t", 30_000_000);
    registry.started("mid", "t", 20_000_000);
    let ids: Vec<String> = registry
        .snapshots()
        .into_iter()
        .map(|s| s.task_id)
        .collect();
    assert_eq!(ids, vec!["new".to_string(), "mid".to_string(), "old".to_string()]);
}

#[test]
fn snapshots_show_at_most_one_hundred_tasks() {
    let mut registry = TaskRegistry::default();
    for i in 0..105i64 {
        registry.started(&format!("task-{i}"), "t", i * 1_000_000);
    }
    let shown = registry.snapshots();
    assert_eq!(shown.len(), 100);
    assert_eq!(shown[0].task_id, "task-104");
    assert!(shown.iter().all(|s| s.task_id != "task-0"));
}

#[test]
fn names_sync_to_known_tasks_only() {
    let mut registry = TaskRegistry::default();
    registry.started("task-1", "t", 1_000_000);
    registry.sync_names(&vec![
        ("task-1".to_string(), "名称".to_string()),
        ("task-2".to_string(), "other".to_string()),
    ]);
    let shown = registry.snapshots();
    assert_eq!(shown.len(), 1);
    assert_eq!(shown[0].task_name.as_deref(), Some("名称"));
    assert_eq!(registry.task_name("task-2"), None);
}
