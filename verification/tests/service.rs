use turnmender::classifier::{CapacityDecision, LastAgentMessageState};
use turnmender::events::{FailureEvent, SessionEvent};
use turnmender::policy::{EventKey, PolicyState};
use turnmender::service::{
    check_retry_message, clamp_chain_limit, log_needs_rotation, effective_retry, CandidatePlan, ContinuationStatus,
    ContinuationStatusKind, GoalDecision, GuardConfig, LogNote, Runtime,
    DEFAULT_AUTOMATIC_CHAIN_LIMIT,
};
use turnmender::state::{ChannelStatus, TaskState};
use turnmender::transport::{GoalRecovery, SendError, SendReceipt};

fn failure(task: &str, turn: &str, completed_at: i64) -> FailureEvent {
    FailureEvent {
        key: EventKey {
            task_id: task.into(),
            turn_id: turn.into(),
        },
        completed_at,
        error_info: "server_overloaded".into(),
        last_agent_message: LastAgentMessageState::ExplicitlyEmpty,
        decision: CapacityDecision::Eligible,
    }
}

fn runtime() -> Runtime {
    let mut r = Runtime::new(&GuardConfig::default(), "/sessions".into(), PolicyState::default());
    r.watcher.initial_cutoff = None;
    r.start();
    r
}

fn queued(r: &mut Runtime, event: FailureEvent) -> FailureEvent {
    r.watcher.handle(SessionEvent::Failure(event));
    let mut taken = r.take_candidates(ChannelStatus::Ready);
    assert_eq!(taken.len(), 1);
    taken.pop().unwrap()
}

fn state_of(r: &Runtime, task: &str) -> TaskState {
    r.task_snapshots()
        .into_iter()
        .find(|s| s.task_id == task)
        .unwrap()
        .state
}

#[test]
fn a_new_runtime_uses_the_stored_settings() {
    let config = GuardConfig {
        auto_retry_enabled: false,
        automatic_chain_limit: 0,
        retry_message: "  please go on  ".into(),
    };
    let r = Runtime::new(&config, "/sessions".into(), PolicyState::default());
    assert!(!r.running);
    assert!(!r.auto_retry_enabled);
    assert_eq!(r.automatic_chain_limit, 1);
    assert_eq!(r.status.kind, ContinuationStatusKind::Preparing);
    assert_eq!(r.config().retry_message, "please go on");
    let defaults = GuardConfig::default();
    assert!(defaults.auto_retry_enabled);
    assert_eq!(defaults.automatic_chain_limit, DEFAULT_AUTOMATIC_CHAIN_LIMIT);
    assert_eq!(defaults.retry_message, "继续");
}

#[test]
fn accepted_continuation_counts_and_runs_the_task() {
    let mut r = runtime();
    let event = queued(&mut r, failure("task-1", "turn-1", 5_000_000));
    let (plan, note) = r.begin_candidate(&event, ChannelStatus::Ready);
    assert_eq!(plan, CandidatePlan::RecoverGoal);
    assert!(note.is_none());
    assert_eq!(r.status.kind, ContinuationStatusKind::Continuing);
    let request = match r.after_goal(&event, Ok(GoalRecovery::NoGoal), 6_000_000) {
        GoalDecision::Send(request) => request,
        _ => panic!("expected a request"),
    };
    assert_eq!(request.task_id, "task-1");
    assert_eq!(request.failed_turn_id, "turn-1");
    assert_eq!(request.message, "继续");
    let receipt = SendReceipt {
        accepted: true,
        new_turn_id: "turn-2".into(),
        protocol_version: 1,
    };
    let note = r.after_send(&event, Ok(receipt), 7_000_000);
    assert_eq!(
        note.message(),
        "任务 task-1 自动继续成功：失败轮次 turn-1，新轮次 turn-2"
    );
    assert_eq!(r.status.kind, ContinuationStatusKind::Continued);
    assert_eq!(r.watcher.policy.chain_failures("task-1"), 1);
    assert!(r.watcher.policy.is_automatic_turn("turn-2"));
    assert_eq!(state_of(&r, "task-1"), TaskState::Running);
    assert_eq!(r.task_snapshots()[0].continuation_count, 1);
}

#[test]
fn an_incomplete_receipt_stops_automatic_handling() {
    let mut r = runtime();
    let event = queued(&mut r, failure("task-1", "turn-1", 5_000_000));
    r.begin_candidate(&event, ChannelStatus::Ready);
    let receipt = SendReceipt {
        accepted: true,
        new_turn_id: String::new(),
        protocol_version: 1,
    };
    let note = r.after_send(&event, Ok(receipt), 7_000_000);
    assert_eq!(note.message(), "任务 task-1 回执不完整，停止自动补发");
    assert_eq!(r.status.kind, ContinuationStatusKind::ConfirmSend);
    assert_eq!(r.watcher.policy.chain_failures("task-1"), 0);
    assert_eq!(state_of(&r, "task-1"), TaskState::Unknown);
}

#[test]
fn a_failed_send_asks_for_manual_continuation() {
    let mut r = runtime();
    let event = queued(&mut r, failure("task-1", "turn-1", 5_000_000));
    r.begin_candidate(&event, ChannelStatus::Ready);
    let note = r.after_send(&event, Err(SendError::NotFound), 7_000_000);
    assert_eq!(note.message(), "任务 task-1 发送失败：任务不存在或没有持有者");
    assert_eq!(r.status.kind, ContinuationStatusKind::ManualContinue);
    assert_eq!(state_of(&r, "task-1"), TaskState::Unavailable);
    r.watcher.handle(SessionEvent::Failure(failure("task-1", "turn-1", 5_000_000)));
    assert!(r.take_candidates(ChannelStatus::Ready).is_empty());
}

#[test]
fn paused_continuation_keeps_the_failure_waiting() {
    let mut r = runtime();
    r.set_auto_retry(false);
    let event = queued(&mut r, failure("task-1", "turn-1", 5_000_000));
    let (plan, note) = r.begin_candidate(&event, ChannelStatus::Ready);
    assert_eq!(plan, CandidatePlan::Waiting);
    assert!(note.is_none());
    assert_eq!(r.status.kind, ContinuationStatusKind::TaskWaiting);
    assert_eq!(r.take_candidates(ChannelStatus::Ready).len(), 1);
}

#[test]
fn the_chain_limit_protects_a_task() {
    let mut r = runtime();
    assert_eq!(r.set_automatic_chain_limit(1), 1);
    r.watcher.note_automatic_turn("task-1", "auto-1");
    let event = queued(&mut r, failure("task-1", "turn-1", 5_000_000));
    let (plan, note) = r.begin_candidate(&event, ChannelStatus::Ready);
    assert_eq!(plan, CandidatePlan::ChainProtected);
    assert_eq!(
        note.unwrap().message(),
        "任务 task-1 连续自动继续达到上限（1 次），转为人工处理"
    );
    assert_eq!(r.status.kind, ContinuationStatusKind::ChainProtected);
    assert_eq!(state_of(&r, "task-1"), TaskState::Unknown);
}

#[test]
fn an_unready_channel_is_not_worked_around() {
    let mut r = runtime();
    let event = queued(&mut r, failure("task-1", "turn-1", 5_000_000));
    let (plan, note) = r.begin_candidate(&event, ChannelStatus::Unavailable);
    assert_eq!(plan, CandidatePlan::ChannelUnavailable);
    assert_eq!(
        note.unwrap().message(),
        "任务 task-1 消息通道不可用，未切换到其他发送方式"
    );
    assert_eq!(r.status.kind, ContinuationStatusKind::ManualContinue);
}

#[test]
fn a_resumed_goal_sends_no_message() {
    let mut r = runtime();
    let event = queued(&mut r, failure("task-1", "turn-1", 5_000_000));
    r.begin_candidate(&event, ChannelStatus::Ready);
    match r.after_goal(&event, Ok(GoalRecovery::Resumed), 6_000_000) {
        GoalDecision::Finished(note) => {
            assert_eq!(note.message(), "任务 task-1 的目标已恢复为进行中")
        }
        _ => panic!("nothing should be sent"),
    }
    assert_eq!(r.status.kind, ContinuationStatusKind::Continued);
    assert_eq!(r.watcher.policy.chain_failures("task-1"), 0);
    assert_eq!(state_of(&r, "task-1"), TaskState::Running);
}

#[test]
fn an_unrecoverable_goal_is_left_to_the_user() {
    let mut r = runtime();
    let event = queued(&mut r, failure("task-1", "turn-1", 5_000_000));
    r.begin_candidate(&event, ChannelStatus::Ready);
    match r.after_goal(&event, Ok(GoalRecovery::NotRecoverable("blocked".into())), 6_000_000) {
        GoalDecision::Finished(note) => assert_eq!(
            note.message(),
            "任务 task-1 的目标状态为 blocked，转为人工处理"
        ),
        _ => panic!("nothing should be sent"),
    }
    assert_eq!(state_of(&r, "task-1"), TaskState::Unknown);
}

#[test]
fn monitoring_failures_are_logged_once() {
    let mut r = runtime();
    let first = r.watch_failed("disk gone");
    assert_eq!(first.unwrap().message(), "任务记录监听失败：disk gone");
    assert!(r.watch_failed("disk gone").is_none());
    assert_eq!(r.status.kind, ContinuationStatusKind::WatchFailed);
    assert_eq!(r.status.detail.as_deref(), Some("disk gone"));
    let back = r.watch_succeeded(ChannelStatus::Unsupported);
    assert_eq!(back.unwrap().message(), "任务记录监听已恢复");
    assert_eq!(r.status.kind, ContinuationStatusKind::WatchingUnsupported);
    assert!(r.watch_succeeded(ChannelStatus::Ready).is_none());
}

#[test]
fn a_starting_service_shows_it_watches_once_idle() {
    let mut r = runtime();
    assert_eq!(r.status.kind, ContinuationStatusKind::Preparing);
    assert!(r.take_candidates(ChannelStatus::Ready).is_empty());
    assert_eq!(r.status.kind, ContinuationStatusKind::Watching);
}

#[test]
fn policy_saves_are_tracked() {
    let mut r = runtime();
    assert!(!r.prepare_policy_save());
    r.watcher.note_automatic_turn("task-1", "t");
    assert!(r.prepare_policy_save());
    let note = r.policy_save_failed("read-only");
    assert_eq!(note.unwrap().message(), "无法保存续行状态：read-only");
    assert!(r.policy_save_failed("read-only").is_none());
    assert_eq!(r.policy_saved().unwrap().message(), "续行状态保存已恢复");
    assert!(!r.prepare_policy_save());
}

#[test]
fn settings_are_checked() {
    let mut r = runtime();
    assert_eq!(
        r.set_continuation_settings(5, "   "),
        Err("继续指令不能为空".to_string())
    );
    let long: String = std::iter::repeat('a').take(1001).collect();
    assert_eq!(
        r.set_continuation_settings(5, &long),
        Err("继续指令不能超过 1000 个字符".to_string())
    );
    assert_eq!(r.automatic_chain_limit, DEFAULT_AUTOMATIC_CHAIN_LIMIT);
    assert_eq!(r.set_continuation_settings(0, " go on "), Ok(()));
    assert_eq!(r.automatic_chain_limit, 1);
    assert_eq!(r.config().retry_message, "go on");
    assert_eq!(clamp_chain_limit(0), 1);
    assert_eq!(clamp_chain_limit(7), 7);
    assert_eq!(check_retry_message(" x "), Ok("x".to_string()));
    assert_eq!(effective_retry(""), "继续");
}

#[test]
fn dismissing_and_resetting_by_trimmed_id() {
    let mut r = runtime();
    r.watcher.handle(SessionEvent::Started {
        task_id: "task-1".into(),
        turn_id: "turn-1".into(),
        started_at: 1_000_000,
    });
    r.watcher.note_automatic_turn("task-1", "auto");
    assert!(!r.dismiss_task("   "));
    assert!(r.reset_continuation_count(" task-1 "));
    assert!(!r.reset_continuation_count("task-1"));
    assert_eq!(r.watcher.policy.chain_failures("task-1"), 0);
    assert!(r.dismiss_task(" task-1 "));
    assert!(r.task_snapshots().is_empty());
}

#[test]
fn the_snapshot_shows_settings_and_status() {
    let mut r = runtime();
    r.stop();
    let s = r.snapshot("linux", "/logs/turnmender.log", ChannelStatus::Unsupported);
    assert!(!s.running);
    assert_eq!(s.status.kind, ContinuationStatusKind::Stopped);
    assert_eq!(s.automatic_chain_limit_min, 1);
    assert_eq!(s.automatic_chain_limit_max, u32::MAX);
    assert_eq!(s.retry_message_max_chars, 1000);
    assert_eq!(s.default_retry_message, "继续");
    assert_eq!(s.platform, "linux");
    assert_eq!(s.session_root, "/sessions");
    assert_eq!(s.log_path, "/logs/turnmender.log");
    assert_eq!(s.channel_status, ChannelStatus::Unsupported);
    let status = ContinuationStatus::watching(ChannelStatus::Unknown);
    assert_eq!(status.kind, ContinuationStatusKind::WatchingChannelUnavailable);
}

#[test]
fn paused_candidates_all_come_back() {
    let mut r = runtime();
    r.set_auto_retry(false);
    r.watcher.handle(SessionEvent::Failure(failure("task-2", "turn-2", 7_000_000)));
    r.watcher.handle(SessionEvent::Failure(failure("task-1", "turn-1", 5_000_000)));
    let taken = r.take_candidates(ChannelStatus::Ready);
    assert_eq!(taken.len(), 2);
    assert_eq!(taken[0].key.task_id, "task-1");
    for event in &taken {
        let (plan, _) = r.begin_candidate(event, ChannelStatus::Ready);
        assert_eq!(plan, CandidatePlan::Waiting);
    }
    let again = r.take_candidates(ChannelStatus::Ready);
    assert_eq!(again.len(), 2);
    assert_eq!(again[0].key.task_id, "task-1");
    assert_eq!(again[1].key.task_id, "task-2");
    assert!(!r.watcher.policy.is_processed(&again[0].key));
}

#[test]
fn the_log_is_moved_aside_before_it_grows_past_its_limit() {
    assert!(!log_needs_rotation(100, 20, 120));
    assert!(log_needs_rotation(100, 21, 120));
    assert!(log_needs_rotation(u64::MAX, 1, u64::MAX));
}
