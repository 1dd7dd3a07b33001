use turnmender::service::{ContinuationSnapshot, ContinuationStatus, ContinuationStatusKind};
use turnmender::state::{ChannelStatus, TaskSnapshot, TaskState};
use turnmender::tray::{
    codex_thread_url, colored_icon_pixels, compact_menu_text, escape_menu_mnemonics,
    menu_action, task_count_label, tray_menu_entries, tray_menu_model, tray_status_label,
    tray_task_reason, tray_tone, tray_tooltip, truncate_menu_text, AppLocale, MenuAction,
    MenuEntry, TrayTone, TRAY_TASK_LIMIT,
};

fn task(task_id: &str, state: TaskState, name: &str, continuation_count: u32) -> TaskSnapshot {
    TaskSnapshot {
        task_id: task_id.into(),
        task_name: Some(name.into()),
        project_path: None,
        state,
        latest_turn_id: None,
        last_activity_at: Some(1_000_000),
        continuation_count,
        pending_failure: None,
        channel_status: ChannelStatus::Ready,
    }
}

fn snapshot(tasks: Vec<TaskSnapshot>) -> ContinuationSnapshot {
    ContinuationSnapshot {
        running: true,
        auto_retry_enabled: true,
        automatic_chain_limit: 10,
        automatic_chain_limit_min: 1,
        automatic_chain_limit_max: 100,
        retry_message: "继续".into(),
        default_retry_message: "继续".into(),
        retry_message_max_chars: 1000,
        platform: "macos".into(),
        session_root: "/tmp/sessions".into(),
        log_path: "/tmp/turnmender.log".into(),
        channel_status: ChannelStatus::Ready,
        status: ContinuationStatus {
            kind: ContinuationStatusKind::Watching,
            detail: None,
        },
        tasks,
    }
}

#[test]
fn builds_codex_thread_deep_link_from_task_id() {
    assert_eq!(
        codex_thread_url("123e4567-e89b-12d3-a456-426614174000").unwrap(),
        "codex://threads/123e4567-e89b-12d3-a456-426614174000"
    );
}

#[test]
fn rejects_invalid_codex_thread_id() {
    assert!(codex_thread_url("not-a-task-id").is_err());
}

#[test]
fn tray_menu_lists_only_three_attention_tasks() {
    let snapshot = snapshot(vec![
        task("task-1", TaskState::Unknown, "修复 A&B", 0),
        task("task-2", TaskState::Unavailable, "任务二", 0),
        task("task-3", TaskState::WaitingContinuation, "任务三", 0),
        task("task-4", TaskState::Unknown, "任务四", 10),
        task("task-idle", TaskState::Idle, "空闲任务", 0),
    ]);

    let model = tray_menu_model(&snapshot, AppLocale::ZhCn);

    assert_eq!(model.attention_count, 4);
    assert_eq!(model.attention_tasks.len(), TRAY_TASK_LIMIT);
    assert_eq!(model.attention_tasks[0].task_id, "task-1");
    assert!(model.attention_tasks[0].label.contains("A&&B"));
    assert!(!model
        .attention_tasks
        .iter()
        .any(|task| task.task_id == "task-idle"));
}

#[test]
fn tray_status_explains_why_waiting_tasks_need_attention() {
    let mut snapshot = snapshot(vec![task(
        "task-1",
        TaskState::WaitingContinuation,
        "等待中的任务",
        0,
    )]);
    snapshot.auto_retry_enabled = false;

    let model = tray_menu_model(&snapshot, AppLocale::ZhCn);

    assert_eq!(model.tone, TrayTone::Yellow);
    assert_eq!(model.status_label, "仅监听 · 1 个任务等待处理");
    assert!(model.attention_tasks[0].label.ends_with("自动继续已暂停"));
}

#[test]
fn tray_status_uses_english_singular_task_label() {
    let snapshot = snapshot(vec![task("task-1", TaskState::Running, "Running task", 0)]);

    let model = tray_menu_model(&snapshot, AppLocale::En);

    assert_eq!(model.status_label, "Continuation ready · 1 task running");
}

#[test]
fn locale_codes_starting_with_zh_are_chinese() {
    assert_eq!(AppLocale::from_code("zh_CN.UTF-8"), AppLocale::ZhCn);
    assert_eq!(AppLocale::from_code("  ZH-tw "), AppLocale::ZhCn);
    assert_eq!(AppLocale::from_code("en_US"), AppLocale::En);
    assert_eq!(AppLocale::from_code("z"), AppLocale::En);
}

#[test]
fn tones_follow_the_worst_state() {
    let mut stopped = snapshot(vec![]);
    stopped.running = false;
    assert_eq!(tray_tone(&stopped), TrayTone::Red);
    assert_eq!(tray_tone(&snapshot(vec![])), TrayTone::Green);
    assert_eq!(
        tray_tone(&snapshot(vec![task("t", TaskState::Unavailable, "n", 0)])),
        TrayTone::Red
    );
    let mut unready = snapshot(vec![]);
    unready.channel_status = ChannelStatus::Unavailable;
    assert_eq!(tray_tone(&unready), TrayTone::Yellow);
    assert_eq!(TrayTone::Green.color(), [39, 183, 126]);
    assert_eq!(TrayTone::Yellow.color(), [230, 161, 46]);
    assert_eq!(TrayTone::Red.color(), [223, 91, 98]);
}

#[test]
fn status_lines_in_both_languages() {
    let critical = snapshot(vec![
        task("a", TaskState::Unknown, "n", 0),
        task("b", TaskState::Unavailable, "n", 0),
    ]);
    assert_eq!(tray_status_label(&critical, AppLocale::ZhCn), "需要处理 · 2 个任务");
    assert_eq!(
        tray_status_label(&critical, AppLocale::En),
        "Action required · 2 tasks"
    );
    let mut failed = snapshot(vec![]);
    failed.status.kind = ContinuationStatusKind::WatchFailed;
    assert_eq!(
        tray_status_label(&failed, AppLocale::En),
        "Status: monitoring failed"
    );
    let mut unsupported = snapshot(vec![]);
    unsupported.channel_status = ChannelStatus::Unsupported;
    assert_eq!(
        tray_status_label(&unsupported, AppLocale::ZhCn),
        "正在监听 · 当前平台仅支持监听"
    );
    let mut paused = snapshot(vec![
        task("a", TaskState::WaitingContinuation, "n", 0),
        task("b", TaskState::WaitingContinuation, "n", 0),
    ]);
    paused.auto_retry_enabled = false;
    assert_eq!(
        tray_status_label(&paused, AppLocale::En),
        "Monitor only · 2 tasks waiting"
    );
    assert_eq!(
        tray_status_label(&snapshot(vec![]), AppLocale::ZhCn),
        "状态：续行就绪"
    );
}

#[test]
fn reasons_name_the_limit_reached() {
    let s = snapshot(vec![]);
    let limited = task("t", TaskState::Unknown, "n", 10);
    assert_eq!(tray_task_reason(&limited, &s, AppLocale::ZhCn), "已达 10 次上限");
    assert_eq!(
        tray_task_reason(&limited, &s, AppLocale::En),
        "10-continuation limit reached"
    );
    let review = task("t", TaskState::Unknown, "n", 0);
    assert_eq!(tray_task_reason(&review, &s, AppLocale::En), "needs review");
    let idle = task("t", TaskState::Idle, "n", 0);
    assert_eq!(tray_task_reason(&idle, &s, AppLocale::En), "");
}

#[test]
fn menu_text_is_compacted_cut_and_escaped() {
    assert_eq!(compact_menu_text("  a \n\t b   c "), "a b c");
    assert_eq!(compact_menu_text(" \t "), "");
    assert_eq!(truncate_menu_text("abcdef", 3), "abc…");
    assert_eq!(truncate_menu_text("abc", 3), "abc");
    assert_eq!(escape_menu_mnemonics("a&b&&c"), "a&&b&&&&c");
    assert_eq!(task_count_label(AppLocale::ZhCn, 3, "运行中", "running"), "3 个任务运行中");
    assert_eq!(task_count_label(AppLocale::En, 1, "", ""), "1 task");
    assert_eq!(task_count_label(AppLocale::En, 2, "", "running"), "2 tasks running");
}

#[test]
fn unnamed_tasks_are_shown_as_unnamed() {
    let mut t = task("task-1", TaskState::Unavailable, "   ", 0);
    let model = tray_menu_model(&snapshot(vec![t.duplicate()]), AppLocale::En);
    assert_eq!(
        model.attention_tasks[0].label,
        "Unnamed task · manual continuation required"
    );
    t.task_name = Some("a very long task name that goes on and on".into());
    let model = tray_menu_model(&snapshot(vec![t]), AppLocale::En);
    assert_eq!(
        model.attention_tasks[0].label,
        "a very long task name that goe… · manual continuation required"
    );
}

#[test]
fn uppercase_and_braced_ids_give_the_canonical_link() {
    assert_eq!(
        codex_thread_url(" 123E4567E89B12D3A456426614174000 ").unwrap(),
        "codex://threads/123e4567-e89b-12d3-a456-426614174000"
    );
    assert_eq!(codex_thread_url("").unwrap_err(), "任务 ID 无效");
}

#[test]
fn the_menu_lists_tasks_between_status_and_window_items() {
    let snapshot = snapshot(vec![
        task("task-1", TaskState::Unknown, "一", 0),
        task("task-2", TaskState::Unknown, "二", 0),
        task("task-3", TaskState::Unknown, "三", 0),
        task("task-4", TaskState::Unknown, "四", 0),
    ]);
    let model = tray_menu_model(&snapshot, AppLocale::En);
    let entries = tray_menu_entries(&model);
    let ids: Vec<String> = entries
        .iter()
        .map(|e| match e {
            MenuEntry::Item { id, .. } | MenuEntry::Check { id, .. } => id.clone(),
            MenuEntry::Separator => "-".to_string(),
        })
        .collect();
    assert_eq!(
        ids,
        vec![
            "status",
            "auto-retry",
            "-",
            "attention-heading",
            "open-task:task-1",
            "open-task:task-2",
            "open-task:task-3",
            "view-all-tasks",
            "-",
            "show",
            "settings",
            "view-log",
            "-",
            "quit"
        ]
    );
    assert_eq!(
        entries[3],
        MenuEntry::Item {
            id: "attention-heading".into(),
            label: "Tasks needing attention (4)".into(),
            enabled: false
        }
    );
    assert_eq!(tray_tooltip(&model), "TurnMender · Action required · 4 tasks");
    let quiet = tray_menu_model(&super_snapshot_empty(), AppLocale::ZhCn);
    let entries = tray_menu_entries(&quiet);
    assert_eq!(entries.len(), 8);
    assert_eq!(
        entries[1],
        MenuEntry::Check {
            id: "auto-retry".into(),
            label: "自动继续".into(),
            checked: true
        }
    );
}

fn super_snapshot_empty() -> ContinuationSnapshot {
    snapshot(vec![])
}

#[test]
fn menu_ids_choose_actions() {
    assert_eq!(menu_action("show"), MenuAction::ShowWindow);
    assert_eq!(menu_action("view-all-tasks"), MenuAction::ShowWindow);
    assert_eq!(menu_action("settings"), MenuAction::ShowSettings);
    assert_eq!(menu_action("auto-retry"), MenuAction::ToggleAutoRetry);
    assert_eq!(menu_action("view-log"), MenuAction::ViewLog);
    assert_eq!(menu_action("quit"), MenuAction::Quit);
    assert_eq!(
        menu_action("open-task:abc"),
        MenuAction::OpenTask("abc".into())
    );
    assert_eq!(menu_action("open-task"), MenuAction::Ignore);
    assert_eq!(menu_action("status"), MenuAction::Ignore);
}

#[test]
fn the_icon_takes_the_tone_and_keeps_opacity() {
    let pixels = vec![1, 2, 3, 200, 4, 5, 6, 0, 9];
    assert_eq!(
        colored_icon_pixels(&pixels, TrayTone::Red.color()),
        vec![223, 91, 98, 200, 223, 91, 98, 0]
    );
}

#[test]
fn braced_and_urn_task_ids_open_the_same_link() {
    let link = "codex://threads/123e4567-e89b-12d3-a456-426614174000";
    assert_eq!(
        codex_thread_url("{123E4567-E89B-12D3-A456-426614174000}").unwrap(),
        link
    );
    assert_eq!(
        codex_thread_url("URN:uuid:123e4567-e89b-12d3-a456-426614174000").unwrap(),
        link
    );
    assert!(codex_thread_url("123e4567e-89b-12d3-a456-426614174000").is_err());
    assert!(codex_thread_url("123e4567-e89b-12d3-a456-42661417400g").is_err());
}
