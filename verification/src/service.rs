//! The continuation service's decisions: whether a failed turn is continued,
//! what is sent, what the answer means, and what the service shows.
//!
//! Talking to the channel, saving files and writing the log are the caller's
//! part; each step here takes what came back and says what to do next.

use vstd::prelude::*;

use crate::clock::Micros;
use crate::events::{FailureEvent, DEFAULT_RETRY_MESSAGE};
use crate::policy::{chain_count, PolicyState};
use crate::state::{opt_view, ChannelStatus, SnapshotView, TaskSnapshot, TaskState, Tasks};
use crate::text::{
    chars_of, concat2, decimal, decimal_string, owned, push_str, str_eq, trim, trim_end, trim_start,
    trimmed,
};
use crate::transport::{
    send_error_text, GoalRecovery, GoalRecoveryView, ReceiptView, SendError, SendErrorView, SendReceipt,
    SendRequest,
};
use crate::watcher::{
    by_completion, emptied, keys_of, law_taken_failure_can_be_requeued, lemma_by_completion_single,
    noted_turn, requeued, settle, SessionWatcher, WatcherView,
};

verus! {

/// The least consecutive automatic continuations a task may have.
pub const MIN_AUTOMATIC_CHAIN_LIMIT: u32 = 1;

/// The most consecutive automatic continuations that can be set.
pub const MAX_AUTOMATIC_CHAIN_LIMIT: u32 = u32::MAX;

/// The consecutive automatic continuations allowed unless the user sets
/// another limit.
pub const DEFAULT_AUTOMATIC_CHAIN_LIMIT: u32 = 50;

/// The longest continuation message, in characters.
pub const RETRY_MESSAGE_MAX_CHARS: usize = 1000;

/// How many handled failures are kept when the policy is saved.
pub const MAX_PROCESSED_KEPT: usize = 1000;

/// The size, in bytes, at which the log is moved aside.
pub const MAX_LOG_BYTES: u64 = 5 * 1024 * 1024;

/// Whether a log of `current` bytes must be moved aside before `incoming`
/// more bytes are written, so that it stays within `max` bytes.
pub fn log_needs_rotation(current: u64, incoming: u64, max: u64) -> (r: bool)
    ensures
        r == (current + incoming > max),
{
    if current > u64::MAX - incoming {
        true
    } else {
        current + incoming > max
    }
}

/// What the service is doing, as shown to the user.
#[derive(Debug, Clone, Copy, PartialEq, Eq, Structural)]
pub enum ContinuationStatusKind {
    Preparing,
    WatchFailed,
    Watching,
    WatchingUnsupported,
    WatchingChannelUnavailable,
    TaskWaiting,
    ChainProtected,
    ManualContinue,
    Continuing,
    Continued,
    ConfirmSend,
    Stopped,
}

/// The service's status, with an explanation when monitoring failed.
#[derive(Debug)]
pub struct ContinuationStatus {
    pub kind: ContinuationStatusKind,
    pub detail: Option<String>,
}

/// What a [`ContinuationStatus`] holds.
pub struct StatusView {
    pub kind: ContinuationStatusKind,
    pub detail: Option<Seq<char>>,
}

impl View for ContinuationStatus {
    type V = StatusView;

    open spec fn view(&self) -> StatusView {
        StatusView { kind: self.kind, detail: opt_view(self.detail) }
    }
}

/// The status kind shown while watching with the channel in `channel`.
pub open spec fn watching_kind(channel: ChannelStatus) -> ContinuationStatusKind {
    match channel {
        ChannelStatus::Ready => ContinuationStatusKind::Watching,
        ChannelStatus::Unsupported => ContinuationStatusKind::WatchingUnsupported,
        _ => ContinuationStatusKind::WatchingChannelUnavailable,
    }
}

/// A plain status.
pub open spec fn plain(kind: ContinuationStatusKind) -> StatusView {
    StatusView { kind, detail: None }
}

impl ContinuationStatus {
    /// A status without explanation.
    pub fn new(kind: ContinuationStatusKind) -> (r: ContinuationStatus)
        ensures
            r@ == plain(kind),
    {
        ContinuationStatus { kind, detail: None }
    }

    /// Monitoring failed with `error`.
    pub fn watch_failed(error: &str) -> (r: ContinuationStatus)
        ensures
            r@ == (StatusView { kind: ContinuationStatusKind::WatchFailed, detail: Some(error@) }),
    {
        ContinuationStatus { kind: ContinuationStatusKind::WatchFailed, detail: Some(owned(error)) }
    }

    /// Watching, with the channel in `channel_status`.
    pub fn watching(channel_status: ChannelStatus) -> (r: ContinuationStatus)
        ensures
            r@ == plain(watching_kind(channel_status)),
    {
        match channel_status {
            ChannelStatus::Ready => ContinuationStatus::new(ContinuationStatusKind::Watching),
            ChannelStatus::Unsupported => ContinuationStatus::new(
                ContinuationStatusKind::WatchingUnsupported,
            ),
            _ => ContinuationStatus::new(ContinuationStatusKind::WatchingChannelUnavailable),
        }
    }

    /// A copy of this status.
    pub fn duplicate(&self) -> (r: ContinuationStatus)
        ensures
            r@ == self@,
    {
        ContinuationStatus { kind: self.kind, detail: crate::state::clone_opt(&self.detail) }
    }
}

/// The settings of the service.
#[derive(Debug)]
pub struct GuardConfig {
    pub auto_retry_enabled: bool,
    pub automatic_chain_limit: u32,
    pub retry_message: String,
}

/// Whether automatic continuation is on unless the user turned it off.
pub fn default_auto_retry_enabled() -> (r: bool)
    ensures
        r,
{
    true
}

impl Default for GuardConfig {
    fn default() -> (r: GuardConfig)
        ensures
            r.auto_retry_enabled,
            r.automatic_chain_limit == DEFAULT_AUTOMATIC_CHAIN_LIMIT,
            r.retry_message@ == DEFAULT_RETRY_MESSAGE@,
    {
        GuardConfig {
            auto_retry_enabled: default_auto_retry_enabled(),
            automatic_chain_limit: DEFAULT_AUTOMATIC_CHAIN_LIMIT,
            retry_message: owned(DEFAULT_RETRY_MESSAGE),
        }
    }
}

/// `limit` brought into the allowed range.
pub open spec fn clamped_limit(limit: u32) -> u32 {
    if limit < MIN_AUTOMATIC_CHAIN_LIMIT {
        MIN_AUTOMATIC_CHAIN_LIMIT
    } else if limit > MAX_AUTOMATIC_CHAIN_LIMIT {
        MAX_AUTOMATIC_CHAIN_LIMIT
    } else {
        limit
    }
}

/// What the log is told of a step, for the caller to write.
#[derive(Debug)]
pub enum LogNote {
    /// The task reached the consecutive-continuation limit.
    ChainLimitReached { task_id: String, limit: u32 },
    /// The channel was not ready; nothing else was tried.
    ChannelUnavailable { task_id: String },
    /// The continuation was accepted and started the turn `new_turn_id`.
    Continued { task_id: String, failed_turn_id: String, new_turn_id: String },
    /// The task's paused goal was set active again.
    GoalResumed { task_id: String },
    /// The task's goal is already active; nothing was sent.
    GoalAlreadyActive { task_id: String },
    /// The task's goal is in a state that is left to the user.
    GoalNotRecoverable { task_id: String, status: String },
    /// The answer lacked an acceptance or a new turn.
    IncompleteReceipt { task_id: String },
    /// Sending failed.
    SendFailed { task_id: String, error: SendError },
    /// Monitoring failed.
    WatchFailed { error: String },
    /// Monitoring works again.
    WatchRecovered,
    /// The policy could not be saved.
    PolicySaveFailed { error: String },
    /// The policy is saved again.
    PolicySaveRecovered,
}

/// What to do with a candidate after the first checks.
#[derive(Debug, Clone, Copy, PartialEq, Eq, Structural)]
pub enum CandidatePlan {
    /// Automatic continuation is paused: the failure waits in the queue.
    Waiting,
    /// The task reached its limit: left to the user.
    ChainProtected,
    /// The channel is not ready: left to the user.
    ChannelUnavailable,
    /// Go on: ask the channel about the task's goal.
    RecoverGoal,
}

/// What to do once the goal is known.
#[derive(Debug)]
pub enum GoalDecision {
    /// Send this continuation message.
    Send(SendRequest),
    /// Done; write this to the log.
    Finished(LogNote),
}

/// What the service's decisions depend on and change.
pub struct RuntimeView {
    pub running: bool,
    pub auto_retry_enabled: bool,
    pub automatic_chain_limit: u32,
    pub status: StatusView,
    pub watcher: WatcherView,
    pub last_watch_error: Option<Seq<char>>,
    pub last_policy_error: Option<Seq<char>>,
}

/// The service's state of mind.
pub struct Runtime {
    pub running: bool,
    pub auto_retry_enabled: bool,
    pub automatic_chain_limit: u32,
    pub status: ContinuationStatus,
    pub watcher: SessionWatcher,
    pub last_watch_error: Option<String>,
    pub last_policy_error: Option<String>,
}

impl View for Runtime {
    type V = RuntimeView;

    open spec fn view(&self) -> RuntimeView {
        RuntimeView {
            running: self.running,
            auto_retry_enabled: self.auto_retry_enabled,
            automatic_chain_limit: self.automatic_chain_limit,
            status: self.status@,
            watcher: self.watcher@,
            last_watch_error: opt_view(self.last_watch_error),
            last_policy_error: opt_view(self.last_policy_error),
        }
    }
}

/// The record of a failure once it is left to the user, in state `state`.
pub open spec fn left_to_user(w: WatcherView, f: crate::events::FailureView, state: TaskState) -> WatcherView {
    let w2 = settle(w, set![f.key]);
    WatcherView {
        registry: crate::state::after_ended(
            w2.registry,
            f.key.0,
            f.key.1,
            f.completed_at,
            state,
            Some(f.key.1),
        ),
        ..w2
    }
}

/// The runtime with its watcher and status replaced.
pub open spec fn with_step(r: RuntimeView, w: WatcherView, kind: ContinuationStatusKind) -> RuntimeView {
    RuntimeView { watcher: w, status: plain(kind), ..r }
}

/// The first checks on a candidate: paused continuation keeps it waiting; a
/// task at its limit, or a channel that is not ready, leaves it to the user.
pub open spec fn planned(r: RuntimeView, f: crate::events::FailureView, channel: ChannelStatus) -> (
    RuntimeView,
    CandidatePlan,
) {
    if !r.auto_retry_enabled {
        (
            with_step(r, requeued(r.watcher, f), ContinuationStatusKind::TaskWaiting),
            CandidatePlan::Waiting,
        )
    } else if chain_count(r.watcher.policy.chains, f.key.0) >= r.automatic_chain_limit {
        (
            with_step(
                r,
                left_to_user(r.watcher, f, TaskState::Unknown),
                ContinuationStatusKind::ChainProtected,
            ),
            CandidatePlan::ChainProtected,
        )
    } else if channel != ChannelStatus::Ready {
        (
            with_step(
                r,
                left_to_user(r.watcher, f, TaskState::Unavailable),
                ContinuationStatusKind::ManualContinue,
            ),
            CandidatePlan::ChannelUnavailable,
        )
    } else {
        (RuntimeView { status: plain(ContinuationStatusKind::Continuing), ..r }, CandidatePlan::RecoverGoal)
    }
}

/// The record of a continuation that the desktop app accepted with the turn
/// `new_turn`: the failure is handled, the new turn counts as automatic, and
/// the task runs it.
pub open spec fn continued(w: WatcherView, f: crate::events::FailureView, new_turn: Seq<char>, now: Micros) -> WatcherView {
    let w2 = noted_turn(settle(w, set![f.key]), f.key.0, new_turn);
    WatcherView {
        registry: crate::state::after_ended(
            w2.registry,
            f.key.0,
            new_turn,
            now,
            TaskState::Running,
            None,
        ),
        ..w2
    }
}

/// What the answer to a continuation request does.
pub open spec fn after_send_spec(
    r: RuntimeView,
    f: crate::events::FailureView,
    outcome: Result<ReceiptView, SendErrorView>,
    now: Micros,
) -> RuntimeView {
    match outcome {
        Ok(receipt) => if receipt.accepted && receipt.new_turn_id.len() > 0 {
            with_step(
                r,
                continued(r.watcher, f, receipt.new_turn_id, now),
                ContinuationStatusKind::Continued,
            )
        } else {
            with_step(
                r,
                left_to_user(r.watcher, f, TaskState::Unknown),
                ContinuationStatusKind::ConfirmSend,
            )
        },
        Err(_) => with_step(
            r,
            left_to_user(r.watcher, f, TaskState::Unavailable),
            ContinuationStatusKind::ManualContinue,
        ),
    }
}

/// What the goal found for the task does: no goal means the message is sent;
/// a goal set active again, or already active, means the task goes on without
/// a message; a goal in another state is left to the user, as is a failure to
/// read it.
pub open spec fn after_goal_spec(
    r: RuntimeView,
    f: crate::events::FailureView,
    outcome: Result<GoalRecoveryView, SendErrorView>,
    now: Micros,
) -> RuntimeView {
    match outcome {
        Ok(GoalRecoveryView::NoGoal) => r,
        Ok(GoalRecoveryView::Resumed) | Ok(GoalRecoveryView::AlreadyActive) => {
            let w2 = settle(r.watcher, set![f.key]);
            with_step(
                r,
                WatcherView {
                    registry: crate::state::after_ended(
                        w2.registry,
                        f.key.0,
                        f.key.1,
                        now,
                        TaskState::Running,
                        None,
                    ),
                    ..w2
                },
                ContinuationStatusKind::Continued,
            )
        },
        Ok(GoalRecoveryView::NotRecoverable(_)) => with_step(
            r,
            left_to_user(r.watcher, f, TaskState::Unknown),
            ContinuationStatusKind::ManualContinue,
        ),
        Err(_) => with_step(
            r,
            left_to_user(r.watcher, f, TaskState::Unavailable),
            ContinuationStatusKind::ManualContinue,
        ),
    }
}

// ---------------------------------------------------------------------------
// Log notes
// ---------------------------------------------------------------------------

/// What a [`LogNote`] holds; a send error by its text.
pub enum LogNoteView {
    ChainLimitReached { task_id: Seq<char>, limit: u32 },
    ChannelUnavailable { task_id: Seq<char> },
    Continued { task_id: Seq<char>, failed_turn_id: Seq<char>, new_turn_id: Seq<char> },
    GoalResumed { task_id: Seq<char> },
    GoalAlreadyActive { task_id: Seq<char> },
    GoalNotRecoverable { task_id: Seq<char>, status: Seq<char> },
    IncompleteReceipt { task_id: Seq<char> },
    SendFailed { task_id: Seq<char>, error: Seq<char> },
    WatchFailed { error: Seq<char> },
    WatchRecovered,
    PolicySaveFailed { error: Seq<char> },
    PolicySaveRecovered,
}

impl View for LogNote {
    type V = LogNoteView;

    open spec fn view(&self) -> LogNoteView {
        match self {
            LogNote::ChainLimitReached { task_id, limit } => LogNoteView::ChainLimitReached {
                task_id: task_id@,
                limit: *limit,
            },
            LogNote::ChannelUnavailable { task_id } => LogNoteView::ChannelUnavailable {
                task_id: task_id@,
            },
            LogNote::Continued { task_id, failed_turn_id, new_turn_id } => LogNoteView::Continued {
                task_id: task_id@,
                failed_turn_id: failed_turn_id@,
                new_turn_id: new_turn_id@,
            },
            LogNote::GoalResumed { task_id } => LogNoteView::GoalResumed { task_id: task_id@ },
            LogNote::GoalAlreadyActive { task_id } => LogNoteView::GoalAlreadyActive {
                task_id: task_id@,
            },
            LogNote::GoalNotRecoverable { task_id, status } => LogNoteView::GoalNotRecoverable {
                task_id: task_id@,
                status: status@,
            },
            LogNote::IncompleteReceipt { task_id } => LogNoteView::IncompleteReceipt {
                task_id: task_id@,
            },
            LogNote::SendFailed { task_id, error } => LogNoteView::SendFailed {
                task_id: task_id@,
                error: send_error_text(*error),
            },
            LogNote::WatchFailed { error } => LogNoteView::WatchFailed { error: error@ },
            LogNote::WatchRecovered => LogNoteView::WatchRecovered,
            LogNote::PolicySaveFailed { error } => LogNoteView::PolicySaveFailed { error: error@ },
            LogNote::PolicySaveRecovered => LogNoteView::PolicySaveRecovered,
        }
    }
}

/// The view of an optional note.
pub open spec fn note_opt(o: Option<LogNote>) -> Option<LogNoteView> {
    match o {
        Some(n) => Some(n@),
        None => None,
    }
}

/// The log line of a note.
pub open spec fn note_text(n: LogNoteView) -> Seq<char> {
    match n {
        LogNoteView::ChainLimitReached { task_id, limit } => "任务 "@ + task_id
            + " 连续自动继续达到上限（"@ + decimal(limit as nat) + " 次），转为人工处理"@,
        LogNoteView::ChannelUnavailable { task_id } => "任务 "@ + task_id
            + " 消息通道不可用，未切换到其他发送方式"@,
        LogNoteView::Continued { task_id, failed_turn_id, new_turn_id } => "任务 "@ + task_id
            + " 自动继续成功：失败轮次 "@ + failed_turn_id + "，新轮次 "@ + new_turn_id,
        LogNoteView::GoalResumed { task_id } => "任务 "@ + task_id + " 的目标已恢复为进行中"@,
        LogNoteView::GoalAlreadyActive { task_id } => "任务 "@ + task_id
            + " 的目标仍在进行中，未发送消息"@,
        LogNoteView::GoalNotRecoverable { task_id, status } => "任务 "@ + task_id
            + " 的目标状态为 "@ + status + "，转为人工处理"@,
        LogNoteView::IncompleteReceipt { task_id } => "任务 "@ + task_id
            + " 回执不完整，停止自动补发"@,
        LogNoteView::SendFailed { task_id, error } => "任务 "@ + task_id + " 发送失败："@ + error,
        LogNoteView::WatchFailed { error } => "任务记录监听失败："@ + error,
        LogNoteView::WatchRecovered => "任务记录监听已恢复"@,
        LogNoteView::PolicySaveFailed { error } => "无法保存续行状态："@ + error,
        LogNoteView::PolicySaveRecovered => "续行状态保存已恢复"@,
    }
}

/// "任务 " and the task.
fn task_prefix(task_id: &str) -> (r: String)
    ensures
        r@ == "任务 "@ + task_id@,
{
    concat2("任务 ", task_id)
}

impl LogNote {
    /// The line written to the log for this note.
    pub fn message(&self) -> (r: String)
        ensures
            r@ == note_text(self@),
    {
        match self {
            LogNote::ChainLimitReached { task_id, limit } => {
                let mut s = task_prefix(task_id.as_str());
                push_str(&mut s, " 连续自动继续达到上限（");
                let n = decimal_string(*limit as u64);
                push_str(&mut s, n.as_str());
                push_str(&mut s, " 次），转为人工处理");
                s
            },
            LogNote::ChannelUnavailable { task_id } => {
                let mut s = task_prefix(task_id.as_str());
                push_str(&mut s, " 消息通道不可用，未切换到其他发送方式");
                s
            },
            LogNote::Continued { task_id, failed_turn_id, new_turn_id } => {
                let mut s = task_prefix(task_id.as_str());
                push_str(&mut s, " 自动继续成功：失败轮次 ");
                push_str(&mut s, failed_turn_id.as_str());
                push_str(&mut s, "，新轮次 ");
                push_str(&mut s, new_turn_id.as_str());
                s
            },
            LogNote::GoalResumed { task_id } => {
                let mut s = task_prefix(task_id.as_str());
                push_str(&mut s, " 的目标已恢复为进行中");
                s
            },
            LogNote::GoalAlreadyActive { task_id } => {
                let mut s = task_prefix(task_id.as_str());
                push_str(&mut s, " 的目标仍在进行中，未发送消息");
                s
            },
            LogNote::GoalNotRecoverable { task_id, status } => {
                let mut s = task_prefix(task_id.as_str());
                push_str(&mut s, " 的目标状态为 ");
                push_str(&mut s, status.as_str());
                push_str(&mut s, "，转为人工处理");
                s
            },
            LogNote::IncompleteReceipt { task_id } => {
                let mut s = task_prefix(task_id.as_str());
                push_str(&mut s, " 回执不完整，停止自动补发");
                s
            },
            LogNote::SendFailed { task_id, error } => {
                let mut s = task_prefix(task_id.as_str());
                push_str(&mut s, " 发送失败：");
                let e = error.message();
                push_str(&mut s, e.as_str());
                s
            },
            LogNote::WatchFailed { error } => concat2("任务记录监听失败：", error.as_str()),
            LogNote::WatchRecovered => owned("任务记录监听已恢复"),
            LogNote::PolicySaveFailed { error } => concat2("无法保存续行状态：", error.as_str()),
            LogNote::PolicySaveRecovered => owned("续行状态保存已恢复"),
        }
    }
}

// ---------------------------------------------------------------------------
// Settings
// ---------------------------------------------------------------------------

/// Whether `m`, trimmed, can be sent: it holds something besides white space
/// and at most [`RETRY_MESSAGE_MAX_CHARS`] characters.
pub open spec fn usable_retry_message(m: Seq<char>) -> bool {
    0 < trimmed(m).len() <= RETRY_MESSAGE_MAX_CHARS
}

/// The message a stored setting stands for: the trimmed message when it is
/// usable, else [`DEFAULT_RETRY_MESSAGE`].
pub open spec fn effective_retry_message(m: Seq<char>) -> Seq<char> {
    if usable_retry_message(m) {
        trimmed(m)
    } else {
        DEFAULT_RETRY_MESSAGE@
    }
}

/// The answer to a new continuation message: the trimmed message, or why it
/// is refused.
pub open spec fn retry_message_check(m: Seq<char>) -> Result<Seq<char>, Seq<char>> {
    if trimmed(m).len() == 0 {
        Err("继续指令不能为空"@)
    } else if trimmed(m).len() > RETRY_MESSAGE_MAX_CHARS {
        Err("继续指令不能超过 1000 个字符"@)
    } else {
        Ok(trimmed(m))
    }
}

/// The view of a string result.
pub open spec fn text_result(r: Result<String, String>) -> Result<Seq<char>, Seq<char>> {
    match r {
        Ok(s) => Ok(s@),
        Err(e) => Err(e@),
    }
}

/// Checks a new continuation message: trimmed, it must hold something and at
/// most [`RETRY_MESSAGE_MAX_CHARS`] characters.
pub fn check_retry_message(message: &str) -> (r: Result<String, String>)
    ensures
        text_result(r) == retry_message_check(message@),
{
    let t = trim(message);
    let n = chars_of(t.as_str()).len();
    if n == 0 {
        Err(owned("继续指令不能为空"))
    } else if n > RETRY_MESSAGE_MAX_CHARS {
        Err(owned("继续指令不能超过 1000 个字符"))
    } else {
        Ok(t)
    }
}

/// The message a stored setting stands for.
pub fn effective_retry(message: &str) -> (r: String)
    ensures
        r@ == effective_retry_message(message@),
{
    match check_retry_message(message) {
        Ok(m) => m,
        Err(_) => owned(DEFAULT_RETRY_MESSAGE),
    }
}

/// `limit` brought into the allowed range.
pub fn clamp_chain_limit(limit: u32) -> (r: u32)
    ensures
        r == clamped_limit(limit),
{
    if limit < MIN_AUTOMATIC_CHAIN_LIMIT {
        MIN_AUTOMATIC_CHAIN_LIMIT
    } else if limit > MAX_AUTOMATIC_CHAIN_LIMIT {
        MAX_AUTOMATIC_CHAIN_LIMIT
    } else {
        limit
    }
}

// ---------------------------------------------------------------------------
// The runtime
// ---------------------------------------------------------------------------

/// The registry with every task showing the channel status `status`.
pub open spec fn channel_shown(m: Tasks, status: ChannelStatus) -> Tasks {
    Map::new(|k: Seq<char>| m.dom().contains(k), |k: Seq<char>| crate::state::with_channel(m[k], status))
}

/// The runtime after monitoring worked: a failed status recovers, and every
/// task shows the channel's state.
pub open spec fn watch_ok(r: RuntimeView, channel: ChannelStatus) -> RuntimeView {
    RuntimeView {
        status: if r.last_watch_error is Some {
            plain(watching_kind(channel))
        } else {
            r.status
        },
        last_watch_error: None,
        watcher: WatcherView {
            registry: channel_shown(r.watcher.registry, channel),
            ..r.watcher
        },
        ..r
    }
}

/// The status after the candidates were taken: a service that is starting
/// shows that it watches once nothing waits.
pub open spec fn status_after_take(r: RuntimeView, none_waiting: bool, channel: ChannelStatus) -> StatusView {
    if none_waiting && r.running && r.status.kind == ContinuationStatusKind::Preparing {
        plain(watching_kind(channel))
    } else {
        r.status
    }
}

/// The log note of the first checks on a candidate.
pub open spec fn plan_note(r: RuntimeView, f: crate::events::FailureView, plan: CandidatePlan) -> Option<LogNoteView> {
    match plan {
        CandidatePlan::ChainProtected => Some(
            LogNoteView::ChainLimitReached { task_id: f.key.0, limit: r.automatic_chain_limit },
        ),
        CandidatePlan::ChannelUnavailable => Some(LogNoteView::ChannelUnavailable { task_id: f.key.0 }),
        _ => None,
    }
}

/// A view of a continuation request.
pub open spec fn request_of(task_id: Seq<char>, failed_turn_id: Seq<char>, message: Seq<char>, q: SendRequest) -> bool {
    q.task_id@ == task_id && q.failed_turn_id@ == failed_turn_id && q.message@ == message
}

/// What the goal found for the task tells the caller to do.
pub open spec fn goal_decided(
    f: crate::events::FailureView,
    retry: Seq<char>,
    outcome: Result<GoalRecovery, SendError>,
    d: GoalDecision,
) -> bool {
    match outcome {
        Ok(GoalRecovery::NoGoal) => d matches GoalDecision::Send(q) && request_of(f.key.0, f.key.1, retry, q),
        Ok(GoalRecovery::Resumed) => d matches GoalDecision::Finished(n) && n@ == (LogNoteView::GoalResumed { task_id: f.key.0 }),
        Ok(GoalRecovery::AlreadyActive) => d matches GoalDecision::Finished(n) && n@ == (LogNoteView::GoalAlreadyActive { task_id: f.key.0 }),
        Ok(GoalRecovery::NotRecoverable(s)) => d matches GoalDecision::Finished(n) && n@ == (LogNoteView::GoalNotRecoverable { task_id: f.key.0, status: s@ }),
        Err(e) => d matches GoalDecision::Finished(n) && n@ == (LogNoteView::SendFailed { task_id: f.key.0, error: send_error_text(e) }),
    }
}

/// The log note of the answer to a continuation request.
pub open spec fn send_note(f: crate::events::FailureView, outcome: Result<SendReceipt, SendError>) -> LogNoteView {
    match outcome {
        Ok(receipt) => if receipt.accepted && receipt.new_turn_id@.len() > 0 {
            LogNoteView::Continued {
                task_id: f.key.0,
                failed_turn_id: f.key.1,
                new_turn_id: receipt.new_turn_id@,
            }
        } else {
            LogNoteView::IncompleteReceipt { task_id: f.key.0 }
        },
        Err(e) => LogNoteView::SendFailed { task_id: f.key.0, error: send_error_text(e) },
    }
}

impl Runtime {
    /// The watcher's collections hold no key twice.
    pub open spec fn wf(&self) -> bool {
        self.watcher.wf()
    }

    /// A stopped service over the records under `session_root`, starting from
    /// the stored `policy` and `config`.
    pub fn new(config: &GuardConfig, session_root: String, policy: PolicyState) -> (r: Runtime)
        requires
            policy.wf(),
        ensures
            r.wf(),
            !r@.running,
            r@.auto_retry_enabled == config.auto_retry_enabled,
            r@.automatic_chain_limit == clamped_limit(config.automatic_chain_limit),
            r@.status == plain(ContinuationStatusKind::Preparing),
            r@.last_watch_error is None,
            r@.last_policy_error is None,
            r.watcher.root@ == session_root@,
            r@.watcher.registry == Map::<Seq<char>, crate::state::RecordView>::empty(),
            r@.watcher.policy == policy@,
            r@.watcher.pending.len() == 0,
            r@.watcher.pending_keys == Set::<crate::watcher::Key>::empty(),
            r@.watcher.task_names == Map::<Seq<char>, Seq<char>>::empty(),
            r@.watcher.task_project_paths == Map::<Seq<char>, Seq<char>>::empty(),
            !r@.watcher.policy_dirty,
            exists|now: Micros| now >= 0 && #[trigger] crate::watcher::startup_cutoff(now)
                == r@.watcher.initial_cutoff,
            r@.watcher.retry == effective_retry_message(config.retry_message@),
            crate::watcher::queue_agrees(r@.watcher),
            r.watcher.offsets@.len() == 0,
            r.watcher.partial_lines@.len() == 0,
            r.watcher.known_files@.len() == 0,
    {
        let mut watcher = SessionWatcher::new(session_root, policy);
        let retry = effective_retry(config.retry_message.as_str());
        watcher.set_retry_message(retry.as_str());
        Runtime {
            running: false,
            auto_retry_enabled: config.auto_retry_enabled,
            automatic_chain_limit: clamp_chain_limit(config.automatic_chain_limit),
            status: ContinuationStatus::new(ContinuationStatusKind::Preparing),
            watcher,
            last_watch_error: None,
            last_policy_error: None,
        }
    }

    /// The settings as they stand, for saving.
    pub fn config(&self) -> (r: GuardConfig)
        ensures
            r.auto_retry_enabled == self.auto_retry_enabled,
            r.automatic_chain_limit == self.automatic_chain_limit,
            r.retry_message@ == self@.watcher.retry,
    {
        GuardConfig {
            auto_retry_enabled: self.auto_retry_enabled,
            automatic_chain_limit: self.automatic_chain_limit,
            retry_message: self.watcher.retry_message.clone(),
        }
    }

    /// Starts the service: it runs and is preparing.
    pub fn start(&mut self)
        requires
            old(self).wf(),
        ensures
            crate::watcher::same_files(old(self).watcher, final(self).watcher),
            final(self).wf(),
            final(self)@ == (RuntimeView {
                running: true,
                status: plain(ContinuationStatusKind::Preparing),
                ..old(self)@
            }),
    {
        self.running = true;
        self.status = ContinuationStatus::new(ContinuationStatusKind::Preparing);
    }

    /// Stops the service.
    pub fn stop(&mut self)
        requires
            old(self).wf(),
        ensures
            crate::watcher::same_files(old(self).watcher, final(self).watcher),
            final(self).wf(),
            final(self)@ == (RuntimeView {
                running: false,
                status: plain(ContinuationStatusKind::Stopped),
                ..old(self)@
            }),
    {
        self.running = false;
        self.status = ContinuationStatus::new(ContinuationStatusKind::Stopped);
    }

    /// Monitoring failed with `error`: the status says so, and the log is told
    /// unless the same error was the last one.
    pub fn watch_failed(&mut self, error: &str) -> (r: Option<LogNote>)
        requires
            old(self).wf(),
        ensures
            crate::watcher::same_files(old(self).watcher, final(self).watcher),
            final(self).wf(),
            final(self)@ == (RuntimeView {
                status: StatusView { kind: ContinuationStatusKind::WatchFailed, detail: Some(error@) },
                last_watch_error: Some(error@),
                ..old(self)@
            }),
            note_opt(r) == if old(self)@.last_watch_error == Some(error@) {
                None
            } else {
                Some(LogNoteView::WatchFailed { error: error@ })
            },
    {
        self.status = ContinuationStatus::watch_failed(error);
        let repeated = match &self.last_watch_error {
            Some(last) => str_eq(last.as_str(), error),
            None => false,
        };
        self.last_watch_error = Some(owned(error));
        if repeated {
            None
        } else {
            Some(LogNote::WatchFailed { error: owned(error) })
        }
    }

    /// Monitoring worked with the channel in `channel`: a failed status
    /// recovers, and every task shows the channel's state.
    pub fn watch_succeeded(&mut self, channel: ChannelStatus) -> (r: Option<LogNote>)
        requires
            old(self).wf(),
        ensures
            crate::watcher::same_files(old(self).watcher, final(self).watcher),
            final(self).wf(),
            final(self)@ == watch_ok(old(self)@, channel),
            note_opt(r) == if old(self)@.last_watch_error is Some {
                Some(LogNoteView::WatchRecovered)
            } else {
                None
            },
    {
        let recovered = self.last_watch_error.is_some();
        self.last_watch_error = None;
        if recovered {
            self.status = ContinuationStatus::watching(channel);
        }
        self.watcher.registry.set_all_channel_status(channel);
        if recovered {
            Some(LogNote::WatchRecovered)
        } else {
            None
        }
    }

    /// Takes the queued failures, earliest completion first; a service that is
    /// starting shows that it watches once nothing waits.
    pub fn take_candidates(&mut self, channel: ChannelStatus) -> (r: Vec<FailureEvent>)
        requires
            old(self).wf(),
        ensures
            crate::watcher::same_files(old(self).watcher, final(self).watcher),
            final(self).wf(),
            crate::watcher::failure_views(r@) == crate::watcher::by_completion(old(self)@.watcher.pending),
            final(self)@ == (RuntimeView {
                watcher: crate::watcher::emptied(
                    old(self)@.watcher,
                    crate::watcher::keys_of(crate::watcher::failure_views(r@)),
                ),
                status: status_after_take(old(self)@, r@.len() == 0, channel),
                ..old(self)@
            }),
            crate::watcher::queue_agrees(old(self)@.watcher) ==> crate::watcher::queue_agrees(
                final(self)@.watcher,
            ),
    {
        let candidates = self.watcher.take_candidates();
        if candidates.len() == 0 && self.running && self.status.kind
            == ContinuationStatusKind::Preparing {
            self.status = ContinuationStatus::watching(channel);
        }
        candidates
    }

    /// The first checks on a candidate, with the channel in `channel`.
    pub fn begin_candidate(&mut self, event: &FailureEvent, channel: ChannelStatus) -> (r: (
        CandidatePlan,
        Option<LogNote>,
    ))
        requires
            old(self).wf(),
        ensures
            crate::watcher::same_files(old(self).watcher, final(self).watcher),
            final(self).wf(),
            (final(self)@, r.0) == planned(old(self)@, event@, channel),
            note_opt(r.1) == plan_note(old(self)@, event@, r.0),
            crate::watcher::queue_agrees(old(self)@.watcher) && !old(self)@.watcher.pending_keys.contains(
                event.key@,
            ) ==> crate::watcher::queue_agrees(final(self)@.watcher),
    {
        proof {
            if crate::watcher::queue_agrees(old(self)@.watcher) {
                crate::watcher::law_queue_agreement_kept_by_taking(old(self)@.watcher, event@);
            }
        }
        let task_id = event.key.task_id.as_str();
        let turn_id = event.key.turn_id.as_str();
        if !self.auto_retry_enabled {
            self.watcher.requeue(event.duplicate());
            self.status = ContinuationStatus::new(ContinuationStatusKind::TaskWaiting);
            return (CandidatePlan::Waiting, None);
        }
        let chain = self.watcher.policy.chain_failures(task_id);
        if chain >= self.automatic_chain_limit {
            self.watcher.mark_manual(event);
            self.watcher.registry.unknown(task_id, turn_id, event.completed_at);
            self.status = ContinuationStatus::new(ContinuationStatusKind::ChainProtected);
            return (
                CandidatePlan::ChainProtected,
                Some(LogNote::ChainLimitReached { task_id: owned(task_id), limit: self.automatic_chain_limit }),
            );
        }
        if channel != ChannelStatus::Ready {
            self.watcher.mark_manual(event);
            self.watcher.registry.unavailable(task_id, turn_id, event.completed_at);
            self.status = ContinuationStatus::new(ContinuationStatusKind::ManualContinue);
            return (
                CandidatePlan::ChannelUnavailable,
                Some(LogNote::ChannelUnavailable { task_id: owned(task_id) }),
            );
        }
        self.status = ContinuationStatus::new(ContinuationStatusKind::Continuing);
        (CandidatePlan::RecoverGoal, None)
    }

    /// What the goal found for the task does, at `now`: without a goal the
    /// continuation message is to be sent; otherwise the candidate is done.
    pub fn after_goal(
        &mut self,
        event: &FailureEvent,
        outcome: Result<GoalRecovery, SendError>,
        now: Micros,
    ) -> (r: GoalDecision)
        requires
            old(self).wf(),
        ensures
            crate::watcher::same_files(old(self).watcher, final(self).watcher),
            final(self).wf(),
            final(self)@ == after_goal_spec(old(self)@, event@, crate::transport::result_view(outcome), now),
            goal_decided(event@, old(self)@.watcher.retry, outcome, r),
            crate::watcher::queue_agrees(old(self)@.watcher) && !old(self)@.watcher.pending_keys.contains(
                event.key@,
            ) ==> crate::watcher::queue_agrees(final(self)@.watcher),
    {
        proof {
            if crate::watcher::queue_agrees(old(self)@.watcher) {
                crate::watcher::law_queue_agreement_kept_by_taking(old(self)@.watcher, event@);
            }
        }
        let task_id = event.key.task_id.as_str();
        let turn_id = event.key.turn_id.as_str();
        match outcome {
            Ok(GoalRecovery::NoGoal) => GoalDecision::Send(
                SendRequest {
                    task_id: owned(task_id),
                    failed_turn_id: owned(turn_id),
                    message: self.watcher.retry_message.clone(),
                },
            ),
            Ok(GoalRecovery::Resumed) => {
                self.watcher.mark_sent(event);
                self.watcher.registry.sent(task_id, turn_id, now);
                self.status = ContinuationStatus::new(ContinuationStatusKind::Continued);
                GoalDecision::Finished(LogNote::GoalResumed { task_id: owned(task_id) })
            },
            Ok(GoalRecovery::AlreadyActive) => {
                self.watcher.mark_sent(event);
                self.watcher.registry.sent(task_id, turn_id, now);
                self.status = ContinuationStatus::new(ContinuationStatusKind::Continued);
                GoalDecision::Finished(LogNote::GoalAlreadyActive { task_id: owned(task_id) })
            },
            Ok(GoalRecovery::NotRecoverable(status)) => {
                self.watcher.mark_manual(event);
                self.watcher.registry.unknown(task_id, turn_id, event.completed_at);
                self.status = ContinuationStatus::new(ContinuationStatusKind::ManualContinue);
                GoalDecision::Finished(LogNote::GoalNotRecoverable { task_id: owned(task_id), status })
            },
            Err(error) => {
                self.watcher.mark_manual(event);
                self.watcher.registry.unavailable(task_id, turn_id, event.completed_at);
                self.status = ContinuationStatus::new(ContinuationStatusKind::ManualContinue);
                GoalDecision::Finished(LogNote::SendFailed { task_id: owned(task_id), error })
            },
        }
    }

    /// What the answer to a continuation request does, at `now`: only an
    /// acceptance that names a new turn counts as continued.
    pub fn after_send(
        &mut self,
        event: &FailureEvent,
        outcome: Result<SendReceipt, SendError>,
        now: Micros,
    ) -> (r: LogNote)
        requires
            old(self).wf(),
        ensures
            crate::watcher::same_files(old(self).watcher, final(self).watcher),
            final(self).wf(),
            final(self)@ == after_send_spec(old(self)@, event@, crate::transport::result_view(outcome), now),
            r@ == send_note(event@, outcome),
            crate::watcher::queue_agrees(old(self)@.watcher) && !old(self)@.watcher.pending_keys.contains(
                event.key@,
            ) ==> crate::watcher::queue_agrees(final(self)@.watcher),
    {
        proof {
            if crate::watcher::queue_agrees(old(self)@.watcher) {
                crate::watcher::law_queue_agreement_kept_by_taking(old(self)@.watcher, event@);
            }
        }
        let task_id = event.key.task_id.as_str();
        let turn_id = event.key.turn_id.as_str();
        match outcome {
            Ok(receipt) => {
                if receipt.accepted && !receipt.new_turn_id.as_str().is_empty() {
                    self.watcher.mark_sent(event);
                    self.watcher.note_automatic_turn(task_id, receipt.new_turn_id.as_str());
                    self.watcher.registry.sent(task_id, receipt.new_turn_id.as_str(), now);
                    self.status = ContinuationStatus::new(ContinuationStatusKind::Continued);
                    LogNote::Continued {
                        task_id: owned(task_id),
                        failed_turn_id: owned(turn_id),
                        new_turn_id: receipt.new_turn_id,
                    }
                } else {
                    self.watcher.mark_manual(event);
                    self.watcher.registry.unknown(task_id, turn_id, event.completed_at);
                    self.status = ContinuationStatus::new(ContinuationStatusKind::ConfirmSend);
                    LogNote::IncompleteReceipt { task_id: owned(task_id) }
                }
            },
            Err(error) => {
                self.watcher.mark_manual(event);
                self.watcher.registry.unavailable(task_id, turn_id, event.completed_at);
                self.status = ContinuationStatus::new(ContinuationStatusKind::ManualContinue);
                LogNote::SendFailed { task_id: owned(task_id), error }
            },
        }
    }
}

/// A snapshot with the task's consecutive automatic continuations filled in.
pub open spec fn counted(s: SnapshotView, chains: Map<Seq<char>, u32>) -> SnapshotView {
    SnapshotView { continuation_count: chain_count(chains, s.task_id), ..s }
}

/// The registry with each task's consecutive automatic continuations filled in.
pub open spec fn counted_tasks(m: Tasks, chains: Map<Seq<char>, u32>) -> Tasks {
    Map::new(
        |k: Seq<char>| m.dom().contains(k),
        |k: Seq<char>| crate::state::RecordView { snapshot: counted(m[k].snapshot, chains), ..m[k] },
    )
}

/// Everything the service shows.
#[derive(Debug)]
pub struct ContinuationSnapshot {
    pub running: bool,
    pub auto_retry_enabled: bool,
    pub automatic_chain_limit: u32,
    pub automatic_chain_limit_min: u32,
    pub automatic_chain_limit_max: u32,
    pub retry_message: String,
    pub default_retry_message: String,
    pub retry_message_max_chars: usize,
    pub platform: String,
    pub session_root: String,
    pub log_path: String,
    pub channel_status: ChannelStatus,
    pub status: ContinuationStatus,
    pub tasks: Vec<TaskSnapshot>,
}

impl Runtime {
    /// Readies the policy for saving: when it changed since the last save it is
    /// trimmed to the [`MAX_PROCESSED_KEPT`] greatest handled failures, and
    /// `true` comes back; otherwise nothing changes.
    pub fn prepare_policy_save(&mut self) -> (r: bool)
        requires
            old(self).wf(),
        ensures
            crate::watcher::same_files(old(self).watcher, final(self).watcher),
            final(self).wf(),
            r == old(self)@.watcher.policy_dirty,
            !r ==> final(self)@ == old(self)@,
            final(self)@ == (RuntimeView {
                watcher: WatcherView { policy: final(self)@.watcher.policy, ..old(self)@.watcher },
                ..old(self)@
            }),
            final(self)@.watcher.policy.chains == old(self)@.watcher.policy.chains,
            r ==> final(self).watcher.policy.processed@.len() == if old(
                self,
            ).watcher.policy.processed@.len() <= MAX_PROCESSED_KEPT {
                old(self).watcher.policy.processed@.len() as int
            } else {
                MAX_PROCESSED_KEPT as int
            },
            r ==> crate::policy::keeps_greatest_keys(
                old(self)@.watcher.policy.processed,
                final(self)@.watcher.policy.processed,
            ),
            r ==> crate::policy::keeps_greatest_strings(
                old(self)@.watcher.policy.automatic_turns,
                final(self)@.watcher.policy.automatic_turns,
            ),
    {
        if !self.watcher.policy_is_dirty() {
            return false;
        }
        self.watcher.policy.trim(MAX_PROCESSED_KEPT);
        true
    }

    /// The policy was saved.
    pub fn policy_saved(&mut self) -> (r: Option<LogNote>)
        requires
            old(self).wf(),
        ensures
            crate::watcher::same_files(old(self).watcher, final(self).watcher),
            final(self).wf(),
            final(self)@ == (RuntimeView {
                watcher: crate::watcher::saved(old(self)@.watcher),
                last_policy_error: None,
                ..old(self)@
            }),
            note_opt(r) == if old(self)@.last_policy_error is Some {
                Some(LogNoteView::PolicySaveRecovered)
            } else {
                None
            },
    {
        self.watcher.mark_policy_saved();
        let recovered = self.last_policy_error.is_some();
        self.last_policy_error = None;
        if recovered {
            Some(LogNote::PolicySaveRecovered)
        } else {
            None
        }
    }

    /// Saving the policy failed with `error`; the log is told unless the same
    /// error was the last one.
    pub fn policy_save_failed(&mut self, error: &str) -> (r: Option<LogNote>)
        requires
            old(self).wf(),
        ensures
            crate::watcher::same_files(old(self).watcher, final(self).watcher),
            final(self).wf(),
            final(self)@ == (RuntimeView { last_policy_error: Some(error@), ..old(self)@ }),
            note_opt(r) == if old(self)@.last_policy_error == Some(error@) {
                None
            } else {
                Some(LogNoteView::PolicySaveFailed { error: error@ })
            },
    {
        let repeated = match &self.last_policy_error {
            Some(last) => str_eq(last.as_str(), error),
            None => false,
        };
        self.last_policy_error = Some(owned(error));
        if repeated {
            None
        } else {
            Some(LogNote::PolicySaveFailed { error: owned(error) })
        }
    }

    /// Turns automatic continuation on or off.
    pub fn set_auto_retry(&mut self, enabled: bool)
        requires
            old(self).wf(),
        ensures
            crate::watcher::same_files(old(self).watcher, final(self).watcher),
            final(self).wf(),
            final(self)@ == (RuntimeView { auto_retry_enabled: enabled, ..old(self)@ }),
    {
        self.auto_retry_enabled = enabled;
    }

    /// Sets the consecutive automatic continuations allowed per task, brought
    /// into the allowed range; the limit set comes back.
    pub fn set_automatic_chain_limit(&mut self, limit: u32) -> (r: u32)
        requires
            old(self).wf(),
        ensures
            crate::watcher::same_files(old(self).watcher, final(self).watcher),
            final(self).wf(),
            r == clamped_limit(limit),
            final(self)@ == (RuntimeView { automatic_chain_limit: r, ..old(self)@ }),
    {
        let limit = clamp_chain_limit(limit);
        self.automatic_chain_limit = limit;
        limit
    }

    /// Sets the limit and the continuation message together; a message that
    /// is refused changes nothing.
    pub fn set_continuation_settings(&mut self, limit: u32, message: &str) -> (r: Result<
        (),
        String,
    >)
        requires
            old(self).wf(),
        ensures
            crate::watcher::same_files(old(self).watcher, final(self).watcher),
            final(self).wf(),
            match retry_message_check(message@) {
                Ok(m) => r is Ok && final(self)@ == (RuntimeView {
                    automatic_chain_limit: clamped_limit(limit),
                    watcher: WatcherView { retry: m, ..old(self)@.watcher },
                    ..old(self)@
                }),
                Err(e) => r matches Err(x) && x@ == e && final(self)@ == old(self)@,
            },
    {
        match check_retry_message(message) {
            Ok(m) => {
                self.automatic_chain_limit = clamp_chain_limit(limit);
                self.watcher.set_retry_message(m.as_str());
                Ok(())
            },
            Err(e) => Err(e),
        }
    }

    /// Removes a task from the list until it shows activity again; a blank id
    /// removes nothing. Whether the task was listed comes back.
    pub fn dismiss_task(&mut self, task_id: &str) -> (r: bool)
        requires
            old(self).wf(),
        ensures
            crate::watcher::same_files(old(self).watcher, final(self).watcher),
            final(self).wf(),
            trimmed(task_id@).len() == 0 ==> !r && final(self)@ == old(self)@,
            trimmed(task_id@).len() > 0 ==> r == old(self)@.watcher.registry.dom().contains(
                trimmed(task_id@),
            ) && final(self)@ == (RuntimeView {
                watcher: crate::watcher::with_registry(
                    old(self)@.watcher,
                    old(self)@.watcher.registry.remove(trimmed(task_id@)),
                ),
                ..old(self)@
            }),
    {
        let id = trim(task_id);
        if id.as_str().is_empty() {
            return false;
        }
        self.watcher.registry.dismiss(id.as_str())
    }

    /// Clears a task's consecutive automatic continuations; a blank id clears
    /// nothing. Whether the task had a count comes back.
    pub fn reset_continuation_count(&mut self, task_id: &str) -> (r: bool)
        requires
            old(self).wf(),
        ensures
            crate::watcher::same_files(old(self).watcher, final(self).watcher),
            final(self).wf(),
            trimmed(task_id@).len() == 0 ==> !r && final(self)@ == old(self)@,
            trimmed(task_id@).len() > 0 ==> r == (chain_count(
                old(self)@.watcher.policy.chains,
                trimmed(task_id@),
            ) > 0) && final(self)@ == (RuntimeView {
                watcher: crate::watcher::chain_cleared(old(self)@.watcher, trimmed(task_id@)),
                ..old(self)@
            }),
    {
        let id = trim(task_id);
        if id.as_str().is_empty() {
            return false;
        }
        if self.watcher.policy.chain_failures(id.as_str()) > 0 {
            self.watcher.policy.reset_chain(id.as_str());
            self.watcher.policy_dirty = true;
            true
        } else {
            false
        }
    }

    /// The tasks to show, most recently active first, each with its
    /// consecutive automatic continuations.
    pub fn task_snapshots(&self) -> (r: Vec<TaskSnapshot>)
        requires
            self.wf(),
        ensures
            r@.len() == if self.watcher.registry.tasks@.len() <= crate::state::MAX_SNAPSHOTS {
                self.watcher.registry.tasks@.len() as int
            } else {
                crate::state::MAX_SNAPSHOTS as int
            },
            crate::state::shows_most_active(
                counted_tasks(self@.watcher.registry, self@.watcher.policy.chains),
                r@,
            ),
    {
        let base = self.watcher.registry.snapshots();
        let ghost m = self@.watcher.registry;
        let ghost chains = self@.watcher.policy.chains;
        let mut out: Vec<TaskSnapshot> = Vec::new();
        let mut i: usize = 0;
        while i < base.len()
            invariant
                self.wf(),
                m == self@.watcher.registry,
                chains == self@.watcher.policy.chains,
                i <= base@.len(),
                out@.len() == i,
                crate::state::shows_most_active(m, base@),
                forall|j: int| 0 <= j < i ==> #[trigger] out@[j]@ == counted(base@[j]@, chains),
            decreases base@.len() - i,
        {
            let mut t = base[i].duplicate();
            t.continuation_count = self.watcher.policy.chain_failures(t.task_id.as_str());
            out.push(t);
            i += 1;
        }
        proof {
            lemma_counted_shows_most_active(m, chains, base@, out@);
        }
        out
    }

    /// Everything the service shows, given what only the caller knows: the
    /// platform, the log's path and the channel's state.
    pub fn snapshot(&self, platform: &str, log_path: &str, channel_status: ChannelStatus) -> (r: ContinuationSnapshot)
        requires
            self.wf(),
        ensures
            r.running == self.running,
            r.auto_retry_enabled == self.auto_retry_enabled,
            r.automatic_chain_limit == self.automatic_chain_limit,
            r.automatic_chain_limit_min == MIN_AUTOMATIC_CHAIN_LIMIT,
            r.automatic_chain_limit_max == MAX_AUTOMATIC_CHAIN_LIMIT,
            r.retry_message@ == self@.watcher.retry,
            r.default_retry_message@ == DEFAULT_RETRY_MESSAGE@,
            r.retry_message_max_chars == RETRY_MESSAGE_MAX_CHARS,
            r.platform@ == platform@,
            r.session_root@ == self.watcher.root@,
            r.log_path@ == log_path@,
            r.channel_status == channel_status,
            r.status@ == self@.status,
            r.tasks@.len() == if self.watcher.registry.tasks@.len() <= crate::state::MAX_SNAPSHOTS {
                self.watcher.registry.tasks@.len() as int
            } else {
                crate::state::MAX_SNAPSHOTS as int
            },
            crate::state::shows_most_active(
                counted_tasks(self@.watcher.registry, self@.watcher.policy.chains),
                r.tasks@,
            ),
    {
        ContinuationSnapshot {
            running: self.running,
            auto_retry_enabled: self.auto_retry_enabled,
            automatic_chain_limit: self.automatic_chain_limit,
            automatic_chain_limit_min: MIN_AUTOMATIC_CHAIN_LIMIT,
            automatic_chain_limit_max: MAX_AUTOMATIC_CHAIN_LIMIT,
            retry_message: self.watcher.retry_message.clone(),
            default_retry_message: owned(DEFAULT_RETRY_MESSAGE),
            retry_message_max_chars: RETRY_MESSAGE_MAX_CHARS,
            platform: owned(platform),
            session_root: self.watcher.root.clone(),
            log_path: owned(log_path),
            channel_status,
            status: self.status.duplicate(),
            tasks: self.task_snapshots(),
        }
    }
}

/// Filling in the counts keeps a list showing the most active tasks.
proof fn lemma_counted_shows_most_active(
    m: Tasks,
    chains: Map<Seq<char>, u32>,
    base: Seq<TaskSnapshot>,
    out: Seq<TaskSnapshot>,
)
    requires
        crate::state::shows_most_active(m, base),
        out.len() == base.len(),
        forall|j: int| 0 <= j < base.len() ==> #[trigger] out[j]@ == counted(base[j]@, chains),
    ensures
        crate::state::shows_most_active(counted_tasks(m, chains), out),
{
    let c = counted_tasks(m, chains);
    assert forall|a: int| 0 <= a < out.len() implies c.dom().contains(#[trigger] out[a]@.task_id)
        && c[out[a]@.task_id].snapshot == out[a]@ by {
        assert(out[a]@ == counted(base[a]@, chains));
        assert(base[a]@.task_id == out[a]@.task_id);
    }
    assert forall|a: int, b: int|
        0 <= a < out.len() && 0 <= b < out.len() && a != b implies #[trigger] out[a]@.task_id
        != #[trigger] out[b]@.task_id by {
        assert(out[a]@ == counted(base[a]@, chains));
        assert(out[b]@ == counted(base[b]@, chains));
        assert(base[a]@.task_id != base[b]@.task_id);
    }
    assert forall|a: int, b: int| 0 <= a < b < out.len() implies !crate::state::activity_lt(
        #[trigger] out[a]@.last_activity_at,
        #[trigger] out[b]@.last_activity_at,
    ) by {
        assert(out[a]@ == counted(base[a]@, chains));
        assert(out[b]@ == counted(base[b]@, chains));
        assert(!crate::state::activity_lt(base[a]@.last_activity_at, base[b]@.last_activity_at));
    }
    assert forall|k: Seq<char>, a: int|
        c.dom().contains(k) && 0 <= a < out.len() && !(exists|b: int|
            0 <= b < out.len() && #[trigger] out[b]@.task_id == k) implies !crate::state::activity_lt(
        #[trigger] out[a]@.last_activity_at,
        #[trigger] c[k].snapshot.last_activity_at,
    ) by {
        assert(out[a]@ == counted(base[a]@, chains));
        if exists|b: int| 0 <= b < base.len() && #[trigger] base[b]@.task_id == k {
            let b = choose|b: int| 0 <= b < base.len() && #[trigger] base[b]@.task_id == k;
            assert(out[b]@ == counted(base[b]@, chains));
            assert(out[b]@.task_id == k);
        }
        assert(!crate::state::activity_lt(base[a]@.last_activity_at, m[k].snapshot.last_activity_at));
    }
}

// ---------------------------------------------------------------------------
// Laws
// ---------------------------------------------------------------------------

/// The consecutive-continuation limit is at least one whatever is asked for,
/// and a limit of one or more is kept as asked.
pub proof fn law_chain_limit_at_least_one(limit: u32)
    ensures
        clamped_limit(limit) >= 1,
        limit >= 1 ==> clamped_limit(limit) == limit,
{
}

/// While automatic continuation is paused a failure is never sent: it stays
/// queued, and neither the handled failures nor any count changes.
pub proof fn law_paused_failure_keeps_waiting(
    r: RuntimeView,
    f: crate::events::FailureView,
    channel: ChannelStatus,
)
    requires
        !r.auto_retry_enabled,
    ensures
        planned(r, f, channel).1 == CandidatePlan::Waiting,
        planned(r, f, channel).0.watcher.pending_keys.contains(f.key),
        planned(r, f, channel).0.watcher.policy == r.watcher.policy,
{
}

/// While automatic continuation is paused, a candidate taken and checked
/// comes back at the next take: nothing is sent, it is queued again alone,
/// neither the handled failures nor the tasks change, and the status shows a
/// task waiting.
pub proof fn law_paused_candidate_comes_back(r: RuntimeView, channel: ChannelStatus, i: int)
    requires
        !r.auto_retry_enabled,
        0 <= i < by_completion(r.watcher.pending).len(),
    ensures
        ({
            let t = by_completion(r.watcher.pending);
            let taken = RuntimeView {
                watcher: emptied(r.watcher, keys_of(t)),
                status: status_after_take(r, t.len() == 0, channel),
                ..r
            };
            let (after, plan) = planned(taken, t[i], channel);
            &&& plan == CandidatePlan::Waiting
            &&& by_completion(after.watcher.pending) == seq![t[i]]
            &&& after.watcher.policy == r.watcher.policy
            &&& after.watcher.registry == r.watcher.registry
            &&& after.status == plain(ContinuationStatusKind::TaskWaiting)
        }),
{
    let t = by_completion(r.watcher.pending);
    law_taken_failure_can_be_requeued(r.watcher, i);
    lemma_by_completion_single(t[i]);
}

/// A task whose consecutive automatic continuations reached the limit is left
/// to the user: nothing is sent, the failure is handled, the count stays.
pub proof fn law_chain_limit_leaves_task_to_user(
    r: RuntimeView,
    f: crate::events::FailureView,
    channel: ChannelStatus,
)
    requires
        r.auto_retry_enabled,
        chain_count(r.watcher.policy.chains, f.key.0) >= r.automatic_chain_limit,
    ensures
        planned(r, f, channel).1 == CandidatePlan::ChainProtected,
        planned(r, f, channel).0.watcher.policy.processed.contains(f.key),
        planned(r, f, channel).0.watcher.policy.chains == r.watcher.policy.chains,
        planned(r, f, channel).0.watcher.registry[f.key.0].snapshot.state == TaskState::Unknown,
{
}

/// A channel that is not ready is never worked around: the failure is left to
/// the user and handled.
pub proof fn law_unready_channel_leaves_task_to_user(
    r: RuntimeView,
    f: crate::events::FailureView,
    channel: ChannelStatus,
)
    requires
        r.auto_retry_enabled,
        chain_count(r.watcher.policy.chains, f.key.0) < r.automatic_chain_limit,
        channel != ChannelStatus::Ready,
    ensures
        planned(r, f, channel).1 == CandidatePlan::ChannelUnavailable,
        planned(r, f, channel).0.watcher.policy.processed.contains(f.key),
        planned(r, f, channel).0.watcher.registry[f.key.0].snapshot.state == TaskState::Unavailable,
{
}

/// Whatever the answer to a continuation request, the failure is handled and
/// is never sent again.
pub proof fn law_answered_failure_is_handled(
    r: RuntimeView,
    f: crate::events::FailureView,
    outcome: Result<ReceiptView, SendErrorView>,
    now: Micros,
)
    ensures
        after_send_spec(r, f, outcome, now).watcher.policy.processed.contains(f.key),
        !after_send_spec(r, f, outcome, now).watcher.pending_keys.contains(f.key),
{
}

/// Only an acceptance naming a new turn counts as a continuation: any other
/// answer leaves every task's count as it was.
pub proof fn law_only_acknowledged_continuation_counts(
    r: RuntimeView,
    f: crate::events::FailureView,
    outcome: Result<ReceiptView, SendErrorView>,
    now: Micros,
)
    requires
        !(outcome matches Ok(receipt) && receipt.accepted && receipt.new_turn_id.len() > 0),
    ensures
        after_send_spec(r, f, outcome, now).watcher.policy.chains == r.watcher.policy.chains,
        after_send_spec(r, f, outcome, now).watcher.policy.automatic_turns
            == r.watcher.policy.automatic_turns,
{
}

/// An acknowledged continuation with a turn not seen before adds one to its
/// task's count, and the task runs the new turn.
pub proof fn law_acknowledged_continuation_adds_one(
    r: RuntimeView,
    f: crate::events::FailureView,
    receipt: ReceiptView,
    now: Micros,
)
    requires
        receipt.accepted,
        receipt.new_turn_id.len() > 0,
        !r.watcher.policy.automatic_turns.contains(receipt.new_turn_id),
        chain_count(r.watcher.policy.chains, f.key.0) < u32::MAX,
    ensures
        chain_count(
            after_send_spec(r, f, Ok(receipt), now).watcher.policy.chains,
            f.key.0,
        ) == chain_count(r.watcher.policy.chains, f.key.0) + 1,
        after_send_spec(r, f, Ok(receipt), now).watcher.registry[f.key.0].snapshot.state
            == TaskState::Running,
        after_send_spec(r, f, Ok(receipt), now).status.kind == ContinuationStatusKind::Continued,
{
}

/// A goal that was set active again, or was active, continues the task
/// without a message and without counting a continuation; the failure is
/// handled.
pub proof fn law_recovered_goal_sends_nothing(
    r: RuntimeView,
    f: crate::events::FailureView,
    outcome: Result<GoalRecoveryView, SendErrorView>,
    now: Micros,
)
    requires
        outcome matches Ok(g) && !(g is NoGoal),
    ensures
        after_goal_spec(r, f, outcome, now).watcher.policy.chains == r.watcher.policy.chains,
        after_goal_spec(r, f, outcome, now).watcher.policy.processed.contains(f.key),
{
}

/// The default continuation message can be sent, and a stored message that
/// cannot falls back to it.
pub proof fn law_default_retry_message_usable(m: Seq<char>)
    ensures
        usable_retry_message(DEFAULT_RETRY_MESSAGE@),
        usable_retry_message(effective_retry_message(m)),
{
    reveal_strlit("继续");
    assert(DEFAULT_RETRY_MESSAGE@ == seq!['继', '续']);
    assert(trim_start(DEFAULT_RETRY_MESSAGE@) == DEFAULT_RETRY_MESSAGE@) by {
        reveal_with_fuel(trim_start, 2);
    }
    assert(trim_end(DEFAULT_RETRY_MESSAGE@) == DEFAULT_RETRY_MESSAGE@) by {
        reveal_with_fuel(trim_end, 2);
    }
    if usable_retry_message(m) {
        crate::text::lemma_trimmed_idempotent(m);
    }
}

/// A failure is continued at most once: after any answer to its request, a
/// later record of the same failure is not queued again.
pub proof fn law_failure_continued_at_most_once(
    r: RuntimeView,
    f: crate::events::FailureView,
    outcome: Result<ReceiptView, SendErrorView>,
    now: Micros,
    again: crate::events::FailureView,
)
    requires
        again.key == f.key,
    ensures
        ({
            let w = after_send_spec(r, f, outcome, now).watcher;
            crate::watcher::handled(w, crate::events::EventView::Failure(again)).pending
                == w.pending
        }),
{
    law_answered_failure_is_handled(r, f, outcome, now);
    crate::watcher::law_handled_failure_not_queued_again(
        after_send_spec(r, f, outcome, now).watcher,
        again,
    );
}

} // verus!
