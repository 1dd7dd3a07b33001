//! The tray menu: its colour, its status line and the tasks that need
//! attention, in the user's language, all read off the service's snapshot.

use vstd::prelude::*;

use crate::events::joined;
use crate::ingest::{parse_uuid_hyphenated, uuid_hyphenated};
use crate::service::{ContinuationSnapshot, ContinuationStatusKind};
use crate::state::{ChannelStatus, TaskSnapshot, TaskState};
use crate::text::{
    ascii_lowercase, chars_of, concat2, decimal, decimal_string, is_whitespace, is_ws, lowered,
    owned, push_char, push_str, str_eq, string_of, trim, trimmed,
};

verus! {

/// How many tasks needing attention the tray lists.
pub const TRAY_TASK_LIMIT: usize = 3;

/// The longest task name, in characters, that the tray shows whole.
pub const TRAY_TASK_NAME_MAX_CHARS: usize = 30;

/// The prefix of the menu ids of listed tasks.
pub const TRAY_TASK_PREFIX: &'static str = "open-task:";

/// The language of the interface.
#[derive(Clone, Copy, Debug, PartialEq, Eq, Structural)]
pub enum AppLocale {
    ZhCn,
    En,
}

/// The language a locale code names: Chinese for codes starting with `zh`
/// (in any case, around white space), else English.
pub open spec fn locale_of(code: Seq<char>) -> AppLocale {
    let l = lowered(trimmed(code));
    if l.len() >= 2 && l[0] == 'z' && l[1] == 'h' {
        AppLocale::ZhCn
    } else {
        AppLocale::En
    }
}

/// One of two texts by language.
pub open spec fn by_locale(locale: AppLocale, zh: Seq<char>, en: Seq<char>) -> Seq<char> {
    if locale == AppLocale::ZhCn {
        zh
    } else {
        en
    }
}

/// One of two literals by language.
fn pick(locale: AppLocale, zh: &'static str, en: &'static str) -> (r: &'static str)
    ensures
        r@ == by_locale(locale, zh@, en@),
{
    match locale {
        AppLocale::ZhCn => zh,
        AppLocale::En => en,
    }
}

impl AppLocale {
    /// The language a locale code names.
    pub fn from_code(value: &str) -> (r: AppLocale)
        ensures
            r == locale_of(value@),
    {
        let t = trim(value);
        let l = ascii_lowercase(t.as_str());
        if l.len() >= 2 && l[0] == 'z' && l[1] == 'h' {
            AppLocale::ZhCn
        } else {
            AppLocale::En
        }
    }

    /// The label of the automatic-continuation switch.
    pub fn auto_retry(self) -> (r: &'static str)
        ensures
            r@ == by_locale(self, "自动继续"@, "Automatic continuation"@),
    {
        pick(self, "自动继续", "Automatic continuation")
    }

    /// The label of the item that opens the window.
    pub fn show_window(self) -> (r: &'static str)
        ensures
            r@ == by_locale(self, "打开 TurnMender"@, "Open TurnMender"@),
    {
        pick(self, "打开 TurnMender", "Open TurnMender")
    }

    /// The label of the settings item.
    pub fn settings(self) -> (r: &'static str)
        ensures
            r@ == by_locale(self, "设置"@, "Settings"@),
    {
        pick(self, "设置", "Settings")
    }

    /// The label of the item that opens the log.
    pub fn view_log(self) -> (r: &'static str)
        ensures
            r@ == by_locale(self, "查看运行日志"@, "View Runtime Log"@),
    {
        pick(self, "查看运行日志", "View Runtime Log")
    }

    /// The heading over `count` tasks needing attention.
    pub fn attention_heading(self, count: usize) -> (r: String)
        ensures
            r@ == by_locale(
                self,
                "待处理任务（"@ + decimal(count as nat) + "）"@,
                "Tasks needing attention ("@ + decimal(count as nat) + ")"@,
            ),
    {
        let n = decimal_string(count as u64);
        match self {
            AppLocale::ZhCn => {
                let mut s = concat2("待处理任务（", n.as_str());
                push_str(&mut s, "）");
                s
            },
            AppLocale::En => {
                let mut s = concat2("Tasks needing attention (", n.as_str());
                push_str(&mut s, ")");
                s
            },
        }
    }

    /// The label of the item that shows every task needing attention.
    pub fn view_all_tasks(self) -> (r: &'static str)
        ensures
            r@ == by_locale(self, "查看全部待处理任务"@, "View All Tasks Needing Attention"@),
    {
        pick(self, "查看全部待处理任务", "View All Tasks Needing Attention")
    }

    /// The name shown for a task without one.
    pub fn unnamed_task(self) -> (r: &'static str)
        ensures
            r@ == by_locale(self, "未命名任务"@, "Unnamed task"@),
    {
        pick(self, "未命名任务", "Unnamed task")
    }

    /// The label of the quit item.
    pub fn quit(self) -> (r: &'static str)
        ensures
            r@ == by_locale(self, "退出 TurnMender"@, "Quit TurnMender"@),
    {
        pick(self, "退出 TurnMender", "Quit TurnMender")
    }
}

/// The colour of the tray icon.
#[derive(Clone, Copy, Debug, PartialEq, Eq, Structural)]
pub enum TrayTone {
    Green,
    Yellow,
    Red,
}

impl TrayTone {
    /// The red, green and blue of the tone.
    pub fn color(self) -> (r: [u8; 3])
        ensures
            r@ == match self {
                TrayTone::Green => seq![39u8, 183u8, 126u8],
                TrayTone::Yellow => seq![230u8, 161u8, 46u8],
                TrayTone::Red => seq![223u8, 91u8, 98u8],
            },
    {
        let r = match self {
            TrayTone::Green => [39u8, 183u8, 126u8],
            TrayTone::Yellow => [230u8, 161u8, 46u8],
            TrayTone::Red => [223u8, 91u8, 98u8],
        };
        assert(r@ =~= match self {
            TrayTone::Green => seq![39u8, 183u8, 126u8],
            TrayTone::Yellow => seq![230u8, 161u8, 46u8],
            TrayTone::Red => seq![223u8, 91u8, 98u8],
        });
        r
    }
}

/// A task listed in the tray.
#[derive(Clone, Debug, PartialEq, Eq)]
pub struct TrayTaskMenuItem {
    pub task_id: String,
    pub label: String,
}

/// What the tray shows.
#[derive(Clone, Debug, PartialEq, Eq)]
pub struct TrayMenuModel {
    pub locale: AppLocale,
    pub tone: TrayTone,
    pub status_label: String,
    pub auto_retry_enabled: bool,
    pub attention_count: usize,
    pub attention_tasks: Vec<TrayTaskMenuItem>,
}

// ---------------------------------------------------------------------------
// Counting tasks
// ---------------------------------------------------------------------------

/// The groups of task states the tray counts.
#[derive(Clone, Copy, Debug, PartialEq, Eq, Structural)]
pub enum StateGroup {
    /// Needs review or manual continuation.
    Critical,
    /// Waits for automatic continuation.
    Waiting,
    /// Runs.
    Running,
}

/// Whether a state is in a group.
pub open spec fn in_group(g: StateGroup, s: TaskState) -> bool {
    match g {
        StateGroup::Critical => s == TaskState::Unknown || s == TaskState::Unavailable,
        StateGroup::Waiting => s == TaskState::WaitingContinuation,
        StateGroup::Running => s == TaskState::Running,
    }
}

/// Whether a task needs attention: it waits, needs review or needs manual
/// continuation.
pub open spec fn needs_attention(s: TaskState) -> bool {
    s == TaskState::WaitingContinuation || s == TaskState::Unknown || s == TaskState::Unavailable
}

/// How many of the tasks have a state in the group.
pub open spec fn group_count(tasks: Seq<TaskSnapshot>, g: StateGroup) -> nat
    decreases tasks.len(),
{
    if tasks.len() == 0 {
        0
    } else {
        group_count(tasks.drop_last(), g) + if in_group(g, tasks.last().state) {
            1nat
        } else {
            0nat
        }
    }
}

/// The tasks needing attention, in order.
pub open spec fn attention_of(tasks: Seq<TaskSnapshot>) -> Seq<TaskSnapshot>
    decreases tasks.len(),
{
    if tasks.len() == 0 {
        Seq::empty()
    } else if needs_attention(tasks.last().state) {
        attention_of(tasks.drop_last()).push(tasks.last())
    } else {
        attention_of(tasks.drop_last())
    }
}

fn state_in_group(g: StateGroup, s: TaskState) -> (r: bool)
    ensures
        r == in_group(g, s),
{
    match g {
        StateGroup::Critical => s == TaskState::Unknown || s == TaskState::Unavailable,
        StateGroup::Waiting => s == TaskState::WaitingContinuation,
        StateGroup::Running => s == TaskState::Running,
    }
}

proof fn lemma_group_count_bound(tasks: Seq<TaskSnapshot>, g: StateGroup)
    ensures
        group_count(tasks, g) <= tasks.len(),
    decreases tasks.len(),
{
    if tasks.len() > 0 {
        lemma_group_count_bound(tasks.drop_last(), g);
    }
}

/// How many of the tasks have a state in the group.
pub fn count_group(tasks: &Vec<TaskSnapshot>, g: StateGroup) -> (r: usize)
    ensures
        r == group_count(tasks@, g),
{
    let mut n: usize = 0;
    let mut i: usize = 0;
    while i < tasks.len()
        invariant
            i <= tasks@.len(),
            n == group_count(tasks@.take(i as int), g),
            n <= i,
        decreases tasks@.len() - i,
    {
        assert(tasks@.take(i + 1).drop_last() =~= tasks@.take(i as int));
        if state_in_group(g, tasks[i].state) {
            n += 1;
        }
        i += 1;
    }
    assert(tasks@.take(i as int) =~= tasks@);
    n
}

/// Whether a task needs attention.
pub fn is_attention_task(task: &TaskSnapshot) -> (r: bool)
    ensures
        r == needs_attention(task.state),
{
    task.state == TaskState::WaitingContinuation || task.state == TaskState::Unknown || task.state
        == TaskState::Unavailable
}

// ---------------------------------------------------------------------------
// Tone and status
// ---------------------------------------------------------------------------

/// The tray's colour: red when the service stopped, monitoring failed or a
/// task needs review or manual continuation; yellow when the channel is not
/// ready, continuation is paused or a task waits; green otherwise.
pub open spec fn tone_of(s: ContinuationSnapshot) -> TrayTone {
    if !s.running {
        TrayTone::Red
    } else if s.status.kind == ContinuationStatusKind::WatchFailed || group_count(
        s.tasks@,
        StateGroup::Critical,
    ) > 0 {
        TrayTone::Red
    } else if s.channel_status != ChannelStatus::Ready || !s.auto_retry_enabled || group_count(
        s.tasks@,
        StateGroup::Waiting,
    ) > 0 {
        TrayTone::Yellow
    } else {
        TrayTone::Green
    }
}

/// The tray's colour for a snapshot.
pub fn tray_tone(snapshot: &ContinuationSnapshot) -> (r: TrayTone)
    ensures
        r == tone_of(*snapshot),
{
    if !snapshot.running {
        return TrayTone::Red;
    }
    if snapshot.status.kind == ContinuationStatusKind::WatchFailed || count_group(
        &snapshot.tasks,
        StateGroup::Critical,
    ) > 0 {
        return TrayTone::Red;
    }
    if snapshot.channel_status != ChannelStatus::Ready || !snapshot.auto_retry_enabled
        || count_group(&snapshot.tasks, StateGroup::Waiting) > 0 {
        return TrayTone::Yellow;
    }
    TrayTone::Green
}

/// "`count` tasks", with a suffix, in the language given.
pub open spec fn count_label(locale: AppLocale, count: nat, zh: Seq<char>, en: Seq<char>) -> Seq<
    char,
> {
    if locale == AppLocale::ZhCn {
        decimal(count) + " 个任务"@ + zh
    } else {
        decimal(count) + " "@ + (if count == 1 {
            "task"@
        } else {
            "tasks"@
        }) + (if en.len() == 0 {
            Seq::empty()
        } else {
            " "@ + en
        })
    }
}

/// "`count` tasks", with a suffix, in the language given.
pub fn task_count_label(locale: AppLocale, count: usize, zh_suffix: &str, en_suffix: &str) -> (r:
    String)
    ensures
        r@ == count_label(locale, count as nat, zh_suffix@, en_suffix@),
{
    let mut s = decimal_string(count as u64);
    match locale {
        AppLocale::ZhCn => {
            push_str(&mut s, " 个任务");
            push_str(&mut s, zh_suffix);
        },
        AppLocale::En => {
            push_str(&mut s, " ");
            if count == 1 {
                push_str(&mut s, "task");
            } else {
                push_str(&mut s, "tasks");
            }
            if !en_suffix.is_empty() {
                push_str(&mut s, " ");
                push_str(&mut s, en_suffix);
            } else {
                assert(s@ =~= s@ + Seq::<char>::empty());
            }
        },
    }
    s
}

/// The tray's status line.
pub open spec fn status_text(s: ContinuationSnapshot, locale: AppLocale) -> Seq<char> {
    let critical = group_count(s.tasks@, StateGroup::Critical);
    let waiting = group_count(s.tasks@, StateGroup::Waiting);
    let running = group_count(s.tasks@, StateGroup::Running);
    if !s.running {
        by_locale(locale, "状态：续行服务已停止"@, "Status: continuation stopped"@)
    } else if s.status.kind == ContinuationStatusKind::WatchFailed {
        by_locale(locale, "状态：任务监听失败"@, "Status: monitoring failed"@)
    } else if critical > 0 {
        by_locale(
            locale,
            "需要处理 · "@ + decimal(critical) + " 个任务"@,
            "Action required · "@ + count_label(AppLocale::En, critical, ""@, ""@),
        )
    } else if !s.auto_retry_enabled {
        if waiting == 0 {
            by_locale(
                locale,
                "仅监听 · 自动继续已暂停"@,
                "Monitor only · automatic continuation paused"@,
            )
        } else {
            by_locale(
                locale,
                "仅监听 · "@ + decimal(waiting) + " 个任务等待处理"@,
                "Monitor only · "@ + count_label(AppLocale::En, waiting, "等待处理"@, "waiting"@),
            )
        }
    } else if s.channel_status != ChannelStatus::Ready {
        if s.channel_status == ChannelStatus::Unsupported {
            by_locale(
                locale,
                "正在监听 · 当前平台仅支持监听"@,
                "Monitoring · automatic continuation unsupported"@,
            )
        } else {
            by_locale(locale, "正在监听 · 消息通道不可用"@, "Monitoring · messaging unavailable"@)
        }
    } else if s.status.kind == ContinuationStatusKind::Preparing {
        by_locale(locale, "正在启动任务监听…"@, "Starting task monitoring…"@)
    } else if s.status.kind == ContinuationStatusKind::Continuing {
        by_locale(locale, "正在自动续行…"@, "Automatic continuation in progress…"@)
    } else if waiting > 0 {
        by_locale(
            locale,
            "等待自动续行 · "@ + decimal(waiting) + " 个任务"@,
            "Waiting to continue · "@ + count_label(AppLocale::En, waiting, ""@, ""@),
        )
    } else if running == 0 {
        by_locale(locale, "状态：续行就绪"@, "Status: continuation ready"@)
    } else {
        by_locale(
            locale,
            "续行就绪 · "@ + decimal(running) + " 个任务运行中"@,
            "Continuation ready · "@ + count_label(AppLocale::En, running, "运行中"@, "running"@),
        )
    }
}

/// `head`, the number `n` and `tail`.
fn around_number(head: &str, n: usize, tail: &str) -> (r: String)
    ensures
        r@ == head@ + decimal(n as nat) + tail@,
{
    let mut s = owned(head);
    let d = decimal_string(n as u64);
    push_str(&mut s, d.as_str());
    push_str(&mut s, tail);
    s
}

/// The tray's status line for a snapshot.
pub fn tray_status_label(snapshot: &ContinuationSnapshot, locale: AppLocale) -> (r: String)
    ensures
        r@ == status_text(*snapshot, locale),
{
    let critical = count_group(&snapshot.tasks, StateGroup::Critical);
    let waiting = count_group(&snapshot.tasks, StateGroup::Waiting);
    let running = count_group(&snapshot.tasks, StateGroup::Running);
    let zh = locale == AppLocale::ZhCn;
    if !snapshot.running {
        return owned(pick(locale, "状态：续行服务已停止", "Status: continuation stopped"));
    }
    if snapshot.status.kind == ContinuationStatusKind::WatchFailed {
        return owned(pick(locale, "状态：任务监听失败", "Status: monitoring failed"));
    }
    if critical > 0 {
        if zh {
            return around_number("需要处理 · ", critical, " 个任务");
        } else {
            let l = task_count_label(AppLocale::En, critical, "", "");
            return concat2("Action required · ", l.as_str());
        }
    }
    if !snapshot.auto_retry_enabled {
        if waiting == 0 {
            return owned(
                pick(locale, "仅监听 · 自动继续已暂停", "Monitor only · automatic continuation paused"),
            );
        } else if zh {
            return around_number("仅监听 · ", waiting, " 个任务等待处理");
        } else {
            let l = task_count_label(AppLocale::En, waiting, "等待处理", "waiting");
            return concat2("Monitor only · ", l.as_str());
        }
    }
    if snapshot.channel_status != ChannelStatus::Ready {
        if snapshot.channel_status == ChannelStatus::Unsupported {
            return owned(
                pick(
                    locale,
                    "正在监听 · 当前平台仅支持监听",
                    "Monitoring · automatic continuation unsupported",
                ),
            );
        } else {
            return owned(
                pick(locale, "正在监听 · 消息通道不可用", "Monitoring · messaging unavailable"),
            );
        }
    }
    if snapshot.status.kind == ContinuationStatusKind::Preparing {
        return owned(pick(locale, "正在启动任务监听…", "Starting task monitoring…"));
    }
    if snapshot.status.kind == ContinuationStatusKind::Continuing {
        return owned(pick(locale, "正在自动续行…", "Automatic continuation in progress…"));
    }
    if waiting > 0 {
        if zh {
            return around_number("等待自动续行 · ", waiting, " 个任务");
        } else {
            let l = task_count_label(AppLocale::En, waiting, "", "");
            return concat2("Waiting to continue · ", l.as_str());
        }
    }
    if running == 0 {
        owned(pick(locale, "状态：续行就绪", "Status: continuation ready"))
    } else if zh {
        around_number("续行就绪 · ", running, " 个任务运行中")
    } else {
        let l = task_count_label(AppLocale::En, running, "运行中", "running");
        concat2("Continuation ready · ", l.as_str())
    }
}

// ---------------------------------------------------------------------------
// Task entries
// ---------------------------------------------------------------------------

/// Why a task is listed.
pub open spec fn reason_text(t: TaskSnapshot, s: ContinuationSnapshot, locale: AppLocale) -> Seq<char> {
    match t.state {
        TaskState::WaitingContinuation => if !s.auto_retry_enabled {
            by_locale(locale, "自动继续已暂停"@, "automatic continuation paused"@)
        } else if s.channel_status != ChannelStatus::Ready {
            by_locale(locale, "消息通道不可用"@, "messaging unavailable"@)
        } else {
            by_locale(locale, "等待自动续行"@, "waiting to continue"@)
        },
        TaskState::Unknown => if t.continuation_count >= s.automatic_chain_limit {
            by_locale(
                locale,
                "已达 "@ + decimal(s.automatic_chain_limit as nat) + " 次上限"@,
                decimal(s.automatic_chain_limit as nat) + "-continuation limit reached"@,
            )
        } else if s.status.kind == ContinuationStatusKind::ConfirmSend {
            by_locale(locale, "发送结果待确认"@, "send result needs review"@)
        } else {
            by_locale(locale, "需要确认"@, "needs review"@)
        },
        TaskState::Unavailable => by_locale(locale, "需要手动继续"@, "manual continuation required"@),
        _ => Seq::empty(),
    }
}

/// Why a task is listed.
pub fn tray_task_reason(task: &TaskSnapshot, snapshot: &ContinuationSnapshot, locale: AppLocale) -> (r: String)
    ensures
        r@ == reason_text(*task, *snapshot, locale),
{
    match task.state {
        TaskState::WaitingContinuation => {
            if !snapshot.auto_retry_enabled {
                owned(pick(locale, "自动继续已暂停", "automatic continuation paused"))
            } else if snapshot.channel_status != ChannelStatus::Ready {
                owned(pick(locale, "消息通道不可用", "messaging unavailable"))
            } else {
                owned(pick(locale, "等待自动续行", "waiting to continue"))
            }
        },
        TaskState::Unknown => {
            if task.continuation_count >= snapshot.automatic_chain_limit {
                let n = decimal_string(snapshot.automatic_chain_limit as u64);
                match locale {
                    AppLocale::ZhCn => {
                        let mut s = concat2("已达 ", n.as_str());
                        push_str(&mut s, " 次上限");
                        s
                    },
                    AppLocale::En => concat2(n.as_str(), "-continuation limit reached"),
                }
            } else if snapshot.status.kind == ContinuationStatusKind::ConfirmSend {
                owned(pick(locale, "发送结果待确认", "send result needs review"))
            } else {
                owned(pick(locale, "需要确认", "needs review"))
            }
        },
        TaskState::Unavailable => owned(pick(locale, "需要手动继续", "manual continuation required")),
        _ => String::new(),
    }
}

/// The words of `s`: its longest runs of characters that are not white space.
pub open spec fn words(s: Seq<char>) -> Seq<Seq<char>>
    decreases s.len(),
{
    if s.len() == 0 {
        Seq::empty()
    } else {
        let w = words(s.drop_last());
        let c = s.last();
        if is_ws(c) {
            w
        } else if s.len() >= 2 && !is_ws(s[s.len() - 2]) && w.len() > 0 {
            w.update(w.len() - 1, w.last().push(c))
        } else {
            w.push(seq![c])
        }
    }
}

/// `s` with its words joined by single spaces.
pub open spec fn compact_text(s: Seq<char>) -> Seq<char> {
    joined(words(s), " "@)
}

proof fn lemma_joined_extend_last(w: Seq<Seq<char>>, c: char, sep: Seq<char>)
    requires
        w.len() > 0,
    ensures
        joined(w.update(w.len() - 1, w.last().push(c)), sep) == joined(w, sep).push(c),
{
    let u = w.update(w.len() - 1, w.last().push(c));
    if w.len() == 1 {
        assert(u[0] == w[0].push(c));
    } else {
        assert(u.drop_last() =~= w.drop_last());
        assert(joined(u, sep) == joined(w.drop_last(), sep) + sep + w.last().push(c));
        assert(joined(w.drop_last(), sep) + sep + w.last().push(c) =~= (joined(
            w.drop_last(),
            sep,
        ) + sep + w.last()).push(c));
    }
}

proof fn lemma_joined_push(w: Seq<Seq<char>>, x: Seq<char>, sep: Seq<char>)
    ensures
        joined(w.push(x), sep) == if w.len() == 0 {
            x
        } else {
            joined(w, sep) + sep + x
        },
{
    assert(w.push(x).drop_last() =~= w);
    if w.len() == 0 {
        assert(w.push(x)[0] == x);
    }
}

/// `value` with its words joined by single spaces.
pub fn compact_menu_text(value: &str) -> (r: String)
    ensures
        r@ == compact_text(value@),
{
    let cs = chars_of(value);
    let mut out: Vec<char> = Vec::new();
    let mut any = false;
    let mut in_word = false;
    let mut i: usize = 0;
    proof {
        reveal_strlit(" ");
        assert(cs@.take(0) =~= Seq::<char>::empty());
    }
    while i < cs.len()
        invariant
            i <= cs@.len(),
            cs@ == value@,
            " "@ == seq![' '],
            out@ == joined(words(cs@.take(i as int)), " "@),
            any == (words(cs@.take(i as int)).len() > 0),
            in_word == (i > 0 && !is_ws(cs@[i - 1])),
        decreases cs@.len() - i,
    {
        let c = cs[i];
        let ghost pre = cs@.take(i as int);
        let ghost next = cs@.take(i + 1);
        assert(next.drop_last() =~= pre);
        assert(next.last() == c);
        if is_whitespace(c) {
            in_word = false;
        } else if in_word && any {
            assert(next[next.len() - 2] == cs@[i - 1]);
            proof {
                lemma_joined_extend_last(words(pre), c, " "@);
            }
            out.push(c);
        } else {
            proof {
                lemma_joined_push(words(pre), seq![c], " "@);
            }
            if any {
                out.push(' ');
            }
            out.push(c);
            assert(out@ =~= joined(words(next), " "@));
            any = true;
            in_word = true;
        }
        if !is_whitespace(c) {
            in_word = true;
        }
        i += 1;
    }
    assert(cs@.take(i as int) =~= cs@);
    string_of(&out)
}

/// `s` cut to `max` characters, with "…" when something was cut.
pub open spec fn truncated(s: Seq<char>, max: nat) -> Seq<char> {
    if s.len() > max {
        s.take(max as int) + "…"@
    } else {
        s
    }
}

/// `value` cut to `max_chars` characters, with "…" when something was cut.
pub fn truncate_menu_text(value: &str, max_chars: usize) -> (r: String)
    ensures
        r@ == truncated(value@, max_chars as nat),
{
    let cs = chars_of(value);
    if cs.len() > max_chars {
        let mut head: Vec<char> = Vec::new();
        let mut i: usize = 0;
        while i < max_chars
            invariant
                i <= max_chars < cs@.len(),
                head@ == cs@.take(i as int),
            decreases max_chars - i,
        {
            head.push(cs[i]);
            i += 1;
            assert(cs@.take(i as int) =~= cs@.take(i - 1).push(cs@[i - 1]));
        }
        let mut s = string_of(&head);
        push_str(&mut s, "…");
        s
    } else {
        owned(value)
    }
}

/// `s` with every `&` doubled, so that menus show it as it is.
pub open spec fn escaped(s: Seq<char>) -> Seq<char>
    decreases s.len(),
{
    if s.len() == 0 {
        s
    } else if s.last() == '&' {
        escaped(s.drop_last()) + seq!['&', '&']
    } else {
        escaped(s.drop_last()).push(s.last())
    }
}

/// `value` with every `&` doubled.
pub fn escape_menu_mnemonics(value: &str) -> (r: String)
    ensures
        r@ == escaped(value@),
{
    let cs = chars_of(value);
    let mut out = String::new();
    let mut i: usize = 0;
    assert(cs@.take(0) =~= Seq::<char>::empty());
    while i < cs.len()
        invariant
            i <= cs@.len(),
            cs@ == value@,
            out@ == escaped(cs@.take(i as int)),
        decreases cs@.len() - i,
    {
        assert(cs@.take(i + 1).drop_last() =~= cs@.take(i as int));
        let c = cs[i];
        push_char(&mut out, c);
        if c == '&' {
            push_char(&mut out, '&');
            assert(out@ =~= escaped(cs@.take(i as int)) + seq!['&', '&']);
        }
        i += 1;
    }
    assert(cs@.take(i as int) =~= cs@);
    out
}

/// The name shown for a task: its name with words joined by single spaces,
/// or the word for an unnamed task.
pub open spec fn display_name(t: TaskSnapshot, locale: AppLocale) -> Seq<char> {
    let c = match t.task_name {
        Some(n) => compact_text(n@),
        None => Seq::empty(),
    };
    if c.len() > 0 {
        c
    } else {
        by_locale(locale, "未命名任务"@, "Unnamed task"@)
    }
}

/// The label of a listed task: its name, cut to
/// [`TRAY_TASK_NAME_MAX_CHARS`], and why it is listed, with `&` doubled.
pub open spec fn item_label(t: TaskSnapshot, s: ContinuationSnapshot, locale: AppLocale) -> Seq<char> {
    escaped(
        truncated(display_name(t, locale), TRAY_TASK_NAME_MAX_CHARS as nat) + " · "@ + reason_text(
            t,
            s,
            locale,
        ),
    )
}

/// The tray entry of a task.
fn menu_item(task: &TaskSnapshot, snapshot: &ContinuationSnapshot, locale: AppLocale) -> (r: TrayTaskMenuItem)
    ensures
        r.task_id@ == task.task_id@,
        r.label@ == item_label(*task, *snapshot, locale),
{
    let compacted = match &task.task_name {
        Some(n) => compact_menu_text(n.as_str()),
        None => String::new(),
    };
    let name = if compacted.as_str().is_empty() {
        owned(locale.unnamed_task())
    } else {
        compacted
    };
    let mut label = truncate_menu_text(name.as_str(), TRAY_TASK_NAME_MAX_CHARS);
    push_str(&mut label, " · ");
    let reason = tray_task_reason(task, snapshot, locale);
    push_str(&mut label, reason.as_str());
    TrayTaskMenuItem { task_id: task.task_id.clone(), label: escape_menu_mnemonics(label.as_str()) }
}

/// Of a tray model: it lists the first [`TRAY_TASK_LIMIT`] of the tasks
/// needing attention, each with its label.
pub open spec fn lists_attention(items: Seq<TrayTaskMenuItem>, s: ContinuationSnapshot, locale: AppLocale) -> bool {
    let a = attention_of(s.tasks@);
    &&& items.len() == if a.len() <= TRAY_TASK_LIMIT {
        a.len() as int
    } else {
        TRAY_TASK_LIMIT as int
    }
    &&& labels_match(items, a, s, locale)
}

/// Each item names the task at its place in `a`, with that task's label.
pub open spec fn labels_match(
    items: Seq<TrayTaskMenuItem>,
    a: Seq<TaskSnapshot>,
    s: ContinuationSnapshot,
    locale: AppLocale,
) -> bool {
    forall|i: int|
        0 <= i < items.len() ==> #[trigger] items[i].task_id@ == a[i].task_id@ && items[i].label@
            == item_label(a[i], s, locale)
}

proof fn lemma_labels_push(
    items: Seq<TrayTaskMenuItem>,
    a: Seq<TaskSnapshot>,
    t: TaskSnapshot,
    item: TrayTaskMenuItem,
    s: ContinuationSnapshot,
    locale: AppLocale,
)
    requires
        labels_match(items, a, s, locale),
        items.len() == a.len(),
        item.task_id@ == t.task_id@,
        item.label@ == item_label(t, s, locale),
    ensures
        labels_match(items.push(item), a.push(t), s, locale),
{
    let i2 = items.push(item);
    let a2 = a.push(t);
    assert forall|j: int| 0 <= j < i2.len() implies #[trigger] i2[j].task_id@ == a2[j].task_id@
        && i2[j].label@ == item_label(a2[j], s, locale) by {
        if j < items.len() {
            assert(i2[j] == items[j]);
            assert(a2[j] == a[j]);
            assert(items[j].task_id@ == a[j].task_id@);
        }
    }
}

proof fn lemma_labels_extend(
    items: Seq<TrayTaskMenuItem>,
    a: Seq<TaskSnapshot>,
    t: TaskSnapshot,
    s: ContinuationSnapshot,
    locale: AppLocale,
)
    requires
        labels_match(items, a, s, locale),
        items.len() <= a.len(),
    ensures
        labels_match(items, a.push(t), s, locale),
{
    let a2 = a.push(t);
    assert forall|j: int| 0 <= j < items.len() implies #[trigger] items[j].task_id@
        == a2[j].task_id@ && items[j].label@ == item_label(a2[j], s, locale) by {
        assert(a2[j] == a[j]);
        assert(items[j].task_id@ == a[j].task_id@);
    }
}

/// What the tray shows of a snapshot.
pub fn tray_menu_model(snapshot: &ContinuationSnapshot, locale: AppLocale) -> (r: TrayMenuModel)
    ensures
        r.locale == locale,
        r.tone == tone_of(*snapshot),
        r.status_label@ == status_text(*snapshot, locale),
        r.auto_retry_enabled == snapshot.auto_retry_enabled,
        r.attention_count == attention_of(snapshot.tasks@).len(),
        lists_attention(r.attention_tasks@, *snapshot, locale),
{
    let tasks = &snapshot.tasks;
    let mut count: usize = 0;
    let mut items: Vec<TrayTaskMenuItem> = Vec::new();
    let mut i: usize = 0;
    assert(tasks@.take(0) =~= Seq::<TaskSnapshot>::empty());
    while i < tasks.len()
        invariant
            i <= tasks@.len(),
            tasks@ == snapshot.tasks@,
            count == attention_of(tasks@.take(i as int)).len(),
            count <= i,
            items@.len() == if count <= TRAY_TASK_LIMIT {
                count as int
            } else {
                TRAY_TASK_LIMIT as int
            },
            labels_match(items@, attention_of(tasks@.take(i as int)), *snapshot, locale),
        decreases tasks@.len() - i,
    {
        let ghost pre = attention_of(tasks@.take(i as int));
        assert(tasks@.take(i + 1).drop_last() =~= tasks@.take(i as int));
        assert(tasks@.take(i + 1).last() == tasks@[i as int]);
        if is_attention_task(&tasks[i]) {
            assert(attention_of(tasks@.take(i + 1)) == pre.push(tasks@[i as int]));
            if items.len() < TRAY_TASK_LIMIT {
                let item = menu_item(&tasks[i], snapshot, locale);
                proof {
                    lemma_labels_push(items@, pre, tasks@[i as int], item, *snapshot, locale);
                }
                items.push(item);
            } else {
                proof {
                    lemma_labels_extend(items@, pre, tasks@[i as int], *snapshot, locale);
                }
            }
            count += 1;
        } else {
            assert(attention_of(tasks@.take(i + 1)) == pre);
        }
        i += 1;
    }
    assert(tasks@.take(i as int) =~= tasks@);
    TrayMenuModel {
        locale,
        tone: tray_tone(snapshot),
        status_label: tray_status_label(snapshot, locale),
        auto_retry_enabled: snapshot.auto_retry_enabled,
        attention_count: count,
        attention_tasks: items,
    }
}

// ---------------------------------------------------------------------------
// Deep links
// ---------------------------------------------------------------------------

/// The link to a task in the desktop app, given the task id's canonical
/// form; `None` means the id is no UUID.
pub open spec fn thread_url(hyphenated: Option<Seq<char>>) -> Result<Seq<char>, Seq<char>> {
    match hyphenated {
        Some(h) => Ok("codex://threads/"@ + h),
        None => Err("任务 ID 无效"@),
    }
}

/// The link to a task given its id's canonical form.
pub fn thread_url_of(hyphenated: Option<String>) -> (r: Result<String, String>)
    ensures
        crate::service::text_result(r) == thread_url(crate::state::opt_view(hyphenated)),
{
    match hyphenated {
        Some(h) => Ok(concat2("codex://threads/", h.as_str())),
        None => Err(owned("任务 ID 无效")),
    }
}

/// The link that opens the task `task_id` in the desktop app; an id that is
/// no UUID, once trimmed, is refused.
pub fn codex_thread_url(task_id: &str) -> (r: Result<String, String>)
    ensures
        crate::service::text_result(r) == thread_url(uuid_hyphenated(trimmed(task_id@))),
{
    let t = trim(task_id);
    thread_url_of(parse_uuid_hyphenated(t.as_str()))
}

// ---------------------------------------------------------------------------
// The menu
// ---------------------------------------------------------------------------

/// One entry of the tray menu.
#[derive(Clone, Debug, PartialEq, Eq)]
pub enum MenuEntry {
    /// An item with its id and label; a disabled item only informs.
    Item { id: String, label: String, enabled: bool },
    /// A check item with its id, label and state.
    Check { id: String, label: String, checked: bool },
    /// A line between groups.
    Separator,
}

/// What a [`MenuEntry`] holds.
pub enum MenuEntryView {
    Item { id: Seq<char>, label: Seq<char>, enabled: bool },
    Check { id: Seq<char>, label: Seq<char>, checked: bool },
    Separator,
}

impl View for MenuEntry {
    type V = MenuEntryView;

    open spec fn view(&self) -> MenuEntryView {
        match self {
            MenuEntry::Item { id, label, enabled } => MenuEntryView::Item {
                id: id@,
                label: label@,
                enabled: *enabled,
            },
            MenuEntry::Check { id, label, checked } => MenuEntryView::Check {
                id: id@,
                label: label@,
                checked: *checked,
            },
            MenuEntry::Separator => MenuEntryView::Separator,
        }
    }
}

/// An enabled item.
pub open spec fn item(id: Seq<char>, label: Seq<char>) -> MenuEntryView {
    MenuEntryView::Item { id, label, enabled: true }
}

/// The views of some menu entries.
pub open spec fn entry_views(s: Seq<MenuEntry>) -> Seq<MenuEntryView> {
    s.map_values(|e: MenuEntry| e@)
}

/// The entries of the listed tasks: each opens its task.
pub open spec fn task_entries(items: Seq<TrayTaskMenuItem>) -> Seq<MenuEntryView> {
    items.map_values(|t: TrayTaskMenuItem| item(TRAY_TASK_PREFIX@ + t.task_id@, t.label@))
}

/// The tray menu of a model: the status line and the automatic-continuation
/// switch; the tasks needing attention under a heading, with an item for all
/// of them when more need attention than are listed; then the window,
/// settings and log items, and the quit item.
pub open spec fn menu_of(m: TrayMenuModel) -> Seq<MenuEntryView> {
    let l = m.locale;
    let head = seq![
        MenuEntryView::Item { id: "status"@, label: m.status_label@, enabled: false },
        MenuEntryView::Check {
            id: "auto-retry"@,
            label: by_locale(l, "自动继续"@, "Automatic continuation"@),
            checked: m.auto_retry_enabled,
        },
    ];
    let attention = if m.attention_tasks@.len() == 0 {
        Seq::empty()
    } else {
        seq![
            MenuEntryView::Separator,
            MenuEntryView::Item {
                id: "attention-heading"@,
                label: by_locale(
                    l,
                    "待处理任务（"@ + decimal(m.attention_count as nat) + "）"@,
                    "Tasks needing attention ("@ + decimal(m.attention_count as nat) + ")"@,
                ),
                enabled: false,
            },
        ] + task_entries(m.attention_tasks@) + if m.attention_count > TRAY_TASK_LIMIT {
            seq![
                item(
                    "view-all-tasks"@,
                    by_locale(l, "查看全部待处理任务"@, "View All Tasks Needing Attention"@),
                ),
            ]
        } else {
            Seq::empty()
        }
    };
    let tail = seq![
        MenuEntryView::Separator,
        item("show"@, by_locale(l, "打开 TurnMender"@, "Open TurnMender"@)),
        item("settings"@, by_locale(l, "设置"@, "Settings"@)),
        item("view-log"@, by_locale(l, "查看运行日志"@, "View Runtime Log"@)),
        MenuEntryView::Separator,
        item("quit"@, by_locale(l, "退出 TurnMender"@, "Quit TurnMender"@)),
    ];
    head + attention + tail
}

fn push_item(entries: &mut Vec<MenuEntry>, id: &str, label: &str, enabled: bool)
    ensures
        entry_views(final(entries)@) == entry_views(old(entries)@).push(
            MenuEntryView::Item { id: id@, label: label@, enabled },
        ),
{
    let ghost before = entries@;
    entries.push(MenuEntry::Item { id: owned(id), label: owned(label), enabled });
    assert(entry_views(entries@) =~= entry_views(before).push(
        MenuEntryView::Item { id: id@, label: label@, enabled },
    ));
}

fn push_separator(entries: &mut Vec<MenuEntry>)
    ensures
        entry_views(final(entries)@) == entry_views(old(entries)@).push(MenuEntryView::Separator),
{
    let ghost before = entries@;
    entries.push(MenuEntry::Separator);
    assert(entry_views(entries@) =~= entry_views(before).push(MenuEntryView::Separator));
}

/// The tray menu of a model.
pub fn tray_menu_entries(model: &TrayMenuModel) -> (r: Vec<MenuEntry>)
    ensures
        entry_views(r@) == menu_of(*model),
{
    let l = model.locale;
    let mut entries: Vec<MenuEntry> = Vec::new();
    assert(entry_views(entries@) =~= Seq::<MenuEntryView>::empty());
    push_item(&mut entries, "status", model.status_label.as_str(), false);
    let ghost before_check = entries@;
    entries.push(
        MenuEntry::Check {
            id: owned("auto-retry"),
            label: owned(l.auto_retry()),
            checked: model.auto_retry_enabled,
        },
    );
    assert(entry_views(entries@) =~= entry_views(before_check).push(
        MenuEntryView::Check {
            id: "auto-retry"@,
            label: by_locale(l, "自动继续"@, "Automatic continuation"@),
            checked: model.auto_retry_enabled,
        },
    ));
    let ghost head = entry_views(entries@);
    if model.attention_tasks.len() > 0 {
        push_separator(&mut entries);
        let heading = l.attention_heading(model.attention_count);
        push_item(&mut entries, "attention-heading", heading.as_str(), false);
        let ghost base = entry_views(entries@);
        let tasks = &model.attention_tasks;
        let mut i: usize = 0;
        while i < tasks.len()
            invariant
                i <= tasks@.len(),
                tasks@ == model.attention_tasks@,
                entry_views(entries@) == base + task_entries(tasks@.take(i as int)),
            decreases tasks@.len() - i,
        {
            let id = concat2(TRAY_TASK_PREFIX, tasks[i].task_id.as_str());
            push_item(&mut entries, id.as_str(), tasks[i].label.as_str(), true);
            proof {
                assert(task_entries(tasks@.take(i + 1)) =~= task_entries(tasks@.take(i as int)).push(
                    item(TRAY_TASK_PREFIX@ + tasks@[i as int].task_id@, tasks@[i as int].label@),
                ));
            }
            i += 1;
        }
        assert(tasks@.take(i as int) =~= tasks@);
        let ghost listed = entry_views(entries@);
        if model.attention_count > TRAY_TASK_LIMIT {
            push_item(&mut entries, "view-all-tasks", l.view_all_tasks(), true);
        } else {
            assert(listed + Seq::<MenuEntryView>::empty() =~= listed);
        }
        assert(entry_views(entries@) =~= head + (seq![
            MenuEntryView::Separator,
            MenuEntryView::Item {
                id: "attention-heading"@,
                label: heading@,
                enabled: false,
            },
        ] + task_entries(model.attention_tasks@) + if model.attention_count > TRAY_TASK_LIMIT {
            seq![item("view-all-tasks"@, by_locale(l, "查看全部待处理任务"@, "View All Tasks Needing Attention"@))]
        } else {
            Seq::<MenuEntryView>::empty()
        }));
    } else {
        assert(head + Seq::<MenuEntryView>::empty() =~= head);
    }
    let ghost middle = entry_views(entries@);
    push_separator(&mut entries);
    push_item(&mut entries, "show", l.show_window(), true);
    push_item(&mut entries, "settings", l.settings(), true);
    push_item(&mut entries, "view-log", l.view_log(), true);
    push_separator(&mut entries);
    push_item(&mut entries, "quit", l.quit(), true);
    assert(entry_views(entries@) =~= middle + seq![
        MenuEntryView::Separator,
        item("show"@, by_locale(l, "打开 TurnMender"@, "Open TurnMender"@)),
        item("settings"@, by_locale(l, "设置"@, "Settings"@)),
        item("view-log"@, by_locale(l, "查看运行日志"@, "View Runtime Log"@)),
        MenuEntryView::Separator,
        item("quit"@, by_locale(l, "退出 TurnMender"@, "Quit TurnMender"@)),
    ]);
    entries
}

/// The tooltip of the tray icon.
pub fn tray_tooltip(model: &TrayMenuModel) -> (r: String)
    ensures
        r@ == "TurnMender · "@ + model.status_label@,
{
    concat2("TurnMender · ", model.status_label.as_str())
}

/// What choosing a menu entry does.
#[derive(Clone, Debug, PartialEq, Eq)]
pub enum MenuAction {
    ShowWindow,
    ShowSettings,
    ToggleAutoRetry,
    ViewLog,
    Quit,
    /// Open the task with this id in the desktop app.
    OpenTask(String),
    /// Nothing.
    Ignore,
}

/// What choosing the entry `id` does.
pub open spec fn action_of(id: Seq<char>) -> MenuAction {
    if id == "show"@ || id == "view-all-tasks"@ {
        MenuAction::ShowWindow
    } else if id == "settings"@ {
        MenuAction::ShowSettings
    } else if id == "auto-retry"@ {
        MenuAction::ToggleAutoRetry
    } else if id == "view-log"@ {
        MenuAction::ViewLog
    } else if id == "quit"@ {
        MenuAction::Quit
    } else {
        MenuAction::Ignore
    }
}

/// Whether the choice `r` of the entry `id` is what the menu means: a known
/// id, or the task after [`TRAY_TASK_PREFIX`].
pub open spec fn chosen(id: Seq<char>, r: MenuAction) -> bool {
    let p = TRAY_TASK_PREFIX@;
    if action_of(id) != MenuAction::Ignore {
        r == action_of(id)
    } else if p.len() <= id.len() && id.take(p.len() as int) == p {
        r matches MenuAction::OpenTask(t) && t@ == id.skip(p.len() as int)
    } else {
        r == MenuAction::Ignore
    }
}

/// What choosing the entry `id` does.
pub fn menu_action(id: &str) -> (r: MenuAction)
    ensures
        chosen(id@, r),
{
    if str_eq(id, "show") || str_eq(id, "view-all-tasks") {
        return MenuAction::ShowWindow;
    }
    if str_eq(id, "settings") {
        return MenuAction::ShowSettings;
    }
    if str_eq(id, "auto-retry") {
        return MenuAction::ToggleAutoRetry;
    }
    if str_eq(id, "view-log") {
        return MenuAction::ViewLog;
    }
    if str_eq(id, "quit") {
        return MenuAction::Quit;
    }
    let cs = chars_of(id);
    let p = chars_of(TRAY_TASK_PREFIX);
    if p.len() <= cs.len() {
        let mut i: usize = 0;
        while i < p.len()
            invariant
                action_of(id@) == MenuAction::Ignore,
                p@ == TRAY_TASK_PREFIX@,
                cs@ == id@,
                p@.len() <= cs@.len(),
                i <= p@.len(),
                cs@.take(i as int) == p@.take(i as int),
            decreases p@.len() - i,
        {
            if cs[i] != p[i] {
                assert(cs@.take(p@.len() as int)[i as int] != p@[i as int]);
                assert(id@.take(TRAY_TASK_PREFIX@.len() as int) != TRAY_TASK_PREFIX@);
                assert(action_of(id@) == MenuAction::Ignore);
                return MenuAction::Ignore;
            }
            i += 1;
            assert(cs@.take(i as int) =~= cs@.take(i - 1).push(cs@[i - 1]));
            assert(p@.take(i as int) =~= p@.take(i - 1).push(p@[i - 1]));
        }
        assert(p@.take(i as int) =~= p@);
        let mut rest: Vec<char> = Vec::new();
        let mut j: usize = p.len();
        while j < cs.len()
            invariant
                p@.len() <= j <= cs@.len(),
                rest@ == cs@.subrange(p@.len() as int, j as int),
            decreases cs@.len() - j,
        {
            rest.push(cs[j]);
            j += 1;
            assert(cs@.subrange(p@.len() as int, j as int) =~= cs@.subrange(
                p@.len() as int,
                j - 1,
            ).push(cs@[j - 1]));
        }
        assert(cs@.subrange(p@.len() as int, cs@.len() as int) =~= cs@.skip(p@.len() as int));
        return MenuAction::OpenTask(string_of(&rest));
    }
    MenuAction::Ignore
}

// ---------------------------------------------------------------------------
// The icon
// ---------------------------------------------------------------------------

/// The icon's pixels, four bytes each, in `color` with each pixel's own
/// opacity; bytes after the last whole pixel are dropped.
pub open spec fn recolored(rgba: Seq<u8>, color: Seq<u8>) -> Seq<u8> {
    Seq::new(
        4 * (rgba.len() / 4),
        |i: int| if i % 4 == 3 {
            rgba[i]
        } else {
            color[i % 4]
        },
    )
}

/// The icon's pixels in `color`, each keeping its opacity.
pub fn colored_icon_pixels(rgba: &Vec<u8>, color: [u8; 3]) -> (r: Vec<u8>)
    ensures
        r@ == recolored(rgba@, color@),
{
    let n = rgba.len() / 4;
    let mut out: Vec<u8> = Vec::new();
    let mut p: usize = 0;
    let mut base: usize = 0;
    while p < n
        invariant
            n == rgba@.len() / 4,
            p <= n,
            base == 4 * p,
            4 * n <= rgba@.len(),
            rgba@.len() <= usize::MAX,
            out@.len() == 4 * p,
            forall|i: int| 0 <= i < 4 * p ==> #[trigger] out@[i] == if i % 4 == 3 {
                rgba@[i]
            } else {
                color@[i % 4]
            },
        decreases n - p,
    {
        assert(base + 3 < rgba@.len());
        out.push(color[0]);
        out.push(color[1]);
        out.push(color[2]);
        out.push(rgba[base + 3]);
        proof {
            assert forall|i: int| 0 <= i < 4 * (p + 1) implies #[trigger] out@[i] == if i % 4 == 3 {
                rgba@[i]
            } else {
                color@[i % 4]
            } by {
                if i >= 4 * p {
                    assert(i - 4 * p < 4);
                    assert((i - 4 * p) == i % 4) by (nonlinear_arith)
                        requires
                            4 * p <= i < 4 * p + 4,
                    ;
                }
            }
        }
        assert(base + 4 <= 4 * n);
        p += 1;
        base += 4;
    }
    assert(out@ =~= recolored(rgba@, color@));
    out
}

// ---------------------------------------------------------------------------
// Laws
// ---------------------------------------------------------------------------

/// Red: the service stopped, monitoring failed, or a task needs review or
/// manual continuation. Yellow: otherwise, when continuation is paused, the
/// channel is not ready or a task waits. Green: only when none of these
/// holds.
pub proof fn law_tone_follows_the_worst_state(s: ContinuationSnapshot)
    ensures
        !s.running ==> tone_of(s) == TrayTone::Red,
        s.status.kind == ContinuationStatusKind::WatchFailed ==> tone_of(s) == TrayTone::Red,
        group_count(s.tasks@, StateGroup::Critical) > 0 ==> tone_of(s) == TrayTone::Red,
        tone_of(s) == TrayTone::Green <==> s.running && s.status.kind
            != ContinuationStatusKind::WatchFailed && group_count(s.tasks@, StateGroup::Critical)
            == 0 && s.channel_status == ChannelStatus::Ready && s.auto_retry_enabled
            && group_count(s.tasks@, StateGroup::Waiting) == 0,
{
}

/// The tray lists at most [`TRAY_TASK_LIMIT`] tasks, and all of them when
/// no more need attention.
pub proof fn law_tray_lists_at_most_three(
    items: Seq<TrayTaskMenuItem>,
    s: ContinuationSnapshot,
    locale: AppLocale,
)
    requires
        lists_attention(items, s, locale),
    ensures
        items.len() <= TRAY_TASK_LIMIT,
        attention_of(s.tasks@).len() <= TRAY_TASK_LIMIT ==> items.len() == attention_of(
            s.tasks@,
        ).len(),
{
}

/// The tray's status line in each situation, the most urgent first: a stopped
/// service, failed monitoring, tasks needing action (with their number),
/// paused continuation, a channel that is not ready, starting, continuing,
/// tasks waiting for continuation (with their number), and then ready, with
/// the number of running tasks when there are any.
pub proof fn law_status_line_by_situation(s: ContinuationSnapshot)
    ensures
        ({
            let critical = group_count(s.tasks@, StateGroup::Critical);
            let waiting = group_count(s.tasks@, StateGroup::Waiting);
            let running = group_count(s.tasks@, StateGroup::Running);
            let kind = s.status.kind;
            let zh = status_text(s, AppLocale::ZhCn);
            let en = status_text(s, AppLocale::En);
            let active = s.running && kind != ContinuationStatusKind::WatchFailed && critical == 0;
            let settled = active && s.auto_retry_enabled && s.channel_status == ChannelStatus::Ready
                && kind != ContinuationStatusKind::Preparing && kind
                != ContinuationStatusKind::Continuing;
            &&& !s.running ==> zh == "状态：续行服务已停止"@ && en == "Status: continuation stopped"@
            &&& s.running && kind == ContinuationStatusKind::WatchFailed ==> zh == "状态：任务监听失败"@
                && en == "Status: monitoring failed"@
            &&& s.running && kind != ContinuationStatusKind::WatchFailed && critical > 0 ==> zh
                == "需要处理 · "@ + decimal(critical) + " 个任务"@ && en == "Action required · "@
                + count_label(AppLocale::En, critical, ""@, ""@)
            &&& active && !s.auto_retry_enabled && waiting == 0 ==> zh == "仅监听 · 自动继续已暂停"@
            &&& active && !s.auto_retry_enabled && waiting > 0 ==> zh == "仅监听 · "@ + decimal(
                waiting,
            ) + " 个任务等待处理"@
            &&& active && s.auto_retry_enabled && s.channel_status == ChannelStatus::Unsupported
                ==> zh == "正在监听 · 当前平台仅支持监听"@
            &&& active && s.auto_retry_enabled && s.channel_status != ChannelStatus::Ready
                && s.channel_status != ChannelStatus::Unsupported ==> zh == "正在监听 · 消息通道不可用"@
            &&& active && s.auto_retry_enabled && s.channel_status == ChannelStatus::Ready && kind
                == ContinuationStatusKind::Preparing ==> zh == "正在启动任务监听…"@
            &&& active && s.auto_retry_enabled && s.channel_status == ChannelStatus::Ready && kind
                == ContinuationStatusKind::Continuing ==> zh == "正在自动续行…"@
            &&& settled && waiting > 0 ==> zh == "等待自动续行 · "@ + decimal(waiting) + " 个任务"@
                && en == "Waiting to continue · "@ + count_label(AppLocale::En, waiting, ""@, ""@)
            &&& settled && waiting == 0 && running == 0 ==> zh == "状态：续行就绪"@ && en
                == "Status: continuation ready"@
            &&& settled && waiting == 0 && running > 0 ==> zh == "续行就绪 · "@ + decimal(running)
                + " 个任务运行中"@ && en == "Continuation ready · "@ + count_label(
                AppLocale::En,
                running,
                "运行中"@,
                "running"@,
            )
        }),
{
}

/// Each waiting task counts once in the number of waiting tasks: it is the
/// number of tasks waiting for continuation.
pub proof fn law_waiting_count_counts_waiting_tasks(tasks: Seq<TaskSnapshot>, t: TaskSnapshot)
    ensures
        group_count(tasks.push(t), StateGroup::Waiting) == group_count(tasks, StateGroup::Waiting)
            + if t.state == TaskState::WaitingContinuation {
            1nat
        } else {
            0nat
        },
        group_count(Seq::<TaskSnapshot>::empty(), StateGroup::Waiting) == 0,
{
    assert(tasks.push(t).drop_last() =~= tasks);
}

/// Why a task is listed, by its state: a waiting task says whether
/// continuation is paused, the channel is down, or it waits to continue; a
/// task needing review says whether it reached the limit (naming it) or its
/// send result needs review; a task needing manual continuation says so; any
/// other task gives no reason.
pub proof fn law_reason_by_state(t: TaskSnapshot, s: ContinuationSnapshot)
    ensures
        ({
            let zh = reason_text(t, s, AppLocale::ZhCn);
            let en = reason_text(t, s, AppLocale::En);
            let limit = s.automatic_chain_limit as nat;
            &&& t.state == TaskState::WaitingContinuation && !s.auto_retry_enabled ==> zh
                == "自动继续已暂停"@ && en == "automatic continuation paused"@
            &&& t.state == TaskState::WaitingContinuation && s.auto_retry_enabled && s.channel_status
                != ChannelStatus::Ready ==> zh == "消息通道不可用"@ && en == "messaging unavailable"@
            &&& t.state == TaskState::WaitingContinuation && s.auto_retry_enabled && s.channel_status
                == ChannelStatus::Ready ==> zh == "等待自动续行"@ && en == "waiting to continue"@
            &&& t.state == TaskState::Unknown && t.continuation_count >= s.automatic_chain_limit
                ==> zh == "已达 "@ + decimal(limit) + " 次上限"@ && en == decimal(limit)
                + "-continuation limit reached"@
            &&& t.state == TaskState::Unknown && t.continuation_count < s.automatic_chain_limit
                && s.status.kind == ContinuationStatusKind::ConfirmSend ==> zh == "发送结果待确认"@
                && en == "send result needs review"@
            &&& t.state == TaskState::Unknown && t.continuation_count < s.automatic_chain_limit
                && s.status.kind != ContinuationStatusKind::ConfirmSend ==> zh == "需要确认"@ && en
                == "needs review"@
            &&& t.state == TaskState::Unavailable ==> zh == "需要手动继续"@ && en
                == "manual continuation required"@
            &&& !needs_attention(t.state) ==> zh.len() == 0 && en.len() == 0
        }),
{
}

} // verus!
