//! The channel to the desktop app: what a continuation request and its
//! receipt hold, how the channel's replies are read, and how messages are
//! framed on it.
//!
//! The channel itself (a Unix socket or a named pipe) is opened and driven by
//! the caller; here are the decisions on what is sent and what came back.

use vstd::prelude::*;

use crate::json::{
    entry_lookup, json_document_bytes, json_text, member, parse_json_bytes, text_field, text_of,
    write_json, Json,
};
use vstd::utf8::encode_utf8;
use crate::text::{chars_eq, chars_of, concat2, decimal, decimal_string, owned, push_str, string_of};

verus! {

/// The largest frame, in bytes, that the channel carries.
pub const MAX_FRAME_SIZE: usize = 4 * 1024 * 1024;

/// The named pipe of the desktop app on Windows.
pub const PIPE_NAME: &'static str = "\\\\.\\pipe\\codex-ipc";

/// A request to continue a task after a failed turn.
#[derive(Debug, Clone)]
pub struct SendRequest {
    pub task_id: String,
    pub failed_turn_id: String,
    pub message: String,
}

/// The desktop app's answer to a continuation request.
#[derive(Debug, Clone)]
pub struct SendReceipt {
    pub accepted: bool,
    pub new_turn_id: String,
    pub protocol_version: i64,
}

/// What became of a task's goal when continuation was attempted.
#[derive(Debug, Clone, PartialEq, Eq)]
pub enum GoalRecovery {
    /// The task does not have a goal, so the caller may use the normal message path.
    NoGoal,
    /// A goal exists and is already active, so no status change was needed.
    AlreadyActive,
    /// A paused goal was switched back to active.
    Resumed,
    /// A goal exists, but its status must not be changed automatically.
    NotRecoverable(String),
}

/// The state of a task's goal as the channel reports it.
#[derive(Debug, Clone, PartialEq, Eq)]
pub enum GoalState {
    NoGoal,
    Active,
    Paused,
    Other(String),
}

/// Why the channel could not carry a request.
#[derive(Debug, Clone, PartialEq, Eq)]
pub enum SendError {
    Unavailable,
    Unsupported,
    NotFound,
    Protocol(String),
    Failed(String),
}

/// What a [`GoalState`] holds.
pub enum GoalStateView {
    NoGoal,
    Active,
    Paused,
    Other(Seq<char>),
}

impl View for GoalState {
    type V = GoalStateView;

    open spec fn view(&self) -> GoalStateView {
        match self {
            GoalState::NoGoal => GoalStateView::NoGoal,
            GoalState::Active => GoalStateView::Active,
            GoalState::Paused => GoalStateView::Paused,
            GoalState::Other(s) => GoalStateView::Other(s@),
        }
    }
}

/// What a [`GoalRecovery`] holds.
pub enum GoalRecoveryView {
    NoGoal,
    AlreadyActive,
    Resumed,
    NotRecoverable(Seq<char>),
}

impl View for GoalRecovery {
    type V = GoalRecoveryView;

    open spec fn view(&self) -> GoalRecoveryView {
        match self {
            GoalRecovery::NoGoal => GoalRecoveryView::NoGoal,
            GoalRecovery::AlreadyActive => GoalRecoveryView::AlreadyActive,
            GoalRecovery::Resumed => GoalRecoveryView::Resumed,
            GoalRecovery::NotRecoverable(s) => GoalRecoveryView::NotRecoverable(s@),
        }
    }
}

/// What a [`SendError`] holds.
pub enum SendErrorView {
    Unavailable,
    Unsupported,
    NotFound,
    Protocol(Seq<char>),
    Failed(Seq<char>),
}

impl View for SendError {
    type V = SendErrorView;

    open spec fn view(&self) -> SendErrorView {
        match self {
            SendError::Unavailable => SendErrorView::Unavailable,
            SendError::Unsupported => SendErrorView::Unsupported,
            SendError::NotFound => SendErrorView::NotFound,
            SendError::Protocol(d) => SendErrorView::Protocol(d@),
            SendError::Failed(d) => SendErrorView::Failed(d@),
        }
    }
}

/// The text of a send error.
pub open spec fn send_error_text(e: SendError) -> Seq<char> {
    match e {
        SendError::Unavailable => "消息通道不可用"@,
        SendError::Unsupported => "消息通道暂不支持当前平台"@,
        SendError::NotFound => "任务不存在或没有持有者"@,
        SendError::Protocol(d) => "消息通道协议不兼容: "@ + d@,
        SendError::Failed(d) => "消息通道发送失败: "@ + d@,
    }
}

impl SendError {
    /// The text shown for this error.
    pub fn message(&self) -> (r: String)
        ensures
            r@ == send_error_text(*self),
    {
        match self {
            SendError::Unavailable => owned("消息通道不可用"),
            SendError::Unsupported => owned("消息通道暂不支持当前平台"),
            SendError::NotFound => owned("任务不存在或没有持有者"),
            SendError::Protocol(d) => concat2("消息通道协议不兼容: ", d.as_str()),
            SendError::Failed(d) => concat2("消息通道发送失败: ", d.as_str()),
        }
    }
}

// ---------------------------------------------------------------------------
// Replies
// ---------------------------------------------------------------------------

/// What a reply says of itself when it failed: its `error` member when that
/// is a string, else that member as JSON, else the whole reply as JSON.
pub open spec fn response_detail_text(response: Json) -> Seq<char> {
    match response.field("error"@) {
        Some(Json::Str(s)) => s@,
        Some(e) => json_text(e),
        None => json_text(response),
    }
}

/// What a failed reply says of itself.
pub fn response_detail(response: &Json) -> (r: String)
    ensures
        r@ == response_detail_text(*response),
{
    match response.get("error") {
        Some(Json::Str(s)) => s.clone(),
        Some(e) => write_json(e),
        None => write_json(response),
    }
}

/// Whether a reply reports success.
pub open spec fn succeeded(response: Json) -> bool {
    text_field(Some(response), "resultType"@) == Some("success"@)
}

fn is_success(response: &Json) -> (r: bool)
    ensures
        r == succeeded(*response),
{
    match text_of(response.get("resultType")) {
        Some(t) => chars_eq(&t, &chars_of("success")),
        None => false,
    }
}

/// The goal found in a reply: `result.goal`, or else `result.result.goal`.
pub open spec fn reply_goal(response: Json) -> Option<Json> {
    let result = response.field("result"@);
    let direct = match result {
        Some(r) => r.field("goal"@),
        None => None,
    };
    match direct {
        Some(g) => Some(g),
        None => match result {
            Some(r) => match r.field("result"@) {
                Some(inner) => inner.field("goal"@),
                None => None,
            },
            None => None,
        },
    }
}

/// What a reply to a goal query says.
pub open spec fn goal_of(response: Json) -> Result<GoalStateView, SendErrorView> {
    if !succeeded(response) {
        Err(SendErrorView::Protocol(response_detail_text(response)))
    } else {
        match reply_goal(response) {
            None => Err(SendErrorView::Protocol("目标状态响应缺少 goal 字段"@)),
            Some(Json::Null) => Ok(GoalStateView::NoGoal),
            Some(g) => match text_field(Some(g), "status"@) {
                Some(s) => if s == "active"@ {
                    Ok(GoalStateView::Active)
                } else if s == "paused"@ {
                    Ok(GoalStateView::Paused)
                } else {
                    Ok(GoalStateView::Other(s))
                },
                None => Err(SendErrorView::Protocol("目标状态响应缺少 status 字段"@)),
            },
        }
    }
}

/// The view of a result.
pub open spec fn result_view<T: View, E: View>(r: Result<T, E>) -> Result<T::V, E::V> {
    match r {
        Ok(t) => Ok(t@),
        Err(e) => Err(e@),
    }
}

/// Reads a reply to a goal query: the goal is `result.goal`, or
/// `result.result.goal`; `null` means no goal.
pub fn goal_from_response(response: &Json) -> (r: Result<GoalState, SendError>)
    ensures
        result_view(r) == goal_of(*response),
{
    if !is_success(response) {
        return Err(SendError::Protocol(response_detail(response)));
    }
    let result = response.get("result");
    let goal = match member(result, "goal") {
        Some(g) => Some(g),
        None => member(member(result, "result"), "goal"),
    };
    let goal = match goal {
        Some(g) => g,
        None => return Err(SendError::Protocol(owned("目标状态响应缺少 goal 字段"))),
    };
    if let Json::Null = goal {
        return Ok(GoalState::NoGoal);
    }
    match text_of(goal.get("status")) {
        Some(status) => {
            if chars_eq(&status, &chars_of("active")) {
                Ok(GoalState::Active)
            } else if chars_eq(&status, &chars_of("paused")) {
                Ok(GoalState::Paused)
            } else {
                Ok(GoalState::Other(string_of(&status)))
            }
        },
        None => Err(SendError::Protocol(owned("目标状态响应缺少 status 字段"))),
    }
}

/// What a [`SendReceipt`] holds.
pub struct ReceiptView {
    pub accepted: bool,
    pub new_turn_id: Seq<char>,
    pub protocol_version: i64,
}

impl View for SendReceipt {
    type V = ReceiptView;

    open spec fn view(&self) -> ReceiptView {
        ReceiptView {
            accepted: self.accepted,
            new_turn_id: self.new_turn_id@,
            protocol_version: self.protocol_version,
        }
    }
}

/// The client id that a reply to `initialize` gives.
pub open spec fn client_id_of(response: Json) -> Result<Seq<char>, SendErrorView> {
    if !succeeded(response) {
        Err(SendErrorView::Protocol(response_detail_text(response)))
    } else {
        match text_field(response.field("result"@), "clientId"@) {
            Some(id) => Ok(id),
            None => Err(SendErrorView::Protocol("初始化没有返回 clientId"@)),
        }
    }
}

/// Reads the client id from a reply to `initialize`.
pub fn client_id_from_reply(response: &Json) -> (r: Result<String, SendError>)
    ensures
        result_view(r) == client_id_of(*response),
{
    if !is_success(response) {
        return Err(SendError::Protocol(response_detail(response)));
    }
    match text_of(member(response.get("result"), "clientId")) {
        Some(id) => Ok(string_of(&id)),
        None => Err(SendError::Protocol(owned("初始化没有返回 clientId"))),
    }
}

/// The client that holds a task, as a reply to owner discovery gives it.
pub open spec fn owner_of(response: Json) -> Result<Seq<char>, SendErrorView> {
    if !succeeded(response) {
        Err(SendErrorView::NotFound)
    } else {
        match text_field(Some(response), "handledByClientId"@) {
            Some(owner) => Ok(owner),
            None => Err(SendErrorView::NotFound),
        }
    }
}

/// Reads the task's holder from a reply to owner discovery.
pub fn owner_from_reply(response: &Json) -> (r: Result<String, SendError>)
    ensures
        result_view(r) == owner_of(*response),
{
    if !is_success(response) {
        return Err(SendError::NotFound);
    }
    match text_of(response.get("handledByClientId")) {
        Some(owner) => Ok(string_of(&owner)),
        None => Err(SendError::NotFound),
    }
}

/// The new turn that a successful reply to a start-turn request names:
/// `result.result.turn.id`, when not empty.
pub open spec fn started_turn_of(response: Json) -> Option<Seq<char>> {
    if succeeded(response) && text_field(Some(response), "method"@) == Some(
        "thread-follower-start-turn"@,
    ) {
        let turn = match response.field("result"@) {
            Some(r) => match r.field("result"@) {
                Some(inner) => inner.field("turn"@),
                None => None,
            },
            None => None,
        };
        match text_field(turn, "id"@) {
            Some(id) => if id.len() > 0 {
                Some(id)
            } else {
                None
            },
            None => None,
        }
    } else {
        None
    }
}

/// The kind of channel to the desktop app.
#[derive(Debug, Clone, Copy, PartialEq, Eq, Structural)]
pub enum ChannelKind {
    /// The Unix socket on macOS.
    Socket,
    /// The named pipe on Windows.
    Pipe,
}

/// What an I/O failure on a channel of `kind` means: on the pipe, a pipe that
/// is missing or a wait that timed out leaves the channel unavailable; any
/// other failure is reported with its text.
pub open spec fn io_failure(kind: ChannelKind, missing_or_timed_out: bool, text: Seq<char>) -> SendErrorView {
    if kind == ChannelKind::Pipe && missing_or_timed_out {
        SendErrorView::Unavailable
    } else {
        SendErrorView::Failed(text)
    }
}

/// What an I/O failure on a channel of `kind` means.
pub fn channel_io_error(kind: ChannelKind, missing_or_timed_out: bool, text: String) -> (r: SendError)
    ensures
        r@ == io_failure(kind, missing_or_timed_out, text@),
{
    if kind == ChannelKind::Pipe && missing_or_timed_out {
        SendError::Unavailable
    } else {
        SendError::Failed(text)
    }
}

/// What a failure to connect to a channel of `kind` means: the socket reports
/// it with its text; the pipe is then unavailable.
pub fn channel_connect_error(kind: ChannelKind, text: String) -> (r: SendError)
    ensures
        r@ == match kind {
            ChannelKind::Socket => SendErrorView::Failed(text@),
            ChannelKind::Pipe => SendErrorView::Unavailable,
        },
{
    match kind {
        ChannelKind::Socket => SendError::Failed(text),
        ChannelKind::Pipe => SendError::Unavailable,
    }
}

/// How a refused continuation is reported on each kind of channel.
pub open spec fn refusal_prefix(kind: ChannelKind) -> Seq<char> {
    match kind {
        ChannelKind::Socket => "Codex 未接受继续消息: "@,
        ChannelKind::Pipe => "Codex 未接收继续消息: "@,
    }
}

/// Reads the receipt from a reply to a start-turn request over a channel of
/// `kind`: accepted with the new turn, or a protocol error that quotes the
/// reply.
pub fn receipt_from_reply(response: &Json, kind: ChannelKind) -> (r: Result<SendReceipt, SendError>)
    ensures
        match started_turn_of(*response) {
            Some(id) => r matches Ok(receipt) && receipt@ == (ReceiptView {
                accepted: true,
                new_turn_id: id,
                protocol_version: 1,
            }),
            None => result_view(r) == Err::<ReceiptView, SendErrorView>(
                SendErrorView::Protocol(refusal_prefix(kind) + response_detail_text(*response)),
            ),
        },
{
    let method_ok = match text_of(response.get("method")) {
        Some(m) => chars_eq(&m, &chars_of("thread-follower-start-turn")),
        None => false,
    };
    if is_success(response) && method_ok {
        let turn = member(member(response.get("result"), "result"), "turn");
        match text_of(member(turn, "id")) {
            Some(id) => {
                if id.len() > 0 {
                    return Ok(
                        SendReceipt { accepted: true, new_turn_id: string_of(&id), protocol_version: 1 },
                    );
                }
            },
            None => {},
        }
    }
    let detail = response_detail(response);
    let prefix = match kind {
        ChannelKind::Socket => "Codex 未接受继续消息: ",
        ChannelKind::Pipe => "Codex 未接收继续消息: ",
    };
    Err(SendError::Protocol(concat2(prefix, detail.as_str())))
}

// ---------------------------------------------------------------------------
// Goal recovery
// ---------------------------------------------------------------------------

/// The next step of goal recovery after the goal was read.
#[derive(Debug)]
pub enum GoalStep {
    /// Recovery is over with this outcome.
    Done(GoalRecovery),
    /// The goal is paused: set it active, then read what came of it.
    SetActive,
}

/// Decides goal recovery from the goal's state: a paused goal is set active;
/// no goal, an active goal and a goal in another state are left alone.
pub fn after_goal_query(state: GoalState) -> (r: GoalStep)
    ensures
        match state@ {
            GoalStateView::Paused => r is SetActive,
            GoalStateView::NoGoal => r matches GoalStep::Done(g) && g@ == GoalRecoveryView::NoGoal,
            GoalStateView::Active => r matches GoalStep::Done(g) && g@
                == GoalRecoveryView::AlreadyActive,
            GoalStateView::Other(s) => r matches GoalStep::Done(g) && g@
                == GoalRecoveryView::NotRecoverable(s),
        },
{
    match state {
        GoalState::Paused => GoalStep::SetActive,
        GoalState::NoGoal => GoalStep::Done(GoalRecovery::NoGoal),
        GoalState::Active => GoalStep::Done(GoalRecovery::AlreadyActive),
        GoalState::Other(status) => GoalStep::Done(GoalRecovery::NotRecoverable(status)),
    }
}

/// How a goal state is written in messages.
pub open spec fn goal_state_text(state: GoalStateView) -> Seq<char> {
    match state {
        GoalStateView::NoGoal => "NoGoal"@,
        GoalStateView::Active => "Active"@,
        GoalStateView::Paused => "Paused"@,
        GoalStateView::Other(s) => "Other(\""@ + s + "\")"@,
    }
}

/// Decides goal recovery after the goal was set active: it must now be
/// active.
pub fn after_goal_set(state: GoalState) -> (r: Result<GoalRecovery, SendError>)
    ensures
        match state@ {
            GoalStateView::Active => r matches Ok(g) && g@ == GoalRecoveryView::Resumed,
            other => result_view(r) == Err::<GoalRecoveryView, SendErrorView>(
                SendErrorView::Protocol("目标恢复后状态异常: "@ + goal_state_text(other)),
            ),
        },
{
    let text = match state {
        GoalState::Active => return Ok(GoalRecovery::Resumed),
        GoalState::NoGoal => owned("NoGoal"),
        GoalState::Paused => owned("Paused"),
        GoalState::Other(s) => {
            let mut t = concat2("Other(\"", s.as_str());
            push_str(&mut t, "\")");
            t
        },
    };
    Err(SendError::Protocol(concat2("目标恢复后状态异常: ", text.as_str())))
}

// ---------------------------------------------------------------------------
// Frames
// ---------------------------------------------------------------------------

/// A frame: the payload's length as four little-endian bytes, then the
/// payload.
pub open spec fn framed(payload: Seq<u8>) -> Seq<u8> {
    let n = payload.len();
    seq![(n % 256) as u8, ((n / 256) % 256) as u8, ((n / 65536) % 256) as u8, (n / 16777216) as u8]
        + payload
}

/// Frames a payload; an empty payload or one over [`MAX_FRAME_SIZE`] is
/// refused.
pub fn encode_frame(payload: &Vec<u8>) -> (r: Result<Vec<u8>, SendError>)
    ensures
        payload@.len() == 0 || payload@.len() > MAX_FRAME_SIZE ==> result_view(r) == Err::<
            Seq<u8>,
            SendErrorView,
        >(SendErrorView::Protocol("消息大小异常"@)),
        0 < payload@.len() <= MAX_FRAME_SIZE ==> (r matches Ok(f) && f@ == framed(payload@)),
{
    let n = payload.len();
    if n == 0 || n > MAX_FRAME_SIZE {
        return Err(SendError::Protocol(owned("消息大小异常")));
    }
    let mut out: Vec<u8> = Vec::new();
    out.push((n % 256) as u8);
    out.push(((n / 256) % 256) as u8);
    out.push(((n / 65536) % 256) as u8);
    out.push((n / 16777216) as u8);
    let mut i: usize = 0;
    while i < n
        invariant
            n == payload@.len(),
            i <= n,
            0 < n <= MAX_FRAME_SIZE,
            out@ == framed(payload@).take(4 + i),
        decreases n - i,
    {
        out.push(payload[i]);
        i += 1;
        assert(framed(payload@).take(4 + i) =~= framed(payload@).take(4 + i - 1).push(payload@[i - 1]));
    }
    assert(framed(payload@).take(4 + n) =~= framed(payload@));
    Ok(out)
}

/// A message as sent: its JSON text in UTF-8, framed; a text that is empty or
/// over [`MAX_FRAME_SIZE`] bytes is refused.
pub fn encode_message(message: &Json) -> (r: Result<Vec<u8>, SendError>)
    ensures
        ({
            let bytes = encode_utf8(json_text(*message));
            if bytes.len() == 0 || bytes.len() > MAX_FRAME_SIZE {
                result_view(r) == Err::<Seq<u8>, SendErrorView>(
                    SendErrorView::Protocol("消息大小异常"@),
                )
            } else {
                r matches Ok(f) && f@ == framed(bytes)
            }
        }),
{
    let text = write_json(message);
    let bytes = text.as_str().as_bytes();
    let mut payload: Vec<u8> = Vec::new();
    let mut i: usize = 0;
    while i < bytes.len()
        invariant
            i <= bytes@.len(),
            payload@ == bytes@.take(i as int),
        decreases bytes@.len() - i,
    {
        payload.push(bytes[i]);
        i += 1;
        assert(bytes@.take(i as int) =~= bytes@.take(i - 1).push(bytes@[i - 1]));
    }
    assert(bytes@.take(i as int) =~= bytes@);
    encode_frame(&payload)
}

/// Reads a frame's payload as a JSON document; bytes that are none are a
/// protocol error that quotes `serde_json`.
pub fn decode_message(payload: &Vec<u8>) -> (r: Result<Json, SendError>)
    ensures
        match json_document_bytes(payload@) {
            Ok(j) => r matches Ok(v) && v == j,
            Err(e) => r matches Err(x) && x@ == SendErrorView::Protocol(e),
        },
{
    match parse_json_bytes(payload.as_slice()) {
        Ok(j) => Ok(j),
        Err(e) => Err(SendError::Protocol(e)),
    }
}

/// The payload length that a frame header gives, little-endian.
pub open spec fn header_length(header: Seq<u8>) -> nat {
    header[0] as nat + 256 * header[1] as nat + 65536 * header[2] as nat + 16777216
        * header[3] as nat
}

/// Reads the payload length from a frame header; a length of zero or over
/// [`MAX_FRAME_SIZE`] is refused.
pub fn frame_length(header: &Vec<u8>) -> (r: Result<usize, SendError>)
    requires
        header@.len() == 4,
    ensures
        ({
            let n = header_length(header@);
            if n == 0 || n > MAX_FRAME_SIZE {
                result_view(r) == Err::<usize, SendErrorView>(
                    SendErrorView::Protocol("返回消息大小异常"@),
                )
            } else {
                r == Ok::<usize, SendError>(n as usize)
            }
        }),
{
    let n: u64 = header[0] as u64 + 256 * (header[1] as u64) + 65536 * (header[2] as u64)
        + 16777216 * (header[3] as u64);
    if n == 0 || n > MAX_FRAME_SIZE as u64 {
        return Err(SendError::Protocol(owned("返回消息大小异常")));
    }
    Ok(n as usize)
}

/// What a frame read while waiting for a reply is.
#[derive(Debug)]
pub enum Incoming {
    /// Another client asks who can handle something; it carries the request id.
    DiscoveryRequest(String),
    /// The reply awaited.
    Reply,
    /// Anything else, which is skipped.
    Other,
}

/// Sorts a frame read while waiting for the reply to `request_id`.
pub fn classify_incoming(frame: &Json, request_id: &str) -> (r: Incoming)
    ensures
        text_field(Some(*frame), "type"@) == Some("client-discovery-request"@) ==> (r matches Incoming::DiscoveryRequest(id)
            && id@ == match text_field(Some(*frame), "requestId"@) {
                Some(t) => t,
                None => Seq::<char>::empty(),
            }),
        text_field(Some(*frame), "type"@) != Some("client-discovery-request"@) ==> (r is Reply
            <==> (text_field(Some(*frame), "type"@) == Some("response"@) && text_field(
            Some(*frame),
            "requestId"@,
        ) == Some(request_id@))),
        text_field(Some(*frame), "type"@) != Some("client-discovery-request"@) ==> !(r is DiscoveryRequest),
{
    let kind = text_of(frame.get("type"));
    let is_discovery = match &kind {
        Some(k) => chars_eq(k, &chars_of("client-discovery-request")),
        None => false,
    };
    if is_discovery {
        let id = match text_of(frame.get("requestId")) {
            Some(t) => string_of(&t),
            None => String::new(),
        };
        return Incoming::DiscoveryRequest(id);
    }
    let is_response = match &kind {
        Some(k) => chars_eq(k, &chars_of("response")),
        None => false,
    };
    let same_id = match text_of(frame.get("requestId")) {
        Some(t) => chars_eq(&t, &chars_of(request_id)),
        None => false,
    };
    if is_response && same_id {
        Incoming::Reply
    } else {
        Incoming::Other
    }
}

// ---------------------------------------------------------------------------
// Channels
// ---------------------------------------------------------------------------

/// Whether a socket may be trusted: it is a socket owned by the user, in a
/// directory owned by the user that neither group nor others can write.
pub open spec fn socket_trusted_spec(
    uid: u32,
    socket_owner: u32,
    is_socket: bool,
    dir_owner: u32,
    dir_is_dir: bool,
    dir_mode: u32,
) -> bool {
    socket_owner == uid && is_socket && dir_owner == uid && dir_is_dir && dir_mode & 0o022 == 0
}

/// Whether a socket may be trusted.
pub fn socket_trusted(
    uid: u32,
    socket_owner: u32,
    is_socket: bool,
    dir_owner: u32,
    dir_is_dir: bool,
    dir_mode: u32,
) -> (r: bool)
    ensures
        r == socket_trusted_spec(uid, socket_owner, is_socket, dir_owner, dir_is_dir, dir_mode),
{
    socket_owner == uid && is_socket && dir_owner == uid && dir_is_dir && dir_mode & 0o022 == 0
}

/// The channel of the desktop app on macOS: a Unix socket.
#[derive(Debug)]
pub struct MacDesktopIpc;

impl MacDesktopIpc {
    pub fn new() -> MacDesktopIpc {
        MacDesktopIpc
    }
}

/// The channel of the desktop app on Windows: a named pipe.
#[derive(Debug)]
pub struct WindowsDesktopIpc;

impl WindowsDesktopIpc {
    pub fn new() -> WindowsDesktopIpc {
        WindowsDesktopIpc
    }

    /// The name of the pipe.
    pub fn pipe_name() -> (r: &'static str)
        ensures
            r@ == PIPE_NAME@,
    {
        PIPE_NAME
    }
}

// ---------------------------------------------------------------------------
// Messages
// ---------------------------------------------------------------------------

/// The decimal text of a JSON number member.
pub open spec fn number_field(value: Json, key: Seq<char>) -> Option<Seq<char>> {
    match value.field(key) {
        Some(Json::Number(n)) => Some(n@),
        _ => None,
    }
}

/// The number of entries of an object; zero for anything else.
pub open spec fn entry_count(value: Json) -> nat {
    match value {
        Json::Object(entries) => entries@.len(),
        _ => 0,
    }
}

/// Whether a value is an array with `n` items.
pub open spec fn array_of_len(value: Option<Json>, n: nat) -> bool {
    value matches Some(Json::Array(items)) && items@.len() == n
}

/// The first item of an array.
pub open spec fn first_item(value: Option<Json>) -> Option<Json> {
    match value {
        Some(Json::Array(items)) => if items@.len() > 0 {
            Some(items@[0])
        } else {
            None
        },
        _ => None,
    }
}

fn text_value(s: &str) -> (r: Json)
    ensures
        r.text() == Some(s@),
{
    Json::Str(owned(s))
}

fn number_value(n: u64) -> (r: Json)
    ensures
        r matches Json::Number(t) && t@ == decimal(n as nat),
{
    Json::Number(decimal_string(n))
}

fn entry(key: &str, value: Json) -> (r: (String, Json))
    ensures
        r.0@ == key@,
        r.1 == value,
{
    (owned(key), value)
}

/// The parameters of `initialize`.
pub fn initialize_params() -> (r: Json)
    ensures
        entry_count(r) == 1,
        text_field(Some(r), "clientType"@) == Some("turnmender"@),
{
    let mut e: Vec<(String, Json)> = Vec::new();
    e.push(entry("clientType", text_value("turnmender")));
    let r = Json::Object(e);
    assert(r.field("clientType"@) == Some(e@[0].1));
    r
}

/// The parameters of owner discovery for `task_id`.
pub fn owner_discovery_params(task_id: &str) -> (r: Json)
    ensures
        entry_count(r) == 2,
        text_field(Some(r), "hostId"@) == Some("local"@),
        text_field(Some(r), "conversationId"@) == Some(task_id@),
{
    let mut e: Vec<(String, Json)> = Vec::new();
    e.push(entry("hostId", text_value("local")));
    e.push(entry("conversationId", text_value(task_id)));
    let r = Json::Object(e);
    proof {
        reveal_with_fuel(entry_lookup, 3);
        reveal_strlit("hostId");
        assert("hostId"@.len() == 6 && "hostId"@[0] == 'h');
        reveal_strlit("conversationId");
        assert("conversationId"@.len() == 14 && "conversationId"@[0] == 'c');
        assert(e@[0].0@ != "conversationId"@);
        assert(e@.drop_first()[0] == e@[1]);
    }
    r
}

/// The parameters of a request that reads or sets the goal of `task_id`;
/// `active` asks for the goal to be set active.
pub fn goal_params(task_id: &str, active: bool) -> (r: Json)
    ensures
        entry_count(r) == if active {
            2nat
        } else {
            1nat
        },
        text_field(Some(r), "threadId"@) == Some(task_id@),
        active ==> text_field(Some(r), "status"@) == Some("active"@),
{
    let mut e: Vec<(String, Json)> = Vec::new();
    e.push(entry("threadId", text_value(task_id)));
    if active {
        e.push(entry("status", text_value("active")));
    }
    let r = Json::Object(e);
    proof {
        reveal_with_fuel(entry_lookup, 3);
        reveal_strlit("threadId");
        assert("threadId"@.len() == 8 && "threadId"@[0] == 't');
        reveal_strlit("status");
        assert("status"@.len() == 6 && "status"@[0] == 's');
        if active {
            assert(e@[0].0@ != "status"@);
            assert(e@.drop_first()[0] == e@[1]);
        }
    }
    r
}

/// The turn parameters of a start-turn request: the input is one text item
/// holding `message`, and the turn inherits the task's settings and the
/// desktop app's default permissions.
pub open spec fn turn_params_shape(p: Option<Json>, message: Seq<char>) -> bool {
    match p {
        Some(p) => {
            &&& entry_count(p) == 3
            &&& p.field("inheritThreadSettings"@) == Some(Json::Bool(true))
            &&& p.field("useAppServerPermissionDefault"@) == Some(Json::Bool(true))
            &&& array_of_len(p.field("input"@), 1)
            &&& match first_item(p.field("input"@)) {
                Some(item) => {
                    &&& entry_count(item) == 3
                    &&& text_field(Some(item), "type"@) == Some("text"@)
                    &&& text_field(Some(item), "text"@) == Some(message)
                    &&& array_of_len(item.field("text_elements"@), 0)
                },
                None => false,
            }
        },
        None => false,
    }
}

/// What the answer to a discovery request says: it handles nothing.
pub open spec fn declines(a: Option<Json>) -> bool {
    match a {
        Some(a) => entry_count(a) == 1 && a.field("canHandle"@) == Some(Json::Bool(false)),
        None => false,
    }
}

/// The parameters of a start-turn request that sends `message` to `task_id`.
pub fn start_turn_params(task_id: &str, message: &str) -> (r: Json)
    ensures
        entry_count(r) == 3,
        text_field(Some(r), "conversationId"@) == Some(task_id@),
        array_of_len(r.field("mcpAppModelContextAttachments"@), 0),
        turn_params_shape(r.field("turnStartParams"@), message@),
{
    let mut item_entries: Vec<(String, Json)> = Vec::new();
    item_entries.push(entry("type", text_value("text")));
    item_entries.push(entry("text", text_value(message)));
    item_entries.push(entry("text_elements", Json::Array(Vec::new())));
    let item = Json::Object(item_entries);
    let mut input: Vec<Json> = Vec::new();
    input.push(item);
    let mut p_entries: Vec<(String, Json)> = Vec::new();
    p_entries.push(entry("input", Json::Array(input)));
    p_entries.push(entry("inheritThreadSettings", Json::Bool(true)));
    p_entries.push(entry("useAppServerPermissionDefault", Json::Bool(true)));
    let p = Json::Object(p_entries);
    let mut e: Vec<(String, Json)> = Vec::new();
    e.push(entry("conversationId", text_value(task_id)));
    e.push(entry("turnStartParams", p));
    e.push(entry("mcpAppModelContextAttachments", Json::Array(Vec::new())));
    let r = Json::Object(e);
    proof {
        reveal_strlit("type");
        assert("type"@.len() == 4 && "type"@[0] == 't');
        reveal_strlit("text");
        assert("text"@.len() == 4 && "text"@[0] == 't');
        reveal_strlit("text_elements");
        assert("text_elements"@.len() == 13 && "text_elements"@[0] == 't');
        reveal_strlit("input");
        assert("input"@.len() == 5 && "input"@[0] == 'i');
        reveal_strlit("inheritThreadSettings");
        assert("inheritThreadSettings"@.len() == 21 && "inheritThreadSettings"@[0] == 'i');
        reveal_strlit("useAppServerPermissionDefault");
        assert("useAppServerPermissionDefault"@.len() == 29 && "useAppServerPermissionDefault"@[0] == 'u');
        reveal_strlit("conversationId");
        assert("conversationId"@.len() == 14 && "conversationId"@[0] == 'c');
        reveal_strlit("turnStartParams");
        assert("turnStartParams"@.len() == 15 && "turnStartParams"@[0] == 't');
        reveal_strlit("mcpAppModelContextAttachments");
        assert("mcpAppModelContextAttachments"@.len() == 29 && "mcpAppModelContextAttachments"@[0] == 'm');
        reveal_with_fuel(entry_lookup, 4);
        assert(item_entries@.drop_first()[0] == item_entries@[1]);
        assert(item_entries@.drop_first().drop_first()[0] == item_entries@[2]);
        assert(p_entries@.drop_first()[0] == p_entries@[1]);
        assert(p_entries@.drop_first().drop_first()[0] == p_entries@[2]);
        assert(e@.drop_first()[0] == e@[1]);
        assert(e@.drop_first().drop_first()[0] == e@[2]);
        assert("type"@[1] == 'y' && "text"@[1] == 'e');
        assert(item_entries@[0].0@ != "text"@);
        assert(item_entries@[0].0@ != "text_elements"@);
        assert(item_entries@[1].0@ != "text_elements"@);
        assert(p_entries@[0].0@ != "inheritThreadSettings"@);
        assert(p_entries@[0].0@ != "useAppServerPermissionDefault"@);
        assert(p_entries@[1].0@ != "useAppServerPermissionDefault"@);
        assert(e@[0].0@ != "turnStartParams"@);
        assert(e@[0].0@ != "mcpAppModelContextAttachments"@);
        assert(e@[1].0@ != "mcpAppModelContextAttachments"@);
    }
    r
}

/// The answer to another client's discovery request `request_id`: this
/// client handles nothing.
pub fn discovery_response(request_id: &str) -> (r: Json)
    ensures
        entry_count(r) == 3,
        text_field(Some(r), "type"@) == Some("client-discovery-response"@),
        text_field(Some(r), "requestId"@) == Some(request_id@),
        declines(r.field("response"@)),
{
    let mut inner: Vec<(String, Json)> = Vec::new();
    inner.push(entry("canHandle", Json::Bool(false)));
    let mut e: Vec<(String, Json)> = Vec::new();
    e.push(entry("type", text_value("client-discovery-response")));
    e.push(entry("requestId", text_value(request_id)));
    e.push(entry("response", Json::Object(inner)));
    let r = Json::Object(e);
    proof {
        reveal_strlit("type");
        assert("type"@.len() == 4 && "type"@[0] == 't');
        reveal_strlit("requestId");
        assert("requestId"@.len() == 9 && "requestId"@[0] == 'r');
        reveal_strlit("response");
        assert("response"@.len() == 8 && "response"@[0] == 'r');
        reveal_with_fuel(entry_lookup, 4);
        assert(e@.drop_first()[0] == e@[1]);
        assert(e@.drop_first().drop_first()[0] == e@[2]);
        assert(e@[0].0@ != "requestId"@);
        assert(e@[0].0@ != "response"@);
        assert(e@[1].0@ != "response"@);
    }
    r
}

/// A request `request_id` from the client `source` for `method` (in the
/// given protocol version) with `params`, addressed to `target` when there is
/// one, allowed `timeout_ms` milliseconds.
pub open spec fn is_request(
    r: Json,
    request_id: Seq<char>,
    source: Seq<char>,
    version: u64,
    method: Seq<char>,
    params: Json,
    target: Option<Seq<char>>,
    timeout_ms: u64,
) -> bool {
    &&& entry_count(r) == if target is Some {
        8nat
    } else {
        7nat
    }
    &&& text_field(Some(r), "type"@) == Some("request"@)
    &&& text_field(Some(r), "requestId"@) == Some(request_id)
    &&& text_field(Some(r), "sourceClientId"@) == Some(source)
    &&& number_field(r, "version"@) == Some(decimal(version as nat))
    &&& text_field(Some(r), "method"@) == Some(method)
    &&& r.field("params"@) == Some(params)
    &&& number_field(r, "timeoutMs"@) == Some(decimal(timeout_ms as nat))
    &&& text_field(Some(r), "targetClientId"@) == target
}

/// Builds a request message.
pub fn request_message(
    request_id: &str,
    source: &str,
    version: u64,
    method: &str,
    params: Json,
    target: Option<&str>,
    timeout_ms: u64,
) -> (r: Json)
    ensures
        is_request(
            r,
            request_id@,
            source@,
            version,
            method@,
            params,
            match target {
                Some(t) => Some(t@),
                None => None,
            },
            timeout_ms,
        ),
{
    let mut e: Vec<(String, Json)> = Vec::new();
    e.push(entry("type", text_value("request")));
    e.push(entry("requestId", text_value(request_id)));
    e.push(entry("sourceClientId", text_value(source)));
    e.push(entry("version", number_value(version)));
    e.push(entry("method", text_value(method)));
    e.push(entry("params", params));
    e.push(entry("timeoutMs", number_value(timeout_ms)));
    match target {
        Some(t) => e.push(entry("targetClientId", text_value(t))),
        None => {},
    }
    proof {
        reveal_strlit("type");
        assert("type"@.len() == 4 && "type"@[0] == 't');
        reveal_strlit("requestId");
        assert("requestId"@.len() == 9 && "requestId"@[0] == 'r');
        reveal_strlit("sourceClientId");
        assert("sourceClientId"@.len() == 14 && "sourceClientId"@[0] == 's');
        reveal_strlit("version");
        assert("version"@.len() == 7 && "version"@[0] == 'v');
        reveal_strlit("method");
        assert("method"@.len() == 6 && "method"@[0] == 'm');
        reveal_strlit("params");
        assert("params"@.len() == 6 && "params"@[0] == 'p');
        reveal_strlit("timeoutMs");
        assert("timeoutMs"@.len() == 9 && "timeoutMs"@[0] == 't');
        reveal_strlit("targetClientId");
        assert("targetClientId"@.len() == 14 && "targetClientId"@[0] == 't');
        reveal_with_fuel(entry_lookup, 9);
        let s = e@;
        assert(s.drop_first()[0] == s[1]);
        assert(s.drop_first().drop_first()[0] == s[2]);
        assert(s.drop_first().drop_first().drop_first()[0] == s[3]);
        assert(s.drop_first().drop_first().drop_first().drop_first()[0] == s[4]);
        assert(s.drop_first().drop_first().drop_first().drop_first().drop_first()[0] == s[5]);
        assert(s.drop_first().drop_first().drop_first().drop_first().drop_first().drop_first()[0]
            == s[6]);
        assert(s.drop_first().drop_first().drop_first().drop_first().drop_first().drop_first().len()
            == s.len() - 6);
        if target is Some {
            assert(s.drop_first().drop_first().drop_first().drop_first().drop_first().drop_first().drop_first()[0]
                == s[7]);
        }
    }
    Json::Object(e)
}

// ---------------------------------------------------------------------------
// Laws
// ---------------------------------------------------------------------------

proof fn lemma_le_bytes(n: u32)
    ensures
        (n % 256) as int + 256 * ((n / 256) % 256) as int + 65536 * ((n / 65536) % 256) as int
            + 16777216 * (n / 16777216) as int == n as int,
{
    assert((n % 256) + 256 * ((n / 256) % 256) + 65536 * ((n / 65536) % 256) + 16777216 * (n
        / 16777216) == n) by (bit_vector);
}

/// A frame's header gives back the length of the payload it carries.
pub proof fn law_frame_header_gives_length(payload: Seq<u8>)
    requires
        payload.len() <= MAX_FRAME_SIZE,
    ensures
        header_length(framed(payload).take(4)) == payload.len(),
{
    let n = payload.len();
    lemma_le_bytes(n as u32);
    let h = framed(payload).take(4);
    assert(h[0] == (n % 256) as u8);
    assert(h[1] == ((n / 256) % 256) as u8);
    assert(h[2] == ((n / 65536) % 256) as u8);
    assert(h[3] == (n / 16777216) as u8);
}

} // verus!
