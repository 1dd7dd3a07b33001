use turnmender::json::Json;
use turnmender::transport::{
    after_goal_query, after_goal_set, classify_incoming, client_id_from_reply, decode_message,
    discovery_response, encode_frame, encode_message, frame_length, goal_from_response, goal_params,
    owner_from_reply, receipt_from_reply, request_message, socket_trusted, start_turn_params,
    channel_connect_error, channel_io_error, ChannelKind,
    GoalRecovery, GoalState, GoalStep, Incoming, SendError, WindowsDesktopIpc, MAX_FRAME_SIZE,
};

fn json(text: &str) -> Json {
    decode_message(&text.as_bytes().to_vec()).unwrap()
}

fn text_at<'a>(value: &'a Json, key: &str) -> Option<&'a str> {
    value.get(key).and_then(|v| v.as_str()).map(|s| s.as_str())
}

#[test]
fn parses_goal_statuses_without_exposing_goal_objective() {
    assert_eq!(
        goal_from_response(&json(r#"{"resultType":"success","result":{"goal":null}}"#)).unwrap(),
        GoalState::NoGoal
    );
    assert_eq!(
        goal_from_response(&json(
            r#"{"resultType":"success","result":{"goal":{"status":"active","objective":"secret"}}}"#
        ))
        .unwrap(),
        GoalState::Active
    );
    assert_eq!(
        goal_from_response(&json(
            r#"{"resultType":"success","result":{"result":{"goal":{"status":"paused","objective":"secret"}}}}"#
        ))
        .unwrap(),
        GoalState::Paused
    );
    assert_eq!(
        goal_from_response(&json(
            r#"{"resultType":"success","result":{"goal":{"status":"blocked","objective":"secret"}}}"#
        ))
        .unwrap(),
        GoalState::Other("blocked".into())
    );
}

#[test]
fn pipe_name_targets_the_codex_local_pipe() {
    assert_eq!(WindowsDesktopIpc::pipe_name(), r"\\.\pipe\codex-ipc");
}

#[test]
fn goal_reply_errors_are_protocol_errors() {
    assert_eq!(
        goal_from_response(&json(r#"{"resultType":"error","error":"boom"}"#)),
        Err(SendError::Protocol("boom".into()))
    );
    assert_eq!(
        goal_from_response(&json(r#"{"resultType":"success","result":{}}"#)),
        Err(SendError::Protocol("目标状态响应缺少 goal 字段".into()))
    );
    assert_eq!(
        goal_from_response(&json(r#"{"resultType":"success","result":{"goal":{}}}"#)),
        Err(SendError::Protocol("目标状态响应缺少 status 字段".into()))
    );
}

#[test]
fn a_paused_goal_is_set_active_and_others_are_left_alone() {
    assert!(matches!(after_goal_query(GoalState::Paused), GoalStep::SetActive));
    assert!(matches!(
        after_goal_query(GoalState::NoGoal),
        GoalStep::Done(GoalRecovery::NoGoal)
    ));
    assert!(matches!(
        after_goal_query(GoalState::Active),
        GoalStep::Done(GoalRecovery::AlreadyActive)
    ));
    match after_goal_query(GoalState::Other("blocked".into())) {
        GoalStep::Done(GoalRecovery::NotRecoverable(s)) => assert_eq!(s, "blocked"),
        _ => panic!("wrong step"),
    }
    assert_eq!(after_goal_set(GoalState::Active), Ok(GoalRecovery::Resumed));
    assert_eq!(
        after_goal_set(GoalState::Other("blocked".into())),
        Err(SendError::Protocol("目标恢复后状态异常: Other(\"blocked\")".into()))
    );
    assert_eq!(
        after_goal_set(GoalState::Paused),
        Err(SendError::Protocol("目标恢复后状态异常: Paused".into()))
    );
}

#[test]
fn a_started_turn_is_an_accepted_receipt() {
    let reply = json(
        r#"{"resultType":"success","method":"thread-follower-start-turn","result":{"result":{"turn":{"id":"turn-9"}}}}"#,
    );
    let receipt = receipt_from_reply(&reply, ChannelKind::Socket).unwrap();
    assert!(receipt.accepted);
    assert_eq!(receipt.new_turn_id, "turn-9");
    assert_eq!(receipt.protocol_version, 1);
}

#[test]
fn a_reply_without_a_turn_is_refused() {
    let reply = json(r#"{"resultType":"success","method":"thread-follower-start-turn","error":"no turn"}"#);
    assert_eq!(
        receipt_from_reply(&reply, ChannelKind::Socket).map(|r| r.new_turn_id),
        Err(SendError::Protocol("Codex 未接受继续消息: no turn".into()))
    );
    assert_eq!(
        receipt_from_reply(&reply, ChannelKind::Pipe).map(|r| r.new_turn_id),
        Err(SendError::Protocol("Codex 未接收继续消息: no turn".into()))
    );
    let empty = json(
        r#"{"resultType":"success","method":"thread-follower-start-turn","result":{"result":{"turn":{"id":""}}},"error":"x"}"#,
    );
    assert!(receipt_from_reply(&empty, ChannelKind::Socket).is_err());
}

#[test]
fn client_and_owner_come_from_replies() {
    assert_eq!(
        client_id_from_reply(&json(r#"{"resultType":"success","result":{"clientId":"c-1"}}"#)),
        Ok("c-1".to_string())
    );
    assert_eq!(
        client_id_from_reply(&json(r#"{"resultType":"success","result":{}}"#)),
        Err(SendError::Protocol("初始化没有返回 clientId".into()))
    );
    assert_eq!(
        owner_from_reply(&json(r#"{"resultType":"success","handledByClientId":"o-1"}"#)),
        Ok("o-1".to_string())
    );
    assert_eq!(
        owner_from_reply(&json(r#"{"resultType":"error","handledByClientId":"o-1"}"#)),
        Err(SendError::NotFound)
    );
}

#[test]
fn frames_carry_a_little_endian_length() {
    let payload = vec![7u8; 300];
    let frame = encode_frame(&payload).unwrap();
    assert_eq!(&frame[..4], &[44, 1, 0, 0]);
    assert_eq!(frame.len(), 304);
    assert_eq!(frame_length(&frame[..4].to_vec()), Ok(300));
    assert_eq!(
        encode_frame(&Vec::new()),
        Err(SendError::Protocol("消息大小异常".into()))
    );
    assert_eq!(
        encode_frame(&vec![0u8; MAX_FRAME_SIZE + 1]),
        Err(SendError::Protocol("消息大小异常".into()))
    );
    assert_eq!(
        frame_length(&vec![0, 0, 0, 0]),
        Err(SendError::Protocol("返回消息大小异常".into()))
    );
    assert_eq!(
        frame_length(&vec![1, 0, 64, 0]),
        Err(SendError::Protocol("返回消息大小异常".into()))
    );
}

#[test]
fn incoming_frames_are_sorted() {
    match classify_incoming(
        &json(r#"{"type":"client-discovery-request","requestId":"d-1"}"#),
        "r-1",
    ) {
        Incoming::DiscoveryRequest(id) => assert_eq!(id, "d-1"),
        _ => panic!("wrong kind"),
    }
    assert!(matches!(
        classify_incoming(&json(r#"{"type":"response","requestId":"r-1"}"#), "r-1"),
        Incoming::Reply
    ));
    assert!(matches!(
        classify_incoming(&json(r#"{"type":"response","requestId":"r-2"}"#), "r-1"),
        Incoming::Other
    ));
}

#[test]
fn requests_carry_every_member() {
    let params = goal_params("task-1", true);
    let message = request_message("r-1", "c-1", 2, "thread/goal/set", params, Some("o-1"), 8000);
    assert_eq!(text_at(&message, "type"), Some("request"));
    assert_eq!(text_at(&message, "requestId"), Some("r-1"));
    assert_eq!(text_at(&message, "sourceClientId"), Some("c-1"));
    assert_eq!(text_at(&message, "method"), Some("thread/goal/set"));
    assert_eq!(text_at(&message, "targetClientId"), Some("o-1"));
    assert!(matches!(message.get("version"), Some(Json::Number(n)) if n == "2"));
    assert!(matches!(message.get("timeoutMs"), Some(Json::Number(n)) if n == "8000"));
    let params = message.get("params").unwrap();
    assert_eq!(text_at(params, "threadId"), Some("task-1"));
    assert_eq!(text_at(params, "status"), Some("active"));
    let untargeted = request_message("r-2", "c-1", 0, "initialize", goal_params("t", false), None, 1800);
    assert!(untargeted.get("targetClientId").is_none());
}

#[test]
fn start_turn_sends_the_message_as_text() {
    let params = start_turn_params("task-1", "继续");
    assert_eq!(text_at(&params, "conversationId"), Some("task-1"));
    let turn = params.get("turnStartParams").unwrap();
    assert!(matches!(turn.get("inheritThreadSettings"), Some(Json::Bool(true))));
    match turn.get("input") {
        Some(Json::Array(items)) => {
            assert_eq!(items.len(), 1);
            assert_eq!(text_at(&items[0], "type"), Some("text"));
            assert_eq!(text_at(&items[0], "text"), Some("继续"));
        }
        _ => panic!("no input"),
    }
    let answer = discovery_response("d-1");
    assert_eq!(text_at(&answer, "type"), Some("client-discovery-response"));
    assert!(matches!(
        answer.get("response").and_then(|r| r.get("canHandle")),
        Some(Json::Bool(false))
    ));
}

#[test]
fn only_a_private_socket_is_trusted() {
    assert!(socket_trusted(501, 501, true, 501, true, 0o700));
    assert!(!socket_trusted(501, 502, true, 501, true, 0o700));
    assert!(!socket_trusted(501, 501, false, 501, true, 0o700));
    assert!(!socket_trusted(501, 501, true, 501, true, 0o720));
    assert!(!socket_trusted(501, 501, true, 501, true, 0o702));
}

#[test]
fn send_errors_read_as_the_desktop_app_shows_them() {
    assert_eq!(SendError::Unavailable.message(), "消息通道不可用");
    assert_eq!(
        SendError::Failed("broken pipe".into()).message(),
        "消息通道发送失败: broken pipe"
    );
}

#[test]
fn messages_are_framed_json_and_replies_are_read_back() {
    let message = goal_params("task-1", false);
    let frame = encode_message(&message).unwrap();
    let length = frame_length(&frame[..4].to_vec()).unwrap();
    assert_eq!(length, frame.len() - 4);
    let back = decode_message(&frame[4..].to_vec()).unwrap();
    assert_eq!(text_at(&back, "threadId"), Some("task-1"));
    match decode_message(&b"not json".to_vec()) {
        Err(SendError::Protocol(text)) => assert!(text.contains("line 1")),
        _ => panic!("expected a protocol error"),
    }
}

#[test]
fn a_failed_reply_is_quoted_as_json_when_its_error_is_not_text() {
    assert_eq!(
        goal_from_response(&json(r#"{"resultType":"error","error":{"code":7}}"#)),
        Err(SendError::Protocol(r#"{"code":7}"#.into()))
    );
    assert_eq!(
        client_id_from_reply(&json(r#"{"resultType":"error"}"#)),
        Err(SendError::Protocol(r#"{"resultType":"error"}"#.into()))
    );
}

#[test]
fn regular_file_is_not_accepted_as_socket() {
    assert!(!socket_trusted(501, 501, false, 501, true, 0o700));
    assert!(!socket_trusted(501, 501, true, 501, false, 0o700));
}

#[test]
fn channel_failures_map_by_channel_kind() {
    assert_eq!(
        channel_io_error(ChannelKind::Pipe, true, "gone".into()),
        SendError::Unavailable
    );
    assert_eq!(
        channel_io_error(ChannelKind::Pipe, false, "broken".into()),
        SendError::Failed("broken".into())
    );
    assert_eq!(
        channel_io_error(ChannelKind::Socket, true, "gone".into()),
        SendError::Failed("gone".into())
    );
    assert_eq!(
        channel_connect_error(ChannelKind::Socket, "refused".into()),
        SendError::Failed("refused".into())
    );
    assert_eq!(
        channel_connect_error(ChannelKind::Pipe, "refused".into()),
        SendError::Unavailable
    );
}
