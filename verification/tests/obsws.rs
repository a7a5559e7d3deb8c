use five33clip::json::{get_bool, get_field, get_str, jnum, jobject, jstr, member, Json};
use five33clip::obsws::{
    auth_token, build_identify, identify_failure_message, is_hello, is_identified_success,
    message_op, replay_saved, request_id, request_identify, request_message, resolve_password, response_outcome,
    session_step, worker_step, ConnectionState, SessionAction, SessionEvent, SessionState, WorkerStep,
};

fn hello(auth: bool) -> Json {
    let mut d = vec![member("rpcVersion", jnum("1"))];
    if auth {
        d.push(member(
            "authentication",
            jobject(vec![member("challenge", jstr("chal")), member("salt", jstr("salt"))]),
        ));
    }
    jobject(vec![member("op", jnum("0")), member("d", jobject(d))])
}

fn d_of(j: &Json) -> &Json {
    get_field(j, "d").unwrap()
}

#[test]
fn obs_auth_token() {
    assert_eq!(auth_token("pw", "salt", "chal"), "Q0/N7u40IGqt4Ynf9v3w9R2yCDZxba9npsZLdIyWi8M=");
}

#[test]
fn identify_without_auth() {
    let id = build_identify(&hello(false), None).unwrap();
    assert_eq!(message_op(&id), Some(1));
    let d = d_of(&id);
    assert!(matches!(get_field(d, "rpcVersion"), Some(Json::Number(n)) if n == "1"));
    assert!(matches!(get_field(d, "eventSubscriptions"), Some(Json::Number(n)) if n == "1"));
    assert_eq!(get_bool(d, "ignoreInvalidMessages"), Some(true));
    assert!(get_field(d, "authentication").is_none());
}

#[test]
fn identify_with_auth() {
    let id = build_identify(&hello(true), Some("pw")).unwrap();
    assert_eq!(get_str(d_of(&id), "authentication").unwrap(), "Q0/N7u40IGqt4Ynf9v3w9R2yCDZxba9npsZLdIyWi8M=");
    assert_eq!(
        build_identify(&hello(true), Some("")).err().unwrap(),
        "OBS requires a WebSocket password. Paste it from OBS → Tools → WebSocket Server Settings into the sidebar, then Save."
    );
    assert_eq!(
        request_identify(&hello(true), None).err().unwrap(),
        "OBS WebSocket needs password. Save it in 533clip OBS settings."
    );
    let id = request_identify(&hello(true), Some("pw")).unwrap();
    assert_eq!(get_str(d_of(&id), "authentication").unwrap(), "Q0/N7u40IGqt4Ynf9v3w9R2yCDZxba9npsZLdIyWi8M=");
}

#[test]
fn identify_with_incomplete_challenge() {
    let d = jobject(vec![
        member("rpcVersion", jnum("1")),
        member("authentication", jobject(vec![member("salt", jstr("s"))])),
    ]);
    let h = jobject(vec![member("op", jnum("0")), member("d", d)]);
    assert_eq!(build_identify(&h, Some("pw")).err().unwrap(), "OBS auth challenge missing");
    assert_eq!(request_identify(&h, Some("pw")).err().unwrap(), "OBS WebSocket auth challenge missing");
}

#[test]
fn request_envelope_and_id() {
    let m = request_message("GetStats", "533clip-5", jobject(vec![]));
    assert_eq!(message_op(&m), Some(6));
    let d = d_of(&m);
    assert_eq!(get_str(d, "requestType").unwrap(), "GetStats");
    assert_eq!(get_str(d, "requestId").unwrap(), "533clip-5");
    assert_eq!(request_id(1_700_000_000_123), "533clip-1700000000123");
}

fn response(id: &str, status: Json, data: Option<Json>) -> Json {
    let mut d = vec![member("requestId", jstr(id)), member("requestStatus", status)];
    if let Some(x) = data {
        d.push(member("responseData", x));
    }
    jobject(vec![member("op", jnum("7")), member("d", jobject(d))])
}

#[test]
fn responses_matched_by_id() {
    let ok = response(
        "r1",
        jobject(vec![member("result", Json::Bool(true))]),
        Some(jobject(vec![member("outputActive", Json::Bool(true))])),
    );
    match response_outcome(&ok, "r1") {
        Some(Ok(data)) => assert_eq!(get_bool(&data, "outputActive"), Some(true)),
        _ => panic!("expected the response data"),
    }
    assert!(response_outcome(&ok, "r2").is_none());
    let bare = response("r1", jobject(vec![member("result", Json::Bool(true))]), None);
    assert!(matches!(response_outcome(&bare, "r1"), Some(Ok(Json::Object(ms))) if ms.is_empty()));
    let failed = response(
        "r1",
        jobject(vec![member("result", Json::Bool(false)), member("comment", jstr("no replay buffer"))]),
        None,
    );
    assert!(matches!(response_outcome(&failed, "r1"), Some(Err(e)) if e == "no replay buffer"));
    let silent = response("r1", jobject(vec![]), None);
    assert!(matches!(response_outcome(&silent, "r1"), Some(Err(e)) if e == "OBS request failed"));
    assert!(response_outcome(&hello(false), "r1").is_none());
}

#[test]
fn identified_and_failures() {
    let ok = jobject(vec![
        member("op", jnum("2")),
        member("d", jobject(vec![member("negotiatedRpcVersion", jnum("1"))])),
    ]);
    assert!(is_identified_success(&ok));
    assert!(is_hello(&hello(false)));
    let rejected = jobject(vec![
        member("op", jnum("2")),
        member(
            "d",
            jobject(vec![member(
                "requestStatus",
                jobject(vec![member("code", jnum("4009")), member("comment", jstr("Authentication failed"))]),
            )]),
        ),
    ]);
    assert!(!is_identified_success(&rejected));
    assert_eq!(identify_failure_message(&rejected).as_deref(), Some("Authentication failed (code 4009)"));
    let fine = jobject(vec![member(
        "d",
        jobject(vec![member("requestStatus", jobject(vec![member("code", jnum("100"))]))]),
    )]);
    assert_eq!(identify_failure_message(&fine), None);
    let plain = jobject(vec![member(
        "d",
        jobject(vec![member("requestStatus", jobject(vec![member("code", jnum("-3"))]))]),
    )]);
    assert_eq!(identify_failure_message(&plain).as_deref(), Some("OBS rejected the connection (code -3)"));
}

#[test]
fn replay_saved_announcement() {
    let data = jobject(vec![member("savedReplayPath", jstr("C:/v/Replay.mkv"))]);
    let p = replay_saved("ReplayBufferSaved", Some(&data)).unwrap();
    assert_eq!(p.message, "Replay saved — C:/v/Replay.mkv");
    assert_eq!(p.saved_path.as_deref(), Some("C:/v/Replay.mkv"));
    let p = replay_saved("ReplayBufferSaved", None).unwrap();
    assert_eq!(p.message, "Replay saved");
    assert!(replay_saved("RecordStateChanged", Some(&data)).is_none());
}

#[test]
fn saved_password_preferred() {
    assert_eq!(resolve_password("  pw ", Some("cfg".to_string())).as_deref(), Some("pw"));
    assert_eq!(resolve_password("  ", Some("cfg".to_string())).as_deref(), Some("cfg"));
    assert_eq!(resolve_password("", None), None);
}

#[test]
fn session_steps() {
    let mut st = SessionState { identified: false };
    match session_step(&mut st, SessionEvent::Message(hello(false)), None) {
        SessionAction::Send(j) => assert_eq!(message_op(&j), Some(1)),
        _ => panic!("a Hello is answered"),
    }
    let ok = jobject(vec![member("op", jnum("2")), member("d", jobject(vec![member("serverInfo", jobject(vec![]))]))]);
    assert!(matches!(session_step(&mut st, SessionEvent::Message(ok), None), SessionAction::Connected));
    assert!(st.identified);
    assert!(matches!(session_step(&mut st, SessionEvent::Message(hello(false)), None), SessionAction::Nothing));
    let event = jobject(vec![
        member("op", jnum("5")),
        member("d", jobject(vec![member("eventType", jstr("ReplayBufferSaved"))])),
    ]);
    assert!(matches!(session_step(&mut st, SessionEvent::Message(event), None), SessionAction::Announce(p) if p.message == "Replay saved"));
    assert!(matches!(session_step(&mut st, SessionEvent::Binary, None), SessionAction::Nothing));
    assert!(matches!(session_step(&mut st, SessionEvent::Ended, None), SessionAction::Fail(m) if m == "OBS WebSocket disconnected"));
    assert!(matches!(
        session_step(&mut st, SessionEvent::ReadError("reset".to_string()), None),
        SessionAction::Fail(m) if m == "OBS WebSocket read error: reset"
    ));
    assert!(matches!(
        session_step(&mut st, SessionEvent::Close(None), None),
        SessionAction::Fail(m) if m == "OBS closed the connection (closed). Check WebSocket password in OBS matches 533clip."
    ));
    let mut fresh = SessionState { identified: false };
    assert!(matches!(
        session_step(&mut fresh, SessionEvent::Ended, None),
        SessionAction::Fail(m) if m == "OBS closed before accepting the connection — wrong password or WebSocket disabled."
    ));
}

#[test]
fn connection_status_tracking() {
    let mut c = ConnectionState::new();
    let s = c.set_connected(false, Some("refused".to_string()));
    assert!(!s.connected && s.error.as_deref() == Some("refused"));
    assert_eq!(c.status().error.as_deref(), Some("refused"));
    c.set_connected(false, None);
    assert_eq!(c.status().error.as_deref(), Some("refused"));
    c.set_connected(true, None);
    assert!(c.status().connected && c.status().error.is_none());
}

#[test]
fn worker_needs_password_and_enabled() {
    assert!(matches!(worker_step(false, true), WorkerStep::Idle(s, 10) if s.error.is_some()));
    assert!(matches!(worker_step(true, false), WorkerStep::Idle(s, 30) if s.error.is_none()));
    assert!(matches!(worker_step(true, true), WorkerStep::Connect));
}
