//! Requests, replies, responses and notifications.
use git_workbench::framing::{read_message, write_frame, FrameError, IncomingMessage};
use git_workbench::graph::ReadError;
use git_workbench::protocol::{
    CommitMsg, CreateBranch, DeleteBranch, Fetch, GetBlob, GetGraph, GetHeadResult, GetStatus,
    GraphPage, GraphViewport, ListUndoStack, Pull, Push, Ref, RefKind, Stage, StatusCode, StatusItem,
    SwitchBranch, Undo, UndoEntry, Unstage, WorkbenchError,
};
use git_workbench::server::{
    dispatch, dispatch_with_session, engine_event_to_notification, framing_violation,
    handle_initialize, handle_message, initialize_error, initialize_result, no_session,
    parse_params, reader_step, refusal, reply_to, unknown_method, Admission, InitializeFault,
    LoopAction, LoopInput, Method, Outcome, ReaderStep, Request, Task, WorkbenchServer,
};
use git_workbench::session::EngineEvent;
use git_workbench::undo::{UndoErrorKind, UndoSummary};
use git_workbench::write_queue::WriteCommand;
use serde_json::Value;

fn json(text: &str) -> Value {
    serde_json::from_str(text).unwrap()
}

fn error(r: Result<Value, WorkbenchError>) -> (i32, String) {
    let e = r.unwrap_err();
    (e.code, e.message)
}

fn undone(result: Result<Result<UndoSummary, UndoErrorKind>, String>) -> Outcome {
    Outcome::Undone { transaction_id: 42, result, epoch: 6 }
}

#[test]
fn every_method_is_known_by_its_name() {
    let all = [
        ("initialize", Method::Initialize),
        ("shutdown", Method::Shutdown),
        ("getRefs", Method::GetRefs),
        ("getBlob", Method::GetBlob),
        ("getHead", Method::GetHead),
        ("getGraph", Method::GetGraph),
        ("getStatus", Method::GetStatus),
        ("stage", Method::Stage),
        ("unstage", Method::Unstage),
        ("commit", Method::Commit),
        ("createBranch", Method::CreateBranch),
        ("deleteBranch", Method::DeleteBranch),
        ("switchBranch", Method::SwitchBranch),
        ("fetch", Method::Fetch),
        ("pull", Method::Pull),
        ("push", Method::Push),
        ("listUndoStack", Method::ListUndoStack),
        ("undo", Method::Undo),
        ("getrefs", Method::Unknown),
        ("", Method::Unknown),
    ];
    for (name, method) in all {
        assert_eq!(dispatch(name), method, "{name}");
    }
    let e = unknown_method("ping");
    assert_eq!((e.code, e.message.as_str()), (-32005, "unknown method: ping"));
    let e = parse_params("stage", "missing field `paths`");
    assert_eq!((e.code, e.message.as_str()), (-32005, "stage: missing field `paths`"));
}

#[test]
fn requests_become_tasks() {
    let s = |t: &str| t.to_string();
    let viewport = |limit: u32| GraphViewport {
        offset: 3,
        limit,
        anchor_commit: Some("a".into()),
        epoch: 2,
    };
    assert!(matches!(dispatch_with_session(Request::GetRefs), Task::ReadRefs));
    assert!(matches!(dispatch_with_session(Request::GetHead), Task::ReadHead));
    let t = dispatch_with_session(Request::GetBlob(GetBlob { revision: s("r"), path: s("p") }));
    assert!(matches!(t, Task::ReadBlob { revision, path } if revision == "r" && path == "p"));
    for (asked, served) in [(0, 0), (10, 10), (1000, 1000), (1001, 1000), (u32::MAX, 1000)] {
        let t = dispatch_with_session(Request::GetGraph(GetGraph { viewport: viewport(asked) }));
        assert!(matches!(t, Task::ReadGraph(v) if v == viewport(served)));
    }
    let t = dispatch_with_session(Request::GetStatus(GetStatus { paths: Some(vec![s("p")]) }));
    assert!(matches!(t, Task::ReadStatus { paths: Some(p) } if p == vec![s("p")]));
    for (asked, served) in
        [(50, 50), (1, 1), (0, 1), (-7, 1), (500, 500), (501, 500), (4294967295, 500), (4294967296, 1), (i64::MAX, 1), (i64::MIN, 1)]
    {
        let t = dispatch_with_session(Request::ListUndoStack(ListUndoStack { limit: asked }));
        assert!(matches!(t, Task::ListTransactions { limit } if limit == served), "{asked}");
    }
    let t = dispatch_with_session(Request::Undo(Undo { transaction_id: 4 }));
    assert!(matches!(t, Task::Undo { transaction_id: 4 }));
    let write = |r: Request| match dispatch_with_session(r) {
        Task::Write { cmd, shows_output } => (cmd, shows_output),
        other => panic!("{other:?}"),
    };
    let (cmd, shows) = write(Request::Stage(Stage { paths: vec![s("p")] }));
    assert!(matches!(cmd, WriteCommand::Stage(p) if p == vec![s("p")]) && !shows);
    let (cmd, shows) = write(Request::Unstage(Unstage { paths: vec![s("p")] }));
    assert!(matches!(cmd, WriteCommand::Unstage(p) if p == vec![s("p")]) && !shows);
    let (cmd, shows) = write(Request::Commit(CommitMsg { message: s("m"), amend: true }));
    assert!(matches!(cmd, WriteCommand::Commit { message, amend: true } if message == "m") && !shows);
    let (cmd, shows) =
        write(Request::CreateBranch(CreateBranch { name: s("n"), base: Some(s("b")) }));
    assert!(matches!(cmd, WriteCommand::CreateBranch { name, base: Some(b) } if name == "n" && b == "b"));
    assert!(!shows);
    let (cmd, shows) = write(Request::DeleteBranch(DeleteBranch { name: s("n"), force: true }));
    assert!(matches!(cmd, WriteCommand::DeleteBranch { name, force: true } if name == "n") && !shows);
    let (cmd, shows) =
        write(Request::SwitchBranch(SwitchBranch { name: s("n"), auto_stash: true }));
    assert!(matches!(cmd, WriteCommand::SwitchBranch { name, auto_stash: true } if name == "n"));
    assert!(shows);
    let (cmd, shows) = write(Request::Fetch(Fetch { remote: Some(s("o")) }));
    assert!(matches!(cmd, WriteCommand::Fetch { remote: Some(o) } if o == "o") && shows);
    let (cmd, shows) = write(Request::Pull(Pull { remote: None, branch: Some(s("b")) }));
    assert!(matches!(cmd, WriteCommand::Pull { remote: None, branch: Some(b) } if b == "b") && shows);
    let (cmd, shows) =
        write(Request::Push(Push { remote: s("o"), branch: s("b"), force: true }));
    assert!(matches!(cmd, WriteCommand::Push { remote, branch, force: true }
        if remote == "o" && branch == "b"));
    assert!(!shows);
}

#[test]
fn outcomes_become_replies() {
    let refs = vec![Ref { name: "m".into(), kind: RefKind::Branch, target: "t".into() }];
    assert_eq!(
        reply_to(Outcome::Refs(Ok(refs))).unwrap(),
        json(r#"[{"name":"m","kind":"branch","target":"t"}]"#)
    );
    assert_eq!(reply_to(Outcome::Blob(Ok("c".into()))).unwrap(), Value::from("c"));
    let head = GetHeadResult { head: "h".into(), branch: Some("b".into()) };
    assert_eq!(reply_to(Outcome::Head(Ok(head))).unwrap(), json(r#"{"head":"h","branch":"b"}"#));
    let page = GraphPage {
        commits: vec![],
        total_approx: 0,
        has_more: false,
        epoch: 1,
        anchor_commit: None,
    };
    assert_eq!(
        reply_to(Outcome::Graph(Ok(page))).unwrap(),
        json(r#"{"commits":[],"total_approx":0,"has_more":false,"epoch":1,"anchor_commit":null}"#)
    );
    let item = StatusItem {
        path: "p".into(),
        status: StatusCode::Added,
        old_path: None,
        staged: true,
    };
    assert_eq!(
        reply_to(Outcome::Status(Ok(vec![item]))).unwrap(),
        json(r#"[{"path":"p","status":"added","old_path":null,"staged":true}]"#)
    );
    let written =
        |shows_output: bool| reply_to(Outcome::Written { result: Ok("o".into()), shows_output });
    assert_eq!(written(false).unwrap(), Value::Null);
    assert_eq!(written(true).unwrap(), json(r#"{"output":"o"}"#));
    let entry = UndoEntry { id: 1, timestamp: 2, description: "d".into(), epoch_at_creation: 3 };
    assert_eq!(
        reply_to(Outcome::Transactions(Ok(vec![entry]))).unwrap(),
        json(r#"[{"id":1,"timestamp":2,"description":"d","epoch_at_creation":3}]"#)
    );
    let summary = UndoSummary { restored_refs: 2, noop: false };
    assert_eq!(
        reply_to(undone(Ok(Ok(summary)))).unwrap(),
        json(r#"{"restored_refs":2,"epoch":6}"#)
    );
}

#[test]
fn failures_become_errors() {
    let git = |m: &str| (-32002, m.to_string());
    assert_eq!(error(reply_to(Outcome::Refs(Err("e".into())))), git("e"));
    assert_eq!(error(reply_to(Outcome::Blob(Err("e".into())))), git("e"));
    assert_eq!(error(reply_to(Outcome::Head(Err("e".into())))), git("e"));
    assert_eq!(error(reply_to(Outcome::Transactions(Err("e".into())))), git("e"));
    let failed = Outcome::Written { result: Err("e".into()), shows_output: true };
    assert_eq!(error(reply_to(failed)), git("e"));
    // A page of the graph keeps the code of its error, a status does not.
    let coded = || ReadError::Coded(WorkbenchError::epoch_mismatch(4, 5));
    assert_eq!(
        error(reply_to(Outcome::Graph(Err(coded())))),
        (-32004, "epoch mismatch: expected 4, got 5".to_string())
    );
    assert_eq!(
        error(reply_to(Outcome::Status(Err(coded())))),
        git("WorkbenchError -32004: epoch mismatch: expected 4, got 5")
    );
    assert_eq!(error(reply_to(Outcome::Graph(Err(ReadError::Plain("e".into()))))), git("e"));
    assert_eq!(error(reply_to(Outcome::Status(Err(ReadError::Plain("e".into()))))), git("e"));
    assert_eq!(
        error(reply_to(undone(Ok(Err(UndoErrorKind::NotFound))))),
        (-32005, "undo: transaction 42 not found".to_string())
    );
    let blocked = UndoErrorKind::Blocked { reason: "r".into() };
    assert_eq!(error(reply_to(undone(Ok(Err(blocked))))), (-32007, "r".to_string()));
    let failure = UndoErrorKind::Failure { msg: "f".into() };
    assert_eq!(error(reply_to(undone(Ok(Err(failure))))), git("f"));
    assert_eq!(error(reply_to(undone(Err("q".into())))), git("q"));
}

#[test]
fn responses_carry_the_id_of_the_request() {
    let body = handle_message(Some(Value::from(7)), Ok(Value::Null)).unwrap();
    assert_eq!(json(&body), json(r#"{"jsonrpc":"2.0","id":7,"result":null}"#));
    let body = handle_message(Some(Value::from("x")), Err(no_session())).unwrap();
    assert_eq!(
        json(&body),
        json(r#"{"jsonrpc":"2.0","id":"x","error":{"code":-32006,"message":"no session; call initialize first"}}"#)
    );
    // A notification is not answered.
    assert_eq!(handle_message(None, Ok(Value::Null)), None);
    assert_eq!(handle_message(None, Err(no_session())), None);
    // A null id is one.
    assert!(handle_message(Some(Value::Null), Ok(Value::Null)).is_some());
}

#[test]
fn violations_are_answered_without_an_id() {
    assert_eq!(
        json(&framing_violation(&FrameError::Truncated)),
        json(r#"{"jsonrpc":"2.0","id":null,"error":{"code":-32700,"message":"parse error: failed to fill whole buffer; connection closed"}}"#)
    );
    let unreadable = FrameError::Unreadable { message: "Input/output error (os error 5)".into() };
    assert_eq!(
        json(&framing_violation(&unreadable))["error"]["message"],
        "parse error: Input/output error (os error 5); connection closed"
    );
}

#[test]
fn events_become_notifications() {
    let n = |e: EngineEvent| json(&engine_event_to_notification(e));
    assert_eq!(
        n(EngineEvent::RefsChanged { changed_refs: vec!["r".into()], epoch: 1 }),
        json(r#"{"jsonrpc":"2.0","method":"refsChanged","params":{"changed_refs":["r"],"epoch":1}}"#)
    );
    assert_eq!(
        n(EngineEvent::WorktreeChanged { paths: vec!["p".into()] }),
        json(r#"{"jsonrpc":"2.0","method":"worktreeChanged","params":{"paths":["p"]}}"#)
    );
    assert_eq!(
        n(EngineEvent::IndexChanged { epoch: 2 }),
        json(r#"{"jsonrpc":"2.0","method":"indexChanged","params":{"epoch":2}}"#)
    );
    assert_eq!(
        n(EngineEvent::HeadChanged { new_head: "h".into(), epoch: 3 }),
        json(r#"{"jsonrpc":"2.0","method":"headChanged","params":{"new_head":"h","epoch":3}}"#)
    );
    assert_eq!(
        n(EngineEvent::GraphInvalidated { epoch: 4 }),
        json(r#"{"jsonrpc":"2.0","method":"graphInvalidated","params":{"epoch":4}}"#)
    );
}

#[test]
fn initialize_opens_a_session_with_a_random_name() {
    let a = handle_initialize("0.1.0".into(), 5);
    let b = handle_initialize("0.1.0".into(), 5);
    assert_ne!(a.session_id, b.session_id);
    for id in [&a.session_id, &b.session_id] {
        assert_eq!(id.len(), 36);
        assert_eq!(id.split('-').map(|g| g.len()).collect::<Vec<_>>(), vec![8, 4, 4, 4, 12]);
        assert_eq!(&id[14..15], "4");
        assert!(matches!(&id[19..20], "8" | "9" | "a" | "b"));
        assert!(id.chars().all(|c| c == '-' || c.is_ascii_digit() || ('a'..='f').contains(&c)));
    }
    assert_eq!((a.protocol_version, a.engine_version.as_str(), a.epoch), (1, "0.1.0", 5));
    let c = initialize_result("s".into(), "v".into(), 2);
    assert!(c.capabilities.graph && c.capabilities.status && c.capabilities.write_ops);
    assert!(c.capabilities.undo && c.capabilities.notifications);
    assert_eq!(c.session_id, "s");
}

#[test]
fn initialize_fails_with_a_code() {
    let e = initialize_error(&InitializeFault::Unresolved {
        repo_path: "/no\"where".into(),
        reason: "gone".into(),
    });
    assert_eq!(
        (e.code, e.message.as_str()),
        (-32005, "initialize: cannot resolve repo_path \"/no\\\"where\": gone")
    );
    let e = initialize_error(&InitializeFault::NoRepository { path: "/x".into() });
    assert_eq!((e.code, e.message.as_str()), (-32001, "/x"));
    let e = initialize_error(&InitializeFault::NotOpened { reason: "locked".into() });
    assert_eq!((e.code, e.message.as_str()), (-32002, "failed to open session: locked"));
}

#[test]
fn requests_wait_for_the_first_initialize() {
    let mut server = WorkbenchServer::new();
    assert_eq!(server.get_any_session(), Admission::Wait);
    server.begin_initialize();
    assert_eq!(server.get_any_session(), Admission::Wait);
    server.end_initialize(false);
    assert_eq!(server.get_any_session(), Admission::Refuse);
    server.begin_initialize();
    server.end_initialize(true);
    assert_eq!(server.get_any_session(), Admission::Serve);
    server.begin_initialize();
    assert_eq!(server.get_any_session(), Admission::Refuse);
    let mut stopped = WorkbenchServer::new();
    stopped.stop();
    assert_eq!(stopped.get_any_session(), Admission::Refuse);
}

#[test]
fn the_loop_goes_on_until_it_is_told_to_stop() {
    let server = WorkbenchServer::new();
    assert_eq!(server.run(LoopInput::Message), LoopAction::Handle);
    assert_eq!(server.run(LoopInput::Event), LoopAction::Announce);
    assert_eq!(server.run(LoopInput::ReaderDone), LoopAction::DrainAndStop);
    assert_eq!(server.run(LoopInput::EventsClosed), LoopAction::Stop);
    assert_eq!(server.run(LoopInput::Shutdown), LoopAction::Stop);
}

#[test]
fn the_reader_stops_at_the_first_violation() {
    let mut stream = Vec::new();
    write_frame(&mut stream, r#"{"method":"a"}"#);
    write_frame(&mut stream, r#"{"method":"b"}"#);
    stream.extend_from_slice(b"Content-Length: x\r\n\r\n");
    write_frame(&mut stream, r#"{"method":"c"}"#);

    let mut at = 0;
    let mut forwarded = Vec::new();
    let mut responses = Vec::new();
    loop {
        let mut used = 0;
        let read: Result<Option<IncomingMessage>, FrameError> =
            read_message(&stream[at..]).map(|r| r.map(|(m, n)| {
                used = n;
                m
            }));
        let step = reader_step(&read);
        match read {
            Ok(Some(m)) => forwarded.push(m.method),
            Ok(None) => {}
            Err(e) => responses.push(json(&framing_violation(&e))),
        }
        if step != ReaderStep::Forward {
            assert_eq!(step, ReaderStep::ReportAndStop);
            break;
        }
        at += used;
    }
    assert_eq!(forwarded, vec!["a", "b"]);
    assert_eq!(responses.len(), 1);
    assert_eq!(responses[0]["error"]["code"], -32700);
    assert!(responses[0]["id"].is_null());
    assert_eq!(reader_step(&Ok(None)), ReaderStep::Stop);
}

#[test]
fn an_unknown_method_is_refused() {
    let e = refusal(dispatch("frobnicate"), "frobnicate").unwrap();
    assert_eq!(e.code, WorkbenchError::INVALID_ARGUMENT);
    assert_eq!(e.code, -32005);
    assert_eq!(e.message, "unknown method: frobnicate");
    for name in ["initialize", "shutdown", ""] {
        assert_eq!(
            refusal(dispatch(name), name).unwrap().message,
            format!("unknown method: {name}")
        );
    }
    for name in ["getRefs", "getBlob", "getHead", "getGraph", "getStatus", "stage", "unstage",
        "commit", "createBranch", "deleteBranch", "switchBranch", "fetch", "pull", "push",
        "listUndoStack", "undo"]
    {
        assert!(refusal(dispatch(name), name).is_none(), "{name}");
    }
}
