//! The JSON of what is sent.
use git_workbench::protocol::{
    Capabilities, Commit, CommitResult, GetHeadResult, GraphInvalidated, GraphPage, HeadChanged,
    IndexChanged, InitializeResult, OutputResult, Ref, RefKind, RefsChanged, StatusCode, StatusItem,
    UndoEntry, UndoResponse, UndoResult, WorkbenchError, WorktreeChanged, DEFAULT_AMEND,
    DEFAULT_AUTO_STASH, DEFAULT_UNDO_LIMIT,
};
use serde_json::Value;

fn json(text: &str) -> Value {
    serde_json::from_str(text).unwrap()
}

#[test]
fn status_code_serializes_snake_case() {
    let item = StatusItem {
        path: "src/main.rs".into(),
        status: StatusCode::Untracked,
        old_path: None,
        staged: false,
    };
    let json = item.to_json().to_string();
    assert!(json.contains("\"untracked\""));
}

#[test]
fn workbench_error_codes() {
    let e = WorkbenchError::epoch_mismatch(4, 5);
    assert_eq!(e.code, WorkbenchError::EPOCH_MISMATCH);
    assert!(e.message.contains("expected 4"));
    assert!(e.to_text().contains("WorkbenchError"));
}

#[test]
fn graph_page_serialization() {
    let page = GraphPage {
        commits: vec![],
        total_approx: 1000,
        has_more: true,
        epoch: 7,
        anchor_commit: Some("abc".into()),
    };
    let value = page.to_json();
    let json = value.to_string();
    assert!(json.contains("\"total_approx\":1000"));
    assert_eq!(value["epoch"], Value::from(7));
    assert_eq!(value["has_more"], Value::from(true));
}

#[test]
fn commit_lane_is_u16() {
    let c = Commit {
        id: "abc123".into(),
        message: "hello world".into(),
        author_name: "Alice".into(),
        author_email: "alice@example.com".into(),
        author_time: 1234567890,
        parent_ids: vec!["def456".into()],
        lane: 60000,
    };
    let value = c.to_json();
    let json = value.to_string();
    assert!(json.contains("\"lane\":60000"));
    assert_eq!(value["lane"], Value::from(60000));
}

#[test]
fn notifications_carry_epoch() {
    let refs = RefsChanged { changed_refs: vec!["refs/heads/main".into()], epoch: 7 };
    let json = refs.to_json().to_string();
    assert!(json.contains("\"changed_refs\""));
    assert!(json.contains("\"epoch\":7"));

    let idx = IndexChanged { epoch: 3 };
    let json = idx.to_json().to_string();
    assert!(json.contains("\"epoch\":3"));

    let head = HeadChanged { new_head: "ref: refs/heads/main".into(), epoch: 9 };
    let json = head.to_json().to_string();
    assert!(json.contains("\"new_head\""));
    assert!(json.contains("\"epoch\":9"));
}

#[test]
fn undo_response_serializes_like_the_original() {
    // `noop` is informational and stays off the wire.
    let r = UndoResponse { restored_refs: 2, noop: false, epoch: 5 };
    let json = r.to_json_text();
    assert_eq!(json, "{\"restored_refs\":2,\"epoch\":5}");

    let r = UndoResponse { restored_refs: 0, noop: true, epoch: 9 };
    assert_eq!(r.to_json_text(), "{\"restored_refs\":0,\"epoch\":9}");
}

#[test]
fn initialize_result_keeps_wire_format() {
    let expected = json(
        r#"{"session_id":"s1","protocol_version":1,"engine_version":"0.1.0","epoch":4,"capabilities":{"graph":true,"status":true,"writeOps":true,"undo":true,"notifications":true}}"#,
    );
    let result = InitializeResult {
        session_id: "s1".into(),
        protocol_version: 1,
        engine_version: "0.1.0".into(),
        epoch: 4,
        capabilities: Capabilities {
            graph: true,
            status: true,
            write_ops: true,
            undo: true,
            notifications: true,
        },
    };
    assert_eq!(result.to_json(), expected);
}

#[test]
fn defaults_of_requests() {
    assert!(DEFAULT_AUTO_STASH);
    assert!(!DEFAULT_AMEND);
    assert_eq!(DEFAULT_UNDO_LIMIT, 50);
}

#[test]
fn every_sent_value_has_its_wire_format() {
    let c = Commit {
        id: "abc123".into(),
        message: "hello \"world\"\n".into(),
        author_name: "Alice".into(),
        author_email: "alice@example.com".into(),
        author_time: -5,
        parent_ids: vec!["def456".into(), "x".into()],
        lane: 2,
    };
    assert_eq!(
        c.to_json(),
        json(
            r#"{"id":"abc123","message":"hello \"world\"\n","author_name":"Alice","author_email":"alice@example.com","author_time":-5,"parent_ids":["def456","x"],"lane":2}"#
        )
    );
    let r = Ref { name: "o/m".into(), kind: RefKind::RemoteBranch, target: "t".into() };
    assert_eq!(r.to_json(), json(r#"{"name":"o/m","kind":"remote_branch","target":"t"}"#));
    assert_eq!(RefKind::Branch.to_json(), Value::from("branch"));
    assert_eq!(RefKind::Tag.to_json(), Value::from("tag"));
    let names = [
        (StatusCode::Added, "added"),
        (StatusCode::Modified, "modified"),
        (StatusCode::Deleted, "deleted"),
        (StatusCode::Renamed, "renamed"),
        (StatusCode::Copied, "copied"),
        (StatusCode::Untracked, "untracked"),
        (StatusCode::Ignored, "ignored"),
        (StatusCode::Conflict, "conflict"),
    ];
    for (code, name) in names {
        assert_eq!(code.to_json(), Value::from(name));
    }
    let item = StatusItem {
        path: "b".into(),
        status: StatusCode::Renamed,
        old_path: Some("a".into()),
        staged: true,
    };
    assert_eq!(
        item.to_json(),
        json(r#"{"path":"b","status":"renamed","old_path":"a","staged":true}"#)
    );
    let page = GraphPage {
        commits: vec![c.clone()],
        total_approx: 1,
        has_more: false,
        epoch: 3,
        anchor_commit: None,
    };
    assert_eq!(page.to_json()["commits"], Value::Array(vec![c.to_json()]));
    assert_eq!(page.to_json()["anchor_commit"], Value::Null);
    let head = GetHeadResult { head: "h".into(), branch: None };
    assert_eq!(head.to_json(), json(r#"{"head":"h","branch":null}"#));
    assert_eq!(OutputResult { output: "o".into() }.to_json(), json(r#"{"output":"o"}"#));
    assert_eq!(CommitResult { commit_id: "c".into() }.to_json(), json(r#"{"commit_id":"c"}"#));
    assert_eq!(
        UndoResult { restored: true, message: "m".into() }.to_json(),
        json(r#"{"restored":true,"message":"m"}"#)
    );
    let entry =
        UndoEntry { id: 3, timestamp: -1, description: "d".into(), epoch_at_creation: 8 };
    assert_eq!(
        entry.to_json(),
        json(r#"{"id":3,"timestamp":-1,"description":"d","epoch_at_creation":8}"#)
    );
    assert_eq!(
        WorktreeChanged { paths: vec!["p".into()] }.to_json(),
        json(r#"{"paths":["p"]}"#)
    );
    assert_eq!(GraphInvalidated { epoch: 2 }.to_json(), json(r#"{"epoch":2}"#));
    let e = WorkbenchError::git_error("m".into());
    assert_eq!(e.to_json(), json(r#"{"code":-32002,"message":"m"}"#));
}

#[test]
fn every_error_has_its_code() {
    let m = || "m".to_string();
    assert_eq!(WorkbenchError::repo_not_found(m()).code, -32001);
    assert_eq!(WorkbenchError::git_error(m()).code, -32002);
    assert_eq!(WorkbenchError::CONCURRENT_OPERATION, -32003);
    assert_eq!(WorkbenchError::epoch_mismatch(1, 2).code, -32004);
    assert_eq!(WorkbenchError::invalid_argument(m()).code, -32005);
    assert_eq!(WorkbenchError::not_initialized(m()).code, -32006);
    assert_eq!(WorkbenchError::undo_blocked(m()).code, -32007);
    assert_eq!(WorkbenchError::epoch_mismatch(4, 5).message, "epoch mismatch: expected 4, got 5");
    assert_eq!(
        WorkbenchError::epoch_mismatch(4, 5).to_text(),
        "WorkbenchError -32004: epoch mismatch: expected 4, got 5"
    );
}
