//! Snapshots, restoring, the journal and undo.
use git_workbench::names::NameFault;
use git_workbench::restore::{script, IndexStep, RefCommand, RestoreError};
use git_workbench::snapshot::{
    read_loose_refs, LooseFile, RefTable, Snapshot, SnapshotError, SnapshotReads,
};
use git_workbench::undo::{
    is_pruned, journal_content, journal_lines, read_journal, snapshot_id, truncate_journal_at,
    Transaction, TransactionFile, TransactionMeta, UndoDecision, UndoEngine, UndoError,
    UndoErrorKind, UndoOutcome, UndoStep, UndoSummary, AUDIT_LOG, JOURNAL, JOURNAL_TMP, UNDO_DIR,
    UNDO_MARKER,
};
use git_workbench::write_queue::WriteResult;
use serde_json::Value;
use std::collections::BTreeMap;

fn sha(c: char) -> String {
    c.to_string().repeat(40)
}

fn table(entries: &[(&str, &str)]) -> RefTable {
    let mut refs = RefTable::new();
    for (name, target) in entries {
        refs = refs.with(name.to_string(), target.to_string());
    }
    refs
}

fn state(head: &str, entries: &[(&str, &str)]) -> Snapshot {
    Snapshot {
        head: head.into(),
        refs: table(entries),
        stash_ref: None,
        index_tree: Some(sha('9')),
    }
}

fn tx(id: u64, success: bool) -> Transaction {
    Transaction {
        id,
        timestamp: 100 + id as i64,
        description: format!("op {id}"),
        epoch_at_creation: id * 10,
        success,
    }
}

fn engine() -> UndoEngine {
    UndoEngine::new(&Vec::new(), &Vec::new())
}

fn loose(path: &str, content: &str) -> LooseFile {
    LooseFile { path: path.into(), content: content.into() }
}

#[test]
fn undo_snapshot_and_list() {
    let mut engine = engine();
    let (id, steps) =
        engine.begin("stage files", 1, Ok(state("ref: refs/heads/main", &[]))).unwrap();
    assert!(id >= 1);
    assert!(matches!(&steps[0], UndoStep::WritePre(f) if f.meta.id == id && steps.len() == 1));
    let steps = engine
        .commit(id, "stage files", 1, true, Ok(state("ref: refs/heads/main", &[])))
        .unwrap();
    assert!(matches!(&steps[0], UndoStep::WritePost(f) if f.meta.id == id));
    let entry = match &steps[1] {
        UndoStep::AppendJournal(t) => t.clone(),
        _ => panic!("the journal entry comes last"),
    };
    assert_eq!(steps.len(), 2);

    let entries = engine.list_transactions(&vec![entry.clone()], 10);
    assert_eq!(entries.len(), 1);
    assert_eq!(entries[0].description, "stage files");
    assert_eq!(entries[0].epoch_at_creation, 1);

    // The clock is that of the machine.
    let now = std::time::SystemTime::now()
        .duration_since(std::time::UNIX_EPOCH)
        .unwrap()
        .as_secs() as i64;
    assert!(entry.timestamp <= now && now - entry.timestamp < 60);

    // Transactions are persisted across engine restarts.
    let again = UndoEngine::new(&vec![id], &Vec::new());
    assert_eq!(again.next_id, id + 1);
    assert_eq!(again.list_transactions(&vec![entry], 10).len(), 1);
}

#[test]
fn ids_go_on_behind_the_journal_and_the_files() {
    let files: Vec<String> =
        ["journal.jsonl", "7.pre", "7.post", "9.pre", "undo-in-progress.json", "x.pre", "+11.pre"]
            .iter()
            .map(|s| s.to_string())
            .collect();
    assert_eq!(UndoEngine::new(&Vec::new(), &Vec::new()).next_id, 1);
    assert_eq!(UndoEngine::new(&vec![3, 1], &Vec::new()).next_id, 4);
    assert_eq!(UndoEngine::new(&vec![3], &files).next_id, 12);
    assert_eq!(UndoEngine::new(&vec![30], &files).next_id, 31);
    assert_eq!(snapshot_id("9.post"), Some(9));
    assert_eq!(snapshot_id("18446744073709551615.pre"), Some(u64::MAX));
    assert_eq!(snapshot_id("journal.jsonl"), None);
}

#[test]
fn an_id_is_used_up_by_a_begin_that_fails() {
    let mut engine = engine();
    assert_eq!(engine.begin("x", 1, Err("no HEAD".into())).unwrap_err(), "no HEAD");
    assert_eq!(engine.next_id, 2);
    assert_eq!(engine.begin("x", 1, Ok(Snapshot::default())).unwrap().0, 2);
    engine.next_id = u64::MAX;
    assert_eq!(engine.begin("x", 1, Ok(Snapshot::default())).unwrap().0, u64::MAX);
    assert_eq!(engine.next_id, 0);
    assert_eq!(engine.commit(1, "x", 1, true, Err("gone".into())).unwrap_err(), "gone");
}

#[test]
fn undo_restores_refs_after_commit() {
    let engine = engine();
    let before = state("ref: refs/heads/main", &[("refs/heads/main", &sha('a'))]);
    let after = state("ref: refs/heads/main", &[("refs/heads/main", &sha('b'))]);
    let journal = vec![tx(1, true), tx(2, true)];

    // What is needed is asked for step by step.
    assert!(matches!(engine.undo(&journal, 2, None, None, None), UndoDecision::NeedPost(2)));
    assert!(matches!(engine.undo(&journal, 1, None, None, None), UndoDecision::NeedPost(2)));
    assert!(matches!(
        engine.undo(&journal, 2, Some(&after), None, None),
        UndoDecision::NeedCurrent
    ));
    assert!(matches!(
        engine.undo(&journal, 2, Some(&after), Some(&after), None),
        UndoDecision::NeedPre(2)
    ));
    let steps = match engine.undo(&journal, 2, Some(&after), Some(&after), Some(&before)) {
        UndoDecision::Restore(steps) => steps,
        other => panic!("expected a restoration, got {other:?}"),
    };
    assert_eq!(steps.len(), 5);
    assert!(matches!(&steps[0], UndoStep::WriteMarker(f)
        if f.meta.id == 2 && f.meta.description == "op 2" && f.meta.epoch == 20
            && f.snapshot.same_as(&before)));
    assert!(matches!(steps[1], UndoStep::TruncateJournal(2)));
    assert!(matches!(&steps[2], UndoStep::Restore(s) if s.same_as(&before)));
    assert!(matches!(steps[3], UndoStep::RemoveMarker));
    assert!(matches!(steps[4], UndoStep::Prune(2)));

    let plan = engine.restore_snapshot(&after, &before).unwrap();
    assert_eq!(plan.restored_refs, 1);
    assert_eq!(
        script(&plan.commands),
        format!("update refs/heads/main {} {}\n", sha('a'), sha('b'))
    );
    assert!(matches!(&plan.index, IndexStep::ReadTree(t) if *t == sha('9')));
    assert_eq!(plan.head.unwrap(), vec!["symbolic-ref", "HEAD", "refs/heads/main"]);

    // The earlier transaction, a stage, is still on the stack; undoing it moves
    // no reference, restores the index and pops it.
    let left = truncate_journal_at(&journal, 2);
    let entries = engine.list_transactions(&left, 10);
    assert_eq!(entries.len(), 1);
    assert_eq!(entries[0].id, 1);
    let clean = Snapshot { index_tree: Some(sha('8')), ..before.copy() };
    let steps = match engine.undo(&left, 1, Some(&before), Some(&before), Some(&clean)) {
        UndoDecision::Restore(steps) => steps,
        other => panic!("expected a restoration, got {other:?}"),
    };
    assert!(matches!(steps[1], UndoStep::TruncateJournal(1)));
    assert!(matches!(&steps[2], UndoStep::Restore(s) if s.same_as(&clean)));
    let plan = engine.restore_snapshot(&before, &clean).unwrap();
    assert_eq!(plan.restored_refs, 0);
    assert!(plan.commands.is_empty());
    assert!(matches!(&plan.index, IndexStep::ReadTree(t) if *t == sha('8')));
    assert!(engine.list_transactions(&truncate_journal_at(&left, 1), 10).is_empty());
}

#[test]
fn a_recovery_passes_over_a_failed_restoration_alone() {
    let marker = TransactionFile {
        meta: TransactionMeta { id: 3, description: "d".into(), epoch: 1 },
        snapshot: state("ref: refs/heads/main", &[]),
    };
    let steps = engine().recover(Some(&marker));
    let errors: Vec<Option<String>> =
        steps.iter().map(|s| s.recovery_error("why".into())).collect();
    assert_eq!(errors, vec![Some("why".into()), None, Some("why".into())]);
    assert!(matches!(steps[1], UndoStep::Restore(_)));
}

#[test]
fn undo_blocked_on_external_change() {
    let engine = engine();
    let post = state("ref: refs/heads/main", &[("refs/heads/main", &sha('b'))]);
    let moved = state("ref: refs/heads/main", &[("refs/heads/main", &sha('c'))]);
    let result = engine.undo(&vec![tx(1, true)], 1, Some(&post), Some(&moved), None);
    assert!(
        matches!(&result, UndoDecision::Refuse(UndoError::Blocked { reason })
            if reason == "repository state changed externally since the last workbench operation"),
        "expected Blocked, got {:?}",
        result
    );
    // Every part of the state counts.
    for other in [
        Snapshot { head: "x".into(), ..post.copy() },
        Snapshot { stash_ref: Some(sha('d')), ..post.copy() },
        Snapshot { index_tree: None, ..post.copy() },
        Snapshot { refs: table(&[]), ..post.copy() },
    ] {
        assert!(matches!(
            engine.undo(&vec![tx(1, true)], 1, Some(&post), Some(&other), Some(&post)),
            UndoDecision::Refuse(UndoError::Blocked { .. })
        ));
    }
}

#[test]
fn undo_of_what_is_not_there_or_has_failed() {
    let engine = engine();
    assert!(matches!(
        engine.undo(&vec![tx(1, true)], 2, None, None, None),
        UndoDecision::Refuse(UndoError::NotFound)
    ));
    let journal = vec![tx(1, false), tx(2, false)];
    let steps = match engine.undo(&journal, 1, None, None, None) {
        UndoDecision::Pop(steps) => steps,
        other => panic!("expected a pop, got {other:?}"),
    };
    assert_eq!(steps.len(), 1);
    assert!(matches!(steps[0], UndoStep::TruncateJournal(1)));
}

#[test]
fn undo_of_a_failed_write_takes_later_ones_back() {
    let engine = engine();
    let journal = vec![tx(1, true), tx(2, false), tx(3, true)];
    let before = state("ref: refs/heads/main", &[("refs/heads/main", &sha('1'))]);
    let after = state("ref: refs/heads/main", &[("refs/heads/main", &sha('2'))]);
    assert!(matches!(
        engine.undo(&journal, 2, None, None, None),
        UndoDecision::NeedPost(3)
    ));
    assert!(matches!(
        engine.undo(&journal, 2, Some(&after), Some(&before), None),
        UndoDecision::Refuse(UndoError::Blocked { .. })
    ));
    assert!(matches!(
        engine.undo(&journal, 2, Some(&after), Some(&after), None),
        UndoDecision::NeedPre(2)
    ));
    let steps = match engine.undo(&journal, 2, Some(&after), Some(&after), Some(&before)) {
        UndoDecision::Restore(steps) => steps,
        other => panic!("expected a restoration, got {other:?}"),
    };
    assert!(matches!(&steps[0], UndoStep::WriteMarker(f) if f.meta.id == 2));
    assert!(matches!(&steps[1], UndoStep::TruncateJournal(2)));
    assert!(matches!(&steps[2], UndoStep::Restore(s) if s.same_as(&before)));
    assert_eq!(truncate_journal_at(&journal, 2).len(), 1);
}

#[test]
fn restoring_moves_creates_and_deletes() {
    let engine = engine();
    let current = state(
        &sha('e'),
        &[
            ("refs/heads/moved", &sha('2')),
            ("refs/heads/new", &sha('3')),
            ("refs/heads/same", &sha('4')),
        ],
    );
    let pre = state(
        &sha('f'),
        &[
            ("refs/heads/gone", &sha('5')),
            ("refs/heads/moved", &sha('1')),
            ("refs/heads/same", &sha('4')),
        ],
    );
    let plan = engine.restore_snapshot(&current, &pre).unwrap();
    assert_eq!(plan.restored_refs, 3);
    let zero = "0".repeat(40);
    assert_eq!(
        script(&plan.commands),
        format!(
            "update refs/heads/gone {} {zero}\nupdate refs/heads/moved {} {}\n\
             delete refs/heads/new {}\n",
            sha('5'),
            sha('1'),
            sha('2'),
            sha('3')
        )
    );
    assert!(matches!(&plan.commands[0], RefCommand::Update { old, .. } if *old == zero));
    assert_eq!(plan.head.unwrap(), vec!["update-ref", "--no-deref", "HEAD", &sha('f')]);

    // Restored once more, nothing is touched.
    let again = engine.restore_snapshot(&pre, &pre).unwrap();
    assert_eq!(again.restored_refs, 0);
    assert!(again.commands.is_empty());
    // Only what differs is touched.
    let (a, b, c) = (sha('a'), sha('b'), sha('c'));
    let now = state(&a, &[("refs/heads/main", &a), ("refs/heads/dev", &b)]);
    let then =
        state("ref: refs/heads/main", &[("refs/heads/main", &a), ("refs/heads/dev", &c)]);
    let plan = engine.restore_snapshot(&now, &then).unwrap();
    assert_eq!(plan.restored_refs, 1);
    assert_eq!(script(&plan.commands), format!("update refs/heads/dev {c} {b}\n"));
    // Nothing to restore: no commands at all.
    let empty = Snapshot { head: sha('f'), ..Snapshot::default() };
    let plan = engine.restore_snapshot(&empty, &empty).unwrap();
    assert!(plan.commands.is_empty());
    assert_eq!(script(&plan.commands), "");
    assert!(matches!(plan.index, IndexStep::Keep));
}

/// What a script makes of references, or nothing where it is stopped.
fn apply(commands: &[RefCommand], refs: &[(&str, &str)]) -> Option<BTreeMap<String, String>> {
    let mut map: BTreeMap<String, String> =
        refs.iter().map(|(n, t)| (n.to_string(), t.to_string())).collect();
    for command in commands {
        match command {
            RefCommand::Update { name, target, old } => {
                let zero = "0".repeat(40);
                if map.get(name).unwrap_or(&zero) != old {
                    return None;
                }
                map.insert(name.clone(), target.clone());
            }
            RefCommand::Delete { name, old } => {
                if map.remove(name).as_ref() != Some(old) {
                    return None;
                }
            }
        }
    }
    Some(map)
}

#[test]
fn the_commands_lead_to_the_snapshot_or_nowhere() {
    let (a, b, c) = (sha('a'), sha('b'), sha('c'));
    let have: Vec<(&str, &str)> =
        vec![("refs/heads/x", &a), ("refs/heads/y", &b), ("refs/heads/z", &c)];
    let want: Vec<(&str, &str)> = vec![("refs/heads/y", &c), ("refs/heads/w", &a)];
    let plan = engine().restore_snapshot(&state(&a, &have), &state(&a, &want)).unwrap();
    assert_eq!(plan.restored_refs, 4);
    let expected: BTreeMap<String, String> =
        want.iter().map(|(n, t)| (n.to_string(), t.to_string())).collect();
    assert_eq!(apply(&plan.commands, &have), Some(expected));
    // Any reference that has moved in the meantime stops the script.
    let mut moved = have.clone();
    moved[2].1 = &b;
    assert_eq!(apply(&plan.commands, &moved), None);
    let mut created = have.clone();
    created.push(("refs/heads/w", &c));
    assert_eq!(apply(&plan.commands, &created), None);
    assert_eq!(apply(&plan.commands, &have[1..]), None);
}

#[test]
fn what_cannot_be_restored_is_refused() {
    let engine = engine();
    let good = state(&sha('f'), &[]);
    let bad_name = state(&sha('f'), &[("heads/x", &sha('1'))]);
    let e = engine.restore_snapshot(&good, &bad_name).map(|_| ()).unwrap_err();
    assert_eq!(e.message(), "ref name must start with 'refs/': \"heads/x\"");
    let bad_sha = state(&sha('f'), &[("refs/heads/x", "zz")]);
    let e = engine.restore_snapshot(&good, &bad_sha).map(|_| ()).unwrap_err();
    assert_eq!((e.fault, e.name.as_str()), (NameFault::InvalidObjectId, "zz"));
    let undeletable = state(&sha('f'), &[("refs/heads/a b", &sha('1'))]);
    let e = engine.restore_snapshot(&undeletable, &good).map(|_| ()).unwrap_err();
    assert_eq!(e.message(), "invalid character ' ' in ref name \"refs/heads/a b\"");
    // A bad index tree or HEAD stops the restoration only where it gets to it.
    let odd = Snapshot { index_tree: Some("x".into()), head: "".into(), ..Snapshot::default() };
    let plan = engine.restore_snapshot(&good, &odd).unwrap();
    assert!(matches!(&plan.index, IndexStep::Refuse(e) if e.message() == "invalid object id: \"x\""));
    assert_eq!(
        plan.head.unwrap_err().message(),
        "snapshot has empty HEAD; refusing to restore"
    );
    assert!(matches!(
        engine.restore_head("ref: refs/heads/a..b"),
        Err(RestoreError::Name(e)) if e.fault == NameFault::InvalidRef
    ));
    assert!(matches!(
        engine.restore_head("abc"),
        Err(RestoreError::Name(e)) if e.fault == NameFault::InvalidObjectId
    ));
    assert_eq!(
        engine.restore_head(&format!(" {}\n", sha('A'))).unwrap()[3],
        sha('A')
    );
}

#[test]
fn an_interrupted_undo_is_finished() {
    let engine = engine();
    assert!(engine.recover(None).is_empty());
    let marker = TransactionFile {
        meta: TransactionMeta { id: 4, description: "d".into(), epoch: 2 },
        snapshot: state(&sha('f'), &[]),
    };
    let steps = engine.recover(Some(&marker));
    assert_eq!(steps.len(), 3);
    assert!(matches!(steps[0], UndoStep::TruncateJournal(4)));
    assert!(matches!(&steps[1], UndoStep::Restore(s) if s.head == sha('f')));
    assert!(matches!(steps[2], UndoStep::RemoveMarker));
}

#[test]
fn failing_steps_have_their_errors() {
    let io = |s: &UndoStep| match s.error("why".into()) {
        Some(UndoError::Io(m)) => m,
        other => panic!("{other:?}"),
    };
    assert_eq!(io(&UndoStep::TruncateJournal(1)), "why");
    assert_eq!(io(&UndoStep::RemoveMarker), "failed to remove undo marker: why");
    assert!(matches!(
        UndoStep::Restore(Snapshot::default()).error("why".into()),
        Some(UndoError::Git(m)) if m == "why"
    ));
    assert!(UndoStep::Prune(1).error("why".into()).is_none());

    assert!(matches!(UndoError::NotFound.kind(), UndoErrorKind::NotFound));
    assert_eq!(UndoErrorKind::NotFound.message(), "transaction not found");
    let blocked = UndoError::Blocked { reason: "r".into() }.kind();
    assert_eq!(blocked.message(), "undo blocked: r");
    assert_eq!(UndoError::Io("m".into()).kind().message(), "m");
    assert_eq!(UndoError::Git("m".into()).kind().message(), "m");
    assert_ne!(UndoOutcome::Noop, UndoOutcome::Restored { restored_refs: 0 });
}

#[test]
fn the_journal_is_sorted_and_cut_off_lines_are_dropped() {
    let read = read_journal(vec![Some(tx(3, true)), None, Some(tx(1, true)), Some(tx(2, false))]);
    assert_eq!(read.iter().map(|t| t.id).collect::<Vec<_>>(), vec![1, 2, 3]);
    // Equal ids keep their order.
    let mut first = tx(1, true);
    first.description = "first".into();
    let mut second = tx(1, true);
    second.description = "second".into();
    let read = read_journal(vec![Some(first), Some(second), Some(tx(0, true))]);
    assert_eq!(read[1].description, "first");
    assert_eq!(read[2].description, "second");

    let engine = engine();
    let journal = vec![tx(1, true), tx(2, true), tx(3, false)];
    let listed = engine.list_transactions(&journal, 2);
    assert_eq!(listed.iter().map(|e| e.id).collect::<Vec<_>>(), vec![3, 2]);
    assert!(engine.list_transactions(&journal, 0).is_empty());
}

#[test]
fn the_journal_reads_back_line_for_line() {
    let mut odd = tx(2, false);
    odd.description = "line\nbreak\r \u{2028}".into();
    let journal = vec![tx(1, true), odd.clone()];
    let content = journal_content(&journal);
    let lines = journal_lines(&content);
    assert_eq!(lines, journal.iter().map(|t| t.line()).collect::<Vec<_>>());
    assert_eq!(
        lines[0],
        r#"{"id":1,"timestamp":101,"description":"op 1","epoch_at_creation":10,"success":true}"#
    );
    let back: Value = serde_json::from_str(&lines[1]).unwrap();
    assert_eq!(back["description"], Value::from(odd.description.as_str()));
    assert_eq!(back["id"], Value::from(2));
    assert_eq!(back["timestamp"], Value::from(102));
    assert_eq!(back["epoch_at_creation"], Value::from(20));
    assert_eq!(back["success"], Value::from(false));
    assert_eq!(journal_content(&Vec::new()), "");
    assert_eq!(journal_lines("\n  \nx\n\n{\"cut"), vec!["x", "{\"cut"]);
}

#[test]
fn snapshot_files_hold_the_transaction_and_the_state() {
    let file = TransactionFile {
        meta: TransactionMeta { id: 5, description: "Stage(1 paths)".into(), epoch: 6 },
        snapshot: Snapshot {
            head: "ref: refs/heads/main".into(),
            refs: table(&[("refs/heads/main", "1"), ("refs/heads/x", "2")]),
            stash_ref: Some("3".into()),
            index_tree: None,
        },
    };
    let expected: Value = serde_json::from_str(
        r#"{"meta":{"id":5,"description":"Stage(1 paths)","epoch":6},"snapshot":{"head":"ref: refs/heads/main","refs":{"refs/heads/main":"1","refs/heads/x":"2"},"stash_ref":"3","index_tree":null}}"#,
    )
    .unwrap();
    let back: Value = serde_json::from_str(&file.content()).unwrap();
    assert_eq!(back, expected);
    assert_eq!(
        file.content(),
        r#"{
  "meta": {
    "id": 5,
    "description": "Stage(1 paths)",
    "epoch": 6
  },
  "snapshot": {
    "head": "ref: refs/heads/main",
    "refs": {
      "refs/heads/main": "1",
      "refs/heads/x": "2"
    },
    "stash_ref": "3",
    "index_tree": null
  }
}"#
    );
    let bare = Snapshot { head: "h".into(), ..Snapshot::default() };
    assert!(bare.pretty("").contains("  \"refs\": {},\n"));
    let engine = engine();
    assert_eq!(engine.pre_path(5), "git-workbench/undo/5.pre");
    assert_eq!(engine.post_path(5), "git-workbench/undo/5.post");
    assert_eq!(
        (UNDO_DIR, JOURNAL, JOURNAL_TMP, UNDO_MARKER, AUDIT_LOG),
        (
            "git-workbench/undo",
            "journal.jsonl",
            "journal.jsonl.tmp",
            "undo-in-progress.json",
            "git-workbench/audit.log"
        )
    );
    assert!(is_pruned("5.pre", 5));
    assert!(is_pruned("6.post", 5));
    assert!(!is_pruned("4.post", 5));
    assert!(!is_pruned("journal.jsonl", 0));
}

#[test]
fn the_audit_log_tells_success_from_failure() {
    let engine = engine();
    let status = |result: &WriteResult| -> Value {
        let line = engine.append_audit_log_at("Stage(1 paths)", 4, result, 9, 77);
        assert!(line.ends_with('\n'));
        let v: Value = serde_json::from_str(&line).unwrap();
        assert_eq!(v["operation"], Value::from("Stage(1 paths)"));
        assert_eq!(v["epoch"], Value::from(4));
        assert_eq!(v["transaction_id"], Value::from(9));
        assert_eq!(v["timestamp"], Value::from(77));
        v["status"].clone()
    };
    assert_eq!(status(&WriteResult::Done("x".into())), Value::from("ok"));
    assert_eq!(status(&WriteResult::Failed("x".into())), Value::from("err"));
    let summary = UndoSummary { restored_refs: 1, noop: false };
    assert_eq!(status(&WriteResult::Undo(Ok(summary))), Value::from("ok"));
    assert_eq!(status(&WriteResult::Undo(Err(UndoErrorKind::NotFound))), Value::from("err"));
    let line = engine.append_audit_log("Commit", 4, &WriteResult::Done("x".into()), 9);
    assert!(line.contains("\"status\":\"ok\""));
}

#[test]
fn snapshots_merge_loose_and_packed_references() {
    let a = sha('a');
    let b = sha('b');
    let reads = SnapshotReads {
        head: "ref: refs/heads/main\n".into(),
        heads: vec![
            loose("main", &format!("{a}\n")),
            loose("feature\\deep", &format!(" {b} ")),
            loose("short", "abc\n"),
        ],
        refs: vec![loose("heads/main", &format!("{a}\n"))],
        packed_refs: Some(format!(
            "# pack-refs with: peeled\n{b} refs/heads/main\n{b} refs/heads/packed \n{a} refs/heads/packed\n\
             {a} refs/tags/v1\n^{b}\nnospace\n{a} refs/stash\n{b} refs/stash\n"
        )),
        index_tree: Some(format!("{b}\n")),
    };
    let s = engine().read_snapshot(&reads).unwrap();
    assert_eq!(s.head, "ref: refs/heads/main");
    assert_eq!(s.refs.len(), 3);
    assert_eq!(s.refs.get("refs/heads/main"), Some(a.as_str()));
    assert_eq!(s.refs.get("refs/heads/feature/deep"), Some(b.as_str()));
    assert_eq!(s.refs.get("refs/heads/packed"), Some(b.as_str()));
    assert_eq!(s.refs.get("refs/heads/short"), None);
    assert_eq!(s.stash_ref.as_deref(), Some(b.as_str()));
    assert_eq!(s.index_tree.as_deref(), Some(b.as_str()));

    let plain = SnapshotReads {
        head: a.clone(),
        heads: Vec::new(),
        refs: vec![loose("stash", &a)],
        packed_refs: None,
        index_tree: None,
    };
    let s = engine().read_snapshot(&plain).unwrap();
    assert_eq!(s.stash_ref.as_deref(), Some(a.as_str()));
    assert_eq!((s.refs.len(), s.index_tree), (0, None));
}

#[test]
fn tables_hold_each_name_once() {
    let t = table(&[("a", "1"), ("b", "2"), ("a", "3")]);
    assert_eq!(t.len(), 2);
    assert_eq!((t.name(0), t.target(0)), ("a", "3"));
    assert!(t.contains("b") && !t.contains("c"));
    assert!(t.same_as(&table(&[("b", "2"), ("a", "3")])));
    assert!(!t.same_as(&table(&[("b", "2")])));
    assert!(!table(&[("b", "2")]).same_as(&t));
    assert!(!t.same_as(&table(&[("b", "2"), ("a", "1")])));
    assert!(t.copy().same_as(&t));
    assert_eq!(read_loose_refs("p", &vec![loose("x", "short")]).len(), 0);
}

#[test]
fn a_blank_head_is_no_snapshot() {
    for head in ["", " \n", "\t"] {
        let reads = SnapshotReads {
            head: head.into(),
            heads: Vec::new(),
            refs: Vec::new(),
            packed_refs: None,
            index_tree: None,
        };
        let e = engine().read_snapshot(&reads).unwrap_err();
        assert_eq!(e, SnapshotError::EmptyHead);
        assert_eq!(e.message(), "HEAD is empty; refusing to take a snapshot");
    }
}

#[test]
fn errors_of_undo_say_the_same_to_whoever_asked() {
    let errors = [
        (UndoError::NotFound, "transaction not found"),
        (UndoError::Blocked { reason: "why".into() }, "undo blocked: why"),
        (UndoError::Io("disk".into()), "disk"),
        (UndoError::Git("git".into()), "git"),
    ];
    for (e, said) in errors {
        assert_eq!(e.message(), said);
        assert_eq!(e.kind().message(), said);
    }
}

#[test]
fn a_committed_write_leads_the_list() {
    let mut engine = UndoEngine::new(&vec![1, 2], &Vec::new());
    let journal = vec![tx(1, true), tx(2, true)];
    let (id, _) = engine.begin("new", 7, Ok(state("h", &[]))).unwrap();
    assert_eq!(id, 3);
    let steps = engine.commit_at(id, "new", 7, false, state("h", &[]), 9);
    let added = match &steps[1] {
        UndoStep::AppendJournal(t) => t.clone(),
        other => panic!("expected an entry, got {other:?}"),
    };
    let mut lines: Vec<Option<Transaction>> = journal.into_iter().map(Some).collect();
    lines.push(Some(added));
    let listed = engine.list_transactions(&read_journal(lines), 2);
    assert_eq!(listed.iter().map(|e| e.id).collect::<Vec<_>>(), vec![3, 2]);
    assert_eq!(listed[0].description, "new");
    assert_eq!(listed[0].epoch_at_creation, 7);
}
