//! Names, commands, the write queue, sessions.
use git_workbench::git::GitOutput;
use git_workbench::names::{
    validate_full_ref_name, validate_lookup, validate_path_arg, validate_pushspec, validate_ref_arg,
    validate_sha, NameError, NameFault,
};
use git_workbench::protocol::StatusCode;
use git_workbench::queue::{settle, write_next, QueueStep, WriteNext};
use git_workbench::session::{
    classify, git_dir_inside_worktree, has_room, next_of_batch, start_fs_watcher, BatchInput,
    BatchNext, EngineEvent, FsEvent, FsPath, GitDirEntries, QueueError, Session, Watch,
    EVENT_DEBOUNCE_MILLIS, MAX_EVENTS_PER_BATCH,
};
use git_workbench::snapshot::Snapshot;
use git_workbench::status::{
    read_status, EntryStatus, IndexWorktreeItem, StatusEntry, TreeIndexChange,
};
use git_workbench::undo::{
    journal_content, Transaction, UndoEngine, UndoError, UndoErrorKind, UndoOutcome, UndoStep,
    UndoSummary,
};
use git_workbench::write_queue::{
    begin_failed, begin_switch, command_args, command_result, execute_command, go_on_command,
    go_on_switch, run_undo, run_write, CommandError, RunAction, RunPhase, WriteCommand, WriteResult,
};

fn list(items: &[&str]) -> Vec<String> {
    items.iter().map(|s| s.to_string()).collect()
}

fn fault(r: Result<(), NameError>) -> Option<NameFault> {
    r.err().map(|e| e.fault)
}

fn path(text: &str) -> FsPath {
    let mut components = Vec::new();
    for c in std::path::Path::new(text).components() {
        components.push(c.as_os_str().as_encoded_bytes().to_vec());
    }
    FsPath { components }
}

fn session(epoch: u64) -> Session {
    Session::open(path("/r"), path("/r/.git"), epoch)
}

fn done(stdout: &str) -> Result<GitOutput, String> {
    Ok(GitOutput { success: true, stdout: stdout.as_bytes().to_vec(), stderr: Vec::new() })
}

fn failed(stderr: &str) -> Result<GitOutput, String> {
    Ok(GitOutput { success: false, stdout: Vec::new(), stderr: stderr.as_bytes().to_vec() })
}

/// Carries out a command with the given outputs of `git`, and notes the runs.
fn carry_out(
    cmd: &WriteCommand,
    outputs: Vec<Result<GitOutput, String>>,
) -> (Vec<Vec<String>>, Result<String, String>) {
    let mut runs = Vec::new();
    let mut outputs = outputs.into_iter();
    let mut action = match execute_command(cmd) {
        Ok(action) => action,
        Err(e) => return (runs, Err(e.message())),
    };
    loop {
        match action {
            RunAction::Finish(r) => {
                assert!(outputs.next().is_none());
                return (runs, r);
            }
            RunAction::Run(args, phase) => {
                runs.push(args.clone());
                action = go_on_command(cmd, &args, phase, outputs.next().unwrap());
            }
        }
    }
}

fn switch(auto_stash: bool) -> WriteCommand {
    WriteCommand::SwitchBranch { name: "feature".into(), auto_stash }
}

#[test]
fn paths_that_look_like_options_are_refused() {
    assert!(validate_path_arg("src/main.rs").is_ok());
    assert!(validate_path_arg("ü ber.txt").is_ok());
    let message = |p: &str| validate_path_arg(p).unwrap_err().message();
    assert_eq!(message(""), "path argument must not be empty");
    assert_eq!(message("--all"), "path argument may not begin with '-': \"--all\"");
    assert_eq!(message("a\0b"), "path argument contains control characters");
    assert_eq!(message("a\u{7f}"), "path argument contains control characters");
    assert_eq!(fault(validate_lookup("-x", "")), Some(NameFault::InvalidRevision));
    assert_eq!(fault(validate_lookup("x", "")), Some(NameFault::InvalidTreePath));
    assert_eq!(fault(validate_lookup("x", "y")), None);
}

#[test]
fn names_of_references_are_checked() {
    for good in ["main", "feature/x", "a-b_c", "v1.2", "ünï", "refs/heads/main", "a+b", "origin"] {
        assert_eq!(fault(validate_ref_arg(good)), None, "{good}");
    }
    assert_eq!(fault(validate_ref_arg("")), Some(NameFault::EmptyRef));
    for bad in ["-x", "/x", "x/", "a..b", "a//b", "a@b", "x.lock", "x."] {
        assert_eq!(fault(validate_ref_arg(bad)), Some(NameFault::InvalidRef), "{bad}");
    }
    assert_eq!(fault(validate_ref_arg(&"x".repeat(512))), None);
    assert_eq!(fault(validate_ref_arg(&"x".repeat(513))), Some(NameFault::InvalidRef));
    assert_eq!(fault(validate_ref_arg(&"ü".repeat(257))), Some(NameFault::InvalidRef));
    for c in [' ', '~', '^', ':', '?', '*', '[', '\\', '\n', '\u{7f}'] {
        assert_eq!(
            fault(validate_ref_arg(&format!("a{c}b"))),
            Some(NameFault::InvalidChar(c))
        );
    }
    assert_eq!(fault(validate_ref_arg("a?b*")), Some(NameFault::InvalidChar('?')));
    assert_eq!(fault(validate_ref_arg("a/.b")), Some(NameFault::InvalidComponent));
    assert_eq!(fault(validate_ref_arg("a./b")), Some(NameFault::InvalidComponent));
    let message = |p: &str| validate_ref_arg(p).unwrap_err().message();
    assert_eq!(message(""), "ref name must not be empty");
    assert_eq!(message("a..b"), "invalid ref name: \"a..b\"");
    assert_eq!(message("a\tb"), "invalid character '\\t' in ref name \"a\\tb\"");
    assert_eq!(message("a/.b"), "invalid ref component in \"a/.b\"");
}

#[test]
fn full_names_object_ids_and_refspecs_are_checked() {
    assert_eq!(fault(validate_full_ref_name("refs/heads/main")), None);
    assert_eq!(fault(validate_full_ref_name("main")), Some(NameFault::NotFullRef));
    assert_eq!(fault(validate_full_ref_name("refs/")), Some(NameFault::InvalidRef));
    assert_eq!(fault(validate_full_ref_name("refs/heads/a b")), Some(NameFault::InvalidChar(' ')));
    assert_eq!(
        validate_full_ref_name("x").unwrap_err().message(),
        "ref name must start with 'refs/': \"x\""
    );
    for bad in ["refs/a..b", "refs/x.lock", "refs/.x", "refs//x", "refs/a@"] {
        assert!(validate_full_ref_name(bad).is_err() && validate_ref_arg(bad).is_err(), "{bad}");
    }
    assert_eq!(fault(validate_sha(&"aB3".repeat(20)[..40].to_string())), None);
    assert_eq!(fault(validate_sha(&"0".repeat(64))), None);
    for bad in ["", "abc", &"0".repeat(41), &"g".repeat(40)] {
        assert_eq!(fault(validate_sha(bad)), Some(NameFault::InvalidObjectId), "{bad}");
    }
    assert_eq!(validate_sha("xyz").unwrap_err().message(), "invalid object id: \"xyz\"");
    for good in ["main", "src:dst", "refs/heads/a:refs/heads/b", ":gone", "HEAD~1:x"] {
        assert_eq!(fault(validate_pushspec(good)), None, "{good}");
    }
    for bad in ["", "-f", "+main", "a b", "a\u{a0}b", "a\tb"] {
        assert_eq!(fault(validate_pushspec(bad)), Some(NameFault::InvalidRefspec), "{bad}");
    }
    assert_eq!(validate_pushspec("+x").unwrap_err().message(), "invalid push refspec: \"+x\"");
}

/// Carries out a write whose run of `git` succeeds: gives its transaction, the
/// entry of the journal and the line of the audit log.
fn write_through(
    engine: &mut UndoEngine,
    cmd: &WriteCommand,
    epoch: u64,
) -> (u64, Transaction, String) {
    let state = || Ok(Snapshot { head: "ref: refs/heads/main".into(), ..Snapshot::default() });
    let (mut begun, mut executed, mut committed) = (None, None, None);
    let mut entry = None;
    loop {
        match write_next(cmd, &begun, &executed, &committed) {
            WriteNext::Begin { description } => {
                begun = Some(engine.begin(&description, epoch, state()).map(|(id, _)| id));
            }
            WriteNext::Execute => executed = Some(Ok(String::new())),
            WriteNext::Commit { tx_id, description, success } => {
                for step in engine.commit(tx_id, &description, epoch, success, state()).unwrap() {
                    if let UndoStep::AppendJournal(t) = step {
                        entry = Some(t);
                    }
                }
                committed = Some(Ok(()));
            }
            WriteNext::Finish(result, tx_id) => {
                let mut line = String::new();
                for step in settle(cmd, epoch, &result, tx_id) {
                    if let QueueStep::Audit { operation, epoch, transaction_id } = step {
                        line +=
                            &engine.append_audit_log(&operation, epoch, &result, transaction_id);
                    }
                }
                return (tx_id, entry.unwrap(), line);
            }
        }
    }
}

#[test]
fn journal_and_audit_redact_message_and_paths() {
    let stage = WriteCommand::Stage(list(&["secret.txt"]));
    assert_eq!(stage.op_summary(), "Stage(1 paths)");
    let commit = WriteCommand::Commit { message: "SECRET MESSAGE".into(), amend: false };
    assert!(commit.op_summary().contains("Commit"));

    // What both writes leave in the journal and the audit log.
    let mut engine = UndoEngine::new(&Vec::new(), &Vec::new());
    let mut transactions = Vec::new();
    let mut audit = String::new();
    for cmd in [&stage, &commit] {
        let (id, entry, line) = write_through(&mut engine, cmd, 1);
        assert_eq!(entry.id, id);
        transactions.push(entry);
        audit += &line;
    }
    let journal = journal_content(&transactions);
    assert!(journal.contains("Stage(1 paths)"));
    assert!(journal.contains("Commit"));
    assert!(!journal.contains("secret.txt"));
    assert!(!journal.contains("SECRET MESSAGE"));
    assert_eq!(audit.lines().count(), 2);
    assert!(!audit.contains("secret.txt"));
    assert!(!audit.contains("SECRET MESSAGE"));
    let x = || "secret".to_string();
    let all = [
        (WriteCommand::Unstage(list(&["secret", "b"])), "Unstage(2 paths)"),
        (WriteCommand::Commit { message: x(), amend: true }, "Commit(amend)"),
        (WriteCommand::CreateBranch { name: x(), base: Some(x()) }, "CreateBranch"),
        (WriteCommand::DeleteBranch { name: x(), force: true }, "DeleteBranch(force)"),
        (WriteCommand::DeleteBranch { name: x(), force: false }, "DeleteBranch"),
        (WriteCommand::SwitchBranch { name: x(), auto_stash: true }, "SwitchBranch(auto-stash)"),
        (WriteCommand::SwitchBranch { name: x(), auto_stash: false }, "SwitchBranch"),
        (WriteCommand::Fetch { remote: Some(x()) }, "Fetch"),
        (WriteCommand::Pull { remote: Some(x()), branch: Some(x()) }, "Pull"),
        (WriteCommand::Push { remote: x(), branch: x(), force: true }, "Push(force)"),
        (WriteCommand::Push { remote: x(), branch: x(), force: false }, "Push"),
        (WriteCommand::Undo { transaction_id: 7 }, "Undo"),
    ];
    for (cmd, summary) in all {
        assert_eq!(cmd.op_summary(), summary);
    }
}

#[test]
fn commands_become_arguments() {
    let x = |s: &str| s.to_string();
    let all = [
        (WriteCommand::Stage(list(&["a", "b"])), vec!["add", "--", "a", "b"]),
        (WriteCommand::Unstage(list(&["a"])), vec!["reset", "HEAD", "--", "a"]),
        (WriteCommand::Commit { message: x("-m"), amend: false }, vec!["commit", "-m", "-m"]),
        (WriteCommand::Commit { message: x("m"), amend: true }, vec!["commit", "--amend", "--no-edit"]),
        (WriteCommand::CreateBranch { name: x("n"), base: None }, vec!["branch", "n"]),
        (WriteCommand::CreateBranch { name: x("n"), base: Some(x("b")) }, vec!["branch", "n", "b"]),
        (WriteCommand::DeleteBranch { name: x("n"), force: true }, vec!["branch", "-D", "n"]),
        (WriteCommand::DeleteBranch { name: x("n"), force: false }, vec!["branch", "-d", "n"]),
        (WriteCommand::Fetch { remote: None }, vec!["fetch"]),
        (WriteCommand::Fetch { remote: Some(x("o")) }, vec!["fetch", "o"]),
        (WriteCommand::Pull { remote: None, branch: Some(x("-bad")) }, vec!["pull"]),
        (WriteCommand::Pull { remote: Some(x("o")), branch: None }, vec!["pull", "o"]),
        (WriteCommand::Pull { remote: Some(x("o")), branch: Some(x("b")) }, vec!["pull", "o", "b"]),
        (WriteCommand::Push { remote: x("o"), branch: x("a:b"), force: false }, vec!["push", "o", "a:b"]),
        (
            WriteCommand::Push { remote: x("o"), branch: x("b"), force: true },
            vec!["push", "--force-with-lease", "o", "b"],
        ),
    ];
    for (cmd, args) in all {
        assert_eq!(command_args(&cmd).unwrap(), args);
    }
}

#[test]
fn commands_with_bad_names_are_not_run() {
    let x = |s: &str| s.to_string();
    let refused = |cmd: WriteCommand| match command_args(&cmd) {
        Err(e) => e.message(),
        Ok(args) => panic!("{args:?}"),
    };
    assert_eq!(
        refused(WriteCommand::Stage(list(&["ok", "-A", ""]))),
        "path argument may not begin with '-': \"-A\""
    );
    assert_eq!(
        refused(WriteCommand::Unstage(list(&[""]))),
        "path argument must not be empty"
    );
    for amend in [false, true] {
        assert_eq!(
            refused(WriteCommand::Commit { message: x("a\0"), amend }),
            "commit message contains NUL"
        );
    }
    assert_eq!(
        refused(WriteCommand::CreateBranch { name: x("a..b"), base: Some(x("-c")) }),
        "invalid ref name: \"a..b\""
    );
    assert_eq!(
        refused(WriteCommand::CreateBranch { name: x("a"), base: Some(x("-c")) }),
        "invalid ref name: \"-c\""
    );
    assert_eq!(
        refused(WriteCommand::DeleteBranch { name: x(""), force: false }),
        "ref name must not be empty"
    );
    assert_eq!(refused(WriteCommand::Fetch { remote: Some(x("-o")) }), "invalid ref name: \"-o\"");
    assert_eq!(
        refused(WriteCommand::Pull { remote: Some(x("o")), branch: Some(x("b ")) }),
        "invalid character ' ' in ref name \"b \""
    );
    assert_eq!(
        refused(WriteCommand::Push { remote: x("o"), branch: x("+b"), force: false }),
        "invalid push refspec: \"+b\""
    );
    assert!(matches!(
        execute_command(&WriteCommand::Commit { message: x("\0"), amend: false }),
        Err(CommandError::NulInMessage)
    ));
}

#[test]
fn single_runs_report_what_git_printed() {
    let cmd = WriteCommand::Fetch { remote: None };
    let out = GitOutput { success: true, stdout: b" a\n".to_vec(), stderr: b"b \n".to_vec() };
    assert_eq!(command_result(&out).unwrap(), "a\nb");
    let (runs, r) = carry_out(&cmd, vec![Ok(out)]);
    assert_eq!(runs, vec![list(&["fetch"])]);
    assert_eq!(r.unwrap(), "a\nb");
    let (_, r) = carry_out(&cmd, vec![failed("no\n")]);
    assert_eq!(r.unwrap_err(), "git command failed: no\n");
    let (_, r) = carry_out(&cmd, vec![Err("cannot run".into())]);
    assert_eq!(r.unwrap_err(), "cannot run");
}

#[test]
fn switch_branch_auto_stash_carries_changes() {
    let (runs, output) = carry_out(
        &switch(true),
        vec![done(" M a.txt\n?? untracked.txt\n"), done("Saved"), done("Switched"), done("Dropped")],
    );
    let output = output.unwrap();
    assert!(!output.is_empty());
    assert_eq!(output, "stashed local changes; Switched\nDropped");
    assert_eq!(
        runs,
        vec![
            list(&["status", "--porcelain"]),
            list(&["stash", "push", "--include-untracked"]),
            list(&["switch", "feature"]),
            list(&["stash", "pop"]),
        ]
    );
}

#[test]
fn switching_handles_every_failure() {
    // Nothing to stash, or no stash wanted.
    let (runs, r) = carry_out(&switch(true), vec![done(""), done("Switched")]);
    assert_eq!((runs.len(), r.unwrap().as_str()), (2, "Switched"));
    let (runs, r) = carry_out(&switch(false), vec![done("Switched")]);
    assert_eq!((runs.len(), r.unwrap().as_str()), (1, "Switched"));
    // The status cannot be read.
    let (_, r) = carry_out(&switch(true), vec![failed("s\n")]);
    assert_eq!(r.unwrap_err(), "git [\"status\", \"--porcelain\"] failed: s");
    // The stash fails: no switch.
    let (runs, r) = carry_out(&switch(true), vec![done("M"), failed("x")]);
    assert_eq!(runs.len(), 2);
    assert_eq!(
        r.unwrap_err(),
        "auto-stash failed; switch aborted: git [\"stash\", \"push\", \"--include-untracked\"] failed: x"
    );
    // The switch fails: the changes come back.
    let (runs, r) = carry_out(&switch(true), vec![done("M"), done(""), failed("no"), failed("pop")]);
    assert_eq!(runs.last().unwrap(), &list(&["stash", "pop"]));
    assert_eq!(r.unwrap_err(), "git [\"switch\", \"feature\"] failed: no");
    let (_, r) = carry_out(&switch(false), vec![failed("no")]);
    assert_eq!(r.unwrap_err(), "git [\"switch\", \"feature\"] failed: no");
    // The changes do not come back after the switch.
    let (_, r) = carry_out(&switch(true), vec![done("M"), done(""), done("ok"), failed("clash")]);
    assert_eq!(
        r.unwrap_err(),
        "switch to branch \"feature\" succeeded, but restoring the stashed changes failed: \
         git [\"stash\", \"pop\"] failed: clash\n\
         The changes are retained in the stash; run `git stash pop` manually."
    );
    // Silent runs.
    let (_, r) = carry_out(&switch(true), vec![done("M"), done(""), done(""), done("")]);
    assert_eq!(r.unwrap(), "stashed local changes;");
    let bad = WriteCommand::SwitchBranch { name: "-x".into(), auto_stash: true };
    assert_eq!(carry_out(&bad, vec![]).1.unwrap_err(), "invalid ref name: \"-x\"");
    assert!(begin_switch("a..b", false).is_err());
    assert!(matches!(
        go_on_switch("x", RunPhase::PopBack { error: "e".into() }, Ok("".into())),
        RunAction::Finish(Err(e)) if e == "e"
    ));
}

#[test]
fn results_of_writes() {
    let (r, id) = begin_failed("why");
    assert!(matches!(r, WriteResult::Failed(m) if m == "undo snapshot failed: why"));
    assert_eq!(id, 0);
    let (r, id) = run_write(3, Ok("out".into()), Ok(()));
    assert!(matches!(&r, WriteResult::Done(o) if o == "out") && r.is_success());
    assert_eq!(id, 3);
    let (r, _) = run_write(3, Ok("out".into()), Err("full".into()));
    assert!(!r.is_success());
    assert!(matches!(r, WriteResult::Failed(m)
        if m == "git operation succeeded but is NOT undoable (journal write failed): full"));
    let (r, _) = run_write(3, Err("bad".into()), Err("full".into()));
    assert!(matches!(r, WriteResult::Failed(m) if m == "bad"));
    let (r, id) = run_undo(4, Ok(UndoOutcome::Restored { restored_refs: 2 }));
    assert!(matches!(r, WriteResult::Undo(Ok(UndoSummary { restored_refs: 2, noop: false }))));
    assert_eq!(id, 4);
    let (r, _) = run_undo(4, Ok(UndoOutcome::Noop));
    assert!(matches!(r, WriteResult::Undo(Ok(UndoSummary { restored_refs: 0, noop: true }))));
    let (r, _) = run_undo(4, Err(UndoError::NotFound));
    assert!(!r.is_success());
    assert!(matches!(r, WriteResult::Undo(Err(UndoErrorKind::NotFound))));
}

#[test]
fn session_open_bumps_epoch() {
    let mut session = session(1);
    assert_eq!(session.current_epoch(), 1);
    let e = session.bump_epoch();
    assert_eq!(e, 2);
    assert_eq!(session.current_epoch(), 2);
}

#[test]
fn write_queue_stage_and_epoch_bump() {
    let mut session = session(1);
    let stage = WriteCommand::Stage(list(&["new.txt"]));
    let undo = WriteCommand::Undo { transaction_id: 1 };
    assert!(session.after_write(&stage, &WriteResult::Done("".into())).is_none());
    assert!(session.current_epoch() >= 2);

    // The file now appears as staged, and a change of the worktree as unstaged.
    let entries = vec![
        StatusEntry::TreeIndex(TreeIndexChange::Addition { location: "new.txt".into() }),
        StatusEntry::IndexWorktree(IndexWorktreeItem::Modification {
            rela_path: "a.txt".into(),
            status: EntryStatus::Changed,
        }),
    ];
    let items = read_status(&entries, None, 2, 2).unwrap();
    let staged =
        items.iter().any(|i| i.path == "new.txt" && i.status == StatusCode::Added && i.staged);
    assert!(staged, "expected staged new.txt, got {:?}", items);
    let unstaged = items.iter().any(|i| i.path == "a.txt" && !i.staged);
    assert!(unstaged, "expected unstaged a.txt, got {:?}", items);

    // There is one transaction and an entry of the audit log.
    let mut engine = UndoEngine::new(&Vec::new(), &Vec::new());
    let (_, entry, audit) = write_through(&mut engine, &stage, 1);
    let entries = engine.list_transactions(&vec![entry], 10);
    assert_eq!(entries.len(), 1);
    assert!(audit.contains("\"status\":\"ok\""));

    assert!(session.after_write(&stage, &WriteResult::Failed("".into())).is_none());
    assert_eq!(session.current_epoch(), 2);
    let summary = UndoSummary { restored_refs: 0, noop: true };
    let event = session.after_write(&undo, &WriteResult::Undo(Ok(summary)));
    assert!(matches!(event, Some(EngineEvent::GraphInvalidated { epoch: 3 })));
    assert!(session
        .after_write(&undo, &WriteResult::Undo(Err(UndoErrorKind::NotFound)))
        .is_none());
    assert_eq!(session.current_epoch(), 3);
}

#[test]
fn replies_of_the_queue() {
    let s = session(1);
    assert_eq!(s.enqueue_write(Ok(WriteResult::Done("o".into()))).unwrap(), "o");
    assert_eq!(s.enqueue_write(Ok(WriteResult::Failed("f".into()))).unwrap_err(), "f");
    let summary = UndoSummary { restored_refs: 1, noop: false };
    assert_eq!(s.enqueue_write(Ok(WriteResult::Undo(Ok(summary)))).unwrap(), "");
    let blocked = UndoErrorKind::Blocked { reason: "r".into() };
    assert_eq!(
        s.enqueue_write(Ok(WriteResult::Undo(Err(blocked)))).unwrap_err(),
        "undo blocked: r"
    );
    assert_eq!(s.enqueue_write(Err(QueueError::Closed)).unwrap_err(), "write queue closed");
    assert_eq!(s.enqueue_write(Err(QueueError::Dropped)).unwrap_err(), "write result dropped");
    assert_eq!(s.enqueue_undo(Ok(WriteResult::Undo(Ok(summary)))).unwrap().unwrap(), summary);
    assert_eq!(
        s.enqueue_undo(Ok(WriteResult::Done("".into()))).unwrap_err(),
        "internal error: undo command returned a write result"
    );
    assert_eq!(s.enqueue_undo(Ok(WriteResult::Failed("f".into()))).unwrap_err(), "f");
    assert_eq!(s.enqueue_undo(Err(QueueError::Closed)).unwrap_err(), "write queue closed");
}

#[test]
fn changes_to_files_are_classified() {
    let repo = path("/r");
    let git = path("/r/.git");
    let event = |names: &[&str]| FsEvent {
        access: false,
        paths: names.iter().map(|n| path(n)).collect(),
    };
    let c = classify(&vec![event(&["/r/.git/HEAD"])], &repo, &git);
    assert!(c.head_changed && c.graph_invalidated && !c.index_changed);
    let c = classify(&vec![event(&["/r/.git/index"])], &repo, &git);
    assert!(c.index_changed && !c.graph_invalidated);
    let c = classify(
        &vec![event(&["/r/.git/refs/heads/main"]), event(&["/r/.git/packed-refs"])],
        &repo,
        &git,
    );
    assert!(c.graph_invalidated);
    assert_eq!(c.changed_refs, list(&["refs/heads/main", "packed-refs"]));
    let c = classify(&vec![event(&["/r/.git/sequencer/todo"])], &repo, &git);
    assert!(c.graph_invalidated && c.changed_refs.is_empty());
    let c = classify(&vec![event(&["/r/src/a.rs", "/r/b"])], &repo, &git);
    assert_eq!(c.worktree_paths, list(&["src/a.rs", "b"]));
    assert!(!c.graph_invalidated);
    // What does not matter.
    let noise = [
        "/r/.git/index.lock",
        "/r/.git/refs/heads/main.lock",
        "/r/.git/objects/aa/bb",
        "/r/.git",
        "/r/src/.a.swp",
        "/r/a~",
        "/r/#a#",
        "/elsewhere/x",
        "/rx/y",
        "/r/.git/refs",
    ];
    let c = classify(&vec![event(&noise)], &repo, &git);
    assert!(!c.head_changed && !c.index_changed && !c.graph_invalidated);
    assert!(c.changed_refs.is_empty() && c.worktree_paths.is_empty());
    // Accesses.
    let access = FsEvent { access: true, ..event(&["/r/.git/HEAD", "/r/x"]) };
    let c = classify(&vec![access], &repo, &git);
    assert!(!c.head_changed && c.worktree_paths.is_empty());
    // Names that are not valid text are shown with replacements.
    let odd = FsPath { components: vec![b"/".to_vec(), b"r".to_vec(), vec![0xff, 126]] };
    let c = classify(&vec![FsEvent { access: false, paths: vec![odd] }], &repo, &git);
    assert_eq!(c.worktree_paths, list(&["\u{fffd}~"]));
    assert!(git_dir_inside_worktree(&git, &repo));
    assert!(!git_dir_inside_worktree(&path("/main/.git/worktrees/w"), &repo));
    assert!(!git_dir_inside_worktree(&path("/rx/.git"), &repo));
}

#[test]
fn a_batch_is_announced_at_one_epoch() {
    let mut session = session(7);
    let event = |names: &[&str]| {
        vec![FsEvent { access: false, paths: names.iter().map(|n| path(n)).collect() }]
    };
    let all =
        event(&["/r/a", "/r/.git/index", "/r/.git/refs/heads/x", "/r/.git/HEAD", "/r/.git/refs/y"]);
    let changes = classify(&all, &session.repo_path, &session.git_dir);
    let events = session.process_event_batch(changes, "ref: refs/heads/x\n");
    assert_eq!(session.current_epoch(), 8);
    assert_eq!(events.len(), 5);
    assert!(matches!(&events[0], EngineEvent::HeadChanged { new_head, epoch: 8 }
        if new_head == "ref: refs/heads/x"));
    assert!(matches!(&events[1], EngineEvent::RefsChanged { changed_refs, epoch: 8 }
        if *changed_refs == list(&["refs/heads/x", "refs/y"])));
    assert!(matches!(events[2], EngineEvent::IndexChanged { epoch: 8 }));
    assert!(matches!(events[3], EngineEvent::GraphInvalidated { epoch: 8 }));
    assert!(matches!(&events[4], EngineEvent::WorktreeChanged { paths } if *paths == list(&["a"])));
    // Changes to the worktree alone need no new epoch.
    let changes = classify(&event(&["/r/a"]), &session.repo_path, &session.git_dir);
    let events = session.process_event_batch(changes, "");
    assert_eq!((session.current_epoch(), events.len()), (8, 1));
    // Nothing is not announced.
    let changes = classify(&event(&["/r/.git/config"]), &session.repo_path, &session.git_dir);
    assert!(session.process_event_batch(changes, "").is_empty());
    assert_eq!(session.current_epoch(), 8);
}

#[test]
fn batches_are_bounded() {
    assert_eq!((MAX_EVENTS_PER_BATCH, EVENT_DEBOUNCE_MILLIS), (4096, 50));
    assert!(has_room(4095) && !has_room(4096));
    assert_eq!(next_of_batch(1, BatchInput::Event), BatchNext::Collect);
    assert_eq!(next_of_batch(4096, BatchInput::Event), BatchNext::Complete);
    assert_eq!(next_of_batch(1, BatchInput::Broken), BatchNext::Collect);
    assert_eq!(next_of_batch(1, BatchInput::Quiet), BatchNext::Complete);
    assert_eq!(next_of_batch(1, BatchInput::Closed), BatchNext::Drain);
}

#[test]
fn what_is_there_is_watched() {
    let all = GitDirEntries { head: true, index: true, packed_refs: true, refs: true };
    let watches = start_fs_watcher(all);
    assert_eq!(watches.len(), 5);
    assert!(matches!(watches[0], Watch::Worktree));
    assert!(matches!(&watches[1], Watch::File(n) if n == "HEAD"));
    assert!(matches!(&watches[2], Watch::File(n) if n == "index"));
    assert!(matches!(&watches[3], Watch::File(n) if n == "packed-refs"));
    assert!(matches!(&watches[4], Watch::Directory(n) if n == "refs"));
    let few = GitDirEntries { head: false, index: false, packed_refs: false, refs: false };
    assert_eq!(start_fs_watcher(few).len(), 1);
}

#[test]
fn a_write_is_begun_run_and_committed() {
    let cmd = WriteCommand::Commit { message: "secret".into(), amend: false };
    let next = |begun: &Option<Result<u64, String>>,
                executed: &Option<Result<String, String>>,
                committed: &Option<Result<(), String>>| {
        write_next(&cmd, begun, executed, committed)
    };
    assert!(matches!(
        next(&None, &None, &None),
        WriteNext::Begin { description } if description == "Commit"
    ));
    assert!(matches!(
        next(&Some(Err("why".into())), &None, &None),
        WriteNext::Finish(WriteResult::Failed(m), 0) if m == "undo snapshot failed: why"
    ));
    let begun = Some(Ok(4));
    assert!(matches!(next(&begun, &None, &None), WriteNext::Execute));
    for worked in [true, false] {
        let executed = Some(if worked { Ok("out".into()) } else { Err("bad".into()) });
        assert!(matches!(
            next(&begun, &executed, &None),
            WriteNext::Commit { tx_id: 4, description, success }
                if description == "Commit" && success == worked
        ));
    }
    let executed = Some(Ok("out".into()));
    assert!(matches!(
        next(&begun, &executed, &Some(Ok(()))),
        WriteNext::Finish(WriteResult::Done(o), 4) if o == "out"
    ));
    assert!(matches!(
        next(&begun, &executed, &Some(Err("full".into()))),
        WriteNext::Finish(WriteResult::Failed(m), 4) if m.contains("NOT undoable")
    ));
    assert!(matches!(
        next(&begun, &Some(Err("bad".into())), &Some(Err("full".into()))),
        WriteNext::Finish(WriteResult::Failed(m), 4) if m == "bad"
    ));
}

#[test]
fn a_write_is_noted_before_the_epoch_moves_and_answered_last() {
    let stage = WriteCommand::Stage(vec!["a".into()]);
    let steps = settle(&stage, 6, &WriteResult::Done("".into()), 2);
    assert_eq!(steps.len(), 3);
    assert!(matches!(
        &steps[0],
        QueueStep::Audit { operation, epoch: 6, transaction_id: 2 } if operation == "Stage(1 paths)"
    ));
    assert!(matches!(steps[1], QueueStep::Bump));
    assert!(matches!(steps[2], QueueStep::Reply));
    let steps = settle(&stage, 6, &WriteResult::Failed("e".into()), 0);
    assert_eq!(steps.len(), 2);
    assert!(matches!(steps[1], QueueStep::Reply));
}
