//! Status, references, blobs, `HEAD`, and runs of `git`.
use git_workbench::adapt::{gix_error, AdaptError};
use git_workbench::args::{parent_pid, PARENT_POLL_SECS};
use git_workbench::git::{
    git_dir_args, head_args, heads_args, repo_fingerprint, resolve_git_dir, run_git,
    run_git_capture, run_git_checked, GitOutput,
};
use git_workbench::protocol::{RefKind, StatusCode, WorkbenchError};
use git_workbench::status::{
    lookup_error, map_index_worktree_item, map_tree_index_change, path_matches, read_blob,
    read_head, read_refs, read_status, DirStatus, EntryStatus, IndexWorktreeItem, LookupFault,
    RawRef, RewriteSource, StatusEntry, TreeIndexChange,
};

fn untracked(path: &str) -> StatusEntry {
    StatusEntry::IndexWorktree(IndexWorktreeItem::DirectoryContents {
        rela_path: path.into(),
        status: DirStatus::Untracked,
    })
}

fn changed(path: &str, status: EntryStatus) -> StatusEntry {
    StatusEntry::IndexWorktree(IndexWorktreeItem::Modification { rela_path: path.into(), status })
}

fn list(items: &[&str]) -> Vec<String> {
    items.iter().map(|s| s.to_string()).collect()
}

fn output(success: bool, stdout: &str, stderr: &str) -> GitOutput {
    GitOutput { success, stdout: stdout.as_bytes().to_vec(), stderr: stderr.as_bytes().to_vec() }
}

#[test]
fn status_reads_untracked_and_staged() {
    let entries = vec![
        untracked("d.txt"),
        changed("a.txt", EntryStatus::Changed),
        StatusEntry::TreeIndex(TreeIndexChange::Addition { location: "new.txt".into() }),
    ];
    let items = read_status(&entries, None, 1, 1).unwrap();
    assert!(items.iter().any(|i| i.path == "d.txt" && i.status == StatusCode::Untracked));
    assert!(items.iter().any(|i| i.path == "a.txt" && i.status == StatusCode::Modified && !i.staged));
    assert!(items.iter().any(|i| i.path == "new.txt" && i.status == StatusCode::Added && i.staged));

    // Path filter.
    let filtered = read_status(&entries, Some(&list(&["d.txt"])), 1, 1).unwrap();
    assert!(filtered.iter().all(|i| i.path.starts_with("d.txt")));
    assert!(!filtered.is_empty());
}

#[test]
fn status_path_filter_is_component_aware() {
    let entries = vec![untracked("dir/x.txt"), untracked("dirx.txt"), untracked("dir")];
    let items = read_status(&entries, Some(&list(&["dir"])), 1, 1).unwrap();
    assert!(!items.is_empty());
    assert!(items.iter().all(|i| i.path == "dir" || i.path.starts_with("dir/")));

    let items = read_status(&entries, Some(&list(&["dirx.txt"])), 1, 1).unwrap();
    assert!(!items.is_empty());
    assert!(items.iter().all(|i| i.path == "dirx.txt"));

    let items = read_status(&entries, Some(&list(&["dirx"])), 1, 1).unwrap();
    assert!(items.is_empty());

    assert!(path_matches("a/b", "a/"));
    assert!(path_matches("a", "a//"));
    assert!(!path_matches("ab", "a"));
    assert!(path_matches("/x", ""));
    assert!(!path_matches("x", ""));
    // A filter without any path lets nothing pass.
    assert!(read_status(&entries, Some(&Vec::new()), 1, 1).unwrap().is_empty());
}

#[test]
fn a_status_that_was_overtaken_is_refused() {
    let err = read_status(&Vec::new(), None, 3, 4).unwrap_err();
    assert_eq!(err.code, WorkbenchError::EPOCH_MISMATCH);
    assert_eq!(err.message, "epoch mismatch: expected 4, got 3");
}

#[test]
fn every_change_has_its_code() {
    let entries = vec![
        StatusEntry::TreeIndex(TreeIndexChange::Deletion { location: "a".into() }),
        StatusEntry::TreeIndex(TreeIndexChange::Modification { location: "b".into() }),
        StatusEntry::TreeIndex(TreeIndexChange::Rewrite {
            source_location: "c".into(),
            location: "d".into(),
            copy: false,
        }),
        changed("e", EntryStatus::Conflict),
        changed("f", EntryStatus::Removed),
        changed("g", EntryStatus::IntentToAdd),
        changed("h", EntryStatus::NeedsUpdate),
        StatusEntry::IndexWorktree(IndexWorktreeItem::DirectoryContents {
            rela_path: "i".into(),
            status: DirStatus::Ignored,
        }),
        StatusEntry::IndexWorktree(IndexWorktreeItem::DirectoryContents {
            rela_path: "j".into(),
            status: DirStatus::Other,
        }),
        StatusEntry::IndexWorktree(IndexWorktreeItem::Rewrite {
            source: RewriteSource::FromIndex("k".into()),
            rela_path: "l".into(),
            copy: true,
        }),
    ];
    let items = read_status(&entries, None, 0, 0).unwrap();
    let found: Vec<(&str, StatusCode, Option<&str>, bool)> = items
        .iter()
        .map(|i| (i.path.as_str(), i.status.clone(), i.old_path.as_deref(), i.staged))
        .collect();
    assert_eq!(
        found,
        vec![
            ("a", StatusCode::Deleted, None, true),
            ("b", StatusCode::Modified, None, true),
            ("d", StatusCode::Renamed, Some("c"), true),
            ("e", StatusCode::Conflict, None, false),
            ("f", StatusCode::Deleted, None, false),
            ("g", StatusCode::Added, None, false),
            ("i", StatusCode::Ignored, None, false),
            ("l", StatusCode::Copied, Some("k"), false),
        ]
    );
    let item = map_index_worktree_item(&IndexWorktreeItem::Rewrite {
        source: RewriteSource::FromDirectory("m".into()),
        rela_path: "n".into(),
        copy: false,
    })
    .unwrap();
    assert_eq!((item.status, item.old_path.as_deref()), (StatusCode::Renamed, Some("m")));
}

#[test]
fn names_that_are_no_text_are_shown_with_replacements() {
    let change = TreeIndexChange::Addition { location: vec![97, 255, 98] };
    assert_eq!(map_tree_index_change(&change).path, "a\u{fffd}b");
    let raw = RawRef { name: b"refs/heads/\xffx".to_vec(), target: None };
    assert_eq!(read_refs(&vec![raw])[0].name, "\u{fffd}x");
}

#[test]
fn refs_read_includes_branches() {
    let raw = |name: &str, target: Option<&str>| RawRef {
        name: name.into(),
        target: target.map(|t| t.to_string()),
    };
    let refs = read_refs(&vec![
        raw("refs/heads/main", Some("1")),
        raw("refs/heads/feature", Some("2")),
        raw("refs/tags/v1", Some("3")),
        raw("refs/remotes/origin/main", Some("4")),
        raw("refs/stash", Some("5")),
        raw("refs/remotes/origin/HEAD", None),
    ]);
    let names: Vec<&str> = refs.iter().map(|r| r.name.as_str()).collect();
    assert!(names.contains(&"main"));
    assert!(names.contains(&"feature"));
    let shown: Vec<(&str, RefKind, &str)> =
        refs.iter().map(|r| (r.name.as_str(), r.kind.clone(), r.target.as_str())).collect();
    assert_eq!(
        shown,
        vec![
            ("main", RefKind::Branch, "1"),
            ("feature", RefKind::Branch, "2"),
            ("v1", RefKind::Tag, "3"),
            ("origin/main", RefKind::RemoteBranch, "4"),
            ("refs/stash", RefKind::Branch, "5"),
            ("origin/HEAD", RefKind::RemoteBranch, ""),
        ]
    );
}

#[test]
fn blob_read_from_head_and_missing_path() {
    let content = read_blob("HEAD", "a.txt", Ok(Some(b"a\n".to_vec()))).unwrap();
    assert_eq!(content.trim(), "a");

    // Missing path resolves to empty content, not an error.
    let missing = read_blob("HEAD", "no/such/file.txt", Ok(None)).unwrap();
    assert_eq!(missing, "");

    // Option-like revisions are rejected.
    assert!(read_blob("--upload-pack=x", "a.txt", Ok(None)).is_err());

    assert_eq!(read_blob("HEAD", "a", Ok(Some(vec![0xff, 97]))).unwrap(), "\u{fffd}a");
    assert_eq!(read_blob("-x", "a", Ok(None)).unwrap_err(), "invalid revision: \"-x\"");
    assert_eq!(read_blob("", "a", Ok(None)).unwrap_err(), "invalid revision: \"\"");
    assert_eq!(read_blob("a\u{7f}", "a", Ok(None)).unwrap_err(), "invalid revision: \"a\\u{7f}\"");
    assert_eq!(read_blob("HEAD", "\t", Ok(None)).unwrap_err(), "invalid path: \"\\t\"");
    assert_eq!(read_blob("HEAD", "-p", Ok(None)).unwrap_err(), "invalid path: \"-p\"");
    assert_eq!(
        read_blob("v9", "a", Err((LookupFault::Revision, "why".into()))).unwrap_err(),
        "revision \"v9\" not found: why"
    );
    assert_eq!(
        lookup_error(LookupFault::Commit, "v9", "a", "why"),
        "\"v9\" is not a commit: why"
    );
    assert_eq!(lookup_error(LookupFault::File, "v9", "a", "why"), "\"a\" is not a file: why");
    assert_eq!(lookup_error(LookupFault::Other, "v9", "a", "why"), "why");
}

#[test]
fn head_read_reports_branch_and_commit() {
    let sha = "a".repeat(40);
    let head = read_head("ref: refs/heads/main\n", Some(sha.clone()));
    assert_eq!(head.branch.as_deref(), Some("main"));
    assert_eq!(head.head.len(), 40, "expected a full sha, got {:?}", head.head);

    // Detached HEAD: branch is None, sha still present.
    let detached = read_head(&format!("{sha}\n"), Some(sha.clone()));
    assert_eq!(detached.branch, None);
    assert_eq!(detached.head, sha);

    // A branch without commits.
    let unborn = read_head("ref: refs/heads/new/branch\n", None);
    assert_eq!(unborn.branch.as_deref(), Some("new/branch"));
    assert_eq!(unborn.head, "");
}

#[test]
fn runs_of_git_are_reported() {
    let args = list(&["update-ref", "--stdin", "a \"b\""]);
    let failed = output(false, "out", "bad\n");
    let shown = format!("git {:?} failed: bad\n", args);
    assert_eq!(run_git(&args, &failed).unwrap_err(), shown);
    assert_eq!(run_git_capture(&args, &failed).unwrap_err(), shown);
    assert_eq!(run_git_checked(&args, &failed).unwrap_err(), shown.trim());
    let done = output(true, " out\n", "note\n");
    assert!(run_git(&args, &done).is_ok());
    assert_eq!(run_git_capture(&args, &done).unwrap(), " out\n");
    assert_eq!(run_git_checked(&args, &done).unwrap(), "out\nnote");
    assert_eq!(
        run_git(&Vec::new(), &failed).unwrap_err(),
        format!("git {:?} failed: bad\n", Vec::<String>::new())
    );
}

#[test]
fn the_git_directory_is_the_one_that_git_reports() {
    assert_eq!(resolve_git_dir(&Some(output(true, "/r/.git\n", ""))).as_deref(), Some("/r/.git"));
    assert_eq!(resolve_git_dir(&Some(output(false, "/r/.git\n", ""))), None);
    assert_eq!(resolve_git_dir(&Some(output(true, " \n", ""))), None);
    assert_eq!(resolve_git_dir(&None), None);
    assert_eq!(git_dir_args(), list(&["rev-parse", "--absolute-git-dir"]));
}

#[test]
fn the_fingerprint_holds_head_and_branches() {
    let head = Some(output(true, "abc\n", ""));
    let heads = Some(output(true, "refs/heads/a 1\nrefs/heads/b 2\n", ""));
    assert_eq!(repo_fingerprint(&head, &heads), "abc\nrefs/heads/a 1\nrefs/heads/b 2");
    assert_eq!(repo_fingerprint(&Some(output(false, "x", "")), &None), "\n");
    assert_eq!(head_args(), list(&["rev-parse", "HEAD"]));
    assert_eq!(
        heads_args(),
        list(&["for-each-ref", "refs/heads", "--format=%(refname) %(objectname)"])
    );
}

#[test]
fn the_parent_is_named_by_an_argument() {
    assert_eq!(parent_pid(&list(&[])).unwrap(), None);
    assert_eq!(parent_pid(&list(&["-v", "--parent-pid", "17"])).unwrap(), Some(17));
    assert_eq!(
        parent_pid(&list(&["--parent-pid", "17", "x", "--parent-pid", "+18"])).unwrap(),
        Some(18)
    );
    let message = |items: &[&str]| parent_pid(&list(items)).unwrap_err().message();
    assert_eq!(message(&["--parent-pid"]), "--parent-pid requires a value");
    assert_eq!(
        message(&["--parent-pid", "x"]),
        "invalid --parent-pid \"x\": invalid digit found in string"
    );
    assert_eq!(
        message(&["--parent-pid", "4294967296"]),
        "invalid --parent-pid \"4294967296\": number too large to fit in target type"
    );
    assert_eq!(
        message(&["--parent-pid", ""]),
        "invalid --parent-pid \"\": cannot parse integer from empty string"
    );
    // The value is the next argument, whatever it is.
    assert_eq!(
        message(&["--parent-pid", "--parent-pid", "3"]),
        "invalid --parent-pid \"--parent-pid\": invalid digit found in string"
    );
    assert_eq!(PARENT_POLL_SECS, 2);
}

#[test]
fn errors_of_the_repository_library_are_named() {
    assert_eq!(gix_error("why"), "gix error: why");
    let e = match gix::open("/nonexistent/of/all/places") {
        Ok(_) => panic!("there is no such repository"),
        Err(e) => e,
    };
    let text = e.to_string();
    assert_eq!(AdaptError::from(e).message(), format!("gix error: {text}"));
}
