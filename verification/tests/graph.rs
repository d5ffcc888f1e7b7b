//! Pages of the commit graph, lanes and the cache.
use git_workbench::adapt::{decode_commit, RawCommit};
use git_workbench::cache::{
    retry_open, Cache, CacheOp, CachedCommit, CommitMetas, OPEN_ATTEMPTS, OPEN_PAUSE_MILLIS,
};
use git_workbench::graph::{
    check_epoch, check_viewport, cut_page, decode_commits, empty_page, lane_entries, missing,
    new_metas, page_fits, resolve, walk_limit, ReadError, PRELOAD_MARGIN,
};
use git_workbench::graph_read::{
    begin_read, decode_fetched, make_page, read_graph_page, GraphReads, TipsNext,
};
use git_workbench::lanes::assign_lanes;
use git_workbench::protocol::{Commit, GraphPage, GraphViewport, WorkbenchError};

fn viewport(offset: u64, limit: u32, anchor: Option<&str>, epoch: u64) -> GraphViewport {
    GraphViewport { offset, limit, anchor_commit: anchor.map(|a| a.to_string()), epoch }
}

fn meta(message: &str, parents: &[&str]) -> CachedCommit {
    CachedCommit {
        message: message.into(),
        author_name: "Test".into(),
        author_email: "test@example.com".into(),
        author_time: 1,
        parent_ids: parents.iter().map(|p| p.to_string()).collect(),
    }
}

fn ids(list: &[&str]) -> Vec<String> {
    list.iter().map(|s| s.to_string()).collect()
}

const C1: &str = "1111111111111111111111111111111111111111";
const C2: &str = "2222222222222222222222222222222222222222";
const C3: &str = "3333333333333333333333333333333333333333";
const C4: &str = "4444444444444444444444444444444444444444";

/// The bytes of a commit object.
fn object(message: &str, parents: &[&str]) -> Vec<u8> {
    let mut out = format!("tree {}\n", "0".repeat(40));
    for parent in parents {
        out += &format!("parent {parent}\n");
    }
    out += "author Test <test@example.com> 1 +0000\n";
    out += "committer Other <other@example.com> 2 +0000\n";
    out += &format!("\n{message}\n");
    out.into_bytes()
}

fn coded(r: ReadError) -> WorkbenchError {
    match r {
        ReadError::Coded(e) => e,
        ReadError::Plain(m) => panic!("no code: {m}"),
    }
}

/// The page that a read ends with.
fn page_of(viewport: GraphViewport, reads: GraphReads) -> Result<GraphPage, ReadError> {
    read_graph_page(&viewport, reads).0
}

/// The same reads once more.
fn once_more(reads: &GraphReads) -> GraphReads {
    GraphReads {
        epoch: reads.epoch,
        has_tips: reads.has_tips,
        ids: reads.ids.clone(),
        epoch_after_walk: reads.epoch_after_walk,
        cached: CommitMetas::new(),
        objects: reads.objects.clone(),
        failure: reads.failure.clone(),
        epoch_at_end: reads.epoch_at_end,
    }
}

/// Three commits in a row, the newest first, none of them in the cache.
fn three(epoch: u64) -> GraphReads {
    GraphReads {
        epoch,
        has_tips: true,
        ids: ids(&[C3, C2, C1]),
        epoch_after_walk: epoch,
        cached: CommitMetas::new(),
        objects: vec![object("third", &[C2]), object("second", &[C1]), object("first", &[])],
        failure: None,
        epoch_at_end: epoch,
    }
}

fn commit(id: &str, parents: &[&str]) -> Commit {
    Commit {
        id: id.into(),
        message: "m".into(),
        author_name: "n".into(),
        author_email: "e".into(),
        author_time: 0,
        parent_ids: parents.iter().map(|p| p.to_string()).collect(),
        lane: 0,
    }
}

fn lanes(rows: &[(&str, &[&str])]) -> Vec<u16> {
    let commits = rows.iter().map(|(id, parents)| commit(id, parents)).collect();
    assign_lanes(commits).iter().map(|c| c.lane).collect()
}

#[test]
fn graph_page_reads_commits() {
    let page = page_of(viewport(0, 10, None, 1), three(1)).unwrap();
    assert_eq!(page.commits.len(), 3);
    assert_eq!(page.epoch, 1);
    assert!(!page.has_more);

    // Newest first.
    assert!(page.commits[0].message.contains("third"));
    assert!(page.commits[1].message.contains("second"));
    assert!(page.commits[2].message.contains("first"));

    // Parent links.
    assert_eq!(page.commits[0].parent_ids.len(), 1);
    assert_eq!(page.commits[0].parent_ids[0], page.commits[1].id);
    assert!(page.commits[2].parent_ids.is_empty());

    // Metadata.
    assert_eq!(page.commits[0].author_name, "Test");
    assert_eq!(page.commits[0].author_email, "test@example.com");
    assert_eq!(page.total_approx, 3);
}

#[test]
fn graph_page_epoch_mismatch() {
    let err = page_of(viewport(0, 10, None, 999), three(1));
    let err = coded(err.expect_err("should fail"));
    assert_eq!(err.code, WorkbenchError::EPOCH_MISMATCH);
    assert_eq!(err.message, "epoch mismatch: expected 1, got 999");
}

#[test]
fn graph_page_pagination() {
    let page = page_of(viewport(1, 1, None, 0), three(1)).unwrap();
    assert_eq!(page.commits.len(), 1);
    assert!(page.commits[0].message.contains("second"));
    assert!(page.has_more);
}

#[test]
fn graph_page_anchor_repins_viewport() {
    let anchored = page_of(viewport(0, 2, Some(C2), 0), three(1)).unwrap();
    assert_eq!(anchored.commits[0].message, "second");
    assert_eq!(anchored.commits.len(), 2);
    assert_eq!(anchored.anchor_commit.as_deref(), Some(C2));

    // A new commit lands on top: the anchor keeps the same commits in view.
    let mut reads = three(2);
    reads.ids.insert(0, C4.into());
    reads.objects.insert(0, object("newest", &[C3]));
    let again = page_of(viewport(0, 2, Some(C2), 0), once_more(&reads)).unwrap();
    assert_eq!(again.commits[0].message, "second");
    assert_eq!(again.commits.len(), 2);

    // Unknown anchor: the requested offset is kept.
    let unknown = "0000000000000000000000000000000000000000";
    let fallback = page_of(viewport(1, 1, Some(unknown), 0), once_more(&reads)).unwrap();
    assert_eq!(fallback.commits.len(), 1);
    assert_eq!(fallback.commits[0].message, "third");
}

#[test]
fn a_read_that_was_overtaken_is_refused() {
    let mut reads = three(4);
    reads.epoch_after_walk = 5;
    reads.epoch_at_end = 6;
    let err = coded(page_of(viewport(0, 10, None, 0), once_more(&reads)).unwrap_err());
    assert_eq!(err.message, "epoch mismatch: expected 5, got 4");
    reads.epoch_after_walk = 4;
    let err = coded(page_of(viewport(0, 10, None, 4), once_more(&reads)).unwrap_err());
    assert_eq!(err.message, "epoch mismatch: expected 6, got 4");
    assert!(check_epoch(3, 3).is_ok());
    assert!(check_epoch(3, 4).is_err());
    assert!(check_viewport(&viewport(0, 1, None, 0), 7).is_ok());
    assert!(check_viewport(&viewport(0, 1, None, 7), 7).is_ok());
    assert!(check_viewport(&viewport(0, 1, None, 6), 7).is_err());
}

#[test]
fn a_repository_without_references_has_an_empty_page() {
    let mut reads = three(3);
    reads.has_tips = false;
    reads.epoch_at_end = 9;
    let page = page_of(viewport(5, 10, Some("x"), 3), once_more(&reads)).unwrap();
    assert!(page.commits.is_empty());
    assert_eq!(page.total_approx, 0);
    assert!(!page.has_more);
    assert_eq!(page.epoch, 3);
    assert_eq!(page.anchor_commit.as_deref(), Some("x"));
    assert!(empty_page(&viewport(0, 1, None, 0), 8).commits.is_empty());
}

#[test]
fn the_walk_goes_beyond_the_viewport_and_never_overflows() {
    assert_eq!(PRELOAD_MARGIN, 500);
    assert_eq!(walk_limit(&viewport(10, 20, None, 0)), 530);
    assert_eq!(walk_limit(&viewport(u64::MAX - 1, 20, None, 0)), u64::MAX);
}

#[test]
fn pages_join() {
    let rows: Vec<Commit> = (0..7).map(|i| commit(&format!("c{i}"), &[])).collect();
    let ids_of = |page: &git_workbench::protocol::GraphPage| -> Vec<String> {
        page.commits.iter().map(|c| c.id.clone()).collect()
    };
    let first = cut_page(&rows, &viewport(1, 3, None, 0), 1);
    let second = cut_page(&rows, &viewport(4, 5, None, 0), 1);
    let both = cut_page(&rows, &viewport(1, 8, None, 0), 1);
    assert_eq!(ids_of(&both), [ids_of(&first), ids_of(&second)].concat());
    assert!(first.has_more && !second.has_more && !both.has_more);
    // A page ends at the last row exactly, and one beyond it is empty.
    assert!(!cut_page(&rows, &viewport(0, 7, None, 0), 1).has_more);
    assert!(cut_page(&rows, &viewport(0, 6, None, 0), 1).has_more);
    assert!(cut_page(&rows, &viewport(7, 6, None, 0), 1).commits.is_empty());
    assert_eq!(cut_page(&rows, &viewport(7, 6, None, 0), 1).total_approx, 7);
}

#[test]
fn a_page_that_ends_beyond_all_numbers_does_not_fit() {
    let rows = vec![commit("a", &[]), commit("b", &[])];
    assert!(page_fits(&rows, &viewport(5, 10, None, 0)));
    assert!(page_fits(&rows, &viewport(u64::MAX - 10, 10, None, 0)));
    assert!(!page_fits(&rows, &viewport(u64::MAX - 10, 11, None, 0)));
    assert!(!page_fits(&rows, &viewport(u64::MAX, 1, Some("x"), 0)));
    assert!(page_fits(&rows, &viewport(u64::MAX, 1, Some("b"), 0)));
}

#[test]
fn the_cache_never_shows_in_a_page() {
    let plain = page_of(viewport(0, 10, None, 0), three(1)).unwrap();
    let mut cached = CommitMetas::new();
    cached.insert(C2.into(), meta("second", &[C1]));
    let walked = ids(&[C3, C2, C1]);
    assert_eq!(missing(&walked, &cached), ids(&[C3, C1]));
    let mut reads = three(1);
    reads.cached = cached;
    reads.objects = vec![object("third", &[C2]), object("first", &[])];
    let decoded = decode_commits(&reads.objects).unwrap();
    let rows = resolve(&walked, &reads.cached, &decoded);
    let (served, writes) = read_graph_page(&viewport(0, 10, None, 0), reads);
    assert_eq!(served.unwrap().commits, plain.commits);
    // Only what the cache did not know is added to it; lanes are kept of all.
    let writes = writes.unwrap();
    assert_eq!(writes.metas.iter().map(|m| m.0.as_str()).collect::<Vec<_>>(), vec![C3, C1]);
    assert_eq!(writes.metas[1].1.message, "first");
    assert_eq!(writes.lanes, vec![(C3.into(), 0), (C2.into(), 0), (C1.into(), 0)]);
    assert_eq!(writes.epoch, 1);

    assert_eq!(rows[1].message, "second");
    let fresh = new_metas(&ids(&[C3, C1]), &decoded);
    assert_eq!(fresh[1].0, C1);
    assert_eq!(fresh[1].1.message, "first");
    let entries = lane_entries(&rows);
    assert_eq!(entries, vec![(C3.into(), 0), (C2.into(), 0), (C1.into(), 0)]);
}

#[test]
fn commits_are_decoded_with_replacements() {
    let raw = RawCommit {
        summary: vec![104, 105, 255],
        author_name: "Zoë".as_bytes().to_vec(),
        author_email: Vec::new(),
        author_time: None,
        parent_ids: ids(&["p"]),
    };
    let meta = raw.clone().decode();
    assert_eq!(meta.message, "hi\u{fffd}");
    assert_eq!(meta.author_name, "Zoë");
    assert_eq!(meta.author_email, "");
    assert_eq!(meta.author_time, 0);
    assert_eq!(meta.parent_ids, ids(&["p"]));
    assert_eq!(RawCommit { author_time: Some(-3), ..raw }.decode().author_time, -3);
}

#[test]
fn commit_objects_are_decoded() {
    // The summary folds the lines of the title, and leaves the body out.
    let meta = decode_commit(&object("a title\nin two lines\n\nand a body", &[C1, C2])).unwrap();
    assert_eq!(meta.message, "a title in two lines");
    assert_eq!(meta.author_name, "Test");
    assert_eq!(meta.author_email, "test@example.com");
    assert_eq!(meta.author_time, 1);
    assert_eq!(meta.parent_ids, ids(&[C1, C2]));

    assert_eq!(decode_commit(b"").unwrap_err(), "object parsing failed");
    // No parent of another length is one.
    assert_eq!(decode_commit(&object("m", &["12"])).unwrap_err(), "object parsing failed");
}

#[test]
fn a_malformed_commit_stops_the_page() {
    let mut reads = three(1);
    reads.objects[1] = b"tree\n".to_vec();
    assert!(decode_commits(&reads.objects).is_err());
    match page_of(viewport(0, 10, None, 0), once_more(&reads)) {
        Err(ReadError::Plain(m)) => assert_eq!(m, "object parsing failed"),
        r => panic!("{r:?}"),
    }
    // An epoch that passed during the walk is what is told of.
    reads.epoch_after_walk = 2;
    let err = coded(page_of(viewport(0, 10, None, 0), once_more(&reads)).unwrap_err());
    assert_eq!(err.code, WorkbenchError::EPOCH_MISMATCH);

    let reads = three(1);
    let metas = vec![meta("x", &[C2]), meta("y", &[C1]), meta("z", &[])];
    let page = make_page(&viewport(2, 1, None, 0), once_more(&reads), Ok(metas)).0.unwrap();
    assert_eq!(page.commits[0].message, "z");
    match make_page(&viewport(2, 1, None, 0), reads, Err("why".into())) {
        (Err(ReadError::Plain(m)), None) => assert_eq!(m, "why"),
        _ => panic!("the reason is told, and nothing is cached"),
    }
}

#[test]
fn a_commit_that_cannot_be_fetched_stops_the_page() {
    let mut reads = three(1);
    reads.objects.truncate(2);
    reads.failure = Some("gone".into());
    match read_graph_page(&viewport(0, 10, None, 0), once_more(&reads)) {
        (Err(ReadError::Plain(m)), None) => assert_eq!(m, "gone"),
        _ => panic!("the reason is told, and nothing is cached"),
    }
    // A malformed one before it is told of first.
    reads.objects[0] = Vec::new();
    assert_eq!(
        decode_fetched(&reads.objects, reads.failure).unwrap_err(),
        "object parsing failed"
    );
}

#[test]
fn nothing_is_cached_of_a_state_that_has_passed() {
    let mut reads = three(4);
    reads.epoch_after_walk = 5;
    let (page, writes) = read_graph_page(&viewport(0, 10, None, 0), reads);
    assert!(page.is_err() && writes.is_none());

    // What was walked at one epoch is kept for it, though the page comes late.
    let mut reads = three(4);
    reads.epoch_at_end = 5;
    let (page, writes) = read_graph_page(&viewport(0, 10, None, 0), reads);
    assert!(page.is_err());
    assert_eq!(writes.unwrap().epoch, 4);
}

#[test]
fn a_read_goes_through_its_stages() {
    let view = viewport(0, 2, None, 3);
    assert_eq!(begin_read(&view, 4).err().unwrap().code, WorkbenchError::EPOCH_MISMATCH);
    let walk = match begin_read(&view, 3).unwrap().with_tips(true) {
        TipsNext::Walk(walk) => walk,
        TipsNext::Finish(_) => panic!("there is something to walk"),
    };
    assert_eq!(walk.limit(), 502);
    // What comes behind the limit is not looked at.
    let many: Vec<String> = (0..600).map(|i| format!("{i:040}")).collect();
    let rows = walk.walked(many.clone(), 3).unwrap();
    assert_eq!(rows.ids(), &many[..502]);
    let mut cached = CommitMetas::new();
    for id in &many[1..502] {
        cached.insert(id.clone(), meta("old", &[]));
    }
    let fetch = rows.looked_up(cached);
    assert_eq!(fetch.missing(), many[..1]);
    let (stored, writes) = fetch.resolved(vec![meta("new", &[])]);
    assert_eq!(writes.metas.len(), 1);
    assert_eq!(writes.lanes.len(), 502);
    assert!(stored.fits());
    let page = stored.finish(3).unwrap();
    assert_eq!(page.commits.len(), 2);
    assert_eq!(page.commits[0].message, "new");
    assert_eq!(page.total_approx, 502);
    assert!(page.has_more);
}

#[test]
fn lanes_stay_when_the_window_grows() {
    let rows: [(&str, &[&str]); 5] =
        [("x", &["a"]), ("y", &["b"]), ("a", &["r"]), ("b", &["r"]), ("r", &[])];
    let all = lanes(&rows);
    for n in 0..rows.len() {
        assert_eq!(lanes(&rows[..n]), all[..n]);
    }
}

#[test]
fn lanes_follow_the_lines() {
    // A straight line stays in one lane.
    assert_eq!(lanes(&[("c", &["b"]), ("b", &["a"]), ("a", &[])]), vec![0, 0, 0]);
    // Two tips take two lanes; the commit that both lead to takes the left one.
    assert_eq!(
        lanes(&[("x", &["a"]), ("y", &["a"]), ("a", &["r"]), ("r", &[])]),
        vec![0, 1, 0, 0]
    );
    // The lane that became free is taken by the next tip.
    assert_eq!(
        lanes(&[("x", &["a"]), ("y", &["a"]), ("a", &["r"]), ("z", &["r"]), ("r", &[])]),
        vec![0, 1, 0, 1, 0]
    );
    // Both parents of a merge inherit its lane.
    assert_eq!(
        lanes(&[("m", &["p", "q"]), ("p", &["r"]), ("q", &["r"]), ("r", &[])]),
        vec![0, 0, 0, 0]
    );
    assert_eq!(lanes(&[]), Vec::<u16>::new());
}

#[test]
fn epoch_survives_restart_and_bumps_on_repo_change() {
    // A cache without any state: epoch 1.
    let fresh = Cache { fingerprint: None, epoch: None };
    let (epoch, ops) = fresh.open("first");
    assert_eq!(epoch, 1);
    assert!(matches!(ops[0], CacheOp::ClearCommitMeta));
    assert!(matches!(ops[1], CacheOp::ClearCommitLanes));
    assert!(matches!(ops[2], CacheOp::PutEpoch(1)));
    assert!(matches!(&ops[3], CacheOp::PutFingerprint(f) if f == "first"));

    // Restart with no repo changes: the stored epoch is reused.
    let stored = Cache { fingerprint: Some("first".into()), epoch: Some(1) };
    let (epoch, ops) = stored.open("first");
    assert_eq!(epoch, 1);
    assert!(ops.is_empty());

    // Refs moved while the engine was down: the epoch is bumped.
    let (epoch, ops) = stored.open("second");
    assert_eq!(epoch, 2);
    assert_eq!(ops.len(), 4);
}

#[test]
fn lanes_are_cleared_when_the_epoch_changes() {
    let cache = Cache { fingerprint: None, epoch: Some(4) };
    assert_eq!(cache.get_cached_epoch(), Some(4));
    let (cleared, ops) = cache.invalidate_on_epoch_change(4);
    assert!(!cleared && ops.is_empty());
    let (cleared, ops) = cache.invalidate_on_epoch_change(5);
    assert!(cleared);
    assert!(matches!(ops[0], CacheOp::ClearCommitLanes));
    assert!(matches!(ops[1], CacheOp::PutEpoch(5)));
    assert_eq!(ops.len(), 2);
}

#[test]
fn the_cache_is_written_in_one_transaction() {
    assert!(Cache::put_commit_metas(&vec![]).is_empty());
    let ops = Cache::put_commit_metas(&vec![("a".into(), meta("m", &[]))]);
    assert!(matches!(&ops[0], CacheOp::PutCommitMeta { id, meta } if id == "a" && meta.message == "m"));
    assert!(Cache::put_lanes_with_epoch(&vec![], 3).is_empty());
    let ops = Cache::put_lanes_with_epoch(&vec![("a".into(), 7)], 3);
    assert_eq!(ops.len(), 2);
    assert!(matches!(&ops[0], CacheOp::PutCommitLane { id, lane: 7 } if id == "a"));
    assert!(matches!(ops[1], CacheOp::PutEpoch(3)));

    let found = Cache::get_commit_metas(
        &ids(&["a", "b", "a"]),
        &vec![Some(meta("first", &[])), None, Some(meta("again", &[]))],
    );
    assert_eq!(found.get("a").unwrap().message, "first");
    assert!(!found.contains("b"));

    assert!(retry_open(0));
    assert!(retry_open(19));
    assert!(!retry_open(20));
    assert_eq!((OPEN_ATTEMPTS, OPEN_PAUSE_MILLIS), (20, 50));
}
