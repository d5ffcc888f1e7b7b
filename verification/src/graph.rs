//! Reading a page of the commit graph.
//!
//! The metadata of the walked commits is taken from the cache or decoded, lanes
//! are assigned, and the page is cut out. `graph_read` says in which order that
//! is done.
use crate::adapt::{decode_commit, meta_of};
use crate::cache::{CachedCommit, CommitMetas, MetaView};
use crate::lanes;
use crate::lanes::{
    children_come_first, law_lanes_stay_in_larger_window, rows_of, with_lanes, CommitView,
};
use crate::protocol::{Commit, GraphPage, GraphViewport, WorkbenchError};
use crate::text;
use crate::text::{decimal_of, opt_text, texts};
use vstd::prelude::*;

verus! {

/// How many rows beyond the viewport are walked.
pub const PRELOAD_MARGIN: u32 = 500;

/// What a page of the graph holds.
#[verifier::ext_equal]
pub struct PageView {
    pub commits: Seq<CommitView>,
    pub total_approx: u64,
    pub has_more: bool,
    pub epoch: u64,
    pub anchor_commit: Option<Seq<char>>,
}

impl View for GraphPage {
    type V = PageView;

    open spec fn view(&self) -> PageView {
        PageView {
            commits: rows_of(self.commits@),
            total_approx: self.total_approx,
            has_more: self.has_more,
            epoch: self.epoch,
            anchor_commit: opt_text(self.anchor_commit),
        }
    }
}

/// Whether an error says that `actual` was looked at where `expected` is
/// current.
pub open spec fn is_epoch_mismatch(e: WorkbenchError, expected: u64, actual: u64) -> bool {
    e.code == WorkbenchError::EPOCH_MISMATCH && e.message@ == WorkbenchError::epoch_mismatch_text(
        expected,
        actual,
    )
}

/// A read that began at `epoch` still stands for the current state where the
/// epoch is the same `now`.
pub fn check_epoch(epoch: u64, now: u64) -> (r: Result<(), WorkbenchError>)
    ensures
        r is Ok <==> epoch == now,
        r matches Err(e) ==> is_epoch_mismatch(e, now, epoch),
{
    if epoch == now {
        Ok(())
    } else {
        Err(WorkbenchError::epoch_mismatch(now, epoch))
    }
}

/// A viewport may be served at the epoch `current` where it was made for that
/// epoch, or for none in particular (0).
pub fn check_viewport(viewport: &GraphViewport, current: u64) -> (r: Result<(), WorkbenchError>)
    ensures
        r is Ok <==> viewport.epoch == 0 || viewport.epoch == current,
        r matches Err(e) ==> is_epoch_mismatch(e, current, viewport.epoch),
{
    if viewport.epoch != 0 && viewport.epoch != current {
        Err(WorkbenchError::epoch_mismatch(current, viewport.epoch))
    } else {
        Ok(())
    }
}

/// How many commits are walked for a viewport.
pub open spec fn walk_limit_of(viewport: GraphViewport) -> int {
    let end = viewport.offset + viewport.limit + PRELOAD_MARGIN;
    if end > u64::MAX {
        u64::MAX as int
    } else {
        end
    }
}

/// How many commits are walked for a viewport.
pub fn walk_limit(viewport: &GraphViewport) -> (r: u64)
    ensures
        r == walk_limit_of(*viewport),
{
    viewport.offset.saturating_add(viewport.limit as u64).saturating_add(PRELOAD_MARGIN as u64)
}

/// The page of a repository without any reference.
pub open spec fn empty_page_of(viewport: GraphViewport, epoch: u64) -> PageView {
    PageView {
        commits: Seq::<CommitView>::empty(),
        total_approx: 0,
        has_more: false,
        epoch,
        anchor_commit: opt_text(viewport.anchor_commit),
    }
}

/// The page of a repository without any reference.
pub fn empty_page(viewport: &GraphViewport, epoch: u64) -> (r: GraphPage)
    ensures
        r@ == empty_page_of(*viewport, epoch),
{
    let page = GraphPage {
        commits: Vec::new(),
        total_approx: 0,
        has_more: false,
        epoch,
        anchor_commit: viewport.anchor_commit.clone(),
    };
    assert(page@.commits =~= Seq::<CommitView>::empty());
    page
}

// ---------------------------------------------------------------------------
// Metadata, cache first
// ---------------------------------------------------------------------------
/// The ids that the cache knows nothing of, in order.
pub open spec fn missing_of(ids: Seq<Seq<char>>, cached: Map<Seq<char>, MetaView>) -> Seq<
    Seq<char>,
> {
    ids.filter(|id: Seq<char>| !cached.contains_key(id))
}

/// The ids that the cache knows nothing of, in order: their commits have to be
/// decoded.
pub fn missing(ids: &Vec<String>, cached: &CommitMetas) -> (r: Vec<String>)
    ensures
        texts(r@) == missing_of(texts(ids@), cached@),
{
    let mut out: Vec<String> = Vec::new();
    let mut i: usize = 0;
    let ghost all = texts(ids@);
    let ghost absent = |id: Seq<char>| !cached@.contains_key(id);
    assert(texts(out@) =~= all.take(0).filter(absent)) by {
        assert(all.take(0) =~= Seq::<Seq<char>>::empty());
        reveal(Seq::filter);
    }
    while i < ids.len()
        invariant
            i <= ids@.len(),
            all == texts(ids@),
            absent == (|id: Seq<char>| !cached@.contains_key(id)),
            texts(out@) == all.take(i as int).filter(absent),
        decreases ids.len() - i,
    {
        let ghost before = texts(out@);
        proof {
            assert(all.take(i + 1) =~= all.take(i as int).push(all[i as int]));
            all.take(i as int).lemma_filter_push(all[i as int], absent);
        }
        if !cached.contains(ids[i].as_str()) {
            out.push(ids[i].clone());
            assert(texts(out@) =~= before.push(all[i as int]));
        }
        i += 1;
    }
    assert(all.take(i as int) =~= all);
    out
}

/// A row of the graph before lanes are assigned.
pub open spec fn row_of(id: Seq<char>, meta: MetaView) -> CommitView {
    CommitView {
        id,
        message: meta.message,
        author_name: meta.author_name,
        author_email: meta.author_email,
        author_time: meta.author_time,
        parent_ids: meta.parent_ids,
        lane: 0,
    }
}

/// The rows for the walked `ids`: metadata from the cache where it has some,
/// else the next of those that were decoded.
pub open spec fn rows_for(
    ids: Seq<Seq<char>>,
    cached: Map<Seq<char>, MetaView>,
    decoded: Seq<MetaView>,
) -> Seq<CommitView> {
    Seq::new(
        ids.len(),
        |i: int|
            row_of(
                ids[i],
                if cached.contains_key(ids[i]) {
                    cached[ids[i]]
                } else {
                    decoded[missing_of(ids.take(i), cached).len() as int]
                },
            ),
    )
}

/// What a list of metadata holds.
pub open spec fn metas_of(s: Seq<CachedCommit>) -> Seq<MetaView> {
    s.map_values(|m: CachedCommit| m@)
}

/// A row of the graph before lanes are assigned.
fn commit_from(id: &str, meta: &CachedCommit) -> (r: Commit)
    ensures
        r@ == row_of(id@, meta@),
{
    Commit {
        id: id.to_owned(),
        message: meta.message.clone(),
        author_name: meta.author_name.clone(),
        author_email: meta.author_email.clone(),
        author_time: meta.author_time,
        parent_ids: text::copy_list(&meta.parent_ids),
        lane: 0,
    }
}

/// The rows for the walked `ids`. `decoded` holds the metadata of those that
/// are missing from the cache, in order.
pub fn resolve(ids: &Vec<String>, cached: &CommitMetas, decoded: &Vec<CachedCommit>) -> (r: Vec<
    Commit,
>)
    requires
        decoded@.len() == missing_of(texts(ids@), cached@).len(),
    ensures
        rows_of(r@) == rows_for(texts(ids@), cached@, metas_of(decoded@)),
{
    let ghost all = texts(ids@);
    let ghost metas = metas_of(decoded@);
    let ghost absent = |id: Seq<char>| !cached@.contains_key(id);
    let mut out: Vec<Commit> = Vec::new();
    let mut next: usize = 0;
    let mut i: usize = 0;
    assert(all.take(0) =~= Seq::<Seq<char>>::empty());
    assert(missing_of(all.take(0), cached@).len() == 0) by {
        reveal(Seq::filter);
    }
    while i < ids.len()
        invariant
            i <= ids@.len(),
            all == texts(ids@),
            metas == metas_of(decoded@),
            absent == (|id: Seq<char>| !cached@.contains_key(id)),
            decoded@.len() == missing_of(all, cached@).len(),
            next == missing_of(all.take(i as int), cached@).len(),
            out@.len() == i,
            forall|k: int|
                0 <= k < i ==> #[trigger] out@[k]@ == rows_for(all, cached@, metas)[k],
        decreases ids.len() - i,
    {
        proof {
            assert(all.take(i + 1) =~= all.take(i as int).push(all[i as int]));
            all.take(i as int).lemma_filter_push(all[i as int], absent);
            assert(all.take(i + 1).is_prefix_of(all));
            all.take(i + 1).lemma_filter_monotone(all, absent);
        }
        let commit = match cached.get(ids[i].as_str()) {
            Some(meta) => commit_from(ids[i].as_str(), meta),
            None => {
                assert(next < decoded@.len());
                let commit = commit_from(ids[i].as_str(), &decoded[next]);
                next += 1;
                commit
            },
        };
        out.push(commit);
        i += 1;
    }
    assert(rows_of(out@) =~= rows_for(all, cached@, metas));
    out
}

/// What entries for the cache hold.
pub open spec fn meta_entries(s: Seq<(String, CachedCommit)>) -> Seq<(Seq<char>, MetaView)> {
    s.map_values(|e: (String, CachedCommit)| (e.0@, e.1@))
}

/// Each id with the metadata at its place.
pub open spec fn paired(ids: Seq<Seq<char>>, metas: Seq<MetaView>) -> Seq<(Seq<char>, MetaView)> {
    Seq::new(ids.len(), |i: int| (ids[i], metas[i]))
}

/// What is to be cached of the commits that had to be decoded: each with its
/// id.
pub fn new_metas(missing: &Vec<String>, decoded: &Vec<CachedCommit>) -> (r: Vec<
    (String, CachedCommit),
>)
    requires
        missing@.len() == decoded@.len(),
    ensures
        meta_entries(r@) == paired(texts(missing@), metas_of(decoded@)),
{
    let mut out: Vec<(String, CachedCommit)> = Vec::new();
    let mut i: usize = 0;
    while i < missing.len()
        invariant
            i <= missing@.len(),
            missing@.len() == decoded@.len(),
            out@.len() == i,
            forall|k: int|
                #![trigger out@[k]]
                0 <= k < i ==> out@[k].0@ == missing@[k]@ && out@[k].1@ == decoded@[k]@,
        decreases missing.len() - i,
    {
        out.push((missing[i].clone(), decoded[i].copy()));
        i += 1;
    }
    assert(meta_entries(out@) =~= paired(texts(missing@), metas_of(decoded@)));
    out
}

/// What entries of lanes for the cache hold.
pub open spec fn lane_views(s: Seq<(String, u16)>) -> Seq<(Seq<char>, u16)> {
    s.map_values(|e: (String, u16)| (e.0@, e.1))
}

/// Each row's id with its lane.
pub open spec fn lanes_in(rows: Seq<CommitView>) -> Seq<(Seq<char>, u16)> {
    rows.map_values(|c: CommitView| (c.id, c.lane))
}

/// What is to be cached of the lanes: each commit's id with its lane.
pub fn lane_entries(commits: &Vec<Commit>) -> (r: Vec<(String, u16)>)
    ensures
        lane_views(r@) == lanes_in(rows_of(commits@)),
{
    let mut out: Vec<(String, u16)> = Vec::new();
    let mut i: usize = 0;
    while i < commits.len()
        invariant
            i <= commits@.len(),
            out@.len() == i,
            forall|k: int|
                #![trigger out@[k]]
                0 <= k < i ==> out@[k].0@ == commits@[k].id@ && out@[k].1 == commits@[k].lane,
        decreases commits.len() - i,
    {
        out.push((commits[i].id.clone(), commits[i].lane));
        i += 1;
    }
    assert(lane_views(out@) =~= lanes_in(rows_of(commits@)));
    out
}

// ---------------------------------------------------------------------------
// The page
// ---------------------------------------------------------------------------
/// Whether row `i` is the first with the id `id`.
pub open spec fn is_row_of(rows: Seq<CommitView>, id: Seq<char>, i: int) -> bool {
    &&& 0 <= i < rows.len()
    &&& rows[i].id == id
    &&& forall|k: int| 0 <= k < i ==> (#[trigger] rows[k]).id != id
}

/// The first row of the page: that of the anchor where it is known, else the
/// requested offset.
pub open spec fn page_start(rows: Seq<CommitView>, viewport: GraphViewport) -> int {
    match viewport.anchor_commit {
        Some(anchor) => if exists|i: int| is_row_of(rows, anchor@, i) {
            choose|i: int| is_row_of(rows, anchor@, i)
        } else {
            viewport.offset as int
        },
        None => viewport.offset as int,
    }
}

/// Whether `i` is the first place of `id` in `ids`.
pub open spec fn is_place_of(ids: Seq<Seq<char>>, id: Seq<char>, i: int) -> bool {
    &&& 0 <= i < ids.len()
    &&& ids[i] == id
    &&& forall|k: int| 0 <= k < i ==> #[trigger] ids[k] != id
}

/// The first row of the page among the commits `ids`.
pub open spec fn start_in(ids: Seq<Seq<char>>, viewport: GraphViewport) -> int {
    match viewport.anchor_commit {
        Some(anchor) => if exists|i: int| is_place_of(ids, anchor@, i) {
            choose|i: int| is_place_of(ids, anchor@, i)
        } else {
            viewport.offset as int
        },
        None => viewport.offset as int,
    }
}

/// The rows of the page that begins at `start`.
pub open spec fn page_rows(rows: Seq<CommitView>, start: int, limit: int) -> Seq<CommitView> {
    if start >= rows.len() {
        Seq::<CommitView>::empty()
    } else if start + limit >= rows.len() {
        rows.skip(start)
    } else {
        rows.subrange(start, start + limit)
    }
}

/// The page of `rows` that a viewport shows.
pub open spec fn page_of(rows: Seq<CommitView>, viewport: GraphViewport, epoch: u64) -> PageView {
    let start = page_start(rows, viewport);
    PageView {
        commits: page_rows(rows, start, viewport.limit as int),
        total_approx: rows.len() as u64,
        has_more: start + viewport.limit < rows.len(),
        epoch,
        anchor_commit: opt_text(viewport.anchor_commit),
    }
}

/// The row of the commit `id`.
fn find_row(commits: &Vec<Commit>, id: &str) -> (r: Option<usize>)
    ensures
        match r {
            Some(i) => is_row_of(rows_of(commits@), id@, i as int),
            None => !exists|i: int| is_row_of(rows_of(commits@), id@, i),
        },
{
    let ghost rows = rows_of(commits@);
    let mut i: usize = 0;
    while i < commits.len()
        invariant
            i <= commits@.len(),
            rows == rows_of(commits@),
            forall|k: int| 0 <= k < i ==> (#[trigger] rows[k]).id != id@,
        decreases commits.len() - i,
    {
        assert(rows[i as int].id == commits@[i as int].id@);
        if text::same(commits[i].id.as_str(), id) {
            return Some(i);
        }
        i += 1;
    }
    None
}

/// Whether the end of the page that a viewport shows can be counted at all.
pub fn page_fits(commits: &Vec<Commit>, viewport: &GraphViewport) -> (r: bool)
    ensures
        r == (page_start(rows_of(commits@), *viewport) + viewport.limit <= usize::MAX),
{
    let anchored: Option<usize> = match &viewport.anchor_commit {
        Some(anchor) => find_row(commits, anchor.as_str()),
        None => None,
    };
    let start: u64 = match anchored {
        Some(i) => {
            proof {
                let rows = rows_of(commits@);
                let anchor = viewport.anchor_commit->0@;
                assert(is_row_of(rows, anchor, page_start(rows, *viewport)));
                lemma_row_unique(rows, anchor, i as int, page_start(rows, *viewport));
            }
            i as u64
        },
        None => viewport.offset,
    };
    start as u128 + viewport.limit as u128 <= usize::MAX as u128
}

/// A copy of a commit.
fn copy_commit(c: &Commit) -> (r: Commit)
    ensures
        r@ == c@,
{
    Commit {
        id: c.id.clone(),
        message: c.message.clone(),
        author_name: c.author_name.clone(),
        author_email: c.author_email.clone(),
        author_time: c.author_time,
        parent_ids: text::copy_list(&c.parent_ids),
        lane: c.lane,
    }
}

/// The page of the rows `commits` that a viewport shows. The rows are walked
/// from the top, so their number is a lower bound of the true total.
pub fn cut_page(commits: &Vec<Commit>, viewport: &GraphViewport, epoch: u64) -> (r: GraphPage)
    requires
        page_start(rows_of(commits@), *viewport) + viewport.limit <= usize::MAX,
    ensures
        r@ == page_of(rows_of(commits@), *viewport, epoch),
{
    let ghost rows = rows_of(commits@);
    let total: usize = commits.len();
    let anchored: Option<usize> = match &viewport.anchor_commit {
        Some(anchor) => find_row(commits, anchor.as_str()),
        None => None,
    };
    proof {
        if anchored is Some {
            let anchor = viewport.anchor_commit->0@;
            assert(is_row_of(rows, anchor, page_start(rows, *viewport)));
            lemma_row_unique(rows, anchor, anchored->0 as int, page_start(rows, *viewport));
        }
    }
    let start: usize = match anchored {
        Some(i) => i,
        None => viewport.offset as usize,
    };
    assert(start == page_start(rows, *viewport));
    let limit: usize = viewport.limit as usize;
    let end: usize = start + limit;
    let has_more: bool = end < total;
    let stop: usize = if end < total {
        end
    } else {
        total
    };
    let mut page: Vec<Commit> = Vec::new();
    let mut i: usize = start;
    while i < stop
        invariant
            start <= i,
            start < stop ==> i <= stop,
            start >= stop ==> i == start,
            stop <= commits@.len(),
            rows == rows_of(commits@),
            page@.len() == i - start,
            forall|k: int| 0 <= k < page@.len() ==> #[trigger] page@[k]@ == rows[start + k],
        decreases stop - i,
    {
        page.push(copy_commit(&commits[i]));
        i += 1;
    }
    let page = GraphPage {
        commits: page,
        total_approx: total as u64,
        has_more,
        epoch,
        anchor_commit: viewport.anchor_commit.clone(),
    };
    assert(page@.commits =~= page_rows(rows, start as int, limit as int));
    page
}

/// The metadata of the commits with the bytes `objects`, where all of them are
/// commits.
pub open spec fn metas_in(objects: Seq<Vec<u8>>) -> Option<Seq<MetaView>> {
    if forall|i: int| 0 <= i < objects.len() ==> meta_of(#[trigger] objects[i]@) is Some {
        Some(Seq::new(objects.len(), |i: int| meta_of(objects[i]@)->0))
    } else {
        None
    }
}

/// The metadata of the commits with the bytes `objects`, or what is said of the
/// first that is no commit.
pub fn decode_commits(objects: &Vec<Vec<u8>>) -> (r: Result<Vec<CachedCommit>, String>)
    ensures
        match r {
            Ok(metas) => metas_in(objects@) == Some(metas_of(metas@)),
            Err(m) => metas_in(objects@) is None && m@ == "object parsing failed"@,
        },
{
    let mut out: Vec<CachedCommit> = Vec::new();
    let mut i: usize = 0;
    while i < objects.len()
        invariant
            i <= objects@.len(),
            out@.len() == i,
            forall|k: int|
                0 <= k < i ==> meta_of(#[trigger] objects@[k]@) == Some(out@[k]@),
        decreases objects.len() - i,
    {
        match decode_commit(objects[i].as_slice()) {
            Ok(meta) => {
                out.push(meta);
            },
            Err(m) => {
                assert(meta_of(objects@[i as int]@) is None);
                return Err(m);
            },
        }
        i += 1;
    }
    assert(metas_of(out@) =~= metas_in(objects@)->0);
    Ok(out)
}

/// How a read has failed.
#[derive(Debug, Clone)]
pub enum ReadError {
    /// With an error that has a code.
    Coded(WorkbenchError),
    /// With a message alone.
    Plain(String),
}

// ---------------------------------------------------------------------------
// Laws
// ---------------------------------------------------------------------------
/// A page never holds more rows than the viewport asks for, and says that more
/// follow exactly where the rows go on behind it.
pub proof fn law_page_is_bounded(rows: Seq<CommitView>, viewport: GraphViewport, epoch: u64)
    ensures
        page_of(rows, viewport, epoch).commits.len() <= viewport.limit,
        page_of(rows, viewport, epoch).has_more ==> page_of(rows, viewport, epoch).commits.len()
            == viewport.limit,
{
    lemma_start_not_negative(rows, viewport);
}

/// A page begins at a row or behind them all.
proof fn lemma_start_not_negative(rows: Seq<CommitView>, viewport: GraphViewport)
    ensures
        page_start(rows, viewport) >= 0,
{
    if let Some(anchor) = viewport.anchor_commit {
        if exists|i: int| is_row_of(rows, anchor@, i) {
            assert(is_row_of(rows, anchor@, page_start(rows, viewport)));
        }
    }
}

/// The pages of two viewports without an anchor, the second of which begins
/// where the first ends, join into the page of both: nothing is shown twice
/// and nothing is left out.
pub proof fn law_pages_join(
    rows: Seq<CommitView>,
    first: GraphViewport,
    second: GraphViewport,
    both: GraphViewport,
    epoch: u64,
)
    requires
        first.anchor_commit is None,
        second.anchor_commit is None,
        both.anchor_commit is None,
        second.offset == first.offset + first.limit,
        both.offset == first.offset,
        both.limit == first.limit + second.limit,
    ensures
        page_of(rows, both, epoch).commits == page_of(rows, first, epoch).commits + page_of(
            rows,
            second,
            epoch,
        ).commits,
        page_of(rows, both, epoch).has_more == page_of(rows, second, epoch).has_more,
{
    assert(page_of(rows, both, epoch).commits =~= page_of(rows, first, epoch).commits + page_of(
        rows,
        second,
        epoch,
    ).commits);
}

/// How far the history was walked does not show: a page without an anchor that
/// ends within the first `n` rows is the same whether only these were walked or
/// more, wherever children come before their parents.
pub proof fn law_window_does_not_show(
    rows: Seq<CommitView>,
    n: int,
    viewport: GraphViewport,
    epoch: u64,
)
    requires
        viewport.anchor_commit is None,
        viewport.offset + viewport.limit <= n <= rows.len(),
        children_come_first(rows, n),
    ensures
        page_of(with_lanes(rows.take(n)), viewport, epoch).commits == page_of(
            with_lanes(rows),
            viewport,
            epoch,
        ).commits,
{
    law_lanes_stay_in_larger_window(rows, n);
    let some = with_lanes(rows.take(n));
    let all = with_lanes(rows);
    assert forall|i: int| 0 <= i < n implies some[i] == all[i] by {
        assert(all.take(n)[i] == all[i]);
    }
    assert(page_of(some, viewport, epoch).commits =~= page_of(all, viewport, epoch).commits);
}

/// A viewport that is pinned to a known commit shows it in its first row,
/// whatever was put on top of the history in the meantime, and whatever offset
/// was asked for.
pub proof fn law_anchor_stays_in_view(
    rows: Seq<CommitView>,
    newer: Seq<CommitView>,
    viewport: GraphViewport,
    epoch: u64,
    i: int,
)
    requires
        viewport.anchor_commit matches Some(anchor) && is_row_of(rows, anchor@, i),
        viewport.anchor_commit matches Some(anchor) && forall|k: int|
            0 <= k < newer.len() ==> (#[trigger] newer[k]).id != anchor@,
        viewport.limit > 0,
    ensures
        page_of(newer + rows, viewport, epoch).commits == page_of(rows, viewport, epoch).commits,
        page_of(rows, viewport, epoch).commits.len() > 0,
        page_of(rows, viewport, epoch).commits[0] == rows[i],
{
    let anchor = viewport.anchor_commit->0@;
    let all = newer + rows;
    assert(is_row_of(rows, anchor, page_start(rows, viewport)));
    lemma_row_unique(rows, anchor, i, page_start(rows, viewport));
    assert(is_row_of(all, anchor, newer.len() + i)) by {
        assert forall|k: int| 0 <= k < newer.len() + i implies (#[trigger] all[k]).id != anchor by {
            if k < newer.len() {
                assert(newer[k].id != anchor);
            } else {
                assert(rows[k - newer.len()].id != anchor);
            }
        }
    }
    assert(is_row_of(all, anchor, page_start(all, viewport)));
    lemma_row_unique(all, anchor, newer.len() + i, page_start(all, viewport));
    assert(page_of(all, viewport, epoch).commits =~= page_of(rows, viewport, epoch).commits);
}

/// A commit has at most one first row.
proof fn lemma_row_unique(rows: Seq<CommitView>, id: Seq<char>, a: int, b: int)
    requires
        is_row_of(rows, id, a),
        is_row_of(rows, id, b),
    ensures
        a == b,
{
    if a < b {
        assert(rows[a].id != id);
    } else if b < a {
        assert(rows[b].id != id);
    }
}

/// Where a page begins depends on the ids of the rows alone.
pub proof fn lemma_start_in(ids: Seq<Seq<char>>, rows: Seq<CommitView>, viewport: GraphViewport)
    requires
        ids.len() == rows.len(),
        forall|i: int| 0 <= i < ids.len() ==> (#[trigger] rows[i]).id == ids[i],
    ensures
        start_in(ids, viewport) == page_start(rows, viewport),
{
    if let Some(anchor) = viewport.anchor_commit {
        assert forall|i: int| is_place_of(ids, anchor@, i) implies is_row_of(rows, anchor@, i) by {
        }
        assert forall|i: int| is_row_of(rows, anchor@, i) implies is_place_of(ids, anchor@, i) by {
            assert forall|k: int| 0 <= k < i implies #[trigger] ids[k] != anchor@ by {
                assert(rows[k].id != anchor@);
            }
            assert(rows[i].id == ids[i]);
        }
        if exists|i: int| is_row_of(rows, anchor@, i) {
            let i = choose|i: int| is_row_of(rows, anchor@, i);
            assert(is_place_of(ids, anchor@, i));
            let j = choose|i: int| is_place_of(ids, anchor@, i);
            assert(is_place_of(ids, anchor@, j));
            assert(is_row_of(rows, anchor@, j));
            lemma_row_unique(rows, anchor@, i, j);
        }
    }
}

/// A viewport whose anchor is unknown keeps the requested offset.
pub proof fn law_unknown_anchor_keeps_offset(rows: Seq<CommitView>, viewport: GraphViewport)
    requires
        viewport.anchor_commit matches Some(anchor) && forall|k: int|
            0 <= k < rows.len() ==> (#[trigger] rows[k]).id != anchor@,
    ensures
        page_start(rows, viewport) == viewport.offset,
{
}

/// The commits that are missing from the cache stand among the missing ones in
/// the order of the walk.
proof fn lemma_missing_at(ids: Seq<Seq<char>>, cached: Map<Seq<char>, MetaView>, i: int)
    requires
        0 <= i < ids.len(),
        !cached.contains_key(ids[i]),
    ensures
        missing_of(ids.take(i), cached).len() < missing_of(ids, cached).len(),
        missing_of(ids, cached)[missing_of(ids.take(i), cached).len() as int] == ids[i],
{
    let absent = |id: Seq<char>| !cached.contains_key(id);
    let before = ids.take(i);
    let upto = ids.take(i + 1);
    let after = ids.skip(i + 1);
    assert(upto =~= before.push(ids[i]));
    before.lemma_filter_push(ids[i], absent);
    assert(ids =~= upto + after);
    Seq::filter_distributes_over_add(upto, after, absent);
}

/// The cache never shows: as metadata belongs to an id for good, the rows are
/// those that decoding every commit would have given, whatever the cache holds.
pub proof fn law_cache_never_shows(
    ids: Seq<Seq<char>>,
    truth: Map<Seq<char>, MetaView>,
    cached: Map<Seq<char>, MetaView>,
)
    requires
        forall|id: Seq<char>| #[trigger] cached.contains_key(id) ==> cached[id] == truth[id],
    ensures
        rows_for(ids, cached, missing_of(ids, cached).map_values(|id: Seq<char>| truth[id]))
            == ids.map_values(|id: Seq<char>| row_of(id, truth[id])),
{
    let decoded = missing_of(ids, cached).map_values(|id: Seq<char>| truth[id]);
    let rows = rows_for(ids, cached, decoded);
    let plain = ids.map_values(|id: Seq<char>| row_of(id, truth[id]));
    assert forall|i: int| 0 <= i < ids.len() implies rows[i] == plain[i] by {
        if !cached.contains_key(ids[i]) {
            lemma_missing_at(ids, cached, i);
        }
    }
    assert(rows =~= plain);
}

/// How many of the first `i` ids the cache knows nothing of.
pub open spec fn absent_before(
    ids: Seq<Seq<char>>,
    cached: Map<Seq<char>, MetaView>,
    i: int,
) -> nat
    decreases i,
{
    if i <= 0 {
        0
    } else if cached.contains_key(ids[i - 1]) {
        absent_before(ids, cached, i - 1)
    } else {
        absent_before(ids, cached, i - 1) + 1
    }
}

/// The missing ids are counted one by one.
proof fn lemma_absent_before(ids: Seq<Seq<char>>, cached: Map<Seq<char>, MetaView>, i: int)
    requires
        0 <= i <= ids.len(),
    ensures
        missing_of(ids.take(i), cached).len() == absent_before(ids, cached, i),
    decreases i,
{
    let absent = |id: Seq<char>| !cached.contains_key(id);
    if i > 0 {
        lemma_absent_before(ids, cached, i - 1);
        assert(ids.take(i) =~= ids.take(i - 1).push(ids[i - 1]));
        ids.take(i - 1).lemma_filter_push(ids[i - 1], absent);
    } else {
        assert(ids.take(0) =~= Seq::<Seq<char>>::empty());
        reveal(Seq::filter);
    }
}

/// The count of missing ids looks at the first ones alone.
pub proof fn lemma_absent_in_prefix(
    ids: Seq<Seq<char>>,
    cached: Map<Seq<char>, MetaView>,
    n: int,
    i: int,
)
    requires
        0 <= i <= n <= ids.len(),
    ensures
        absent_before(ids.take(n), cached, i) == absent_before(ids, cached, i),
    decreases i,
{
    if i > 0 {
        lemma_absent_in_prefix(ids, cached, n, i - 1);
        assert(ids.take(n)[i - 1] == ids[i - 1]);
    }
}

/// Exactly the commits that the cache knows nothing of are fetched, in the order
/// of the walk.
pub proof fn law_missing_commits_are_fetched(
    ids: Seq<Seq<char>>,
    cached: Map<Seq<char>, MetaView>,
    i: int,
)
    requires
        0 <= i < ids.len(),
    ensures
        missing_of(ids, cached).len() == absent_before(ids, cached, ids.len() as int),
        !cached.contains_key(ids[i]) ==> {
            &&& absent_before(ids, cached, i) < missing_of(ids, cached).len()
            &&& missing_of(ids, cached)[absent_before(ids, cached, i) as int] == ids[i]
        },
{
    lemma_absent_before(ids, cached, ids.len() as int);
    assert(ids.take(ids.len() as int) =~= ids);
    if !cached.contains_key(ids[i]) {
        lemma_missing_at(ids, cached, i);
        lemma_absent_before(ids, cached, i);
    }
}

/// Every row carries, field by field, the metadata that the cache has for its id,
/// or else that of the commit that was fetched for it.
pub proof fn law_rows_carry_metadata(
    ids: Seq<Seq<char>>,
    cached: Map<Seq<char>, MetaView>,
    decoded: Seq<MetaView>,
    i: int,
)
    requires
        0 <= i < ids.len(),
    ensures
        rows_for(ids, cached, decoded).len() == ids.len(),
        ({
            let row = rows_for(ids, cached, decoded)[i];
            let meta = if cached.contains_key(ids[i]) {
                cached[ids[i]]
            } else {
                decoded[absent_before(ids, cached, i) as int]
            };
            &&& row.id == ids[i]
            &&& row.message == meta.message
            &&& row.author_name == meta.author_name
            &&& row.author_email == meta.author_email
            &&& row.author_time == meta.author_time
            &&& row.parent_ids == meta.parent_ids
        }),
{
    lemma_absent_before(ids, cached, i);
}

/// Whether the page of a viewport begins at row `start`: at the first row of the
/// anchor where that is among the rows, and else at the offset.
pub open spec fn begins_at(ids: Seq<Seq<char>>, viewport: GraphViewport, start: int) -> bool {
    match viewport.anchor_commit {
        Some(anchor) => {
            ||| 0 <= start < ids.len() && ids[start] == anchor@ && forall|k: int|
                0 <= k < start ==> #[trigger] ids[k] != anchor@
            ||| start == viewport.offset && !ids.contains(anchor@)
        },
        None => start == viewport.offset,
    }
}

/// The ids of rows.
pub open spec fn row_ids(rows: Seq<CommitView>) -> Seq<Seq<char>> {
    rows.map_values(|c: CommitView| c.id)
}

/// A page shows the rows from its beginning on, one after another, as many as the
/// viewport asks for or as there are; it says how many rows there are and whether
/// any follow.
pub proof fn law_page_shows_rows(
    rows: Seq<CommitView>,
    viewport: GraphViewport,
    epoch: u64,
    start: int,
    k: int,
)
    requires
        begins_at(row_ids(rows), viewport, start),
    ensures
        ({
            let page = page_of(rows, viewport, epoch);
            &&& page.commits.len() == if start >= rows.len() {
                0
            } else if rows.len() - start < viewport.limit {
                rows.len() - start
            } else {
                viewport.limit as int
            }
            &&& 0 <= k < page.commits.len() ==> page.commits[k] == rows[start + k]
            &&& rows.len() <= u64::MAX ==> page.total_approx == rows.len()
            &&& page.has_more <==> start + viewport.limit < rows.len()
            &&& page.epoch == epoch
            &&& viewport.anchor_commit is None ==> page.anchor_commit is None
            &&& viewport.anchor_commit matches Some(a) ==> page.anchor_commit == Some(a@)
        }),
{
    lemma_begins_at(rows, viewport, start);
}

/// A page begins where it is said to.
pub proof fn lemma_begins_at(rows: Seq<CommitView>, viewport: GraphViewport, start: int)
    requires
        begins_at(row_ids(rows), viewport, start),
    ensures
        page_start(rows, viewport) == start,
        start >= 0,
{
    let ids = row_ids(rows);
    if let Some(anchor) = viewport.anchor_commit {
        if 0 <= start < ids.len() && ids[start] == anchor@ && forall|k: int|
            0 <= k < start ==> #[trigger] ids[k] != anchor@ {
            assert forall|k: int| 0 <= k < start implies (#[trigger] rows[k]).id != anchor@ by {
                assert(ids[k] == rows[k].id);
            }
            assert(is_row_of(rows, anchor@, start));
            assert(is_row_of(rows, anchor@, page_start(rows, viewport)));
            lemma_row_unique(rows, anchor@, start, page_start(rows, viewport));
        } else {
            assert forall|i: int| !is_row_of(rows, anchor@, i) by {
                if is_row_of(rows, anchor@, i) {
                    assert(ids[i] == anchor@);
                }
            }
        }
    }
}

/// The walk goes five hundred rows beyond the viewport, as far as rows can be
/// counted.
pub proof fn law_walk_covers_viewport(viewport: GraphViewport)
    ensures
        viewport.offset + viewport.limit + 500 <= u64::MAX ==> walk_limit_of(viewport)
            == viewport.offset + viewport.limit + 500,
        viewport.offset + viewport.limit + 500 > u64::MAX ==> walk_limit_of(viewport) == u64::MAX,
{
}

/// A repository without any reference has a page without rows, and says so.
pub proof fn law_empty_page(viewport: GraphViewport, epoch: u64)
    ensures
        empty_page_of(viewport, epoch).commits.len() == 0,
        empty_page_of(viewport, epoch).total_approx == 0,
        !empty_page_of(viewport, epoch).has_more,
        empty_page_of(viewport, epoch).epoch == epoch,
        viewport.anchor_commit is None ==> empty_page_of(viewport, epoch).anchor_commit is None,
        viewport.anchor_commit matches Some(a) ==> empty_page_of(viewport, epoch).anchor_commit
            == Some(a@),
{
}

/// What is cached of lanes and metadata is, for each row and each fetched commit,
/// its id with what belongs to it.
pub proof fn law_cache_entries_match(
    rows: Seq<CommitView>,
    ids: Seq<Seq<char>>,
    metas: Seq<MetaView>,
    i: int,
    j: int,
)
    requires
        0 <= i < rows.len(),
        0 <= j < ids.len(),
        ids.len() == metas.len(),
    ensures
        lanes_in(rows).len() == rows.len(),
        lanes_in(rows)[i] == (rows[i].id, rows[i].lane),
        paired(ids, metas).len() == ids.len(),
        paired(ids, metas)[j] == (ids[j], metas[j]),
{
}

/// A read is refused exactly where the epoch has moved since it began, and a
/// viewport exactly where it was made for another epoch; the error names the epoch
/// that is current and then the one that was looked at.
pub proof fn law_epochs_are_compared(
    epoch: u64,
    now: u64,
    r: Result<(), WorkbenchError>,
    viewport: GraphViewport,
    v: Result<(), WorkbenchError>,
)
    requires
        call_ensures(check_epoch, (epoch, now), r),
        call_ensures(check_viewport, (&viewport, now), v),
    ensures
        r is Ok <==> epoch == now,
        r matches Err(e) ==> e.code == -32004 && e.message@ == "epoch mismatch: expected "@
            + decimal_of(now as nat) + ", got "@ + decimal_of(epoch as nat),
        v is Ok <==> viewport.epoch == 0 || viewport.epoch == now,
        v matches Err(e) ==> e.code == -32004 && e.message@ == "epoch mismatch: expected "@
            + decimal_of(now as nat) + ", got "@ + decimal_of(viewport.epoch as nat),
{
}

} // verus!
