//! The course of a read of the commit graph.
//!
//! A read goes through stages, between which the caller asks the repository and
//! the cache. Each stage is a value that only the one before it can give:
//! - `GraphBegun`: the viewport is for the current epoch;
//! - `GraphWalk`: there is something to start from, and the history is walked;
//! - `GraphRows`: the epoch is still the same, and the walked commits are looked
//!   up in the cache;
//! - `GraphFetch`: the commits that the cache knows nothing of are fetched;
//! - `GraphStored`: the rows are there, with what is to be cached of them.
//!
//! The epoch is compared again after the walk and at the end. So a page is never
//! served, and nothing is ever cached, for a state of the repository that has
//! passed.
use crate::adapt::{commit_of, meta_of};
use crate::cache::{CachedCommit, CommitMetas, MetaView};
use crate::graph;
use crate::graph::{
    absent_before, begins_at, decode_commits, empty_page_of, is_epoch_mismatch, lane_views,
    lanes_in, law_missing_commits_are_fetched, law_page_shows_rows, law_rows_carry_metadata,
    lemma_absent_in_prefix, lemma_begins_at, lemma_start_in, meta_entries, metas_in, metas_of,
    missing_of, page_of, page_start, paired, row_ids, rows_for, start_in, walk_limit_of, PageView,
    ReadError,
};
use crate::lanes;
use crate::lanes::{law_only_lanes_are_assigned, rows_of, with_lanes, CommitView};
use crate::protocol::{Commit, GraphPage, GraphViewport, WorkbenchError};
use crate::text::{decimal_of, lossy_of, opt_text, texts};
use vstd::prelude::*;

verus! {

// ---------------------------------------------------------------------------
// The stages
// ---------------------------------------------------------------------------
/// A read for a viewport that may be served. It is to be found out whether there
/// is anything to start from.
pub struct GraphBegun<'a> {
    viewport: &'a GraphViewport,
    epoch: u64,
}

/// A read that has something to start from. The history is to be walked.
pub struct GraphWalk<'a> {
    viewport: &'a GraphViewport,
    epoch: u64,
}

/// What follows once it is known whether there is anything to start from.
pub enum TipsNext<'a> {
    /// The history is walked.
    Walk(GraphWalk<'a>),
    /// There is nothing: the read is over.
    Finish(GraphPage),
}

/// A read whose walk is done, and still stands for the current epoch. The ids
/// are to be looked up in the cache.
pub struct GraphRows<'a> {
    viewport: &'a GraphViewport,
    epoch: u64,
    ids: Vec<String>,
}

/// A read that knows what the cache has. The other commits are to be fetched.
pub struct GraphFetch<'a> {
    viewport: &'a GraphViewport,
    epoch: u64,
    ids: Vec<String>,
    cached: CommitMetas,
}

/// A read that has all of its rows. What is to be cached of them is cached.
pub struct GraphStored<'a> {
    viewport: &'a GraphViewport,
    epoch: u64,
    rows: Vec<Commit>,
}

impl GraphBegun<'_> {
    /// The viewport that is read for.
    pub closed spec fn view_of(&self) -> GraphViewport {
        *self.viewport
    }

    /// The epoch at which the read began.
    pub closed spec fn begun_at(&self) -> u64 {
        self.epoch
    }
}

impl GraphWalk<'_> {
    /// The viewport that is read for.
    pub closed spec fn view_of(&self) -> GraphViewport {
        *self.viewport
    }

    /// The epoch at which the read began.
    pub closed spec fn begun_at(&self) -> u64 {
        self.epoch
    }
}

impl GraphRows<'_> {
    /// The viewport that is read for.
    pub closed spec fn view_of(&self) -> GraphViewport {
        *self.viewport
    }

    /// The epoch at which the read began.
    pub closed spec fn begun_at(&self) -> u64 {
        self.epoch
    }

    /// The ids of the commits that are read.
    pub closed spec fn walked_ids(&self) -> Seq<Seq<char>> {
        texts(self.ids@)
    }
}

impl GraphFetch<'_> {
    /// The viewport that is read for.
    pub closed spec fn view_of(&self) -> GraphViewport {
        *self.viewport
    }

    /// The epoch at which the read began.
    pub closed spec fn begun_at(&self) -> u64 {
        self.epoch
    }

    /// The ids of the commits that are read.
    pub closed spec fn walked_ids(&self) -> Seq<Seq<char>> {
        texts(self.ids@)
    }

    /// What the cache has of them.
    pub closed spec fn held(&self) -> Map<Seq<char>, MetaView> {
        self.cached@
    }
}

impl GraphStored<'_> {
    /// The viewport that is read for.
    pub closed spec fn view_of(&self) -> GraphViewport {
        *self.viewport
    }

    /// The epoch at which the read began.
    pub closed spec fn begun_at(&self) -> u64 {
        self.epoch
    }

    /// The rows, with their lanes.
    pub closed spec fn all_rows(&self) -> Seq<CommitView> {
        rows_of(self.rows@)
    }
}

/// Begins a read at the epoch `epoch`: a viewport that was made for another one
/// is refused.
pub fn begin_read(viewport: &GraphViewport, epoch: u64) -> (r: Result<
    GraphBegun<'_>,
    WorkbenchError,
>)
    ensures
        match r {
            Ok(b) => (viewport.epoch == 0 || viewport.epoch == epoch) && b.view_of() == *viewport
                && b.begun_at() == epoch,
            Err(e) => viewport.epoch != 0 && viewport.epoch != epoch && is_epoch_mismatch(
                e,
                epoch,
                viewport.epoch,
            ),
        },
{
    match graph::check_viewport(viewport, epoch) {
        Ok(()) => Ok(GraphBegun { viewport, epoch }),
        Err(e) => Err(e),
    }
}

impl<'a> GraphBegun<'a> {
    /// Goes on where the repository has any reference or commit to start from;
    /// else the page is empty.
    pub fn with_tips(self, has_tips: bool) -> (r: TipsNext<'a>)
        ensures
            match r {
                TipsNext::Walk(w) => has_tips && w.view_of() == self.view_of() && w.begun_at()
                    == self.begun_at(),
                TipsNext::Finish(page) => !has_tips && page@ == empty_page_of(
                    self.view_of(),
                    self.begun_at(),
                ),
            },
    {
        if has_tips {
            TipsNext::Walk(GraphWalk { viewport: self.viewport, epoch: self.epoch })
        } else {
            TipsNext::Finish(graph::empty_page(self.viewport, self.epoch))
        }
    }
}

/// The ids of walked commits, up to the limit of the walk.
pub open spec fn kept_ids(ids: Seq<Seq<char>>, viewport: GraphViewport) -> Seq<Seq<char>> {
    if ids.len() > walk_limit_of(viewport) {
        ids.take(walk_limit_of(viewport))
    } else {
        ids
    }
}

impl<'a> GraphWalk<'a> {
    /// How many commits are walked: what comes behind them is not looked at.
    pub fn limit(&self) -> (r: u64)
        ensures
            r == walk_limit_of(self.view_of()),
    {
        graph::walk_limit(self.viewport)
    }

    /// Goes on with the walked commits, the newest first, where the epoch is
    /// `now` what it was: else what was walked may be of a state that has
    /// passed, and is neither served nor cached.
    pub fn walked(self, ids: Vec<String>, now: u64) -> (r: Result<GraphRows<'a>, WorkbenchError>)
        ensures
            match r {
                Ok(rows) => {
                    &&& now == self.begun_at()
                    &&& rows.view_of() == self.view_of()
                    &&& rows.begun_at() == self.begun_at()
                    &&& rows.walked_ids() == kept_ids(texts(ids@), self.view_of())
                },
                Err(e) => now != self.begun_at() && is_epoch_mismatch(e, now, self.begun_at()),
            },
    {
        if let Err(e) = graph::check_epoch(self.epoch, now) {
            return Err(e);
        }
        let limit: u64 = self.limit();
        let ghost all = texts(ids@);
        let mut ids = ids;
        if ids.len() as u64 > limit {
            ids.truncate(limit as usize);
            assert(texts(ids@) =~= all.take(limit as int));
        }
        Ok(GraphRows { viewport: self.viewport, epoch: self.epoch, ids })
    }
}

impl<'a> GraphRows<'a> {
    /// The ids of the commits that are read.
    pub fn ids(&self) -> (r: &Vec<String>)
        ensures
            texts(r@) == self.walked_ids(),
    {
        &self.ids
    }

    /// Goes on with what the cache has of the commits.
    pub fn looked_up(self, cached: CommitMetas) -> (r: GraphFetch<'a>)
        ensures
            r.view_of() == self.view_of(),
            r.begun_at() == self.begun_at(),
            r.walked_ids() == self.walked_ids(),
            r.held() == cached@,
    {
        GraphFetch { viewport: self.viewport, epoch: self.epoch, ids: self.ids, cached }
    }
}

/// What became of decoding commits.
pub open spec fn decoded_text(decoded: Result<Vec<CachedCommit>, String>) -> Result<
    Seq<MetaView>,
    Seq<char>,
> {
    match decoded {
        Ok(metas) => Ok(metas_of(metas@)),
        Err(m) => Err(m@),
    }
}

/// What becomes of the commits with the bytes `objects`, where the next one
/// could not be fetched for the reason `failure`.
pub open spec fn decoding(objects: Seq<Vec<u8>>, failure: Option<Seq<char>>) -> Result<
    Seq<MetaView>,
    Seq<char>,
> {
    match (metas_in(objects), failure) {
        (None, _) => Err("object parsing failed"@),
        (Some(_), Some(reason)) => Err(reason),
        (Some(metas), None) => Ok(metas),
    }
}

/// Decodes the commits with the bytes `objects`, where the next one could not be
/// fetched for the reason `failure`. A commit that is malformed is told of first,
/// as it comes before the one that could not be fetched.
pub fn decode_fetched(objects: &Vec<Vec<u8>>, failure: Option<String>) -> (r: Result<
    Vec<CachedCommit>,
    String,
>)
    ensures
        decoded_text(r) == decoding(objects@, opt_text(failure)),
        r matches Ok(metas) ==> metas@.len() == objects@.len(),
{
    match decode_commits(objects) {
        Err(m) => Err(m),
        Ok(metas) => {
            assert(metas_of(metas@).len() == objects@.len());
            match failure {
                Some(reason) => Err(reason),
                None => Ok(metas),
            }
        },
    }
}

impl<'a> GraphFetch<'a> {
    /// The ids of the commits that the cache knows nothing of, in order.
    pub fn missing(&self) -> (r: Vec<String>)
        ensures
            texts(r@) == missing_of(self.walked_ids(), self.held()),
    {
        graph::missing(&self.ids, &self.cached)
    }

    /// Goes on with the metadata of the commits that the cache knows nothing of.
    /// It is to be cached, and so are the lanes of all rows, for the epoch at
    /// which the read began.
    pub fn resolved(self, decoded: Vec<CachedCommit>) -> (r: (GraphStored<'a>, GraphWrites))
        requires
            decoded@.len() == missing_of(self.walked_ids(), self.held()).len(),
        ensures
            r.0.view_of() == self.view_of(),
            r.0.begun_at() == self.begun_at(),
            r.0.all_rows() == with_lanes(
                rows_for(self.walked_ids(), self.held(), metas_of(decoded@)),
            ),
            r.1@ == (WritesView {
                metas: paired(missing_of(self.walked_ids(), self.held()), metas_of(decoded@)),
                lanes: lanes_in(r.0.all_rows()),
                epoch: self.begun_at(),
            }),
    {
        let absent = self.missing();
        assert(texts(absent@).len() == decoded@.len());
        let metas = graph::new_metas(&absent, &decoded);
        let rows = lanes::assign_lanes(graph::resolve(&self.ids, &self.cached, &decoded));
        let lanes = graph::lane_entries(&rows);
        let writes = GraphWrites { metas, lanes, epoch: self.epoch };
        (GraphStored { viewport: self.viewport, epoch: self.epoch, rows }, writes)
    }
}

impl<'a> GraphStored<'a> {
    /// Whether the end of the page can be counted at all.
    pub fn fits(&self) -> (r: bool)
        ensures
            r == (page_start(self.all_rows(), self.view_of()) + self.view_of().limit
                <= usize::MAX),
    {
        graph::page_fits(&self.rows, self.viewport)
    }

    /// Ends the read with its page, where the epoch is `now` still what it was.
    pub fn finish(self, now: u64) -> (r: Result<GraphPage, WorkbenchError>)
        requires
            page_start(self.all_rows(), self.view_of()) + self.view_of().limit <= usize::MAX,
        ensures
            match r {
                Ok(page) => now == self.begun_at() && page@ == page_of(
                    self.all_rows(),
                    self.view_of(),
                    self.begun_at(),
                ),
                Err(e) => now != self.begun_at() && is_epoch_mismatch(e, now, self.begun_at()),
            },
    {
        let page = graph::cut_page(&self.rows, self.viewport, self.epoch);
        if let Err(e) = graph::check_epoch(self.epoch, now) {
            return Err(e);
        }
        Ok(page)
    }
}

// ---------------------------------------------------------------------------
// A read as a whole
// ---------------------------------------------------------------------------
/// What a read of the graph got from the repository and the cache, and the
/// epochs at which it got it.
pub struct GraphReads {
    /// The epoch when the read began.
    pub epoch: u64,
    /// Whether the repository has any reference or commit to start from.
    pub has_tips: bool,
    /// The ids of the commits that were walked, newest first.
    pub ids: Vec<String>,
    /// The epoch after the walk.
    pub epoch_after_walk: u64,
    /// The metadata that the cache has for them.
    pub cached: CommitMetas,
    /// The bytes of the others, in order, as far as they could be fetched.
    pub objects: Vec<Vec<u8>>,
    /// Why the next of them could not be fetched.
    pub failure: Option<String>,
    /// The epoch at the end.
    pub epoch_at_end: u64,
}

/// What is to be cached after a read.
pub struct GraphWrites {
    pub metas: Vec<(String, CachedCommit)>,
    pub lanes: Vec<(String, u16)>,
    /// The epoch that the lanes are valid for.
    pub epoch: u64,
}

/// What is to be cached after a read, over texts.
#[verifier::ext_equal]
pub struct WritesView {
    pub metas: Seq<(Seq<char>, MetaView)>,
    pub lanes: Seq<(Seq<char>, u16)>,
    pub epoch: u64,
}

impl View for GraphWrites {
    type V = WritesView;

    open spec fn view(&self) -> WritesView {
        WritesView {
            metas: meta_entries(self.metas@),
            lanes: lane_views(self.lanes@),
            epoch: self.epoch,
        }
    }
}

/// What is to be cached after a read, if anything.
pub open spec fn opt_writes(w: Option<GraphWrites>) -> Option<WritesView> {
    match w {
        Some(w) => Some(w@),
        None => None,
    }
}

impl GraphReads {
    /// The ids of the commits that are read.
    pub open spec fn kept(&self, viewport: GraphViewport) -> Seq<Seq<char>> {
        kept_ids(texts(self.ids@), viewport)
    }

    /// The rows of the graph, with their lanes, where `decoded` is the metadata
    /// of the commits that the cache knows nothing of.
    pub open spec fn rows(&self, viewport: GraphViewport, decoded: Seq<MetaView>) -> Seq<
        CommitView,
    > {
        with_lanes(rows_for(self.kept(viewport), self.cached@, decoded))
    }

    /// Whether the read for a viewport gets as far as its rows.
    pub open spec fn gets_to_rows(&self, viewport: GraphViewport) -> bool {
        &&& viewport.epoch == 0 || viewport.epoch == self.epoch
        &&& self.has_tips
        &&& self.epoch_after_walk == self.epoch
    }

    /// Where the read for a viewport gets as far as its rows, all commits that
    /// the cache knows nothing of are there, unless one could not be fetched,
    /// and the end of the page can be counted.
    pub open spec fn wf(&self, viewport: GraphViewport) -> bool {
        self.gets_to_rows(viewport) ==> {
            &&& self.failure is None ==> self.objects@.len() == missing_of(
                self.kept(viewport),
                self.cached@,
            ).len()
            &&& start_in(self.kept(viewport), viewport) + viewport.limit <= usize::MAX
        }
    }
}

/// Why a read of the graph gives no page.
pub enum GraphFault {
    /// The epoch `seen` was looked at, and `current` is current.
    Passed { current: u64, seen: u64 },
    /// A commit could not be fetched or decoded.
    Unreadable { reason: Seq<char> },
}

/// How a read of the graph ends, where `decoded` is what became of the commits
/// that the cache knows nothing of.
pub open spec fn graph_read(
    viewport: GraphViewport,
    reads: GraphReads,
    decoded: Result<Seq<MetaView>, Seq<char>>,
) -> Result<PageView, GraphFault> {
    if viewport.epoch != 0 && viewport.epoch != reads.epoch {
        Err(GraphFault::Passed { current: reads.epoch, seen: viewport.epoch })
    } else if !reads.has_tips {
        Ok(empty_page_of(viewport, reads.epoch))
    } else if reads.epoch_after_walk != reads.epoch {
        Err(GraphFault::Passed { current: reads.epoch_after_walk, seen: reads.epoch })
    } else {
        match decoded {
            Err(reason) => Err(GraphFault::Unreadable { reason }),
            Ok(metas) => if reads.epoch_at_end != reads.epoch {
                Err(GraphFault::Passed { current: reads.epoch_at_end, seen: reads.epoch })
            } else {
                Ok(page_of(reads.rows(viewport, metas), viewport, reads.epoch))
            },
        }
    }
}

/// What a read of the graph has cached, if anything: the metadata of the commits
/// that the cache knew nothing of, and the lanes of all rows for the epoch at
/// which the read began.
pub open spec fn graph_writes(
    viewport: GraphViewport,
    reads: GraphReads,
    decoded: Result<Seq<MetaView>, Seq<char>>,
) -> Option<WritesView> {
    match decoded {
        Ok(metas) => if reads.gets_to_rows(viewport) {
            Some(
                WritesView {
                    metas: paired(missing_of(reads.kept(viewport), reads.cached@), metas),
                    lanes: lanes_in(reads.rows(viewport, metas)),
                    epoch: reads.epoch,
                },
            )
        } else {
            None
        },
        Err(_) => None,
    }
}

/// Whether `r` says how a read ends.
pub open spec fn tells(
    r: Result<GraphPage, ReadError>,
    end: Result<PageView, GraphFault>,
) -> bool {
    match (r, end) {
        (Ok(page), Ok(view)) => page@ == view,
        (Err(ReadError::Coded(e)), Err(GraphFault::Passed { current, seen })) => is_epoch_mismatch(
            e,
            current,
            seen,
        ),
        (Err(ReadError::Plain(m)), Err(GraphFault::Unreadable { reason })) => m@ == reason,
        _ => false,
    }
}

/// Reads a page of the graph, stage by stage, given what was got from the
/// repository and the cache, and what became of decoding the commits that the
/// cache knows nothing of. Gives the page, and what is to be cached.
pub fn make_page(
    viewport: &GraphViewport,
    reads: GraphReads,
    decoded: Result<Vec<CachedCommit>, String>,
) -> (r: (Result<GraphPage, ReadError>, Option<GraphWrites>))
    requires
        reads.wf(*viewport),
        decoded matches Ok(metas) ==> reads.gets_to_rows(*viewport) ==> metas@.len() == missing_of(
            reads.kept(*viewport),
            reads.cached@,
        ).len(),
    ensures
        tells(r.0, graph_read(*viewport, reads, decoded_text(decoded))),
        opt_writes(r.1) == graph_writes(*viewport, reads, decoded_text(decoded)),
{
    let begun = match begin_read(viewport, reads.epoch) {
        Ok(begun) => begun,
        Err(e) => return (Err(ReadError::Coded(e)), None),
    };
    let walk = match begun.with_tips(reads.has_tips) {
        TipsNext::Walk(walk) => walk,
        TipsNext::Finish(page) => return (Ok(page), None),
    };
    let rows = match walk.walked(reads.ids, reads.epoch_after_walk) {
        Ok(rows) => rows,
        Err(e) => return (Err(ReadError::Coded(e)), None),
    };
    let fetch = rows.looked_up(reads.cached);
    let metas = match decoded {
        Ok(metas) => metas,
        Err(m) => return (Err(ReadError::Plain(m)), None),
    };
    let ghost ids = fetch.walked_ids();
    let (stored, writes) = fetch.resolved(metas);
    proof {
        lemma_start_in(ids, stored.all_rows(), *viewport);
    }
    match stored.finish(reads.epoch_at_end) {
        Ok(page) => (Ok(page), Some(writes)),
        Err(e) => (Err(ReadError::Coded(e)), Some(writes)),
    }
}

/// Reads a page of the graph, given what was got from the repository and the
/// cache. Gives the page, and what is to be cached.
pub fn read_graph_page(viewport: &GraphViewport, reads: GraphReads) -> (r: (
    Result<GraphPage, ReadError>,
    Option<GraphWrites>,
))
    requires
        reads.wf(*viewport),
    ensures
        tells(
            r.0,
            graph_read(*viewport, reads, decoding(reads.objects@, opt_text(reads.failure))),
        ),
        opt_writes(r.1) == graph_writes(
            *viewport,
            reads,
            decoding(reads.objects@, opt_text(reads.failure)),
        ),
{
    let failure = reads.failure.clone();
    let decoded = decode_fetched(&reads.objects, failure);
    make_page(viewport, reads, decoded)
}

// ---------------------------------------------------------------------------
// Laws
// ---------------------------------------------------------------------------
/// A page of a repository that has references carries the epoch that was
/// current when the read began, after the walk and at its end, and the one that
/// the client asked for where it asked for any.
pub proof fn law_page_is_of_one_epoch(
    viewport: GraphViewport,
    reads: GraphReads,
    decoded: Result<Seq<MetaView>, Seq<char>>,
)
    requires
        reads.has_tips,
    ensures
        graph_read(viewport, reads, decoded) matches Ok(page) ==> {
            &&& page.epoch == reads.epoch
            &&& page.epoch == reads.epoch_after_walk
            &&& page.epoch == reads.epoch_at_end
            &&& viewport.epoch != 0 ==> page.epoch == viewport.epoch
        },
{
}

/// Nothing is cached of a state that has passed: where the epoch has moved during
/// the walk, nothing is cached at all, and else the lanes are recorded as those
/// of the epoch at which the read began and the walk ended. Every row is among
/// them, and no more rows are read than the walk is limited to.
pub proof fn law_stale_data_is_not_cached(
    viewport: GraphViewport,
    reads: GraphReads,
    decoded: Result<Seq<MetaView>, Seq<char>>,
)
    ensures
        reads.epoch_after_walk != reads.epoch ==> graph_writes(viewport, reads, decoded) is None,
        graph_writes(viewport, reads, decoded) matches Some(w) ==> {
            &&& w.epoch == reads.epoch
            &&& w.epoch == reads.epoch_after_walk
            &&& decoded matches Ok(metas) && w.lanes == lanes_in(reads.rows(viewport, metas))
            &&& w.lanes.len() <= walk_limit_of(viewport)
        },
        graph_read(viewport, reads, decoded) is Ok && reads.has_tips ==> graph_writes(
            viewport,
            reads,
            decoded,
        ) is Some,
{
}

/// What is cached of a commit is what its bytes decode to.
pub proof fn law_cached_metadata_is_decoded(
    viewport: GraphViewport,
    reads: GraphReads,
    i: int,
)
    requires
        reads.wf(viewport),
        graph_writes(viewport, reads, decoding(reads.objects@, opt_text(reads.failure))) matches
            Some(w) && 0 <= i < w.metas.len(),
    ensures
        graph_writes(viewport, reads, decoding(reads.objects@, opt_text(reads.failure))) matches
            Some(w) && w.metas[i].0 == missing_of(reads.kept(viewport), reads.cached@)[i] && Some(
            w.metas[i].1,
        ) == meta_of(reads.objects@[i]@),
{
}

/// The commits that are read are those that were walked, from the first on, up to
/// five hundred behind the viewport.
pub proof fn law_walked_commits_are_kept(ids: Seq<Seq<char>>, viewport: GraphViewport, i: int)
    ensures
        kept_ids(ids, viewport).len() <= ids.len(),
        ids.len() <= viewport.offset + viewport.limit + 500 && ids.len() <= u64::MAX ==> kept_ids(
            ids,
            viewport,
        ).len() == ids.len(),
        ids.len() > viewport.offset + viewport.limit + 500 && viewport.offset + viewport.limit
            + 500 <= u64::MAX ==> kept_ids(ids, viewport).len() == viewport.offset
            + viewport.limit + 500,
        0 <= i < kept_ids(ids, viewport).len() ==> kept_ids(ids, viewport)[i] == ids[i],
{
}

/// Every row of a page is one of the walked commits, in the order of the walk, and
/// carries, field by field, the metadata that the cache has for its id, or else
/// what the object that was fetched for it says.
pub proof fn law_page_carries_metadata(
    viewport: GraphViewport,
    reads: GraphReads,
    start: int,
    k: int,
)
    requires
        reads.wf(viewport),
        reads.has_tips,
        begins_at(kept_ids(texts(reads.ids@), viewport), viewport, start),
        graph_read(viewport, reads, decoding(reads.objects@, opt_text(reads.failure))) matches Ok(
            page,
        ) && 0 <= k < page.commits.len(),
    ensures
        ({
            let page = graph_read(
                viewport,
                reads,
                decoding(reads.objects@, opt_text(reads.failure)),
            )->Ok_0;
            let row = page.commits[k];
            let ids = texts(reads.ids@);
            let id = reads.ids@[start + k]@;
            let cached = reads.cached@;
            let at = absent_before(ids, cached, start + k) as int;
            &&& 0 <= start + k < reads.ids@.len()
            &&& row.id == id
            &&& cached.contains_key(id) ==> {
                &&& row.message == cached[id].message
                &&& row.author_name == cached[id].author_name
                &&& row.author_email == cached[id].author_email
                &&& row.author_time == cached[id].author_time
                &&& row.parent_ids == cached[id].parent_ids
            }
            &&& !cached.contains_key(id) ==> 0 <= at < reads.objects@.len()
            &&& !cached.contains_key(id) ==> (commit_of(reads.objects@[at]@) matches Some(raw) && {
                &&& row.message == lossy_of(raw.summary)
                &&& row.author_name == lossy_of(raw.author_name)
                &&& row.author_email == lossy_of(raw.author_email)
                &&& raw.author_time matches Some(t) ==> row.author_time == t
                &&& raw.author_time is None ==> row.author_time == 0
                &&& row.parent_ids == raw.parent_ids
            })
        }),
{
    let ids = texts(reads.ids@);
    let kept = kept_ids(ids, viewport);
    let cached = reads.cached@;
    let decoded = decoding(reads.objects@, opt_text(reads.failure));
    let metas = decoded->Ok_0;
    let plain = rows_for(kept, cached, metas);
    let rows = with_lanes(plain);
    let page = graph_read(viewport, reads, decoded)->Ok_0;
    assert(page == page_of(rows, viewport, reads.epoch));
    assert(row_ids(rows) =~= kept);
    law_page_shows_rows(rows, viewport, reads.epoch, start, k);
    lemma_begins_at(rows, viewport, start);
    let i = start + k;
    assert(page.commits[k] == rows[i]);
    law_only_lanes_are_assigned(plain, i);
    law_rows_carry_metadata(kept, cached, metas, i);
    law_missing_commits_are_fetched(kept, cached, i);
    assert(kept == ids.take(kept.len() as int)) by {
        assert(ids.take(ids.len() as int) =~= ids);
    }
    lemma_absent_in_prefix(ids, cached, kept.len() as int, i);
    assert(kept[i] == ids[i]);
    if !cached.contains_key(kept[i]) {
        let at = absent_before(kept, cached, i) as int;
        assert(metas.len() == reads.objects@.len());
        assert(meta_of(reads.objects@[at]@) is Some);
        assert(metas[at] == meta_of(reads.objects@[at]@)->0);
    }
}

/// A read for a viewport of another epoch is refused with the epoch that is
/// current; one of a repository without references gives an empty page; and one
/// during which the epoch has moved, in the walk or later, is refused with the
/// epoch that it has moved to.
pub proof fn law_passed_epochs_are_refused(
    viewport: GraphViewport,
    reads: GraphReads,
    decoded: Result<Seq<MetaView>, Seq<char>>,
)
    ensures
        ({
            let end = graph_read(viewport, reads, decoded);
            let fits = viewport.epoch == 0 || viewport.epoch == reads.epoch;
            &&& !fits ==> end == Err::<PageView, GraphFault>(
                GraphFault::Passed { current: reads.epoch, seen: viewport.epoch },
            )
            &&& fits && !reads.has_tips ==> (end matches Ok(page) && page.commits.len() == 0
                && page.epoch == reads.epoch)
            &&& fits && reads.has_tips && reads.epoch_after_walk != reads.epoch ==> end == Err::<
                PageView,
                GraphFault,
            >(GraphFault::Passed { current: reads.epoch_after_walk, seen: reads.epoch })
            &&& fits && reads.has_tips && reads.epoch_after_walk == reads.epoch ==> match decoded {
                Err(reason) => end == Err::<PageView, GraphFault>(
                    GraphFault::Unreadable { reason },
                ),
                Ok(_) => if reads.epoch_at_end == reads.epoch {
                    end is Ok
                } else {
                    end == Err::<PageView, GraphFault>(
                        GraphFault::Passed { current: reads.epoch_at_end, seen: reads.epoch },
                    )
                },
            }
        }),
{
}

/// Commits are decoded one by one: the metadata is there exactly where all of
/// them are commits and none could not be fetched, and a malformed one is told of
/// before the one that could not be fetched.
pub proof fn law_decoding(objects: Seq<Vec<u8>>, failure: Option<Seq<char>>, i: int)
    requires
        0 <= i < objects.len(),
    ensures
        decoding(objects, failure) matches Ok(metas) ==> failure is None && metas.len()
            == objects.len() && meta_of(objects[i]@) == Some(metas[i]),
        meta_of(objects[i]@) is None ==> decoding(objects, failure) == Err::<
            Seq<MetaView>,
            Seq<char>,
        >("object parsing failed"@),
        (forall|k: int| 0 <= k < objects.len() ==> meta_of(#[trigger] objects[k]@) is Some)
            ==> match failure {
            Some(reason) => decoding(objects, failure) == Err::<Seq<MetaView>, Seq<char>>(reason),
            None => decoding(objects, failure) is Ok,
        },
{
}

/// What a page that was read shows of a commit: the rows of the page are the walked
/// commits from its beginning on, and each shows the metadata of its commit.
pub proof fn law_read_pages_carry_metadata(
    viewport: GraphViewport,
    reads: GraphReads,
    r: (Result<GraphPage, ReadError>, Option<GraphWrites>),
    page: GraphPage,
    start: int,
    k: int,
)
    requires
        reads.wf(viewport),
        reads.has_tips,
        call_ensures(read_graph_page, (&viewport, reads), r),
        r.0 == Ok::<GraphPage, ReadError>(page),
        begins_at(kept_ids(texts(reads.ids@), viewport), viewport, start),
        0 <= k < page.commits@.len(),
    ensures
        ({
            let row = page.commits@[k];
            let id = reads.ids@[start + k]@;
            let cached = reads.cached@;
            let at = absent_before(texts(reads.ids@), cached, start + k) as int;
            &&& 0 <= start + k < reads.ids@.len()
            &&& row.id@ == id
            &&& cached.contains_key(id) ==> {
                &&& row.message@ == cached[id].message
                &&& row.author_name@ == cached[id].author_name
                &&& row.author_email@ == cached[id].author_email
                &&& row.author_time == cached[id].author_time
                &&& texts(row.parent_ids@) == cached[id].parent_ids
            }
            &&& !cached.contains_key(id) ==> 0 <= at < reads.objects@.len()
            &&& !cached.contains_key(id) ==> (commit_of(reads.objects@[at]@) matches Some(raw) && {
                &&& row.message@ == lossy_of(raw.summary)
                &&& row.author_name@ == lossy_of(raw.author_name)
                &&& row.author_email@ == lossy_of(raw.author_email)
                &&& raw.author_time matches Some(t) ==> row.author_time == t
                &&& raw.author_time is None ==> row.author_time == 0
                &&& texts(row.parent_ids@) == raw.parent_ids
            })
        }),
        page.epoch == reads.epoch,
{
    let decoded = decoding(reads.objects@, opt_text(reads.failure));
    let end = graph_read(viewport, reads, decoded);
    assert(end matches Ok(view) && page@ == view);
    assert(page@.commits[k] == page.commits@[k]@);
    law_page_carries_metadata(viewport, reads, start, k);
}

/// Whether a client asked for no epoch, or for the one that a read began at.
pub open spec fn fits_epoch(viewport: GraphViewport, reads: GraphReads) -> bool {
    viewport.epoch == 0 || viewport.epoch == reads.epoch
}

/// A read that is refused says why: that the epoch has moved, and from which one to
/// which, or why a commit could not be read.
pub proof fn law_refused_reads_say_why(
    viewport: GraphViewport,
    reads: GraphReads,
    r: (Result<GraphPage, ReadError>, Option<GraphWrites>),
)
    requires
        reads.wf(viewport),
        call_ensures(read_graph_page, (&viewport, reads), r),
    ensures
        !fits_epoch(viewport, reads) ==> (r.0 matches Err(ReadError::Coded(e)) && e.code == -32004
            && e.message@ == "epoch mismatch: expected "@ + decimal_of(reads.epoch as nat)
            + ", got "@ + decimal_of(viewport.epoch as nat)),
        fits_epoch(viewport, reads) && reads.has_tips && reads.epoch_after_walk != reads.epoch
            ==> (r.0 matches Err(ReadError::Coded(e)) && e.code == -32004 && e.message@
            == "epoch mismatch: expected "@ + decimal_of(reads.epoch_after_walk as nat)
            + ", got "@ + decimal_of(reads.epoch as nat)),
        reads.epoch_after_walk != reads.epoch || !fits_epoch(viewport, reads) || !reads.has_tips
            ==> r.1 is None,
        r.1 matches Some(w) ==> w.epoch == reads.epoch,
        fits_epoch(viewport, reads) && !reads.has_tips ==> (r.0 matches Ok(page)
            && page.commits@.len() == 0 && page.epoch == reads.epoch && !page.has_more),
{
    if let Some(w) = r.1 {
        assert(opt_writes(r.1) == Some(w@));
    }
    if let Ok(page) = r.0 {
        assert(page@.commits.len() == page.commits@.len());
    }
}

/// What is cached after a read is the metadata of the fetched commits and the lanes
/// of all rows.
pub proof fn law_writes_are_seen_whole(w: GraphWrites)
    ensures
        w@.metas == meta_entries(w.metas@),
        w@.lanes == lane_views(w.lanes@),
        w@.epoch == w.epoch,
{
}

} // verus!
