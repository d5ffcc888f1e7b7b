//! The durable cache of commit metadata and lanes: what is to be read from it,
//! and what is to be written to it in one transaction.
//!
//! The cache has four tables. Metadata is keyed by immutable object ids, so its
//! entries never go stale. Lanes are valid for one epoch, which is recorded
//! beside them, and so is the fingerprint of the references for which the epoch
//! was counted.
use crate::text;
use crate::text::{opt_text, texts};
use vstd::hash_map::StringHashMap;
use vstd::prelude::*;

verus! {

/// The immutable, lane-less part of a commit.
#[derive(Debug, Clone)]
pub struct CachedCommit {
    pub message: String,
    pub author_name: String,
    pub author_email: String,
    pub author_time: i64,
    pub parent_ids: Vec<String>,
}

/// What the metadata of a commit holds.
#[verifier::ext_equal]
pub struct MetaView {
    pub message: Seq<char>,
    pub author_name: Seq<char>,
    pub author_email: Seq<char>,
    pub author_time: i64,
    pub parent_ids: Seq<Seq<char>>,
}

impl View for CachedCommit {
    type V = MetaView;

    open spec fn view(&self) -> MetaView {
        MetaView {
            message: self.message@,
            author_name: self.author_name@,
            author_email: self.author_email@,
            author_time: self.author_time,
            parent_ids: texts(self.parent_ids@),
        }
    }
}

impl CachedCommit {
    /// A copy of the metadata.
    pub fn copy(&self) -> (r: CachedCommit)
        ensures
            r@ == self@,
    {
        CachedCommit {
            message: self.message.clone(),
            author_name: self.author_name.clone(),
            author_email: self.author_email.clone(),
            author_time: self.author_time,
            parent_ids: text::copy_list(&self.parent_ids),
        }
    }
}

/// Metadata by object id.
pub struct CommitMetas {
    metas: StringHashMap<CachedCommit>,
}

impl View for CommitMetas {
    type V = Map<Seq<char>, MetaView>;

    closed spec fn view(&self) -> Map<Seq<char>, MetaView> {
        self.metas@.map_values(|c: CachedCommit| c@)
    }
}

impl CommitMetas {
    /// No metadata.
    pub fn new() -> (r: CommitMetas)
        ensures
            r@ == Map::<Seq<char>, MetaView>::empty(),
    {
        let r = CommitMetas { metas: StringHashMap::new() };
        assert(r@ =~= Map::<Seq<char>, MetaView>::empty());
        r
    }

    /// Sets the metadata of the commit `id`.
    pub fn insert(&mut self, id: String, meta: CachedCommit)
        ensures
            final(self)@ == old(self)@.insert(id@, meta@),
    {
        let ghost key = id@;
        let ghost value = meta@;
        self.metas.insert(id, meta);
        assert(self@ =~= old(self)@.insert(key, value));
    }

    /// The metadata of the commit `id`.
    pub fn get(&self, id: &str) -> (r: Option<&CachedCommit>)
        ensures
            match r {
                Some(m) => self@.contains_key(id@) && m@ == self@[id@],
                None => !self@.contains_key(id@),
            },
    {
        self.metas.get(id)
    }

    /// Whether the metadata of the commit `id` is there.
    pub fn contains(&self, id: &str) -> (r: bool)
        ensures
            r == self@.contains_key(id@),
    {
        self.metas.contains_key(id)
    }
}

// ---------------------------------------------------------------------------
// The tables
// ---------------------------------------------------------------------------
/// What the tables hold.
#[verifier::ext_equal]
pub struct Tables {
    pub commit_meta: Map<Seq<char>, MetaView>,
    pub commit_lanes: Map<Seq<char>, u16>,
    pub epoch: Option<u64>,
    pub fingerprint: Option<Seq<char>>,
}

/// A write to the tables.
pub enum CacheOp {
    ClearCommitMeta,
    ClearCommitLanes,
    PutCommitMeta { id: String, meta: CachedCommit },
    PutCommitLane { id: String, lane: u16 },
    PutEpoch(u64),
    PutFingerprint(String),
}

impl Tables {
    /// The tables after one write.
    pub open spec fn after(self, op: CacheOp) -> Tables {
        match op {
            CacheOp::ClearCommitMeta => Tables { commit_meta: Map::empty(), ..self },
            CacheOp::ClearCommitLanes => Tables { commit_lanes: Map::empty(), ..self },
            CacheOp::PutCommitMeta { id, meta } => Tables {
                commit_meta: self.commit_meta.insert(id@, meta@),
                ..self
            },
            CacheOp::PutCommitLane { id, lane } => Tables {
                commit_lanes: self.commit_lanes.insert(id@, lane),
                ..self
            },
            CacheOp::PutEpoch(epoch) => Tables { epoch: Some(epoch), ..self },
            CacheOp::PutFingerprint(f) => Tables { fingerprint: Some(f@), ..self },
        }
    }

    /// The tables after a transaction: all of its writes, in order.
    pub open spec fn after_all(self, ops: Seq<CacheOp>) -> Tables
        decreases ops.len(),
    {
        if ops.len() == 0 {
            self
        } else {
            self.after_all(ops.drop_last()).after(ops.last())
        }
    }

    /// The metadata table with the entries added in order.
    pub open spec fn with_metas(self, entries: Seq<(String, CachedCommit)>) -> Tables
        decreases entries.len(),
    {
        if entries.len() == 0 {
            self
        } else {
            let before = self.with_metas(entries.drop_last());
            Tables {
                commit_meta: before.commit_meta.insert(entries.last().0@, entries.last().1@),
                ..before
            }
        }
    }

    /// The lane table with the entries added in order.
    pub open spec fn with_lanes(self, entries: Seq<(String, u16)>) -> Tables
        decreases entries.len(),
    {
        if entries.len() == 0 {
            self
        } else {
            let before = self.with_lanes(entries.drop_last());
            Tables {
                commit_lanes: before.commit_lanes.insert(entries.last().0@, entries.last().1),
                ..before
            }
        }
    }

    /// The epoch that a session has to start with, for the references with the
    /// fingerprint `current`.
    pub open spec fn opening_epoch(self, current: Seq<char>) -> int {
        match self.epoch {
            Some(e) => if self.fingerprint == Some(current) {
                e as int
            } else {
                e + 1
            },
            None => 1,
        }
    }

    /// The tables once a session has opened them for the references with the
    /// fingerprint `current`.
    pub open spec fn opened(self, current: Seq<char>) -> Tables {
        if self.epoch is Some && self.fingerprint == Some(current) {
            self
        } else {
            Tables {
                commit_meta: Map::empty(),
                commit_lanes: Map::empty(),
                epoch: Some(self.opening_epoch(current) as u64),
                fingerprint: Some(current),
            }
        }
    }

    /// The tables once they have been made to fit the epoch `current`.
    pub open spec fn at_epoch(self, current: u64) -> Tables {
        if self.epoch == Some(current) {
            self
        } else {
            Tables { commit_lanes: Map::empty(), epoch: Some(current), ..self }
        }
    }
}

/// One more write at the end of a transaction.
proof fn lemma_after_push(tables: Tables, ops: Seq<CacheOp>, op: CacheOp)
    ensures
        tables.after_all(ops.push(op)) == tables.after_all(ops).after(op),
{
    assert(ops.push(op).drop_last() =~= ops);
}

/// How often opening the database is tried while another handle in this process
/// is still releasing its exclusive lock.
pub const OPEN_ATTEMPTS: u32 = 20;

/// How long to wait between two attempts, in milliseconds.
pub const OPEN_PAUSE_MILLIS: u64 = 50;

/// Whether opening the database is tried again after `failures` failures.
pub fn retry_open(failures: u32) -> (r: bool)
    ensures
        r == (failures < OPEN_ATTEMPTS),
{
    failures < OPEN_ATTEMPTS
}

/// What the database records of the cache as a whole, as it was just read.
pub struct Cache {
    pub fingerprint: Option<String>,
    pub epoch: Option<u64>,
}

impl Cache {
    /// Whether `tables` are the tables that the record was read from.
    pub open spec fn records(&self, tables: Tables) -> bool {
        tables.epoch == self.epoch && tables.fingerprint == opt_text(self.fingerprint)
    }

    /// Reconciles the durable epoch with the fingerprint of the references.
    /// Gives the epoch the session must start with and the writes of the one
    /// transaction that brings the tables there:
    /// - no stored state: epoch 1;
    /// - the stored fingerprint matches: the stored epoch, and no writes;
    /// - it differs (references moved while the engine was down, possibly a
    ///   different history): metadata and lanes are cleared and the epoch is
    ///   one more than the stored one.
    pub fn open(&self, fingerprint: &str) -> (r: (u64, Vec<CacheOp>))
        requires
            self.epoch == Some(u64::MAX) ==> opt_text(self.fingerprint) == Some(fingerprint@),
        ensures
            forall|tables: Tables|
                #![trigger tables.after_all(r.1@)]
                self.records(tables) ==> {
                    &&& r.0 == tables.opening_epoch(fingerprint@)
                    &&& tables.after_all(r.1@) == tables.opened(fingerprint@)
                },
            r.1@.len() == 0 <==> self.epoch is Some && opt_text(self.fingerprint) == Some(
                fingerprint@,
            ),
    {
        let matches_stored = match &self.fingerprint {
            Some(f) => text::same(f.as_str(), fingerprint),
            None => false,
        };
        let mut ops: Vec<CacheOp> = Vec::new();
        let epoch: u64 = match self.epoch {
            Some(e) => {
                if matches_stored {
                    return (e, ops);
                }
                e + 1
            },
            None => 1,
        };
        let f = fingerprint.to_owned();
        ops.push(CacheOp::ClearCommitMeta);
        ops.push(CacheOp::ClearCommitLanes);
        ops.push(CacheOp::PutEpoch(epoch));
        ops.push(CacheOp::PutFingerprint(f));
        assert forall|tables: Tables|
            #![trigger tables.after_all(ops@)]
            self.records(tables) implies {
            &&& epoch == tables.opening_epoch(fingerprint@)
            &&& tables.after_all(ops@) == tables.opened(fingerprint@)
        } by {
            let none = Seq::<CacheOp>::empty();
            lemma_after_push(tables, none, ops@[0]);
            lemma_after_push(tables, none.push(ops@[0]), ops@[1]);
            lemma_after_push(tables, none.push(ops@[0]).push(ops@[1]), ops@[2]);
            lemma_after_push(tables, none.push(ops@[0]).push(ops@[1]).push(ops@[2]), ops@[3]);
            assert(ops@ =~= none.push(ops@[0]).push(ops@[1]).push(ops@[2]).push(ops@[3]));
            assert(tables.after_all(none) == tables);
            assert(tables.after_all(ops@) =~= tables.opened(fingerprint@));
        }
        (epoch, ops)
    }

    /// Collects the metadata that was found for many ids in one read
    /// transaction: `rows` holds, for each of `ids`, the entry that could be
    /// decoded, if any.
    pub fn get_commit_metas(ids: &Vec<String>, rows: &Vec<Option<CachedCommit>>) -> (r: CommitMetas)
        requires
            ids@.len() == rows@.len(),
        ensures
            forall|id: Seq<char>| #[trigger]
                r@.contains_key(id) <==> exists|i: int|
                    0 <= i < ids@.len() && ids@[i]@ == id && #[trigger] rows@[i] is Some,
            forall|i: int|
                0 <= i < ids@.len() && (#[trigger] rows@[i]) is Some && (forall|j: int|
                    0 <= j < i && ids@[j]@ == ids@[i]@ ==> (#[trigger] rows@[j]) is None)
                    ==> r@[ids@[i]@] == rows@[i]->0@,
    {
        let mut out = CommitMetas::new();
        let mut i: usize = 0;
        while i < ids.len()
            invariant
                i <= ids@.len(),
                ids@.len() == rows@.len(),
                forall|id: Seq<char>| #[trigger]
                    out@.contains_key(id) <==> exists|k: int|
                        0 <= k < i && ids@[k]@ == id && #[trigger] rows@[k] is Some,
                forall|k: int|
                    0 <= k < i && (#[trigger] rows@[k]) is Some && (forall|j: int|
                        0 <= j < k && ids@[j]@ == ids@[k]@ ==> (#[trigger] rows@[j]) is None)
                        ==> out@[ids@[k]@] == rows@[k]->0@,
            decreases ids.len() - i,
        {
            let ghost before = out@;
            if !out.contains(ids[i].as_str()) {
                match &rows[i] {
                    Some(meta) => {
                        out.insert(ids[i].clone(), meta.copy());
                    },
                    None => {},
                }
            }
            proof {
                let id = ids@[i as int]@;
                assert forall|x: Seq<char>| #[trigger] out@.contains_key(x) <==> exists|k: int|
                    0 <= k < i + 1 && ids@[k]@ == x && #[trigger] rows@[k] is Some by {
                    if out@.contains_key(x) {
                        if before.contains_key(x) {
                            let k = choose|k: int|
                                0 <= k < i && ids@[k]@ == x && #[trigger] rows@[k] is Some;
                            assert(rows@[k] is Some);
                        } else {
                            assert(rows@[i as int] is Some);
                        }
                    }
                    if exists|k: int| 0 <= k < i + 1 && ids@[k]@ == x && #[trigger] rows@[k] is Some {
                        let k = choose|k: int|
                            0 <= k < i + 1 && ids@[k]@ == x && #[trigger] rows@[k] is Some;
                        if k < i {
                            assert(before.contains_key(x));
                        }
                    }
                }
            }
            i += 1;
        }
        out
    }

    /// The writes of the one transaction that persists the metadata of many
    /// commits; none, and no transaction, where there are no commits.
    pub fn put_commit_metas(entries: &Vec<(String, CachedCommit)>) -> (r: Vec<CacheOp>)
        ensures
            forall|tables: Tables|
                #![trigger tables.after_all(r@)]
                tables.after_all(r@) == tables.with_metas(entries@),
            r@.len() == 0 <==> entries@.len() == 0,
    {
        let mut ops: Vec<CacheOp> = Vec::new();
        let mut i: usize = 0;
        assert(entries@.take(0) =~= Seq::<(String, CachedCommit)>::empty());
        while i < entries.len()
            invariant
                i <= entries@.len(),
                ops@.len() == i,
                forall|tables: Tables|
                    #![trigger tables.after_all(ops@)]
                    tables.after_all(ops@) == tables.with_metas(entries@.take(i as int)),
            decreases entries.len() - i,
        {
            let ghost before = ops@;
            let op = CacheOp::PutCommitMeta {
                id: entries[i].0.clone(),
                meta: entries[i].1.copy(),
            };
            ops.push(op);
            assert(entries@.take(i + 1).drop_last() =~= entries@.take(i as int));
            assert forall|tables: Tables|
                #![trigger tables.after_all(ops@)]
                tables.after_all(ops@) == tables.with_metas(entries@.take(i + 1)) by {
                lemma_after_push(tables, before, op);
                assert(tables.after_all(before) == tables.with_metas(entries@.take(i as int)));
            }
            i += 1;
        }
        assert(entries@.take(i as int) =~= entries@);
        ops
    }

    /// The writes of the one transaction that persists lanes together with the
    /// epoch they are valid for; none where there are no lanes.
    pub fn put_lanes_with_epoch(lanes: &Vec<(String, u16)>, epoch: u64) -> (r: Vec<CacheOp>)
        ensures
            forall|tables: Tables|
                #![trigger tables.after_all(r@)]
                tables.after_all(r@) == (if lanes@.len() == 0 {
                    tables
                } else {
                    Tables { epoch: Some(epoch), ..tables.with_lanes(lanes@) }
                }),
            r@.len() == 0 <==> lanes@.len() == 0,
    {
        let mut ops: Vec<CacheOp> = Vec::new();
        if lanes.len() == 0 {
            return ops;
        }
        let mut i: usize = 0;
        assert(lanes@.take(0) =~= Seq::<(String, u16)>::empty());
        while i < lanes.len()
            invariant
                i <= lanes@.len(),
                ops@.len() == i,
                forall|tables: Tables|
                    #![trigger tables.after_all(ops@)]
                    tables.after_all(ops@) == tables.with_lanes(lanes@.take(i as int)),
            decreases lanes.len() - i,
        {
            let ghost before = ops@;
            let op = CacheOp::PutCommitLane { id: lanes[i].0.clone(), lane: lanes[i].1 };
            ops.push(op);
            assert(lanes@.take(i + 1).drop_last() =~= lanes@.take(i as int));
            assert forall|tables: Tables|
                #![trigger tables.after_all(ops@)]
                tables.after_all(ops@) == tables.with_lanes(lanes@.take(i + 1)) by {
                lemma_after_push(tables, before, op);
                assert(tables.after_all(before) == tables.with_lanes(lanes@.take(i as int)));
            }
            i += 1;
        }
        assert(lanes@.take(i as int) =~= lanes@);
        let ghost before = ops@;
        ops.push(CacheOp::PutEpoch(epoch));
        assert forall|tables: Tables|
            #![trigger tables.after_all(ops@)]
            tables.after_all(ops@) == (Tables { epoch: Some(epoch), ..tables.with_lanes(lanes@) }) by {
            lemma_after_push(tables, before, CacheOp::PutEpoch(epoch));
            assert(tables.after_all(before) == tables.with_lanes(lanes@));
        }
        ops
    }

    /// The epoch that the lanes in the cache are valid for.
    pub fn get_cached_epoch(&self) -> (r: Option<u64>)
        ensures
            r == self.epoch,
    {
        self.epoch
    }

    /// If the cached epoch does not match `current_epoch`, the lanes are
    /// cleared and the new epoch is recorded, both in one transaction. Gives
    /// whether that is so, and the writes.
    pub fn invalidate_on_epoch_change(&self, current_epoch: u64) -> (r: (bool, Vec<CacheOp>))
        ensures
            r.0 == (self.epoch != Some(current_epoch)),
            r.0 <==> r.1@.len() > 0,
            forall|tables: Tables|
                #![trigger tables.after_all(r.1@)]
                self.records(tables) ==> tables.after_all(r.1@) == tables.at_epoch(current_epoch),
    {
        let mut ops: Vec<CacheOp> = Vec::new();
        let stale = match self.get_cached_epoch() {
            Some(e) => e != current_epoch,
            None => true,
        };
        if stale {
            ops.push(CacheOp::ClearCommitLanes);
            ops.push(CacheOp::PutEpoch(current_epoch));
            assert forall|tables: Tables|
                #![trigger tables.after_all(ops@)]
                self.records(tables) implies tables.after_all(ops@) == tables.at_epoch(
                current_epoch,
            ) by {
                let none = Seq::<CacheOp>::empty();
                lemma_after_push(tables, none, ops@[0]);
                lemma_after_push(tables, none.push(ops@[0]), ops@[1]);
                assert(ops@ =~= none.push(ops@[0]).push(ops@[1]));
                assert(tables.after_all(none) == tables);
            }
        }
        (stale, ops)
    }
}

// ---------------------------------------------------------------------------
// Laws
// ---------------------------------------------------------------------------
/// A restart over unmoved references keeps the epoch and the tables.
pub proof fn law_restart_reuses_epoch(tables: Tables, fingerprint: Seq<char>)
    requires
        tables.opening_epoch(fingerprint) <= u64::MAX,
    ensures
        tables.opened(fingerprint).opening_epoch(fingerprint) == tables.opening_epoch(fingerprint),
        tables.opened(fingerprint).opened(fingerprint) == tables.opened(fingerprint),
{
}

/// A restart over references that have moved counts the epoch up by one, and
/// nothing that was cached for the old ones is left.
pub proof fn law_moved_refs_bump_epoch(tables: Tables, first: Seq<char>, second: Seq<char>)
    requires
        first != second,
        tables.opening_epoch(first) < u64::MAX,
    ensures
        tables.opened(first).opening_epoch(second) == tables.opening_epoch(first) + 1,
        tables.opened(first).opened(second).commit_lanes == Map::<Seq<char>, u16>::empty(),
        tables.opened(first).opened(second).commit_meta == Map::<Seq<char>, MetaView>::empty(),
{
}

/// Lanes never outlive the epoch that they were computed for: after the tables
/// have been made to fit an epoch, lanes that are left are recorded as that
/// epoch's. Metadata stays.
pub proof fn law_lanes_are_of_the_epoch(tables: Tables, current: u64)
    ensures
        tables.at_epoch(current).epoch == Some(current),
        tables.epoch != Some(current) ==> tables.at_epoch(current).commit_lanes == Map::<
            Seq<char>,
            u16,
        >::empty(),
        tables.at_epoch(current).commit_meta == tables.commit_meta,
        tables.at_epoch(current).at_epoch(current) == tables.at_epoch(current),
{
}

/// A session begins at epoch 1 where nothing is recorded; at the recorded epoch,
/// with all that is cached, where the references are those that it was counted
/// for; and else one higher, with nothing cached, for the references as they are.
pub proof fn law_sessions_begin_at_epoch(tables: Tables, current: Seq<char>)
    ensures
        tables.epoch is None ==> tables.opening_epoch(current) == 1,
        tables.epoch matches Some(e) ==> tables.fingerprint == Some(current)
            ==> tables.opening_epoch(current) == e && tables.opened(current) == tables,
        tables.epoch matches Some(e) ==> tables.fingerprint != Some(current)
            ==> tables.opening_epoch(current) == e + 1,
        tables.epoch is None || tables.fingerprint != Some(current) ==> {
            let opened = tables.opened(current);
            &&& opened.commit_meta == Map::<Seq<char>, MetaView>::empty()
            &&& opened.commit_lanes == Map::<Seq<char>, u16>::empty()
            &&& tables.opening_epoch(current) <= u64::MAX ==> opened.epoch == Some(
                tables.opening_epoch(current) as u64,
            )
            &&& opened.fingerprint == Some(current)
        },
{
}

/// What is put into the cache is found there under its id, as it was put last; what
/// else was there stays.
pub proof fn law_cached_metadata_is_kept(
    tables: Tables,
    entries: Seq<(String, CachedCommit)>,
    i: int,
    id: Seq<char>,
)
    ensures
        0 <= i < entries.len() && (forall|j: int|
            i < j < entries.len() ==> (#[trigger] entries[j]).0@ != entries[i].0@) ==> {
            let after = tables.with_metas(entries);
            &&& after.commit_meta.contains_key(entries[i].0@)
            &&& after.commit_meta[entries[i].0@] == entries[i].1@
        },
        (forall|j: int| 0 <= j < entries.len() ==> (#[trigger] entries[j]).0@ != id) ==> {
            let after = tables.with_metas(entries);
            &&& after.commit_meta.contains_key(id) == tables.commit_meta.contains_key(id)
            &&& after.commit_meta[id] == tables.commit_meta[id]
        },
        tables.with_metas(entries).commit_lanes == tables.commit_lanes,
        tables.with_metas(entries).epoch == tables.epoch,
        tables.with_metas(entries).fingerprint == tables.fingerprint,
    decreases entries.len(),
{
    if entries.len() > 0 {
        let fewer = entries.drop_last();
        law_cached_metadata_is_kept(tables, fewer, i, id);
        assert(entries[entries.len() - 1] == entries.last());
        assert forall|j: int| 0 <= j < fewer.len() implies #[trigger] entries[j] == fewer[j] by {}
        if 0 <= i < fewer.len() && forall|j: int|
            i < j < entries.len() ==> (#[trigger] entries[j]).0@ != entries[i].0@ {
            assert forall|j: int| i < j < fewer.len() implies (#[trigger] fewer[j]).0@
                != fewer[i].0@ by {
                assert(entries[j].0@ != entries[i].0@);
            }
        }
        if forall|j: int| 0 <= j < entries.len() ==> (#[trigger] entries[j]).0@ != id {
            assert forall|j: int| 0 <= j < fewer.len() implies (#[trigger] fewer[j]).0@ != id by {
                assert(entries[j].0@ != id);
            }
        }
    }
}

/// So it is with lanes.
pub proof fn law_cached_lanes_are_kept(
    tables: Tables,
    entries: Seq<(String, u16)>,
    i: int,
    id: Seq<char>,
)
    ensures
        0 <= i < entries.len() && (forall|j: int|
            i < j < entries.len() ==> (#[trigger] entries[j]).0@ != entries[i].0@) ==> {
            let after = tables.with_lanes(entries);
            &&& after.commit_lanes.contains_key(entries[i].0@)
            &&& after.commit_lanes[entries[i].0@] == entries[i].1
        },
        (forall|j: int| 0 <= j < entries.len() ==> (#[trigger] entries[j]).0@ != id) ==> {
            let after = tables.with_lanes(entries);
            &&& after.commit_lanes.contains_key(id) == tables.commit_lanes.contains_key(id)
            &&& after.commit_lanes[id] == tables.commit_lanes[id]
        },
        tables.with_lanes(entries).commit_meta == tables.commit_meta,
        tables.with_lanes(entries).fingerprint == tables.fingerprint,
    decreases entries.len(),
{
    if entries.len() > 0 {
        let fewer = entries.drop_last();
        law_cached_lanes_are_kept(tables, fewer, i, id);
        assert(entries[entries.len() - 1] == entries.last());
        assert forall|j: int| 0 <= j < fewer.len() implies #[trigger] entries[j] == fewer[j] by {}
        if 0 <= i < fewer.len() && forall|j: int|
            i < j < entries.len() ==> (#[trigger] entries[j]).0@ != entries[i].0@ {
            assert forall|j: int| i < j < fewer.len() implies (#[trigger] fewer[j]).0@
                != fewer[i].0@ by {
                assert(entries[j].0@ != entries[i].0@);
            }
        }
        if forall|j: int| 0 <= j < entries.len() ==> (#[trigger] entries[j]).0@ != id {
            assert forall|j: int| 0 <= j < fewer.len() implies (#[trigger] fewer[j]).0@ != id by {
                assert(entries[j].0@ != id);
            }
        }
    }
}

/// What the writes to the tables do, one by one: each changes its own table or
/// record and leaves the others alone.
pub proof fn law_writes_to_the_tables(
    tables: Tables,
    id: String,
    meta: CachedCommit,
    lane: u16,
    epoch: u64,
    fingerprint: String,
)
    ensures
        tables.after(CacheOp::ClearCommitMeta).commit_meta == Map::<Seq<char>, MetaView>::empty(),
        tables.after(CacheOp::ClearCommitMeta).commit_lanes == tables.commit_lanes,
        tables.after(CacheOp::ClearCommitLanes).commit_lanes == Map::<Seq<char>, u16>::empty(),
        tables.after(CacheOp::ClearCommitLanes).commit_meta == tables.commit_meta,
        tables.after(CacheOp::PutCommitMeta { id, meta }).commit_meta == tables.commit_meta.insert(
            id@,
            meta@,
        ),
        tables.after(CacheOp::PutCommitLane { id, lane }).commit_lanes
            == tables.commit_lanes.insert(id@, lane),
        tables.after(CacheOp::PutEpoch(epoch)).epoch == Some(epoch),
        tables.after(CacheOp::PutFingerprint(fingerprint)).fingerprint == Some(fingerprint@),
        tables.after(CacheOp::PutEpoch(epoch)).commit_lanes == tables.commit_lanes,
        tables.after(CacheOp::PutFingerprint(fingerprint)).epoch == tables.epoch,
{
}

/// Opening the database is tried again up to twenty times.
pub proof fn law_opening_is_retried(failures: u32, r: bool)
    requires
        call_ensures(retry_open, (failures,), r),
    ensures
        r <==> failures < 20,
{
}

/// A cache whose lanes are of another epoch loses them, and only then.
pub proof fn law_stale_lanes_are_dropped(
    cache: Cache,
    current: u64,
    r: (bool, Vec<CacheOp>),
    tables: Tables,
)
    requires
        call_ensures(Cache::invalidate_on_epoch_change, (&cache, current), r),
        cache.epoch == tables.epoch,
        opt_text(cache.fingerprint) == tables.fingerprint,
    ensures
        r.0 <==> cache.epoch != Some(current),
        tables.after_all(r.1@).epoch == Some(current),
        tables.after_all(r.1@).commit_meta == tables.commit_meta,
        cache.epoch != Some(current) ==> tables.after_all(r.1@).commit_lanes == Map::<
            Seq<char>,
            u16,
        >::empty(),
        cache.epoch == Some(current) ==> tables.after_all(r.1@).commit_lanes
            == tables.commit_lanes,
{
    assert(cache.records(tables));
}

/// What a session begins with: the epoch that it is given is the one that the
/// tables then record.
pub proof fn law_opened_tables_record_the_epoch(
    cache: Cache,
    fingerprint: &str,
    r: (u64, Vec<CacheOp>),
    tables: Tables,
)
    requires
        call_ensures(Cache::open, (&cache, fingerprint), r),
        cache.epoch == tables.epoch,
        opt_text(cache.fingerprint) == tables.fingerprint,
        tables.epoch == Some(u64::MAX) ==> tables.fingerprint == Some(fingerprint@),
    ensures
        tables.after_all(r.1@).epoch == Some(r.0),
        tables.after_all(r.1@).fingerprint == Some(fingerprint@),
        tables.epoch is None ==> r.0 == 1,
        tables.epoch matches Some(e) ==> r.0 == if tables.fingerprint == Some(fingerprint@) {
            e as int
        } else {
            e + 1
        },
{
    assert(cache.records(tables));
}

} // verus!
