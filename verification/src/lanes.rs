//! The lanes of the commit graph: the column in which each commit is shown.
//!
//! Lanes are assigned by a sweep over the commits, newest first. A tip takes
//! the lowest free lane, a commit with one child its child's lane, and a commit
//! with several children the leftmost of their lanes, while the others become
//! free.
use crate::protocol::Commit;
use crate::text;
use crate::text::texts;
use vstd::hash_map::StringHashMap;
use vstd::prelude::*;

verus! {

broadcast use vstd::hash_map::group_hash_map_axioms;

/// The number of lanes that may be in use at once. With more concurrent lines
/// the assignment collapses: further commits fall back to lane 0.
pub const MAX_LANES: usize = 65535;

/// What a commit holds.
#[verifier::ext_equal]
pub struct CommitView {
    pub id: Seq<char>,
    pub message: Seq<char>,
    pub author_name: Seq<char>,
    pub author_email: Seq<char>,
    pub author_time: i64,
    pub parent_ids: Seq<Seq<char>>,
    pub lane: u16,
}

impl View for Commit {
    type V = CommitView;

    open spec fn view(&self) -> CommitView {
        CommitView {
            id: self.id@,
            message: self.message@,
            author_name: self.author_name@,
            author_email: self.author_email@,
            author_time: self.author_time,
            parent_ids: texts(self.parent_ids@),
            lane: self.lane,
        }
    }
}

/// What a list of commits holds.
pub open spec fn rows_of(s: Seq<Commit>) -> Seq<CommitView> {
    s.map_values(|c: Commit| c@)
}

// ---------------------------------------------------------------------------
// Children
// ---------------------------------------------------------------------------
/// `child`, once for each time that `parents` names `id`.
pub open spec fn links(parents: Seq<Seq<char>>, child: Seq<char>, id: Seq<char>) -> Seq<Seq<char>>
    decreases parents.len(),
{
    if parents.len() == 0 {
        Seq::<Seq<char>>::empty()
    } else {
        let before = links(parents.drop_last(), child, id);
        if parents.last() == id {
            before.push(child)
        } else {
            before
        }
    }
}

/// The commits among `rows` that name `id` as a parent, in the order of the
/// rows, once for each time that they name it.
pub open spec fn children_of(rows: Seq<CommitView>, id: Seq<char>) -> Seq<Seq<char>>
    decreases rows.len(),
{
    if rows.len() == 0 {
        Seq::<Seq<char>>::empty()
    } else {
        children_of(rows.drop_last(), id) + links(rows.last().parent_ids, rows.last().id, id)
    }
}

// ---------------------------------------------------------------------------
// The sweep
// ---------------------------------------------------------------------------
/// What the sweep knows: which lanes are in use, and which lane each commit
/// that was passed has.
#[verifier::ext_equal]
pub struct Sweep {
    pub used: Seq<bool>,
    pub lane_of: Map<Seq<char>, u16>,
}

/// Whether `lane` is the lowest free lane.
pub open spec fn is_lowest_free(used: Seq<bool>, lane: int) -> bool {
    &&& 0 <= lane < used.len()
    &&& !used[lane]
    &&& forall|l: int| 0 <= l < lane ==> used[l]
}

/// `used` with `lane` in use, where there is such a lane.
pub open spec fn occupy(used: Seq<bool>, lane: int) -> Seq<bool> {
    if 0 <= lane < used.len() {
        used.update(lane, true)
    } else {
        used
    }
}

/// The lanes and the lane of a commit for which a new lane is opened, as long
/// as there are lanes left.
pub open spec fn open_lane(used: Seq<bool>) -> (Seq<bool>, u16) {
    if used.len() < MAX_LANES {
        (used.push(true), used.len() as u16)
    } else {
        (used, 0)
    }
}

/// The lanes and the lane of a commit without children.
pub open spec fn place_tip(used: Seq<bool>) -> (Seq<bool>, u16) {
    if exists|lane: int| is_lowest_free(used, lane) {
        let lane = choose|lane: int| is_lowest_free(used, lane);
        (used.update(lane, true), lane as u16)
    } else {
        open_lane(used)
    }
}

/// The lanes of those commits among `ids` that have been passed.
pub open spec fn lanes_of(ids: Seq<Seq<char>>, lane_of: Map<Seq<char>, u16>) -> Seq<u16>
    decreases ids.len(),
{
    if ids.len() == 0 {
        Seq::<u16>::empty()
    } else {
        let before = lanes_of(ids.drop_last(), lane_of);
        if lane_of.contains_key(ids.last()) {
            before.push(lane_of[ids.last()])
        } else {
            before
        }
    }
}

/// Whether `lane` is the leftmost of `taken`.
pub open spec fn is_leftmost(taken: Seq<u16>, lane: u16) -> bool {
    taken.contains(lane) && forall|i: int| 0 <= i < taken.len() ==> lane <= #[trigger] taken[i]
}

/// Whether the lane `l` stands in `taken`.
pub open spec fn has_lane(taken: Seq<u16>, l: int) -> bool {
    exists|i: int| 0 <= i < taken.len() && taken[i] == l
}

/// How often `lane` stands in `taken`.
pub open spec fn times(taken: Seq<u16>, lane: u16) -> nat
    decreases taken.len(),
{
    if taken.len() == 0 {
        0
    } else {
        times(taken.drop_last(), lane) + if taken.last() == lane {
            1nat
        } else {
            0nat
        }
    }
}

/// The lanes after a commit took the lane `chosen` over from one of its
/// children, whose lanes are `taken`: the lanes of the other children are
/// free, and `chosen` as well where another child stands in it.
pub open spec fn join_lanes(used: Seq<bool>, taken: Seq<u16>, chosen: u16) -> Seq<bool> {
    Seq::new(
        used.len(),
        |l: int|
            if l == chosen {
                times(taken, chosen) == 1
            } else if has_lane(taken, l) {
                false
            } else {
                used[l]
            },
    )
}

/// The lanes and the lane of a commit with the children `children`.
pub open spec fn place(sweep: Sweep, children: Seq<Seq<char>>) -> (Seq<bool>, u16) {
    if children.len() == 0 {
        place_tip(sweep.used)
    } else if children.len() == 1 {
        let lane = if sweep.lane_of.contains_key(children[0]) {
            sweep.lane_of[children[0]]
        } else {
            0
        };
        (occupy(sweep.used, lane as int), lane)
    } else {
        let taken = lanes_of(children, sweep.lane_of);
        if taken.len() == 0 {
            open_lane(sweep.used)
        } else {
            let chosen = choose|lane: u16| is_leftmost(taken, lane);
            (join_lanes(sweep.used, taken, chosen), chosen)
        }
    }
}

/// What the sweep knows after the first `n` of `rows`.
pub open spec fn sweep_of(rows: Seq<CommitView>, n: int) -> Sweep
    decreases n,
{
    if n <= 0 {
        Sweep { used: Seq::<bool>::empty(), lane_of: Map::<Seq<char>, u16>::empty() }
    } else {
        let before = sweep_of(rows, n - 1);
        let placed = place(before, children_of(rows, rows[n - 1].id));
        Sweep { used: placed.0, lane_of: before.lane_of.insert(rows[n - 1].id, placed.1) }
    }
}

/// The lane of row `i`.
pub open spec fn lane_at(rows: Seq<CommitView>, i: int) -> u16 {
    place(sweep_of(rows, i), children_of(rows, rows[i].id)).1
}

/// `rows` with their lanes.
pub open spec fn with_lanes(rows: Seq<CommitView>) -> Seq<CommitView> {
    Seq::new(rows.len(), |i: int| CommitView { lane: lane_at(rows, i), ..rows[i] })
}

// ---------------------------------------------------------------------------
// Finding the children of a commit
// ---------------------------------------------------------------------------
/// The children of every commit that some row names as a parent.
struct ChildIndex {
    /// Where the children of a commit stand in `slots`.
    slot_of: StringHashMap<usize>,
    /// The rows of the children of a commit.
    slots: Vec<Vec<usize>>,
}

impl ChildIndex {
    /// Every commit has a slot of its own, which holds numbers of rows.
    spec fn wf(&self, rows: nat) -> bool {
        &&& forall|id: Seq<char>| #[trigger]
            self.slot_of@.contains_key(id) ==> self.slot_of@[id] < self.slots@.len()
        &&& forall|a: Seq<char>, b: Seq<char>|
            #![trigger self.slot_of@.contains_key(a), self.slot_of@.contains_key(b)]
            self.slot_of@.contains_key(a) && self.slot_of@.contains_key(b) && self.slot_of@[a]
                == self.slot_of@[b] ==> a == b
        &&& forall|k: int, j: int|
            #![trigger self.slots@[k]@[j]]
            0 <= k < self.slots@.len() && 0 <= j < self.slots@[k]@.len() ==> self.slots@[k]@[j]
                < rows
    }

    /// The children of `id`.
    spec fn children(&self, rows: Seq<CommitView>, id: Seq<char>) -> Seq<Seq<char>> {
        if self.slot_of@.contains_key(id) {
            self.slots@[self.slot_of@[id] as int]@.map_values(|i: usize| rows[i as int].id)
        } else {
            Seq::<Seq<char>>::empty()
        }
    }

    /// Notes row `child` as a child of `id`.
    fn link(&mut self, id: &str, child: usize, Ghost(rows): Ghost<Seq<CommitView>>)
        requires
            old(self).wf(rows.len()),
            child < rows.len(),
        ensures
            final(self).wf(rows.len()),
            forall|other: Seq<char>|
                #![trigger final(self).children(rows, other)]
                final(self).children(rows, other) == if other == id@ {
                    old(self).children(rows, other).push(rows[child as int].id)
                } else {
                    old(self).children(rows, other)
                },
    {
        let known = match self.slot_of.get(id) {
            Some(k) => Some(*k),
            None => None,
        };
        match known {
            Some(k) => {
                let ghost before = self.slots@[k as int]@;
                self.slots[k].push(child);
                assert(self.slots@[k as int]@ == before.push(child));
            },
            None => {
                let k: usize = self.slots.len();
                let mut fresh: Vec<usize> = Vec::new();
                fresh.push(child);
                self.slots.push(fresh);
                self.slot_of.insert(id.to_owned(), k);
            },
        }
        proof {
            assert forall|other: Seq<char>|
                #![trigger self.children(rows, other)]
                self.children(rows, other) == if other == id@ {
                    old(self).children(rows, other).push(rows[child as int].id)
                } else {
                    old(self).children(rows, other)
                } by {
                if other == id@ {
                    assert(self.children(rows, other) =~= old(self).children(rows, other).push(
                        rows[child as int].id,
                    ));
                } else {
                    assert(self.children(rows, other) =~= old(self).children(rows, other));
                }
            }
        }
    }

    /// The children among `commits` of every commit.
    fn new(commits: &Vec<Commit>) -> (r: ChildIndex)
        ensures
            r.wf(commits@.len()),
            forall|id: Seq<char>|
                #![trigger r.children(rows_of(commits@), id)]
                r.children(rows_of(commits@), id) == children_of(rows_of(commits@), id),
    {
        let ghost rows = rows_of(commits@);
        let mut index = ChildIndex { slot_of: StringHashMap::new(), slots: Vec::new() };
        let mut i: usize = 0;
        assert(rows.take(0) =~= Seq::<CommitView>::empty());
        while i < commits.len()
            invariant
                i <= commits@.len(),
                rows == rows_of(commits@),
                index.wf(rows.len()),
                forall|id: Seq<char>|
                    #![trigger index.children(rows, id)]
                    index.children(rows, id) == children_of(rows.take(i as int), id),
            decreases commits.len() - i,
        {
            let parents = &commits[i].parent_ids;
            let ghost names = texts(parents@);
            let mut j: usize = 0;
            assert(rows[i as int].parent_ids == names);
            assert(names.take(0) =~= Seq::<Seq<char>>::empty());
            assert forall|id: Seq<char>|
                #![trigger index.children(rows, id)]
                index.children(rows, id) == children_of(rows.take(i as int), id) + links(
                    names.take(0),
                    rows[i as int].id,
                    id,
                ) by {
                assert(children_of(rows.take(i as int), id) + Seq::<Seq<char>>::empty()
                    =~= children_of(rows.take(i as int), id));
            }
            while j < parents.len()
                invariant
                    i < commits@.len(),
                    rows == rows_of(commits@),
                    j <= parents@.len(),
                    names == texts(parents@),
                    index.wf(rows.len()),
                    forall|id: Seq<char>|
                        #![trigger index.children(rows, id)]
                        index.children(rows, id) == children_of(rows.take(i as int), id) + links(
                            names.take(j as int),
                            rows[i as int].id,
                            id,
                        ),
                decreases parents.len() - j,
            {
                let ghost before = index;
                index.link(parents[j].as_str(), i, Ghost(rows));
                assert forall|id: Seq<char>|
                    #![trigger index.children(rows, id)]
                    index.children(rows, id) == children_of(rows.take(i as int), id) + links(
                        names.take(j + 1),
                        rows[i as int].id,
                        id,
                    ) by {
                    assert(names.take(j + 1).drop_last() =~= names.take(j as int));
                    let old_links = links(names.take(j as int), rows[i as int].id, id);
                    let base = children_of(rows.take(i as int), id);
                    assert(before.children(rows, id) == base + old_links);
                    assert((base + old_links).push(rows[i as int].id) =~= base + old_links.push(
                        rows[i as int].id,
                    ));
                }
                j += 1;
            }
            assert(names.take(j as int) =~= names);
            assert(rows.take(i + 1).drop_last() =~= rows.take(i as int));
            i += 1;
        }
        assert(rows.take(i as int) =~= rows);
        index
    }
}

// ---------------------------------------------------------------------------
// Assigning lanes
// ---------------------------------------------------------------------------
/// The lane of a commit for which a new lane is opened.
fn exec_open_lane(used: &mut Vec<bool>) -> (r: u16)
    ensures
        (final(used)@, r) == open_lane(old(used)@),
{
    let lane: usize = used.len();
    if lane < MAX_LANES {
        used.push(true);
        lane as u16
    } else {
        0
    }
}

/// There is at most one lowest free lane.
proof fn lemma_lowest_free_unique(used: Seq<bool>, a: int, b: int)
    requires
        is_lowest_free(used, a),
        is_lowest_free(used, b),
    ensures
        a == b,
{
}

/// The lane of a commit without children.
fn exec_place_tip(used: &mut Vec<bool>) -> (r: u16)
    requires
        old(used)@.len() <= MAX_LANES,
    ensures
        (final(used)@, r) == place_tip(old(used)@),
{
    let mut i: usize = 0;
    while i < used.len()
        invariant
            i <= used@.len(),
            used@ == old(used)@,
            used@.len() <= MAX_LANES,
            forall|l: int| 0 <= l < i ==> used@[l],
        decreases used.len() - i,
    {
        if !used[i] {
            proof {
                assert(is_lowest_free(used@, i as int));
                let lane = choose|lane: int| is_lowest_free(used@, lane);
                lemma_lowest_free_unique(used@, lane, i as int);
            }
            used.set(i, true);
            return i as u16;
        }
        i += 1;
    }
    assert(!exists|lane: int| is_lowest_free(used@, lane));
    exec_open_lane(used)
}

/// There is at most one leftmost lane.
proof fn lemma_leftmost_unique(taken: Seq<u16>, a: u16, b: u16)
    requires
        is_leftmost(taken, a),
        is_leftmost(taken, b),
    ensures
        a == b,
{
    let i = choose|i: int| 0 <= i < taken.len() && taken[i] == a;
    let j = choose|j: int| 0 <= j < taken.len() && taken[j] == b;
    assert(b <= taken[i]);
    assert(a <= taken[j]);
}

/// A lane that stands in `taken` is counted there.
proof fn lemma_times(taken: Seq<u16>, lane: u16)
    ensures
        times(taken, lane) > 0 <==> taken.contains(lane),
    decreases taken.len(),
{
    if taken.len() > 0 {
        let rest = taken.drop_last();
        lemma_times(rest, lane);
        if taken.contains(lane) && taken.last() != lane {
            let i = choose|i: int| 0 <= i < taken.len() && taken[i] == lane;
            assert(rest[i] == lane);
        }
        if rest.contains(lane) {
            let i = choose|i: int| 0 <= i < rest.len() && rest[i] == lane;
            assert(taken[i] == lane);
        }
        if taken.last() == lane {
            assert(taken[taken.len() - 1] == lane);
        }
    }
}

/// What the lanes are once the children in `taken` have been passed: the first
/// that stands in `chosen` keeps it in use, every other frees its lane.
spec fn join_upto(used: Seq<bool>, taken: Seq<u16>, chosen: u16) -> Seq<bool> {
    Seq::new(
        used.len(),
        |l: int|
            if l == chosen {
                times(taken, chosen) <= 1
            } else if has_lane(taken, l) {
                false
            } else {
                used[l]
            },
    )
}

/// The lane of a commit that takes over the leftmost of the lanes `taken`.
fn exec_join(used: &mut Vec<bool>, taken: &Vec<u16>) -> (r: u16)
    requires
        taken@.len() > 0,
    ensures
        is_leftmost(taken@, r),
        final(used)@ == join_lanes(old(used)@, taken@, r),
{
    let mut chosen: u16 = taken[0];
    let mut i: usize = 1;
    assert(taken@.take(1)[0] == chosen);
    while i < taken.len()
        invariant
            1 <= i <= taken@.len(),
            taken@.take(i as int).contains(chosen),
            forall|k: int| 0 <= k < i ==> chosen <= #[trigger] taken@[k],
        decreases taken.len() - i,
    {
        let ghost before = taken@.take(i as int);
        let ghost after = taken@.take(i + 1);
        let l: u16 = taken[i];
        proof {
            let k = choose|k: int| 0 <= k < before.len() && before[k] == chosen;
            assert(after[k] == chosen);
            assert(after[i as int] == l);
        }
        if l < chosen {
            chosen = l;
        }
        i += 1;
    }
    assert(taken@.take(i as int) =~= taken@);
    if (chosen as usize) < used.len() {
        used.set(chosen as usize, true);
    }
    let ghost base = old(used)@;
    let mut kept = false;
    let mut j: usize = 0;
    assert(taken@.take(0) =~= Seq::<u16>::empty());
    assert(used@ =~= join_upto(base, taken@.take(0), chosen));
    while j < taken.len()
        invariant
            j <= taken@.len(),
            used@.len() == base.len(),
            used@ == join_upto(base, taken@.take(j as int), chosen),
            kept == (times(taken@.take(j as int), chosen) > 0),
        decreases taken.len() - j,
    {
        let l: u16 = taken[j];
        let ghost seen = taken@.take(j as int);
        let ghost now = taken@.take(j + 1);
        proof {
            assert(now.drop_last() =~= seen);
            assert(now.last() == l);
            assert forall|x: int|
                #![trigger has_lane(now, x)]
                has_lane(now, x) <==> (x == l || has_lane(seen, x)) by {
                if x == l {
                    assert(now[j as int] == x);
                }
                if has_lane(seen, x) {
                    let i = choose|i: int| 0 <= i < seen.len() && seen[i] == x;
                    assert(now[i] == x);
                }
                if has_lane(now, x) {
                    let i = choose|i: int| 0 <= i < now.len() && now[i] == x;
                    if i < j {
                        assert(seen[i] == x);
                    }
                }
            }
        }
        if l == chosen && !kept {
            kept = true;
        } else if (l as usize) < used.len() {
            used.set(l as usize, false);
        }
        assert(used@ =~= join_upto(base, now, chosen));
        j += 1;
    }
    assert(taken@.take(j as int) =~= taken@);
    proof {
        lemma_times(taken@, chosen);
    }
    assert(used@ =~= join_lanes(base, taken@, chosen));
    chosen
}

/// The commits with their lanes, newest first.
pub fn assign_lanes(commits: Vec<Commit>) -> (r: Vec<Commit>)
    ensures
        rows_of(r@) == with_lanes(rows_of(commits@)),
{
    let mut commits = commits;
    let ghost rows = rows_of(commits@);
    let index = ChildIndex::new(&commits);
    let mut used: Vec<bool> = Vec::new();
    let mut lane_of: StringHashMap<u16> = StringHashMap::new();
    let total: usize = commits.len();
    let mut i: usize = 0;
    assert(used@ =~= Seq::<bool>::empty());
    while i < total
        invariant
            i <= total,
            total == commits@.len(),
            rows.len() == total,
            forall|k: int|
                #![trigger commits@[k]]
                0 <= k < i ==> commits@[k]@ == (CommitView { lane: lane_at(rows, k), ..rows[k] }),
            forall|k: int| #![trigger commits@[k]] i <= k < total ==> commits@[k]@ == rows[k],
            index.wf(total as nat),
            forall|id: Seq<char>|
                #![trigger index.children(rows, id)]
                index.children(rows, id) == children_of(rows, id),
            used@ == sweep_of(rows, i as int).used,
            lane_of@ == sweep_of(rows, i as int).lane_of,
            used@.len() <= MAX_LANES,
        decreases total - i,
    {
        let ghost sweep = sweep_of(rows, i as int);
        let id = commits[i].id.clone();
        let ghost children = children_of(rows, id@);
        assert(index.children(rows, id@) == children);
        assert(rows[i as int].id == id@);
        let slot = match index.slot_of.get(id.as_str()) {
            Some(k) => Some(*k),
            None => None,
        };
        let lane: u16 = match slot {
            None => exec_place_tip(&mut used),
            Some(k) => {
                let members = &index.slots[k];
                assert(children == members@.map_values(|i: usize| rows[i as int].id));
                if members.len() == 0 {
                    exec_place_tip(&mut used)
                } else if members.len() == 1 {
                    let child: usize = members[0];
                    assert(index.slots@[k as int]@[0] == child);
                    assert(children[0] == rows[child as int].id);
                    assert(commits@[child as int]@.id == rows[child as int].id);
                    let lane: u16 = match lane_of.get(commits[child].id.as_str()) {
                        Some(l) => *l,
                        None => 0,
                    };
                    if (lane as usize) < used.len() {
                        used.set(lane as usize, true);
                    }
                    lane
                } else {
                    let mut taken: Vec<u16> = Vec::new();
                    let mut j: usize = 0;
                    assert(children.take(0) =~= Seq::<Seq<char>>::empty());
                    while j < members.len()
                        invariant
                            j <= members@.len(),
                            k < index.slots@.len(),
                            members@ == index.slots@[k as int]@,
                            index.wf(total as nat),
                            total == commits@.len(),
                            total == rows.len(),
                            children == members@.map_values(|i: usize| rows[i as int].id),
                            forall|k: int|
                                #![trigger commits@[k]]
                                0 <= k < total ==> commits@[k]@.id == rows[k].id,
                            lane_of@ == sweep.lane_of,
                            taken@ == lanes_of(children.take(j as int), sweep.lane_of),
                        decreases members.len() - j,
                    {
                        let child: usize = members[j];
                        assert(index.slots@[k as int]@[j as int] == child);
                        assert(children[j as int] == rows[child as int].id);
                        assert(commits@[child as int]@.id == rows[child as int].id);
                        assert(children.take(j + 1).drop_last() =~= children.take(j as int));
                        assert(children.take(j + 1).last() == rows[child as int].id);
                        match lane_of.get(commits[child].id.as_str()) {
                            Some(l) => {
                                taken.push(*l);
                            },
                            None => {},
                        }
                        j += 1;
                    }
                    assert(children.take(j as int) =~= children);
                    if taken.len() == 0 {
                        exec_open_lane(&mut used)
                    } else {
                        let chosen: u16 = exec_join(&mut used, &taken);
                        proof {
                            let picked = choose|lane: u16| is_leftmost(taken@, lane);
                            lemma_leftmost_unique(taken@, picked, chosen);
                        }
                        chosen
                    }
                }
            },
        };
        assert((used@, lane) == place(sweep, children));
        commits[i].lane = lane;
        lane_of.insert(id, lane);
        i += 1;
    }
    assert(rows_of(commits@) =~= with_lanes(rows));
    commits
}

// ---------------------------------------------------------------------------
// Laws
// ---------------------------------------------------------------------------
/// The sweep never has more lanes than there may be, and every commit that it
/// passed stands in one of them.
proof fn lemma_sweep_in_range(rows: Seq<CommitView>, n: int)
    requires
        0 <= n <= rows.len(),
    ensures
        sweep_of(rows, n).used.len() <= MAX_LANES,
        forall|id: Seq<char>| #[trigger]
            sweep_of(rows, n).lane_of.contains_key(id) ==> sweep_of(rows, n).lane_of[id]
                < MAX_LANES,
    decreases n,
{
    if n > 0 {
        lemma_sweep_in_range(rows, n - 1);
        lemma_place_in_range(sweep_of(rows, n - 1), children_of(rows, rows[n - 1].id));
    }
}

/// A lane that is given out is one of the lanes that there may be.
proof fn lemma_place_in_range(sweep: Sweep, children: Seq<Seq<char>>)
    requires
        sweep.used.len() <= MAX_LANES,
        forall|id: Seq<char>| #[trigger]
            sweep.lane_of.contains_key(id) ==> sweep.lane_of[id] < MAX_LANES,
    ensures
        place(sweep, children).0.len() <= MAX_LANES,
        place(sweep, children).1 < MAX_LANES,
{
    if children.len() == 0 {
        if exists|lane: int| is_lowest_free(sweep.used, lane) {
            let lane = choose|lane: int| is_lowest_free(sweep.used, lane);
            assert(is_lowest_free(sweep.used, lane));
        }
    } else if children.len() > 1 {
        let taken = lanes_of(children, sweep.lane_of);
        lemma_lanes_of(children, sweep.lane_of);
        if taken.len() > 0 {
            lemma_has_leftmost(taken);
            let chosen = choose|lane: u16| is_leftmost(taken, lane);
            assert(is_leftmost(taken, chosen));
            let i = choose|i: int| 0 <= i < taken.len() && taken[i] == chosen;
            assert(taken[i] == chosen);
        }
    }
}

/// The lanes of passed commits are lanes that were given out.
proof fn lemma_lanes_of(ids: Seq<Seq<char>>, lane_of: Map<Seq<char>, u16>)
    ensures
        forall|i: int|
            0 <= i < lanes_of(ids, lane_of).len() ==> exists|k: int|
                0 <= k < ids.len() && lane_of.contains_key(ids[k]) && #[trigger] lanes_of(
                    ids,
                    lane_of,
                )[i] == lane_of[ids[k]],
    decreases ids.len(),
{
    if ids.len() > 0 {
        let rest = ids.drop_last();
        lemma_lanes_of(rest, lane_of);
        assert forall|i: int| 0 <= i < lanes_of(ids, lane_of).len() implies exists|k: int|
            0 <= k < ids.len() && lane_of.contains_key(ids[k]) && #[trigger] lanes_of(
                ids,
                lane_of,
            )[i] == lane_of[ids[k]] by {
            if i < lanes_of(rest, lane_of).len() {
                assert(lanes_of(ids, lane_of)[i] == lanes_of(rest, lane_of)[i]);
                let k = choose|k: int|
                    0 <= k < rest.len() && lane_of.contains_key(rest[k]) && lanes_of(rest, lane_of)[i]
                        == lane_of[rest[k]];
                assert(ids[k] == rest[k]);
            } else {
                assert(ids[ids.len() - 1] == ids.last());
            }
        }
    }
}

/// Some lane of a list of lanes is the leftmost.
proof fn lemma_has_leftmost(taken: Seq<u16>)
    requires
        taken.len() > 0,
    ensures
        exists|lane: u16| is_leftmost(taken, lane),
    decreases taken.len(),
{
    let last = taken.last();
    assert(taken[taken.len() - 1] == last);
    if taken.len() == 1 {
        assert(is_leftmost(taken, last));
    } else {
        let rest = taken.drop_last();
        lemma_has_leftmost(rest);
        let best = choose|lane: u16| is_leftmost(rest, lane);
        let i = choose|i: int| 0 <= i < rest.len() && rest[i] == best;
        assert(taken[i] == best);
        let lane = if last < best {
            last
        } else {
            best
        };
        assert forall|k: int| 0 <= k < taken.len() implies lane <= #[trigger] taken[k] by {
            if k < rest.len() {
                assert(best <= rest[k]);
            }
        }
        assert(is_leftmost(taken, lane));
    }
}

/// Every commit gets one of the lanes that there may be, however many lines
/// run side by side.
pub proof fn law_lanes_in_range(rows: Seq<CommitView>, i: int)
    requires
        0 <= i < rows.len(),
    ensures
        with_lanes(rows)[i].lane < MAX_LANES,
{
    lemma_sweep_in_range(rows, i);
    lemma_place_in_range(sweep_of(rows, i), children_of(rows, rows[i].id));
}

/// Whether no two rows have the same id, as in any walk of a history.
pub open spec fn distinct_ids(rows: Seq<CommitView>) -> bool {
    forall|i: int, j: int|
        #![trigger rows[i].id, rows[j].id]
        0 <= i < j < rows.len() ==> rows[i].id != rows[j].id
}

/// The sweep remembers the lane of every row that it passed.
proof fn lemma_sweep_remembers(rows: Seq<CommitView>, n: int, i: int)
    requires
        0 <= i < n <= rows.len(),
        distinct_ids(rows),
    ensures
        sweep_of(rows, n).lane_of.contains_key(rows[i].id),
        sweep_of(rows, n).lane_of[rows[i].id] == lane_at(rows, i),
    decreases n,
{
    if i < n - 1 {
        lemma_sweep_remembers(rows, n - 1, i);
        assert(rows[i].id != rows[n - 1].id);
    }
}

/// A commit whose only child came before it stands in the lane of that child.
pub proof fn law_only_child_passes_lane_on(rows: Seq<CommitView>, child: int, parent: int)
    requires
        0 <= child < parent < rows.len(),
        distinct_ids(rows),
        children_of(rows, rows[parent].id) == seq![rows[child].id],
    ensures
        with_lanes(rows)[parent].lane == with_lanes(rows)[child].lane,
{
    lemma_sweep_remembers(rows, parent, child);
}

/// A commit with several children stands in the lane of one of those that came
/// before it, and none of those stands left of it.
pub proof fn law_parent_stands_leftmost(rows: Seq<CommitView>, child: int, parent: int)
    requires
        0 <= child < parent < rows.len(),
        distinct_ids(rows),
        children_of(rows, rows[parent].id).len() >= 2,
        children_of(rows, rows[parent].id).contains(rows[child].id),
    ensures
        with_lanes(rows)[parent].lane <= with_lanes(rows)[child].lane,
        exists|k: int|
            0 <= k < parent && children_of(rows, rows[parent].id).contains(rows[k].id)
                && with_lanes(rows)[parent].lane == #[trigger] with_lanes(rows)[k].lane,
{
    let sweep = sweep_of(rows, parent);
    let children = children_of(rows, rows[parent].id);
    let taken = lanes_of(children, sweep.lane_of);
    lemma_sweep_remembers(rows, parent, child);
    let at = choose|at: int| 0 <= at < children.len() && children[at] == rows[child].id;
    lemma_lanes_of_has(children, sweep.lane_of, at);
    lemma_has_leftmost(taken);
    let chosen = choose|lane: u16| is_leftmost(taken, lane);
    assert(is_leftmost(taken, chosen));
    let t = choose|t: int| 0 <= t < taken.len() && taken[t] == sweep.lane_of[children[at]];
    assert(chosen <= taken[t]);
    let c = choose|c: int| 0 <= c < taken.len() && taken[c] == chosen;
    lemma_lanes_of(children, sweep.lane_of);
    let k = choose|k: int|
        0 <= k < children.len() && sweep.lane_of.contains_key(children[k]) && taken[c]
            == sweep.lane_of[children[k]];
    lemma_sweep_knows_rows(rows, parent, children[k]);
    let row = choose|row: int| 0 <= row < parent && rows[row].id == children[k];
    lemma_sweep_remembers(rows, parent, row);
    assert(children.contains(rows[row].id));
    assert(with_lanes(rows)[row].lane == chosen);
}

/// A commit that does not name a parent is no child of it.
proof fn lemma_no_link(parents: Seq<Seq<char>>, child: Seq<char>, id: Seq<char>)
    requires
        !parents.contains(id),
    ensures
        links(parents, child, id).len() == 0,
    decreases parents.len(),
{
    if parents.len() > 0 {
        let fewer = parents.drop_last();
        assert(parents[parents.len() - 1] == parents.last());
        assert(!fewer.contains(id)) by {
            if fewer.contains(id) {
                let k = choose|k: int| 0 <= k < fewer.len() && fewer[k] == id;
                assert(parents[k] == id);
            }
        }
        lemma_no_link(fewer, child, id);
    }
}

/// Rows that do not name a commit as a parent add no children to it.
proof fn lemma_children_in_window(rows: Seq<CommitView>, n: int, id: Seq<char>)
    requires
        0 <= n <= rows.len(),
        forall|j: int| n <= j < rows.len() ==> !(#[trigger] rows[j]).parent_ids.contains(id),
    ensures
        children_of(rows, id) == children_of(rows.take(n), id),
    decreases rows.len(),
{
    if n < rows.len() {
        let fewer = rows.drop_last();
        assert forall|j: int| n <= j < fewer.len() implies !(
        #[trigger] fewer[j]).parent_ids.contains(id) by {
            assert(fewer[j] == rows[j]);
        }
        lemma_children_in_window(fewer, n, id);
        assert(fewer.take(n) =~= rows.take(n));
        let last = rows[rows.len() - 1];
        lemma_no_link(last.parent_ids, last.id, id);
        assert(children_of(rows, id) =~= children_of(fewer, id));
    } else {
        assert(rows.take(n) =~= rows);
    }
}

/// Whether no row from `n` on names one before it as a parent: children come
/// before their parents at this place of the walk.
pub open spec fn children_come_first(rows: Seq<CommitView>, n: int) -> bool {
    forall|i: int, j: int|
        #![trigger rows[i], rows[j]]
        0 <= i < n <= j < rows.len() ==> !rows[j].parent_ids.contains(rows[i].id)
}

/// The sweep over the first rows goes the same way in a larger window.
proof fn lemma_sweep_in_window(rows: Seq<CommitView>, n: int, k: int)
    requires
        0 <= k <= n <= rows.len(),
        children_come_first(rows, n),
    ensures
        sweep_of(rows.take(n), k) == sweep_of(rows, k),
    decreases k,
{
    if k > 0 {
        lemma_sweep_in_window(rows, n, k - 1);
        assert(rows.take(n)[k - 1] == rows[k - 1]);
        lemma_children_in_window(rows, n, rows[k - 1].id);
    }
}

/// Lanes stay as they are when the walked window grows: the first `n` rows have
/// the lanes that they have in a window of their own, wherever children come
/// before their parents.
pub proof fn law_lanes_stay_in_larger_window(rows: Seq<CommitView>, n: int)
    requires
        0 <= n <= rows.len(),
        children_come_first(rows, n),
    ensures
        with_lanes(rows).take(n) == with_lanes(rows.take(n)),
{
    let some = rows.take(n);
    assert forall|i: int| 0 <= i < n implies with_lanes(rows)[i] == with_lanes(some)[i] by {
        lemma_sweep_in_window(rows, n, i);
        assert(some[i] == rows[i]);
        lemma_children_in_window(rows, n, rows[i].id);
    }
    assert(with_lanes(rows).take(n) =~= with_lanes(some));
}

/// The lane of a passed commit is among the lanes of a list that names it.
proof fn lemma_lanes_of_has(ids: Seq<Seq<char>>, lane_of: Map<Seq<char>, u16>, at: int)
    requires
        0 <= at < ids.len(),
        lane_of.contains_key(ids[at]),
    ensures
        lanes_of(ids, lane_of).contains(lane_of[ids[at]]),
    decreases ids.len(),
{
    let all = lanes_of(ids, lane_of);
    if at == ids.len() - 1 {
        assert(all.last() == lane_of[ids[at]]);
        assert(all[all.len() - 1] == lane_of[ids[at]]);
    } else {
        let rest = ids.drop_last();
        lemma_lanes_of_has(rest, lane_of, at);
        let before = lanes_of(rest, lane_of);
        let i = choose|i: int| 0 <= i < before.len() && before[i] == lane_of[rest[at]];
        assert(all[i] == before[i]);
    }
}

/// The sweep knows no commits but those that it passed.
proof fn lemma_sweep_knows_rows(rows: Seq<CommitView>, n: int, id: Seq<char>)
    requires
        0 <= n <= rows.len(),
        sweep_of(rows, n).lane_of.contains_key(id),
    ensures
        exists|row: int| 0 <= row < n && #[trigger] rows[row].id == id,
    decreases n,
{
    if n > 0 {
        if rows[n - 1].id != id {
            lemma_sweep_knows_rows(rows, n - 1, id);
            let row = choose|row: int| 0 <= row < n - 1 && #[trigger] rows[row].id == id;
            assert(rows[row].id == id);
        }
    }
}

// ---------------------------------------------------------------------------
// Lanes and lines
// ---------------------------------------------------------------------------
/// Whether the first `n` rows come before their parents: none of them is named as
/// a parent by itself or by a row behind it.
pub open spec fn in_order(rows: Seq<CommitView>, n: int) -> bool {
    forall|i: int, j: int|
        #![trigger rows[i], rows[j]]
        0 <= i < n && i <= j < rows.len() ==> !rows[j].parent_ids.contains(rows[i].id)
}

/// Whether row `k` names row `q` as its parent number `m`.
pub open spec fn is_link(rows: Seq<CommitView>, q: int, k: int, m: int) -> bool {
    &&& 0 <= k < rows.len()
    &&& 0 <= m < rows[k].parent_ids.len()
    &&& rows[k].parent_ids[m] == rows[q].id
}

/// The lane in which row `i` is shown.
pub open spec fn shown_in(rows: Seq<CommitView>, i: int) -> int {
    with_lanes(rows)[i].lane as int
}

/// Whether two lines of the lane in which row `r` stands meet in it.
pub open spec fn lines_meet_in(rows: Seq<CommitView>, r: int) -> bool {
    exists|k: int, m: int, k2: int, m2: int| #[trigger]
        is_link(rows, r, k, m) && #[trigger] is_link(rows, r, k2, m2) && (k, m) != (k2, m2)
            && shown_in(rows, k) == shown_in(rows, r) && shown_in(rows, k2) == shown_in(rows, r)
}

/// Whether row `r` is the last of the first `n` that stands in `lane`.
pub open spec fn is_last_in(rows: Seq<CommitView>, lane: int, r: int, n: int) -> bool {
    &&& 0 <= r < n
    &&& shown_in(rows, r) == lane
    &&& forall|k: int| r < k < n ==> #[trigger] shown_in(rows, k) != lane
}

/// Whether some row of `lane` has a parent between rows `r` and `n`: the line that
/// runs there goes over into another lane.
pub open spec fn line_leaves(rows: Seq<CommitView>, lane: int, r: int, n: int) -> bool {
    exists|k: int, m: int, q: int| #[trigger]
        is_link(rows, q, k, m) && k < q && r < q < n && shown_in(rows, k) == lane
}

/// Whether a line runs in `lane` behind the first `n` rows: a row stands there
/// last, and its line neither ended in it nor went over into another lane since.
pub open spec fn line_runs(rows: Seq<CommitView>, lane: int, n: int) -> bool {
    exists|r: int| #[trigger]
        is_last_in(rows, lane, r, n) && !lines_meet_in(rows, r) && !line_leaves(rows, lane, r, n)
}

/// The places at which `parents` names `id`.
spec fn places_in(parents: Seq<Seq<char>>, id: Seq<char>) -> Seq<int>
    decreases parents.len(),
{
    if parents.len() == 0 {
        Seq::<int>::empty()
    } else {
        let before = places_in(parents.drop_last(), id);
        if parents.last() == id {
            before.push(parents.len() - 1)
        } else {
            before
        }
    }
}

/// The rows that name `id` as a parent, each with the place at which it does.
spec fn places_of(rows: Seq<CommitView>, id: Seq<char>) -> Seq<(int, int)>
    decreases rows.len(),
{
    if rows.len() == 0 {
        Seq::<(int, int)>::empty()
    } else {
        let row = rows.len() - 1;
        places_of(rows.drop_last(), id) + places_in(rows.last().parent_ids, id).map_values(
            |m: int| (row, m),
        )
    }
}

proof fn lemma_places_in(parents: Seq<Seq<char>>, child: Seq<char>, id: Seq<char>)
    ensures
        places_in(parents, id).len() == links(parents, child, id).len(),
        forall|i: int|
            0 <= i < links(parents, child, id).len() ==> #[trigger] links(parents, child, id)[i]
                == child,
        forall|i: int|
            #![trigger places_in(parents, id)[i]]
            0 <= i < places_in(parents, id).len() ==> 0 <= places_in(parents, id)[i]
                < parents.len() && parents[places_in(parents, id)[i]] == id,
        forall|i: int, j: int|
            #![trigger places_in(parents, id)[i], places_in(parents, id)[j]]
            0 <= i < j < places_in(parents, id).len() ==> places_in(parents, id)[i] < places_in(
                parents,
                id,
            )[j],
        forall|m: int|
            0 <= m < parents.len() && #[trigger] parents[m] == id ==> places_in(
                parents,
                id,
            ).contains(m),
    decreases parents.len(),
{
    if parents.len() > 0 {
        let fewer = parents.drop_last();
        lemma_places_in(fewer, child, id);
        let before = places_in(fewer, id);
        let all = places_in(parents, id);
        assert forall|m: int| 0 <= m < parents.len() && #[trigger] parents[m]
            == id implies all.contains(m) by {
            if m < fewer.len() {
                assert(fewer[m] == id);
                let i = choose|i: int| 0 <= i < before.len() && before[i] == m;
                assert(all[i] == m);
            } else {
                assert(all[all.len() - 1] == m);
            }
        }
        assert forall|i: int| #![trigger all[i]] 0 <= i < all.len() implies 0 <= all[i]
            < parents.len() && parents[all[i]] == id by {
            if i < before.len() {
                assert(all[i] == before[i]);
                assert(fewer[before[i]] == id);
            }
        }
        assert forall|i: int, j: int|
            #![trigger all[i], all[j]]
            0 <= i < j < all.len() implies all[i] < all[j] by {
            assert(all[i] == before[i]);
            if j < before.len() {
                assert(all[j] == before[j]);
            }
        }
    }
}

/// The children of a commit are the rows that name it, once for each place at
/// which they do.
proof fn lemma_places_of(rows: Seq<CommitView>, id: Seq<char>)
    ensures
        places_of(rows, id).len() == children_of(rows, id).len(),
        forall|i: int|
            #![trigger places_of(rows, id)[i]]
            0 <= i < places_of(rows, id).len() ==> {
                let (k, m) = places_of(rows, id)[i];
                &&& 0 <= k < rows.len()
                &&& 0 <= m < rows[k].parent_ids.len()
                &&& rows[k].parent_ids[m] == id
                &&& children_of(rows, id)[i] == rows[k].id
            },
        forall|i: int, j: int|
            #![trigger places_of(rows, id)[i], places_of(rows, id)[j]]
            0 <= i < j < places_of(rows, id).len() ==> places_of(rows, id)[i] != places_of(
                rows,
                id,
            )[j],
        forall|k: int, m: int|
            #![trigger rows[k].parent_ids[m]]
            0 <= k < rows.len() && 0 <= m < rows[k].parent_ids.len() && rows[k].parent_ids[m] == id
                ==> places_of(rows, id).contains((k, m)),
    decreases rows.len(),
{
    if rows.len() > 0 {
        let fewer = rows.drop_last();
        let row = rows.len() - 1;
        let last = rows.last();
        lemma_places_of(fewer, id);
        lemma_places_in(last.parent_ids, last.id, id);
        let before = places_of(fewer, id);
        let own = places_in(last.parent_ids, id);
        let more = own.map_values(|m: int| (row, m));
        let all = places_of(rows, id);
        let few = children_of(fewer, id);
        let own_links = links(last.parent_ids, last.id, id);
        assert(all == before + more);
        assert forall|i: int| #![trigger all[i]] 0 <= i < all.len() implies {
            let (k, m) = all[i];
            &&& 0 <= k < rows.len()
            &&& 0 <= m < rows[k].parent_ids.len()
            &&& rows[k].parent_ids[m] == id
            &&& children_of(rows, id)[i] == rows[k].id
        } by {
            if i < before.len() {
                let (k, m) = before[i];
                assert(all[i] == before[i]);
                assert(fewer[k] == rows[k]);
                assert(children_of(rows, id)[i] == few[i]);
            } else {
                let at = i - before.len();
                assert(all[i] == more[at]);
                assert(more[at] == (row, own[at]));
                assert(children_of(rows, id)[i] == own_links[at]);
            }
        }
        assert forall|i: int, j: int|
            #![trigger all[i], all[j]]
            0 <= i < j < all.len() implies all[i] != all[j] by {
            if j < before.len() {
                assert(all[i] == before[i] && all[j] == before[j]);
            } else if i < before.len() {
                assert(all[i] == before[i]);
                assert(before[i].0 < row);
                assert(all[j] == more[j - before.len()]);
            } else {
                assert(all[i] == more[i - before.len()]);
                assert(all[j] == more[j - before.len()]);
                assert(own[i - before.len()] < own[j - before.len()]);
            }
        }
        assert forall|k: int, m: int|
            #![trigger rows[k].parent_ids[m]]
            0 <= k < rows.len() && 0 <= m < rows[k].parent_ids.len() && rows[k].parent_ids[m]
                == id implies all.contains((k, m)) by {
            if k < row {
                assert(fewer[k] == rows[k]);
                assert(fewer[k].parent_ids[m] == id);
                let i = choose|i: int| 0 <= i < before.len() && before[i] == (k, m);
                assert(all[i] == (k, m));
            } else {
                assert(last.parent_ids[m] == id);
                let i = choose|i: int| 0 <= i < own.len() && own[i] == m;
                assert(more[i] == (k, m));
                assert(all[before.len() + i] == (k, m));
            }
        }
    }
}

/// The lanes of commits that have all been passed, one for each.
proof fn lemma_lanes_of_all(ids: Seq<Seq<char>>, lane_of: Map<Seq<char>, u16>)
    requires
        forall|i: int| 0 <= i < ids.len() ==> lane_of.contains_key(#[trigger] ids[i]),
    ensures
        lanes_of(ids, lane_of).len() == ids.len(),
        forall|i: int|
            0 <= i < ids.len() ==> #[trigger] lanes_of(ids, lane_of)[i] == lane_of[ids[i]],
    decreases ids.len(),
{
    if ids.len() > 0 {
        let rest = ids.drop_last();
        assert forall|i: int| 0 <= i < rest.len() implies lane_of.contains_key(
            #[trigger] rest[i],
        ) by {
            assert(rest[i] == ids[i]);
        }
        lemma_lanes_of_all(rest, lane_of);
        assert(lane_of.contains_key(ids[ids.len() - 1]));
        assert forall|i: int| 0 <= i < ids.len() implies #[trigger] lanes_of(ids, lane_of)[i]
            == lane_of[ids[i]] by {
            if i < rest.len() {
                assert(lanes_of(ids, lane_of)[i] == lanes_of(rest, lane_of)[i]);
                assert(rest[i] == ids[i]);
            }
        }
    }
}

/// A lane stands in a list more than once where it stands at two places.
proof fn lemma_times_two(taken: Seq<u16>, lane: u16)
    ensures
        times(taken, lane) >= 2 <==> exists|i: int, j: int|
            0 <= i < j < taken.len() && taken[i] == lane && taken[j] == lane,
    decreases taken.len(),
{
    if taken.len() > 0 {
        let rest = taken.drop_last();
        let n = taken.len() - 1;
        lemma_times_two(rest, lane);
        lemma_times(rest, lane);
        if times(taken, lane) >= 2 {
            if times(rest, lane) >= 2 {
                let (i, j) = choose|i: int, j: int|
                    0 <= i < j < rest.len() && rest[i] == lane && rest[j] == lane;
                assert(taken[i] == lane && taken[j] == lane);
            } else {
                let i = choose|i: int| 0 <= i < rest.len() && rest[i] == lane;
                assert(taken[i] == lane && taken[n] == lane);
            }
        }
        if exists|i: int, j: int|
            0 <= i < j < taken.len() && taken[i] == lane && taken[j] == lane {
            let (i, j) = choose|i: int, j: int|
                0 <= i < j < taken.len() && taken[i] == lane && taken[j] == lane;
            assert(rest[i] == lane);
            if j < n {
                assert(rest[j] == lane);
            }
        }
    }
}

/// What row `n` knows of its children: they all stand before it, and the sweep
/// knows their lanes.
proof fn lemma_children_passed(rows: Seq<CommitView>, n: int)
    requires
        0 <= n < rows.len(),
        distinct_ids(rows),
        in_order(rows, n + 1),
    ensures
        ({
            let id = rows[n].id;
            let children = children_of(rows, id);
            let places = places_of(rows, id);
            let taken = lanes_of(children, sweep_of(rows, n).lane_of);
            &&& taken.len() == places.len()
            &&& children.len() == places.len()
            &&& forall|i: int|
                #![trigger places[i]]
                0 <= i < places.len() ==> {
                    let (k, m) = places[i];
                    &&& k < n
                    &&& is_link(rows, n, k, m)
                    &&& taken[i] == shown_in(rows, k)
                    &&& sweep_of(rows, n).lane_of.contains_key(children[i])
                    &&& sweep_of(rows, n).lane_of[children[i]] == shown_in(rows, k)
                }
            &&& forall|k: int, m: int| #[trigger] is_link(rows, n, k, m) ==> places.contains((k, m))
            &&& forall|i: int, j: int|
                #![trigger places[i], places[j]]
                0 <= i < j < places.len() ==> places[i] != places[j]
        }),
{
    let id = rows[n].id;
    let children = children_of(rows, id);
    let places = places_of(rows, id);
    let lane_of = sweep_of(rows, n).lane_of;
    lemma_places_of(rows, id);
    assert forall|i: int| #![trigger places[i]] 0 <= i < places.len() implies {
        let (k, m) = places[i];
        &&& k < n
        &&& is_link(rows, n, k, m)
        &&& lane_of.contains_key(children[i])
        &&& lane_of[children[i]] == shown_in(rows, k)
    } by {
        let (k, m) = places[i];
        assert(rows[k].parent_ids.contains(id));
        if k >= n {
            assert(!rows[k].parent_ids.contains(rows[n].id));
        }
        lemma_sweep_remembers(rows, n, k);
    }
    assert forall|i: int| 0 <= i < children.len() implies lane_of.contains_key(
        #[trigger] children[i],
    ) by {
        assert(places[i] == places[i]);
    }
    lemma_lanes_of_all(children, lane_of);
    assert forall|i: int| #![trigger places[i]] 0 <= i < places.len() implies lanes_of(
        children,
        lane_of,
    )[i] == shown_in(rows, places[i].0) by {
        assert(lanes_of(children, lane_of)[i] == lane_of[children[i]]);
    }
    assert forall|k: int, m: int| #[trigger] is_link(rows, n, k, m) implies places.contains(
        (k, m),
    ) by {
        assert(rows[k].parent_ids[m] == id);
    }
}

/// The sweep knows which lines run: the lanes in use are those in which one does.
proof fn lemma_used_lanes(rows: Seq<CommitView>, n: int)
    requires
        0 <= n <= rows.len(),
        distinct_ids(rows),
        in_order(rows, n),
    ensures
        sweep_of(rows, n).used.len() <= MAX_LANES,
        forall|k: int| 0 <= k < n ==> #[trigger] shown_in(rows, k) < sweep_of(rows, n).used.len(),
        forall|lane: int|
            0 <= lane < MAX_LANES ==> #[trigger] line_runs(rows, lane, n) == (lane < sweep_of(
                rows,
                n,
            ).used.len() && sweep_of(rows, n).used[lane]),
    decreases n,
{
    if n > 0 {
        let p = n - 1;
        lemma_used_lanes(rows, p);
        lemma_children_passed(rows, p);
        let sweep = sweep_of(rows, p);
        let used = sweep.used;
        let id = rows[p].id;
        let children = children_of(rows, id);
        let places = places_of(rows, id);
        let taken = lanes_of(children, sweep.lane_of);
        let after = sweep_of(rows, n).used;
        let c = shown_in(rows, p);
        assert((after, c as u16) == place(sweep, children));
        if children.len() == 0 {
            if exists|lane: int| is_lowest_free(used, lane) {
                let lane = choose|lane: int| is_lowest_free(used, lane);
                assert(is_lowest_free(used, lane));
                assert(c == lane);
            } else if used.len() >= MAX_LANES {
                assert(used[0]) by {
                    if !used[0] {
                        assert(is_lowest_free(used, 0));
                    }
                }
            }
        } else if children.len() == 1 {
            assert(places[0] == places[0]);
            assert(c == shown_in(rows, places[0].0));
        } else {
            lemma_has_leftmost(taken);
            let chosen = choose|lane: u16| is_leftmost(taken, lane);
            assert(is_leftmost(taken, chosen));
            let i = choose|i: int| 0 <= i < taken.len() && taken[i] == chosen;
            assert(places[i] == places[i]);
            assert(c == shown_in(rows, places[i].0));
        }
        assert(c < after.len());
        assert(after.len() <= MAX_LANES);
        assert forall|lane: int| 0 <= lane < MAX_LANES implies #[trigger] line_runs(rows, lane, n)
            == (lane < after.len() && after[lane]) by {
            assert(line_runs(rows, lane, p) == (lane < used.len() && used[lane]));
            if lane == c {
                lemma_lane_of_row(rows, p);
            } else {
                lemma_other_lane(rows, p, lane);
            }
        }
    }
}

/// In the lane of a row a line runs behind it, unless two meet there.
proof fn lemma_lane_of_row(rows: Seq<CommitView>, p: int)
    requires
        0 <= p < rows.len(),
        distinct_ids(rows),
        in_order(rows, p + 1),
        sweep_of(rows, p).used.len() <= MAX_LANES,
        shown_in(rows, p) < sweep_of(rows, p + 1).used.len(),
    ensures
        line_runs(rows, shown_in(rows, p), p + 1) == sweep_of(rows, p + 1).used[shown_in(rows, p)],
{
    lemma_children_passed(rows, p);
    let sweep = sweep_of(rows, p);
    let id = rows[p].id;
    let children = children_of(rows, id);
    let places = places_of(rows, id);
    let taken = lanes_of(children, sweep.lane_of);
    let c = shown_in(rows, p);
    assert(is_last_in(rows, c, p, p + 1));
    assert(!line_leaves(rows, c, p, p + 1));
    assert(line_runs(rows, c, p + 1) == !lines_meet_in(rows, p)) by {
        if line_runs(rows, c, p + 1) {
            let r = choose|r: int| #[trigger]
                is_last_in(rows, c, r, p + 1) && !lines_meet_in(rows, r) && !line_leaves(
                    rows,
                    c,
                    r,
                    p + 1,
                );
            assert(r == p);
        }
    }
    assert((sweep_of(rows, p + 1).used, c as u16) == place(sweep, children));
    if children.len() == 0 {
        assert(!lines_meet_in(rows, p)) by {
            if lines_meet_in(rows, p) {
                let (k, m, k2, m2) = choose|k: int, m: int, k2: int, m2: int| #[trigger]
                    is_link(rows, p, k, m) && #[trigger] is_link(rows, p, k2, m2) && (k, m) != (
                    k2,
                    m2,
                ) && shown_in(rows, k) == shown_in(rows, p) && shown_in(rows, k2) == shown_in(
                        rows,
                        p,
                    );
                assert(places.contains((k, m)));
            }
        }
        if exists|lane: int| is_lowest_free(sweep.used, lane) {
            let lane = choose|lane: int| is_lowest_free(sweep.used, lane);
            assert(is_lowest_free(sweep.used, lane));
        } else if sweep.used.len() >= MAX_LANES {
            if !sweep.used[0] {
                assert(is_lowest_free(sweep.used, 0));
            }
        }
    } else if children.len() == 1 {
        assert(!lines_meet_in(rows, p)) by {
            if lines_meet_in(rows, p) {
                let (k, m, k2, m2) = choose|k: int, m: int, k2: int, m2: int| #[trigger]
                    is_link(rows, p, k, m) && #[trigger] is_link(rows, p, k2, m2) && (k, m) != (
                    k2,
                    m2,
                ) && shown_in(rows, k) == shown_in(rows, p) && shown_in(rows, k2) == shown_in(
                        rows,
                        p,
                    );
                assert(places.contains((k, m)));
                assert(places.contains((k2, m2)));
                assert(places[0] == (k, m));
                assert(places[0] == (k2, m2));
            }
        }
    } else {
        lemma_has_leftmost(taken);
        let chosen = choose|lane: u16| is_leftmost(taken, lane);
        assert(is_leftmost(taken, chosen));
        assert(c == chosen);
        lemma_times(taken, chosen);
        lemma_times_two(taken, chosen);
        assert(lines_meet_in(rows, p) == (times(taken, chosen) >= 2)) by {
            if lines_meet_in(rows, p) {
                let (k, m, k2, m2) = choose|k: int, m: int, k2: int, m2: int| #[trigger]
                    is_link(rows, p, k, m) && #[trigger] is_link(rows, p, k2, m2) && (k, m) != (
                    k2,
                    m2,
                ) && shown_in(rows, k) == shown_in(rows, p) && shown_in(rows, k2) == shown_in(
                        rows,
                        p,
                    );
                assert(places.contains((k, m)));
                assert(places.contains((k2, m2)));
                let i = choose|i: int| 0 <= i < places.len() && places[i] == (k, m);
                let j = choose|j: int| 0 <= j < places.len() && places[j] == (k2, m2);
                assert(taken[i] == chosen && taken[j] == chosen);
                assert(i != j);
                if i < j {
                    assert(0 <= i < j < taken.len());
                } else {
                    assert(0 <= j < i < taken.len());
                }
            }
            if times(taken, chosen) >= 2 {
                let (i, j) = choose|i: int, j: int|
                    0 <= i < j < taken.len() && taken[i] == chosen && taken[j] == chosen;
                let (k, m) = places[i];
                let (k2, m2) = places[j];
                assert(places[i] != places[j]);
                assert(is_link(rows, p, k, m) && is_link(rows, p, k2, m2));
            }
        }
    }
}

/// In another lane than that of a row, the line that runs goes on, unless it ends
/// in the row.
proof fn lemma_runs_on(rows: Seq<CommitView>, p: int, lane: int)
    requires
        0 <= p < rows.len(),
        in_order(rows, p + 1),
        lane != shown_in(rows, p),
    ensures
        line_runs(rows, lane, p + 1) == (line_runs(rows, lane, p) && !exists|k: int, m: int|
            #[trigger] is_link(rows, p, k, m) && shown_in(rows, k) == lane),
{
    let ends = exists|k: int, m: int| #[trigger]
        is_link(rows, p, k, m) && shown_in(rows, k) == lane;
    if line_runs(rows, lane, p + 1) {
        let r = choose|r: int| #[trigger]
            is_last_in(rows, lane, r, p + 1) && !lines_meet_in(rows, r) && !line_leaves(
                rows,
                lane,
                r,
                p + 1,
            );
        assert(r != p);
        assert(is_last_in(rows, lane, r, p));
        assert(!line_leaves(rows, lane, r, p)) by {
            if line_leaves(rows, lane, r, p) {
                let (k, m, q) = choose|k: int, m: int, q: int| #[trigger]
                    is_link(rows, q, k, m) && k < q && r < q < p && shown_in(rows, k) == lane;
                assert(is_link(rows, q, k, m) && r < q < p + 1);
            }
        }
        if ends {
            let (k, m) = choose|k: int, m: int| #[trigger]
                is_link(rows, p, k, m) && shown_in(rows, k) == lane;
            if k >= p {
                assert(rows[k].parent_ids.contains(rows[p].id));
            }
            assert(is_link(rows, p, k, m) && k < p && r < p < p + 1);
            assert(line_leaves(rows, lane, r, p + 1));
        }
    }
    if line_runs(rows, lane, p) && !ends {
        let r = choose|r: int| #[trigger]
            is_last_in(rows, lane, r, p) && !lines_meet_in(rows, r) && !line_leaves(
                rows,
                lane,
                r,
                p,
            );
        assert(is_last_in(rows, lane, r, p + 1));
        assert(!line_leaves(rows, lane, r, p + 1)) by {
            if line_leaves(rows, lane, r, p + 1) {
                let (k, m, q) = choose|k: int, m: int, q: int| #[trigger]
                    is_link(rows, q, k, m) && k < q && r < q < p + 1 && shown_in(rows, k)
                        == lane;
                if q < p {
                    assert(line_leaves(rows, lane, r, p));
                }
            }
        }
    }
}

/// In another lane than that of a row, the sweep knows whether the line goes on.
proof fn lemma_other_lane(rows: Seq<CommitView>, p: int, lane: int)
    requires
        0 <= p < rows.len(),
        distinct_ids(rows),
        in_order(rows, p + 1),
        sweep_of(rows, p).used.len() <= MAX_LANES,
        0 <= lane < MAX_LANES,
        lane != shown_in(rows, p),
        line_runs(rows, lane, p) == (lane < sweep_of(rows, p).used.len() && sweep_of(
            rows,
            p,
        ).used[lane]),
    ensures
        line_runs(rows, lane, p + 1) == (lane < sweep_of(rows, p + 1).used.len() && sweep_of(
            rows,
            p + 1,
        ).used[lane]),
{
    lemma_children_passed(rows, p);
    let sweep = sweep_of(rows, p);
    let id = rows[p].id;
    let children = children_of(rows, id);
    let places = places_of(rows, id);
    let taken = lanes_of(children, sweep.lane_of);
    let c = shown_in(rows, p);
    let ends = exists|k: int, m: int| #[trigger]
        is_link(rows, p, k, m) && shown_in(rows, k) == lane;
    lemma_runs_on(rows, p, lane);
    assert((sweep_of(rows, p + 1).used, c as u16) == place(sweep, children));
    if children.len() == 0 {
        assert(!ends) by {
            if ends {
                let (k, m) = choose|k: int, m: int| #[trigger]
                    is_link(rows, p, k, m) && shown_in(rows, k) == lane;
                assert(places.contains((k, m)));
            }
        }
        if exists|l: int| is_lowest_free(sweep.used, l) {
            let l = choose|l: int| is_lowest_free(sweep.used, l);
            assert(is_lowest_free(sweep.used, l));
        }
    } else if children.len() == 1 {
        assert(places[0] == places[0]);
        assert(!ends) by {
            if ends {
                let (k, m) = choose|k: int, m: int| #[trigger]
                    is_link(rows, p, k, m) && shown_in(rows, k) == lane;
                assert(places.contains((k, m)));
            }
        }
    } else {
        lemma_has_leftmost(taken);
        let chosen = choose|l: u16| is_leftmost(taken, l);
        assert(is_leftmost(taken, chosen));
        assert(ends == has_lane(taken, lane)) by {
            if ends {
                let (k, m) = choose|k: int, m: int| #[trigger]
                    is_link(rows, p, k, m) && shown_in(rows, k) == lane;
                assert(places.contains((k, m)));
                let i = choose|i: int| 0 <= i < places.len() && places[i] == (k, m);
                assert(taken[i] == lane);
            }
            if has_lane(taken, lane) {
                let i = choose|i: int| 0 <= i < taken.len() && taken[i] == lane;
                let (k, m) = places[i];
                assert(is_link(rows, p, k, m) && shown_in(rows, k) == lane);
            }
        }
    }
}

/// A tip takes the lowest lane in which no line runs; only where lines run in all
/// of them it is shown in the first.
pub proof fn law_tip_takes_lowest_free_lane(rows: Seq<CommitView>, tip: int, lane: int)
    requires
        0 <= tip < rows.len(),
        distinct_ids(rows),
        in_order(rows, tip + 1),
        forall|k: int, m: int| !#[trigger] is_link(rows, tip, k, m),
        0 <= lane < 65535,
    ensures
        !line_runs(rows, lane, tip) ==> {
            &&& with_lanes(rows)[tip].lane <= lane
            &&& !line_runs(rows, with_lanes(rows)[tip].lane as int, tip)
        },
        lane < with_lanes(rows)[tip].lane ==> line_runs(rows, lane, tip),
        (forall|l: int| 0 <= l < 65535 ==> #[trigger] line_runs(rows, l, tip))
            ==> with_lanes(rows)[tip].lane == 0,
{
    lemma_used_lanes(rows, tip);
    lemma_children_passed(rows, tip);
    let used = sweep_of(rows, tip).used;
    let children = children_of(rows, rows[tip].id);
    let places = places_of(rows, rows[tip].id);
    if children.len() > 0 {
        let (k, m) = places[0];
        assert(is_link(rows, tip, k, m));
    }
    let c = shown_in(rows, tip);
    assert(c == place_tip(used).1);
    assert(line_runs(rows, lane, tip) == (lane < used.len() && used[lane]));
    if exists|l: int| is_lowest_free(used, l) {
        let l = choose|l: int| is_lowest_free(used, l);
        assert(is_lowest_free(used, l));
        assert(c == l);
        assert(line_runs(rows, c, tip) == (c < used.len() && used[c]));
    } else {
        assert forall|l: int| 0 <= l < used.len() implies used[l] by {
            lemma_no_lowest(used, l);
        }
        if used.len() < MAX_LANES {
            assert(line_runs(rows, c, tip) == (c < used.len() && used[c]));
            assert(c == used.len());
        }
    }
}

/// Where no lane is the lowest free one, all are in use.
proof fn lemma_no_lowest(used: Seq<bool>, l: int)
    requires
        !exists|lane: int| is_lowest_free(used, lane),
        0 <= l < used.len(),
    ensures
        used[l],
    decreases l,
{
    assert forall|k: int| 0 <= k < l implies used[k] by {
        lemma_no_lowest(used, k);
    }
    if !used[l] {
        assert(is_lowest_free(used, l));
    }
}

/// A tip is not drawn on top of a line that is still running: it stands in another
/// lane than the row in which such a line was last seen, as long as there is a
/// lane left.
pub proof fn law_tips_stand_apart(rows: Seq<CommitView>, tip: int, r: int, free: int)
    requires
        0 <= r < tip < rows.len(),
        distinct_ids(rows),
        in_order(rows, tip + 1),
        forall|k: int, m: int| !#[trigger] is_link(rows, tip, k, m),
        0 <= free < 65535,
        !line_runs(rows, free, tip),
        // The row is the last one in its lane so far.
        forall|k: int| r < k < tip ==> (#[trigger] with_lanes(rows)[k]).lane != with_lanes(
            rows,
        )[r].lane,
        // No row of the lane has met a parent since.
        forall|k: int, m: int, q: int| #[trigger]
            is_link(rows, q, k, m) && k < q && r < q < tip ==> with_lanes(rows)[k].lane
                != with_lanes(rows)[r].lane,
        // And no two of its lines have met in the row.
        !lines_meet_in(rows, r),
    ensures
        with_lanes(rows)[tip].lane != with_lanes(rows)[r].lane,
{
    let lane = shown_in(rows, r);
    assert forall|k: int| r < k < tip implies #[trigger] shown_in(rows, k) != lane by {
        assert(with_lanes(rows)[k].lane != with_lanes(rows)[r].lane);
    }
    assert(is_last_in(rows, lane, r, tip));
    assert(line_runs(rows, lane, tip));
    law_tip_takes_lowest_free_lane(rows, tip, free);
}

/// Whether no commit among the first `n` rows has the id `id`.
pub open spec fn is_to_come(rows: Seq<CommitView>, id: Seq<char>, n: int) -> bool {
    forall|q: int| 0 <= q < n ==> (#[trigger] rows[q]).id != id
}

/// Whether row `k` has a parent that is not among the first `n` rows.
pub open spec fn has_parent_to_come(rows: Seq<CommitView>, k: int, n: int) -> bool {
    exists|m: int|
        0 <= m < rows[k].parent_ids.len() && is_to_come(rows, #[trigger] rows[k].parent_ids[m], n)
}

/// Whether there is a lane in which no line runs behind the first `n` rows.
pub open spec fn lane_is_left(rows: Seq<CommitView>, n: int) -> bool {
    exists|l: int| 0 <= l < 65535 && !#[trigger] line_runs(rows, l, n)
}

/// Where no commit has more than one parent, and there is always a lane left, a
/// line runs in the lane of every row that has a parent to come, and no two such
/// rows share a lane.
proof fn lemma_lines_run_apart(rows: Seq<CommitView>, n: int)
    requires
        0 <= n <= rows.len(),
        distinct_ids(rows),
        in_order(rows, n),
        forall|k: int| 0 <= k < n ==> (#[trigger] rows[k]).parent_ids.len() <= 1,
        forall|t: int| 0 <= t < n ==> #[trigger] lane_is_left(rows, t),
    ensures
        forall|k: int| #[trigger]
            has_parent_to_come(rows, k, n) && 0 <= k < n ==> line_runs(
                rows,
                shown_in(rows, k),
                n,
            ),
        forall|k: int, k2: int|
            0 <= k < k2 < n && #[trigger] has_parent_to_come(rows, k, n)
                && #[trigger] has_parent_to_come(rows, k2, n) ==> shown_in(rows, k) != shown_in(
                rows,
                k2,
            ),
    decreases n,
{
    if n > 0 {
        let p = n - 1;
        lemma_lines_run_apart(rows, p);
        let c = shown_in(rows, p);
        assert forall|k: int| 0 <= k < p && #[trigger] has_parent_to_come(
            rows,
            k,
            n,
        ) implies has_parent_to_come(rows, k, p) by {
            let m = choose|m: int|
                0 <= m < rows[k].parent_ids.len() && is_to_come(
                    rows,
                    #[trigger] rows[k].parent_ids[m],
                    n,
                );
            assert(is_to_come(rows, rows[k].parent_ids[m], p));
        }
        assert forall|k: int, m: int| #[trigger] is_link(rows, p, k, m) implies 0 <= k < p && m == 0
            && has_parent_to_come(rows, k, p) && !has_parent_to_come(rows, k, n) by {
            assert(rows[k].parent_ids.contains(rows[p].id));
            assert(k < p);
            assert forall|q: int| 0 <= q < p implies (#[trigger] rows[q]).id
                != rows[k].parent_ids[m] by {
                assert(rows[q].id != rows[p].id);
            }
            assert(is_to_come(rows, rows[k].parent_ids[m], p));
            assert(rows[p].id == rows[k].parent_ids[m]);
        }
        assert forall|k: int| 0 <= k < p && #[trigger] has_parent_to_come(
            rows,
            k,
            n,
        ) implies shown_in(rows, k) != c by {
            if shown_in(rows, k) == c {
                assert(line_runs(rows, c, p));
                if exists|k1: int, m1: int| is_link(rows, p, k1, m1) {
                    let (k1, m1) = choose|k1: int, m1: int| is_link(rows, p, k1, m1);
                    law_row_stands_leftmost(rows, p, k1, m1);
                    let (k2, m2) = choose|k2: int, m2: int| #[trigger]
                        is_link(rows, p, k2, m2) && with_lanes(rows)[p].lane == with_lanes(
                            rows,
                        )[k2].lane;
                    assert(is_link(rows, p, k2, m2));
                    assert(k2 != k);
                    assert(has_parent_to_come(rows, k, p) && has_parent_to_come(rows, k2, p));
                } else {
                    assert(lane_is_left(rows, p));
                    let l = choose|l: int| 0 <= l < 65535 && !#[trigger] line_runs(rows, l, p);
                    law_tip_takes_lowest_free_lane(rows, p, l);
                }
            }
        }
        assert forall|k: int| #[trigger] has_parent_to_come(rows, k, n) && 0 <= k < n implies
        line_runs(rows, shown_in(rows, k), n) by {
            if k == p {
                assert(is_last_in(rows, c, p, n));
                assert(!line_leaves(rows, c, p, n));
                if lines_meet_in(rows, p) {
                    let (k1, m1, k2, m2) = choose|k1: int, m1: int, k2: int, m2: int| #[trigger]
                        is_link(rows, p, k1, m1) && #[trigger] is_link(rows, p, k2, m2) && (k1, m1)
                            != (k2, m2) && shown_in(rows, k1) == c && shown_in(rows, k2) == c;
                    assert(has_parent_to_come(rows, k1, p) && has_parent_to_come(rows, k2, p));
                    assert(k1 != k2);
                    if k1 < k2 {
                        assert(shown_in(rows, k1) != shown_in(rows, k2));
                    } else {
                        assert(shown_in(rows, k2) != shown_in(rows, k1));
                    }
                }
            } else {
                let lane = shown_in(rows, k);
                assert(has_parent_to_come(rows, k, p));
                assert(line_runs(rows, lane, p));
                lemma_runs_on(rows, p, lane);
                if exists|k1: int, m1: int| #[trigger]
                    is_link(rows, p, k1, m1) && shown_in(rows, k1) == lane {
                    let (k1, m1) = choose|k1: int, m1: int| #[trigger]
                        is_link(rows, p, k1, m1) && shown_in(rows, k1) == lane;
                    assert(has_parent_to_come(rows, k1, p));
                    assert(k1 != k);
                }
            }
        }
    }
}

/// Branches are drawn side by side: in a history without merges, a tip stands in
/// another lane than every row that still has a parent to come, as long as there
/// is a lane left for each.
pub proof fn law_branches_are_drawn_apart(rows: Seq<CommitView>, tip: int, r: int)
    requires
        0 <= r < tip < rows.len(),
        distinct_ids(rows),
        in_order(rows, tip + 1),
        forall|k: int, m: int| !#[trigger] is_link(rows, tip, k, m),
        forall|k: int| 0 <= k < tip ==> (#[trigger] rows[k]).parent_ids.len() <= 1,
        forall|t: int| 0 <= t <= tip ==> #[trigger] lane_is_left(rows, t),
        has_parent_to_come(rows, r, tip),
    ensures
        with_lanes(rows)[tip].lane != with_lanes(rows)[r].lane,
{
    lemma_lines_run_apart(rows, tip);
    assert(lane_is_left(rows, tip));
    let l = choose|l: int| 0 <= l < 65535 && !#[trigger] line_runs(rows, l, tip);
    law_tip_takes_lowest_free_lane(rows, tip, l);
    assert(line_runs(rows, shown_in(rows, r), tip));
}

/// A row that exactly one row names, once, stands in the lane of that row.
pub proof fn law_single_child_passes_lane_on(rows: Seq<CommitView>, q: int, k: int, m: int)
    requires
        0 <= q < rows.len(),
        distinct_ids(rows),
        in_order(rows, q + 1),
        is_link(rows, q, k, m),
        forall|k2: int, m2: int| #[trigger] is_link(rows, q, k2, m2) ==> (k2, m2) == (k, m),
    ensures
        with_lanes(rows)[q].lane == with_lanes(rows)[k].lane,
{
    lemma_children_passed(rows, q);
    let places = places_of(rows, rows[q].id);
    assert(places.contains((k, m)));
    if places.len() > 1 {
        let (k0, m0) = places[0];
        let (k1, m1) = places[1];
        assert(is_link(rows, q, k0, m0) && is_link(rows, q, k1, m1));
        assert(places[0] != places[1]);
    }
    assert(places[0] == (k, m));
    assert(children_of(rows, rows[q].id).len() == 1);
}

/// A row stands in the leftmost of the lanes of the rows that name it, however
/// many there are.
pub proof fn law_row_stands_leftmost(rows: Seq<CommitView>, q: int, k: int, m: int)
    requires
        0 <= q < rows.len(),
        distinct_ids(rows),
        in_order(rows, q + 1),
        is_link(rows, q, k, m),
    ensures
        with_lanes(rows)[q].lane <= with_lanes(rows)[k].lane,
        exists|k2: int, m2: int| #[trigger]
            is_link(rows, q, k2, m2) && with_lanes(rows)[q].lane == with_lanes(rows)[k2].lane,
{
    lemma_children_passed(rows, q);
    let sweep = sweep_of(rows, q);
    let places = places_of(rows, rows[q].id);
    let children = children_of(rows, rows[q].id);
    let taken = lanes_of(children, sweep.lane_of);
    assert(places.contains((k, m)));
    let at = choose|at: int| 0 <= at < places.len() && places[at] == (k, m);
    assert(taken[at] == shown_in(rows, k));
    if children.len() == 1 {
        assert(places[0] == (k, m));
        assert(is_link(rows, q, k, m) && with_lanes(rows)[q].lane == with_lanes(rows)[k].lane);
    } else {
        lemma_has_leftmost(taken);
        let chosen = choose|lane: u16| is_leftmost(taken, lane);
        assert(is_leftmost(taken, chosen));
        let i = choose|i: int| 0 <= i < taken.len() && taken[i] == chosen;
        let (k2, m2) = places[i];
        assert(is_link(rows, q, k2, m2) && with_lanes(rows)[q].lane == with_lanes(rows)[k2].lane);
    }
}

/// Lanes are all that is assigned: rows stay in their order, each with what it
/// holds.
pub proof fn law_only_lanes_are_assigned(rows: Seq<CommitView>, i: int)
    requires
        0 <= i < rows.len(),
    ensures
        with_lanes(rows).len() == rows.len(),
        with_lanes(rows)[i].id == rows[i].id,
        with_lanes(rows)[i].message == rows[i].message,
        with_lanes(rows)[i].author_name == rows[i].author_name,
        with_lanes(rows)[i].author_email == rows[i].author_email,
        with_lanes(rows)[i].author_time == rows[i].author_time,
        with_lanes(rows)[i].parent_ids == rows[i].parent_ids,
{
}

/// The commits that are given lanes stay what they are, in their order, and stand
/// in the lanes that their rows do.
pub proof fn law_assigned_lanes(commits: Vec<Commit>, r: Vec<Commit>, i: int)
    requires
        call_ensures(assign_lanes, (commits,), r),
        0 <= i < commits@.len(),
    ensures
        r@.len() == commits@.len(),
        r@[i].lane == with_lanes(rows_of(commits@))[i].lane,
        r@[i].id@ == commits@[i].id@,
        r@[i].message@ == commits@[i].message@,
        r@[i].author_name@ == commits@[i].author_name@,
        r@[i].author_email@ == commits@[i].author_email@,
        r@[i].author_time == commits@[i].author_time,
        texts(r@[i].parent_ids@) == texts(commits@[i].parent_ids@),
{
    let rows = rows_of(commits@);
    assert(rows_of(r@).len() == rows.len());
    assert(rows_of(r@)[i] == r@[i]@);
    assert(rows[i] == commits@[i]@);
    law_only_lanes_are_assigned(rows, i);
}

/// A row whose only child comes behind it stands in the first lane.
pub proof fn law_late_child_leaves_first_lane(rows: Seq<CommitView>, q: int, k: int, m: int)
    requires
        0 <= q < rows.len(),
        distinct_ids(rows),
        is_link(rows, q, k, m),
        q <= k,
        forall|k2: int, m2: int| #[trigger] is_link(rows, q, k2, m2) ==> (k2, m2) == (k, m),
    ensures
        with_lanes(rows)[q].lane == 0,
{
    let id = rows[q].id;
    let places = places_of(rows, id);
    lemma_places_of(rows, id);
    assert(rows[k].parent_ids[m] == id);
    assert(places.contains((k, m)));
    if places.len() > 1 {
        let (k0, m0) = places[0];
        let (k1, m1) = places[1];
        assert(is_link(rows, q, k0, m0) && is_link(rows, q, k1, m1));
        assert(places[0] != places[1]);
    }
    assert(places[0] == (k, m));
    let lane_of = sweep_of(rows, q).lane_of;
    if lane_of.contains_key(rows[k].id) {
        lemma_sweep_knows_rows(rows, q, rows[k].id);
        let row = choose|row: int| 0 <= row < q && #[trigger] rows[row].id == rows[k].id;
        assert(rows[row].id != rows[k].id);
    }
}

} // verus!
