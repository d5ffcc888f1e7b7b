//! The state of a repository's references at a point in time, and how it is
//! read from the files of the git directory.
use crate::json;
use crate::json::{
    json_text, member_texts, members_of, opt_string_of, pretty_object, string_of, JsonView, Member,
};
use crate::text;
use crate::text::{join_of, lines_of, opt_text, replace_of, split_once_of, texts, trim_of};
use crate::text_laws::{law_split_once, law_split_once_rejoins};
use crate::undo::UndoEngine;
use vstd::prelude::*;
use vstd::string::*;
use vstd::utf8::encode_utf8;

verus! {

broadcast use vstd::string::group_string_axioms;

// ---------------------------------------------------------------------------
// References by name
// ---------------------------------------------------------------------------
/// References by name: each with what it points at, no name twice.
#[derive(Debug)]
pub struct RefTable {
    entries: Vec<(String, String)>,
}

/// A name with what it points at.
pub open spec fn entry_view(e: (String, String)) -> (Seq<char>, Seq<char>) {
    (e.0@, e.1@)
}

/// Names with what they point at.
pub open spec fn entry_views(s: Seq<(String, String)>) -> Seq<(Seq<char>, Seq<char>)> {
    s.map_values(|e: (String, String)| entry_view(e))
}

/// Whether no name stands in the list twice.
pub open spec fn distinct_names(s: Seq<(Seq<char>, Seq<char>)>) -> bool {
    forall|i: int, j: int| #![trigger s[i], s[j]] 0 <= i < j < s.len() ==> s[i].0 != s[j].0
}

/// What the names of a list point at.
pub open spec fn entry_map(s: Seq<(Seq<char>, Seq<char>)>) -> Map<Seq<char>, Seq<char>>
    decreases s.len(),
{
    if s.len() == 0 {
        Map::empty()
    } else {
        entry_map(s.drop_last()).insert(s.last().0, s.last().1)
    }
}

/// The map of a list has exactly the names of the list, each with its target.
pub proof fn lemma_entry_map(s: Seq<(Seq<char>, Seq<char>)>)
    requires
        distinct_names(s),
    ensures
        forall|i: int|
            #![trigger s[i]]
            0 <= i < s.len() ==> entry_map(s).contains_key(s[i].0) && entry_map(s)[s[i].0]
                == s[i].1,
        forall|name: Seq<char>| #[trigger]
            entry_map(s).contains_key(name) ==> exists|i: int|
                #![trigger s[i]]
                0 <= i < s.len() && s[i].0 == name,
    decreases s.len(),
{
    if s.len() > 0 {
        let before = s.drop_last();
        lemma_entry_map(before);
        assert forall|i: int| #![trigger s[i]] 0 <= i < s.len() implies entry_map(s).contains_key(
            s[i].0,
        ) && entry_map(s)[s[i].0] == s[i].1 by {
            if i < s.len() - 1 {
                assert(before[i] == s[i]);
                assert(s[s.len() - 1] == s.last());
            }
        }
        assert forall|name: Seq<char>| #[trigger] entry_map(s).contains_key(name) implies exists|
            i: int,
        |
            #![trigger s[i]]
            0 <= i < s.len() && s[i].0 == name by {
            if name == s.last().0 {
                assert(s[s.len() - 1].0 == name);
            } else {
                assert(entry_map(before).contains_key(name));
                let i = choose|i: int| #![trigger before[i]]
                    0 <= i < before.len() && before[i].0 == name;
                assert(s[i] == before[i]);
            }
        }
    }
}

/// A changed target at position `at` is the only change to the map.
proof fn lemma_entry_update(s: Seq<(Seq<char>, Seq<char>)>, at: int, target: Seq<char>)
    requires
        distinct_names(s),
        0 <= at < s.len(),
    ensures
        distinct_names(s.update(at, (s[at].0, target))),
        entry_map(s.update(at, (s[at].0, target))) == entry_map(s).insert(s[at].0, target),
    decreases s.len(),
{
    let after = s.update(at, (s[at].0, target));
    assert(distinct_names(after));
    let before = s.drop_last();
    if at == s.len() - 1 {
        assert(after.drop_last() =~= before);
        assert(entry_map(after) =~= entry_map(s).insert(s[at].0, target));
    } else {
        assert(after.drop_last() =~= before.update(at, (before[at].0, target)));
        lemma_entry_update(before, at, target);
        assert(s[s.len() - 1] == s.last());
        assert(entry_map(after) =~= entry_map(s).insert(s[at].0, target));
    }
}

impl View for RefTable {
    type V = Map<Seq<char>, Seq<char>>;

    open spec fn view(&self) -> Map<Seq<char>, Seq<char>> {
        entry_map(self.listed())
    }
}

impl RefTable {
    /// The references in the order in which they were first set.
    pub closed spec fn listed(&self) -> Seq<(Seq<char>, Seq<char>)> {
        entry_views(self.entries@)
    }

    #[verifier::type_invariant]
    spec fn well_formed(&self) -> bool {
        distinct_names(self.listed())
    }

    /// No references.
    pub fn new() -> (r: RefTable)
        ensures
            r@ == Map::<Seq<char>, Seq<char>>::empty(),
            r.listed() == Seq::<(Seq<char>, Seq<char>)>::empty(),
    {
        let r = RefTable { entries: Vec::new() };
        assert(r.listed() =~= Seq::<(Seq<char>, Seq<char>)>::empty());
        r
    }

    /// How many references there are.
    pub fn len(&self) -> (r: usize)
        ensures
            r == self.listed().len(),
            distinct_names(self.listed()),
    {
        proof {
            use_type_invariant(self);
        }
        self.entries.len()
    }

    /// The name of the reference at position `i`.
    pub fn name(&self, i: usize) -> (r: &str)
        requires
            i < self.listed().len(),
        ensures
            r@ == self.listed()[i as int].0,
    {
        self.entries[i].0.as_str()
    }

    /// What the reference at position `i` points at.
    pub fn target(&self, i: usize) -> (r: &str)
        requires
            i < self.listed().len(),
        ensures
            r@ == self.listed()[i as int].1,
    {
        self.entries[i].1.as_str()
    }

    /// The position of the reference `name`.
    fn find(&self, name: &str) -> (r: Option<usize>)
        ensures
            match r {
                Some(i) => i < self.listed().len() && self.listed()[i as int].0 == name@
                    && self@.contains_key(name@) && self@[name@] == self.listed()[i as int].1,
                None => !self@.contains_key(name@) && forall|k: int|
                    #![trigger self.listed()[k]]
                    0 <= k < self.listed().len() ==> self.listed()[k].0 != name@,
            },
    {
        let ghost all = self.listed();
        proof {
            use_type_invariant(self);
            lemma_entry_map(all);
        }
        let mut i: usize = 0;
        while i < self.entries.len()
            invariant
                i <= self.entries@.len(),
                all == self.listed(),
                all == entry_views(self.entries@),
                self@ == entry_map(all),
                forall|k: int|
                    #![trigger all[k]]
                    0 <= k < all.len() ==> self@.contains_key(all[k].0) && self@[all[k].0]
                        == all[k].1,
                forall|k: int| #![trigger all[k]] 0 <= k < i ==> all[k].0 != name@,
            decreases self.entries.len() - i,
        {
            assert(all[i as int].0 == self.entries@[i as int].0@);
            if text::same(self.entries[i].0.as_str(), name) {
                return Some(i);
            }
            i += 1;
        }
        None
    }

    /// What the reference `name` points at.
    pub fn get(&self, name: &str) -> (r: Option<&str>)
        ensures
            match r {
                Some(t) => self@.contains_key(name@) && self@[name@] == t@,
                None => !self@.contains_key(name@),
            },
    {
        match self.find(name) {
            Some(i) => Some(self.entries[i].1.as_str()),
            None => None,
        }
    }

    /// Whether there is a reference `name`.
    pub fn contains(&self, name: &str) -> (r: bool)
        ensures
            r == self@.contains_key(name@),
    {
        match self.find(name) {
            Some(_) => true,
            None => false,
        }
    }

    /// The table with the reference `name` set to `target`.
    pub fn with(self, name: String, target: String) -> (r: RefTable)
        ensures
            r@ == self@.insert(name@, target@),
    {
        let ghost all = self.listed();
        let found = self.find(name.as_str());
        proof {
            use_type_invariant(&self);
        }
        let mut entries = self.entries;
        let ghost pair = (name@, target@);
        match found {
            Some(i) => {
                proof {
                    lemma_entry_update(all, i as int, target@);
                }
                entries.set(i, (name, target));
                assert(entry_views(entries@) =~= all.update(i as int, pair));
            },
            None => {
                entries.push((name, target));
                assert(entry_views(entries@) =~= all.push(pair));
                assert(all.push(pair).drop_last() =~= all);
                assert(distinct_names(all.push(pair)));
            },
        }
        RefTable { entries }
    }

    /// A copy of the table.
    pub fn copy(&self) -> (r: RefTable)
        ensures
            r@ == self@,
            r.listed() == self.listed(),
    {
        proof {
            use_type_invariant(self);
        }
        let mut entries: Vec<(String, String)> = Vec::new();
        let mut i: usize = 0;
        while i < self.entries.len()
            invariant
                i <= self.entries@.len(),
                entries@.len() == i,
                forall|k: int|
                    #![trigger entries@[k]]
                    0 <= k < i ==> entry_view(entries@[k]) == entry_view(self.entries@[k]),
            decreases self.entries.len() - i,
        {
            entries.push((self.entries[i].0.clone(), self.entries[i].1.clone()));
            i += 1;
        }
        assert(entry_views(entries@) =~= self.listed());
        RefTable { entries }
    }

    /// Whether every reference of this table is in the other, with the same
    /// target.
    fn within(&self, other: &RefTable) -> (r: bool)
        ensures
            r == forall|name: Seq<char>| #[trigger]
                self@.contains_key(name) ==> other@.contains_key(name) && other@[name]
                    == self@[name],
    {
        let ghost all = self.listed();
        proof {
            use_type_invariant(self);
            lemma_entry_map(all);
        }
        let mut i: usize = 0;
        while i < self.entries.len()
            invariant
                i <= self.entries@.len(),
                all == self.listed(),
                all == entry_views(self.entries@),
                self@ == entry_map(all),
                forall|k: int|
                    #![trigger all[k]]
                    0 <= k < all.len() ==> self@.contains_key(all[k].0) && self@[all[k].0]
                        == all[k].1,
                forall|k: int|
                    #![trigger all[k]]
                    0 <= k < i ==> other@.contains_key(all[k].0) && other@[all[k].0] == all[k].1,
            decreases self.entries.len() - i,
        {
            assert(all[i as int] == entry_view(self.entries@[i as int]));
            assert(self@.contains_key(all[i as int].0));
            let same = match other.get(self.entries[i].0.as_str()) {
                Some(t) => text::same(t, self.entries[i].1.as_str()),
                None => false,
            };
            if !same {
                return false;
            }
            i += 1;
        }
        assert forall|name: Seq<char>| #[trigger] self@.contains_key(name) implies {
            other@.contains_key(name) && other@[name] == self@[name]
        } by {
            let k = choose|k: int| #![trigger all[k]] 0 <= k < all.len() && all[k].0 == name;
            assert(all[k].0 == name);
        }
        true
    }

    /// Whether two tables hold the same references.
    pub fn same_as(&self, other: &RefTable) -> (r: bool)
        ensures
            r == (self@ == other@),
    {
        let r = self.within(other) && other.within(self);
        assert(r ==> self@ =~= other@);
        r
    }

    /// The members of the JSON object of the references: each name with what it
    /// points at.
    pub open spec fn members(&self) -> Seq<(Seq<char>, Seq<char>)> {
        self.listed().map_values(
            |e: (Seq<char>, Seq<char>)| (string_of(e.0), string_of(e.1)),
        )
    }

    /// The JSON object of the references, in lines that begin with `indent`.
    fn pretty(&self, indent: &str) -> (r: String)
        ensures
            r@ == pretty_object(self.members(), indent@),
    {
        let ghost all = self.listed();
        let mut members: Vec<Member> = Vec::new();
        let mut i: usize = 0;
        while i < self.entries.len()
            invariant
                i <= self.entries@.len(),
                all == entry_views(self.entries@),
                members@.len() == i,
                forall|k: int|
                    #![trigger members@[k]]
                    0 <= k < i ==> members@[k]@ == (string_of(all[k].0), string_of(all[k].1)),
            decreases self.entries.len() - i,
        {
            assert(all[i as int] == entry_view(self.entries@[i as int]));
            let name = json::string(self.entries[i].0.as_str());
            members.push(
                json::member(name.as_str(), json::string(self.entries[i].1.as_str())),
            );
            i += 1;
        }
        assert(members_of(members@) =~= self.members());
        json::print_pretty_object(&members, indent)
    }
}

// ---------------------------------------------------------------------------
// Snapshots
// ---------------------------------------------------------------------------
/// The complete reference state of a repository at a point in time.
#[derive(Debug)]
pub struct Snapshot {
    /// What `HEAD` holds: `ref: refs/heads/<name>`, or an object id.
    pub head: String,
    /// The local branches: full name and object id.
    pub refs: RefTable,
    /// What `refs/stash` points at, where there is a stash.
    pub stash_ref: Option<String>,
    /// The tree of the index, where it could be captured (it cannot while
    /// entries are unmerged).
    pub index_tree: Option<String>,
}

/// What a snapshot holds.
#[verifier::ext_equal]
pub struct SnapshotView {
    pub head: Seq<char>,
    pub refs: Map<Seq<char>, Seq<char>>,
    pub stash_ref: Option<Seq<char>>,
    pub index_tree: Option<Seq<char>>,
}

impl View for Snapshot {
    type V = SnapshotView;

    open spec fn view(&self) -> SnapshotView {
        SnapshotView {
            head: self.head@,
            refs: self.refs@,
            stash_ref: opt_text(self.stash_ref),
            index_tree: opt_text(self.index_tree),
        }
    }
}

impl Default for Snapshot {
    /// The state in which there is nothing.
    fn default() -> (r: Snapshot)
        ensures
            r@ == (SnapshotView {
                head: Seq::<char>::empty(),
                refs: Map::empty(),
                stash_ref: None,
                index_tree: None,
            }),
    {
        Snapshot { head: String::new(), refs: RefTable::new(), stash_ref: None, index_tree: None }
    }
}

impl Snapshot {
    /// Whether two snapshots hold the same state.
    pub fn same_as(&self, other: &Snapshot) -> (r: bool)
        ensures
            r == (self@ == other@),
    {
        text::same(self.head.as_str(), other.head.as_str()) && self.refs.same_as(&other.refs)
            && text::same_opt(&self.stash_ref, &other.stash_ref) && text::same_opt(
            &self.index_tree,
            &other.index_tree,
        )
    }

    /// A copy of the snapshot.
    pub fn copy(&self) -> (r: Snapshot)
        ensures
            r@ == self@,
            r.refs.listed() == self.refs.listed(),
    {
        Snapshot {
            head: self.head.clone(),
            refs: self.refs.copy(),
            stash_ref: self.stash_ref.clone(),
            index_tree: self.index_tree.clone(),
        }
    }

    /// The members of the JSON object for the snapshot, in order; the object
    /// stands in lines that begin with `indent`.
    pub open spec fn members(&self, indent: Seq<char>) -> Seq<(Seq<char>, Seq<char>)> {
        seq![
            ("\"head\""@, string_of(self.head@)),
            ("\"refs\""@, pretty_object(self.refs.members(), indent + "  "@)),
            ("\"stash_ref\""@, opt_string_of(opt_text(self.stash_ref))),
            ("\"index_tree\""@, opt_string_of(opt_text(self.index_tree))),
        ]
    }

    /// The JSON object for the snapshot, in lines that begin with `indent`.
    pub open spec fn pretty_text(&self, indent: Seq<char>) -> Seq<char> {
        pretty_object(self.members(indent), indent)
    }

    /// The JSON object for the snapshot, in lines that begin with `indent`.
    pub fn pretty(&self, indent: &str) -> (r: String)
        ensures
            r@ == self.pretty_text(indent@),
    {
        let inner = indent.to_owned().concat("  ");
        let mut members: Vec<Member> = Vec::new();
        members.push(json::member("\"head\"", json::string(self.head.as_str())));
        members.push(json::member("\"refs\"", self.refs.pretty(inner.as_str())));
        members.push(json::member("\"stash_ref\"", json::opt_string(&self.stash_ref)));
        members.push(json::member("\"index_tree\"", json::opt_string(&self.index_tree)));
        assert(members_of(members@) =~= self.members(indent@));
        json::print_pretty_object(&members, indent)
    }
}

// ---------------------------------------------------------------------------
// Reading
// ---------------------------------------------------------------------------
/// A file below a directory of references: its path below that directory and
/// what it holds.
#[derive(Debug, Clone)]
pub struct LooseFile {
    pub path: String,
    pub content: String,
}

/// The fewest bytes of a file that can hold an object id.
pub const MIN_TARGET_BYTES: usize = 40;

/// What a file of a directory of references adds to the references: one, named
/// after its path, unless the file is too short to hold an object id.
pub open spec fn with_loose(
    refs: Map<Seq<char>, Seq<char>>,
    prefix: Seq<char>,
    file: LooseFile,
) -> Map<Seq<char>, Seq<char>> {
    let target = trim_of(file.content@);
    if encode_utf8(target).len() < MIN_TARGET_BYTES {
        refs
    } else {
        refs.insert(prefix + "/"@ + replace_of(file.path@, '\\', '/'), target)
    }
}

/// The references that the files of a directory hold.
pub open spec fn loose_refs(prefix: Seq<char>, files: Seq<LooseFile>) -> Map<Seq<char>, Seq<char>>
    decreases files.len(),
{
    if files.len() == 0 {
        Map::empty()
    } else {
        with_loose(loose_refs(prefix, files.drop_last()), prefix, files.last())
    }
}

/// The references that the files of the directory `prefix` hold, one file each.
pub fn read_loose_refs(prefix: &str, files: &Vec<LooseFile>) -> (r: RefTable)
    ensures
        r@ == loose_refs(prefix@, files@),
{
    let mut refs = RefTable::new();
    let mut i: usize = 0;
    assert(files@.take(0) =~= Seq::<LooseFile>::empty());
    while i < files.len()
        invariant
            i <= files@.len(),
            refs@ == loose_refs(prefix@, files@.take(i as int)),
        decreases files.len() - i,
    {
        assert(files@.take(i + 1).drop_last() =~= files@.take(i as int));
        let target = text::trim(files[i].content.as_str());
        if target.as_str().as_bytes().len() >= MIN_TARGET_BYTES {
            let path = text::replace_char(files[i].path.as_str(), '\\', '/');
            let mut name = prefix.to_owned();
            name.append("/");
            name.append(path.as_str());
            refs = refs.with(name, target);
        }
        i += 1;
    }
    assert(files@.take(i as int) =~= files@);
    refs
}

/// The object id and the name that a line of `packed-refs` holds. Headers and
/// the peeled targets of tags hold none.
pub open spec fn packed_entry(line: Seq<char>) -> Option<(Seq<char>, Seq<char>)> {
    if line.len() > 0 && (line[0] == '#' || line[0] == '^') {
        None
    } else {
        match split_once_of(line, ' ') {
            Some((id, name)) => Some((id, trim_of(name))),
            None => None,
        }
    }
}

/// The object id and the name that a line of `packed-refs` holds.
fn read_packed_entry(line: &str) -> (r: Option<(String, String)>)
    ensures
        match r {
            Some((id, name)) => packed_entry(line@) == Some((id@, name@)),
            None => packed_entry(line@) is None,
        },
{
    let chars = text::to_chars(line);
    if chars.len() > 0 && (chars[0] == '#' || chars[0] == '^') {
        return None;
    }
    match text::split_once(line, ' ') {
        Some((id, name)) => Some((id, text::trim(name.as_str()))),
        None => None,
    }
}

/// The references with the local branches of `packed-refs` that are not among
/// them yet.
pub open spec fn with_packed(
    refs: Map<Seq<char>, Seq<char>>,
    lines: Seq<Seq<char>>,
) -> Map<Seq<char>, Seq<char>>
    decreases lines.len(),
{
    if lines.len() == 0 {
        refs
    } else {
        let before = with_packed(refs, lines.drop_last());
        match packed_entry(lines.last()) {
            Some((id, name)) => if "refs/heads/"@.is_prefix_of(name) && !before.contains_key(name) {
                before.insert(name, id)
            } else {
                before
            },
            None => before,
        }
    }
}

/// The references with the local branches of `packed-refs` that are not among
/// them yet.
fn merge_packed(refs: RefTable, lines: &Vec<String>) -> (r: RefTable)
    ensures
        r@ == with_packed(refs@, texts(lines@)),
{
    let ghost all = texts(lines@);
    let ghost loose = refs@;
    let mut refs = refs;
    let mut i: usize = 0;
    assert(all.take(0) =~= Seq::<Seq<char>>::empty());
    while i < lines.len()
        invariant
            i <= lines@.len(),
            all == texts(lines@),
            refs@ == with_packed(loose, all.take(i as int)),
        decreases lines.len() - i,
    {
        assert(all.take(i + 1).drop_last() =~= all.take(i as int));
        assert(all.take(i + 1).last() == lines@[i as int]@);
        if let Some((id, name)) = read_packed_entry(lines[i].as_str()) {
            if text::starts_with(name.as_str(), "refs/heads/") && !refs.contains(name.as_str()) {
                refs = refs.with(name, id);
            }
        }
        i += 1;
    }
    assert(all.take(i as int) =~= all);
    refs
}

/// What the last line of `packed-refs` for the stash gives.
pub open spec fn packed_stash(lines: Seq<Seq<char>>) -> Option<Seq<char>>
    decreases lines.len(),
{
    if lines.len() == 0 {
        None
    } else {
        match packed_entry(lines.last()) {
            Some((id, name)) => if name == "refs/stash"@ {
                Some(id)
            } else {
                packed_stash(lines.drop_last())
            },
            None => packed_stash(lines.drop_last()),
        }
    }
}

/// What the last line of `packed-refs` for the stash gives.
fn read_packed_stash(lines: &Vec<String>) -> (r: Option<String>)
    ensures
        opt_text(r) == packed_stash(texts(lines@)),
{
    let ghost all = texts(lines@);
    let mut stash: Option<String> = None;
    let mut i: usize = 0;
    assert(all.take(0) =~= Seq::<Seq<char>>::empty());
    while i < lines.len()
        invariant
            i <= lines@.len(),
            all == texts(lines@),
            opt_text(stash) == packed_stash(all.take(i as int)),
        decreases lines.len() - i,
    {
        assert(all.take(i + 1).drop_last() =~= all.take(i as int));
        assert(all.take(i + 1).last() == lines@[i as int]@);
        if let Some((id, name)) = read_packed_entry(lines[i].as_str()) {
            if text::same(name.as_str(), "refs/stash") {
                stash = Some(id);
            }
        }
        i += 1;
    }
    assert(all.take(i as int) =~= all);
    stash
}

/// What was read of a repository for a snapshot.
pub struct SnapshotReads {
    /// What the file `HEAD` holds.
    pub head: String,
    /// The files below `refs/heads`.
    pub heads: Vec<LooseFile>,
    /// The files below `refs`.
    pub refs: Vec<LooseFile>,
    /// What the file `packed-refs` holds, where there is one.
    pub packed_refs: Option<String>,
    /// What `git write-tree` printed, where it succeeded.
    pub index_tree: Option<String>,
}

impl SnapshotReads {
    /// The lines of `packed-refs`.
    pub open spec fn packed_lines(&self) -> Seq<Seq<char>> {
        match self.packed_refs {
            Some(content) => lines_of(content@),
            None => Seq::empty(),
        }
    }

    /// The local branches: those in files, and of the packed ones those that
    /// are not.
    pub open spec fn branches(&self) -> Map<Seq<char>, Seq<char>> {
        with_packed(loose_refs("refs/heads"@, self.heads@), self.packed_lines())
    }

    /// What the stash points at: the file's object id where there is one, else
    /// the packed one.
    pub open spec fn stash(&self) -> Option<Seq<char>> {
        let loose = loose_refs("refs"@, self.refs@);
        if loose.contains_key("refs/stash"@) {
            Some(loose["refs/stash"@])
        } else {
            packed_stash(self.packed_lines())
        }
    }

    /// The state that was read.
    pub open spec fn snapshot(&self) -> SnapshotView {
        SnapshotView {
            head: trim_of(self.head@),
            refs: self.branches(),
            stash_ref: self.stash(),
            index_tree: match self.index_tree {
                Some(t) => Some(trim_of(t@)),
                None => None,
            },
        }
    }
}

/// Why what was read of a repository is no snapshot.
#[derive(Debug, Clone, Copy, PartialEq, Eq)]
pub enum SnapshotError {
    /// The file `HEAD` is blank.
    EmptyHead,
}

impl SnapshotError {
    /// What the error says.
    pub open spec fn text(&self) -> Seq<char> {
        "HEAD is empty; refusing to take a snapshot"@
    }

    /// What the error says.
    pub fn message(&self) -> (r: String)
        ensures
            r@ == self.text(),
    {
        "HEAD is empty; refusing to take a snapshot".to_owned()
    }
}

impl UndoEngine {
    /// The snapshot of a repository, from what was read of it. A blank `HEAD` is
    /// an error: no snapshot ever records an empty one.
    pub fn read_snapshot(&self, reads: &SnapshotReads) -> (r: Result<Snapshot, SnapshotError>)
        ensures
            r is Err <==> trim_of(reads.head@).len() == 0,
            r matches Ok(s) ==> s@ == reads.snapshot() && s@.head.len() > 0,
    {
        let head = text::trim(reads.head.as_str());
        if head.as_str().is_empty() {
            return Err(SnapshotError::EmptyHead);
        }
        let lines = match &reads.packed_refs {
            Some(content) => text::lines(content.as_str()),
            None => Vec::new(),
        };
        assert(texts(lines@) =~= reads.packed_lines());
        let refs = merge_packed(read_loose_refs("refs/heads", &reads.heads), &lines);
        let loose = read_loose_refs("refs", &reads.refs);
        let stash_ref = match loose.get("refs/stash") {
            Some(t) => Some(t.to_owned()),
            None => read_packed_stash(&lines),
        };
        let index_tree = match &reads.index_tree {
            Some(t) => Some(text::trim(t.as_str())),
            None => None,
        };
        Ok(Snapshot { head, refs, stash_ref, index_tree })
    }
}

// ---------------------------------------------------------------------------
// Laws
// ---------------------------------------------------------------------------
/// A branch that has a file of its own is what the file says, whatever
/// `packed-refs` holds.
pub proof fn law_loose_refs_take_precedence(
    loose: Map<Seq<char>, Seq<char>>,
    lines: Seq<Seq<char>>,
    name: Seq<char>,
)
    requires
        loose.contains_key(name),
    ensures
        with_packed(loose, lines).contains_key(name),
        with_packed(loose, lines)[name] == loose[name],
    decreases lines.len(),
{
    if lines.len() > 0 {
        law_loose_refs_take_precedence(loose, lines.drop_last(), name);
    }
}

/// Whether a line of `packed-refs` says that the reference `name` points at `id`:
/// the id, a space and the name, with blanks around it or without.
pub open spec fn is_packed_line(line: Seq<char>, id: Seq<char>, name: Seq<char>) -> bool {
    &&& line.len() > 0 && line[0] != '#' && line[0] != '^'
    &&& !id.contains(' ')
    &&& exists|rest: Seq<char>| line == #[trigger] (id + seq![' '] + rest) && trim_of(rest) == name
}

/// Whether a file below the directory `prefix` says that the reference `name`
/// points at `target`: it is named by its path, and holds enough for an id.
pub open spec fn is_loose_file(
    file: LooseFile,
    prefix: Seq<char>,
    name: Seq<char>,
    target: Seq<char>,
) -> bool {
    &&& name == prefix + seq!['/'] + replace_of(file.path@, '\\', '/')
    &&& target == trim_of(file.content@)
    &&& encode_utf8(target).len() >= 40
}

/// A line says what it is read as.
proof fn lemma_packed_line(line: Seq<char>, id: Seq<char>, name: Seq<char>)
    ensures
        is_packed_line(line, id, name) <==> packed_entry(line) == Some((id, name)),
{
    law_split_once_rejoins(line, ' ');
    if is_packed_line(line, id, name) {
        let rest = choose|rest: Seq<char>|
            line == #[trigger] (id + seq![' '] + rest) && trim_of(rest) == name;
        law_split_once(id, ' ', rest);
    }
    if packed_entry(line) == Some((id, name)) {
        let (a, b) = split_once_of(line, ' ')->0;
        assert(line == a + seq![' '] + b);
    }
}

/// The files of a directory say what they are read as; of two for one name the
/// later one counts.
proof fn lemma_loose_refs(prefix: Seq<char>, files: Seq<LooseFile>, name: Seq<char>)
    ensures
        loose_refs(prefix, files).contains_key(name) ==> exists|i: int|
            0 <= i < files.len() && is_loose_file(
                #[trigger] files[i],
                prefix,
                name,
                loose_refs(prefix, files)[name],
            ),
        forall|i: int, target: Seq<char>|
            0 <= i < files.len() && #[trigger] is_loose_file(files[i], prefix, name, target) ==> {
                &&& loose_refs(prefix, files).contains_key(name)
                &&& (forall|j: int, other: Seq<char>|
                    i < j < files.len() ==> !#[trigger] is_loose_file(
                        files[j],
                        prefix,
                        name,
                        other,
                    )) ==> loose_refs(prefix, files)[name] == target
            },
    decreases files.len(),
{
    reveal_strlit("/");
    assert("/"@ =~= seq!['/']);
    if files.len() > 0 {
        let fewer = files.drop_last();
        let n = files.len() - 1;
        lemma_loose_refs(prefix, fewer, name);
        let before = loose_refs(prefix, fewer);
        let all = loose_refs(prefix, files);
        let last = files.last();
        let held = trim_of(last.content@);
        let is_last = is_loose_file(last, prefix, name, held);
        if is_last {
            assert(all == before.insert(name, held));
            assert(is_loose_file(files[n], prefix, name, all[name]));
        } else {
            assert(all.contains_key(name) == before.contains_key(name));
            assert(all.contains_key(name) ==> all[name] == before[name]);
        }
        if all.contains_key(name) && !is_last {
            let i = choose|i: int|
                0 <= i < fewer.len() && is_loose_file(
                    #[trigger] fewer[i],
                    prefix,
                    name,
                    before[name],
                );
            assert(files[i] == fewer[i]);
        }
        assert forall|i: int, target: Seq<char>|
            0 <= i < files.len() && #[trigger] is_loose_file(
                files[i],
                prefix,
                name,
                target,
            ) implies {
            &&& all.contains_key(name)
            &&& (forall|j: int, other: Seq<char>|
                i < j < files.len() ==> !#[trigger] is_loose_file(
                    files[j],
                    prefix,
                    name,
                    other,
                )) ==> all[name] == target
        } by {
            if i < n {
                assert(fewer[i] == files[i]);
                assert(is_loose_file(fewer[i], prefix, name, target));
                if forall|j: int, other: Seq<char>|
                    i < j < files.len() ==> !#[trigger] is_loose_file(
                        files[j],
                        prefix,
                        name,
                        other,
                    ) {
                    assert(!is_loose_file(files[n], prefix, name, held));
                    assert forall|j: int, other: Seq<char>|
                        i < j < fewer.len() implies !#[trigger] is_loose_file(
                        fewer[j],
                        prefix,
                        name,
                        other,
                    ) by {
                        assert(fewer[j] == files[j]);
                        assert(!is_loose_file(files[j], prefix, name, other));
                    }
                }
            }
        }
    }
}

/// Packed branches are added where they are not among the references yet; of two
/// lines for one name the first one counts.
proof fn lemma_with_packed(
    refs: Map<Seq<char>, Seq<char>>,
    lines: Seq<Seq<char>>,
    name: Seq<char>,
)
    ensures
        !refs.contains_key(name) && with_packed(refs, lines).contains_key(name) ==> {
            &&& "refs/heads/"@.is_prefix_of(name)
            &&& exists|i: int|
                0 <= i < lines.len() && is_packed_line(
                    #[trigger] lines[i],
                    with_packed(refs, lines)[name],
                    name,
                )
        },
        forall|i: int, id: Seq<char>|
            0 <= i < lines.len() && "refs/heads/"@.is_prefix_of(name) && #[trigger] is_packed_line(
                lines[i],
                id,
                name,
            ) ==> {
                &&& with_packed(refs, lines).contains_key(name)
                &&& !refs.contains_key(name) && (forall|j: int, other: Seq<char>|
                    0 <= j < i ==> !#[trigger] is_packed_line(lines[j], other, name))
                    ==> with_packed(refs, lines)[name] == id
            },
    decreases lines.len(),
{
    if refs.contains_key(name) {
        law_loose_refs_take_precedence(refs, lines, name);
    } else if lines.len() > 0 {
        let fewer = lines.drop_last();
        let n = lines.len() - 1;
        lemma_with_packed(refs, fewer, name);
        let before = with_packed(refs, fewer);
        let all = with_packed(refs, lines);
        if before.contains_key(name) {
            assert(all.contains_key(name) && all[name] == before[name]);
            let i = choose|i: int|
                0 <= i < fewer.len() && is_packed_line(#[trigger] fewer[i], before[name], name);
            assert(lines[i] == fewer[i]);
            assert(is_packed_line(lines[i], before[name], name));
        } else if all.contains_key(name) {
            lemma_packed_line(lines[n], all[name], name);
            assert(is_packed_line(lines[n], all[name], name));
        }
        assert forall|i: int, id: Seq<char>|
            0 <= i < lines.len() && "refs/heads/"@.is_prefix_of(name) && #[trigger] is_packed_line(
                lines[i],
                id,
                name,
            ) implies {
            &&& all.contains_key(name)
            &&& !refs.contains_key(name) && (forall|j: int, other: Seq<char>|
                0 <= j < i ==> !#[trigger] is_packed_line(lines[j], other, name)) ==> all[name]
                == id
        } by {
            lemma_packed_line(lines[i], id, name);
            if i < n {
                assert(fewer[i] == lines[i]);
                assert(is_packed_line(fewer[i], id, name));
                if forall|j: int, other: Seq<char>|
                    0 <= j < i ==> !#[trigger] is_packed_line(lines[j], other, name) {
                    assert forall|j: int, other: Seq<char>|
                        0 <= j < i implies !#[trigger] is_packed_line(fewer[j], other, name) by {
                        assert(fewer[j] == lines[j]);
                        assert(!is_packed_line(lines[j], other, name));
                    }
                }
            } else if before.contains_key(name) {
                let j = choose|j: int|
                    0 <= j < fewer.len() && is_packed_line(#[trigger] fewer[j], before[name], name);
                assert(lines[j] == fewer[j]);
                assert(is_packed_line(lines[j], before[name], name));
            }
        }
    }
}

/// Every branch of `packed-refs` is recorded, whatever files stand below
/// `refs/heads`; and where no such file has its name, it is recorded as the first
/// line for it says.
pub proof fn law_packed_branches_are_recorded(
    reads: SnapshotReads,
    content: String,
    i: int,
    id: Seq<char>,
    name: Seq<char>,
)
    requires
        reads.packed_refs == Some(content),
        0 <= i < lines_of(content@).len(),
        is_packed_line(lines_of(content@)[i], id, name),
        "refs/heads/"@.is_prefix_of(name),
    ensures
        reads.snapshot().refs.contains_key(name),
        (forall|j: int, target: Seq<char>|
            0 <= j < reads.heads@.len() ==> !#[trigger] is_loose_file(
                reads.heads@[j],
                "refs/heads"@,
                name,
                target,
            )) && (forall|j: int, other: Seq<char>|
            0 <= j < i ==> !#[trigger] is_packed_line(lines_of(content@)[j], other, name))
            ==> reads.snapshot().refs[name] == id,
{
    lemma_loose_refs("refs/heads"@, reads.heads@, name);
    lemma_with_packed(
        loose_refs("refs/heads"@, reads.heads@),
        lines_of(content@),
        name,
    );
}

/// Every branch that has a file of its own is recorded as the file says, whatever
/// `packed-refs` holds.
pub proof fn law_loose_branches_are_recorded(
    reads: SnapshotReads,
    i: int,
    name: Seq<char>,
    target: Seq<char>,
)
    requires
        0 <= i < reads.heads@.len(),
        is_loose_file(reads.heads@[i], "refs/heads"@, name, target),
        forall|j: int, other: Seq<char>|
            i < j < reads.heads@.len() ==> !#[trigger] is_loose_file(
                reads.heads@[j],
                "refs/heads"@,
                name,
                other,
            ),
    ensures
        reads.snapshot().refs.contains_key(name),
        reads.snapshot().refs[name] == target,
{
    lemma_loose_refs("refs/heads"@, reads.heads@, name);
    law_loose_refs_take_precedence(
        loose_refs("refs/heads"@, reads.heads@),
        reads.packed_lines(),
        name,
    );
}

/// Nothing else is recorded: a branch of a snapshot stands in a file below
/// `refs/heads` or in a line of `packed-refs`, with what it points at.
pub proof fn law_recorded_branches_are_there(reads: SnapshotReads, name: Seq<char>)
    requires
        reads.snapshot().refs.contains_key(name),
    ensures
        (exists|i: int|
            0 <= i < reads.heads@.len() && is_loose_file(
                #[trigger] reads.heads@[i],
                "refs/heads"@,
                name,
                reads.snapshot().refs[name],
            )) || (reads.packed_refs matches Some(content) && "refs/heads/"@.is_prefix_of(name)
            && exists|i: int|
            0 <= i < lines_of(content@).len() && is_packed_line(
                #[trigger] lines_of(content@)[i],
                reads.snapshot().refs[name],
                name,
            )),
{
    let loose = loose_refs("refs/heads"@, reads.heads@);
    lemma_loose_refs("refs/heads"@, reads.heads@, name);
    lemma_with_packed(loose, reads.packed_lines(), name);
    if loose.contains_key(name) {
        law_loose_refs_take_precedence(loose, reads.packed_lines(), name);
    }
}

/// What the last line for the stash says is what is read.
proof fn lemma_packed_stash(lines: Seq<Seq<char>>)
    ensures
        packed_stash(lines) is None ==> forall|i: int, id: Seq<char>|
            0 <= i < lines.len() ==> !#[trigger] is_packed_line(lines[i], id, "refs/stash"@),
        forall|i: int, id: Seq<char>|
            0 <= i < lines.len() && #[trigger] is_packed_line(lines[i], id, "refs/stash"@) && (
            forall|j: int, other: Seq<char>|
                i < j < lines.len() ==> !#[trigger] is_packed_line(
                    lines[j],
                    other,
                    "refs/stash"@,
                )) ==> packed_stash(lines) == Some(id),
        packed_stash(lines) matches Some(id) ==> exists|i: int|
            0 <= i < lines.len() && is_packed_line(#[trigger] lines[i], id, "refs/stash"@),
    decreases lines.len(),
{
    if lines.len() > 0 {
        let fewer = lines.drop_last();
        let n = lines.len() - 1;
        let name = "refs/stash"@;
        lemma_packed_stash(fewer);
        assert forall|i: int, id: Seq<char>| 0 <= i < n implies #[trigger] is_packed_line(
            lines[i],
            id,
            name,
        ) == is_packed_line(fewer[i], id, name) by {
            assert(fewer[i] == lines[i]);
        }
        assert forall|id: Seq<char>| #[trigger] is_packed_line(lines[n], id, name) == (
        packed_entry(lines[n]) == Some((id, name))) by {
            lemma_packed_line(lines[n], id, name);
        }
        let on_last = packed_entry(lines[n]) matches Some((id, m)) && m == name;
        if on_last {
            let id = (packed_entry(lines[n])->0).0;
            assert(is_packed_line(lines[n], id, name));
        } else {
            assert(packed_stash(lines) == packed_stash(fewer));
            if packed_stash(fewer) is Some {
                let id = packed_stash(fewer)->0;
                let i = choose|i: int|
                    0 <= i < fewer.len() && is_packed_line(#[trigger] fewer[i], id, name);
                assert(is_packed_line(lines[i], id, name));
            }
        }
        assert forall|i: int, id: Seq<char>|
            0 <= i < lines.len() && #[trigger] is_packed_line(lines[i], id, name) && (forall|
                j: int,
                other: Seq<char>,
            |
                i < j < lines.len() ==> !#[trigger] is_packed_line(
                    lines[j],
                    other,
                    name,
                )) implies packed_stash(lines) == Some(id) by {
            if i < n {
                if on_last {
                    let last = (packed_entry(lines[n])->0).0;
                    assert(is_packed_line(lines[n], last, name));
                }
                assert(is_packed_line(fewer[i], id, name));
                assert forall|j: int, other: Seq<char>|
                    i < j < fewer.len() implies !#[trigger] is_packed_line(
                    fewer[j],
                    other,
                    name,
                ) by {
                    assert(!is_packed_line(lines[j], other, name));
                }
            }
        }
        if packed_stash(lines) is None {
            assert forall|i: int, id: Seq<char>| 0 <= i < lines.len() implies !#[trigger]
            is_packed_line(lines[i], id, name) by {
                if i < n {
                    assert(!is_packed_line(fewer[i], id, name));
                }
            }
        }
    }
}

/// A stash that has a file of its own is recorded as the file says.
pub proof fn law_loose_stash_is_recorded(reads: SnapshotReads, i: int, target: Seq<char>)
    requires
        0 <= i < reads.refs@.len(),
        is_loose_file(reads.refs@[i], "refs"@, "refs/stash"@, target),
        forall|j: int, other: Seq<char>|
            i < j < reads.refs@.len() ==> !#[trigger] is_loose_file(
                reads.refs@[j],
                "refs"@,
                "refs/stash"@,
                other,
            ),
    ensures
        reads.snapshot().stash_ref == Some(target),
{
    lemma_loose_refs("refs"@, reads.refs@, "refs/stash"@);
}

/// Without such a file the stash is what the last line of `packed-refs` for it
/// says, and where there is no such line either, none is recorded.
pub proof fn law_packed_stash_is_recorded(reads: SnapshotReads, content: String)
    requires
        forall|j: int, other: Seq<char>|
            0 <= j < reads.refs@.len() ==> !#[trigger] is_loose_file(
                reads.refs@[j],
                "refs"@,
                "refs/stash"@,
                other,
            ),
    ensures
        reads.packed_refs is None ==> reads.snapshot().stash_ref is None,
        reads.packed_refs == Some(content) ==> {
            let lines = lines_of(content@);
            &&& forall|i: int, id: Seq<char>|
                0 <= i < lines.len() && #[trigger] is_packed_line(lines[i], id, "refs/stash"@) && (
                forall|j: int, other: Seq<char>|
                    i < j < lines.len() ==> !#[trigger] is_packed_line(
                        lines[j],
                        other,
                        "refs/stash"@,
                    )) ==> reads.snapshot().stash_ref == Some(id)
            &&& reads.snapshot().stash_ref matches Some(id) ==> exists|i: int|
                0 <= i < lines.len() && is_packed_line(#[trigger] lines[i], id, "refs/stash"@)
        },
{
    let loose = loose_refs("refs"@, reads.refs@);
    lemma_loose_refs("refs"@, reads.refs@, "refs/stash"@);
    if loose.contains_key("refs/stash"@) {
        let j = choose|j: int|
            0 <= j < reads.refs@.len() && is_loose_file(
                #[trigger] reads.refs@[j],
                "refs"@,
                "refs/stash"@,
                loose["refs/stash"@],
            );
        assert(is_loose_file(reads.refs@[j], "refs"@, "refs/stash"@, loose["refs/stash"@]));
    }
    lemma_packed_stash(reads.packed_lines());
}

/// `HEAD` and the tree of the index are recorded as they were read, without the
/// blanks around them.
pub proof fn law_head_and_index_are_recorded(reads: SnapshotReads)
    ensures
        reads.snapshot().head == trim_of(reads.head@),
        match reads.index_tree {
            Some(tree) => reads.snapshot().index_tree == Some(trim_of(tree@)),
            None => reads.snapshot().index_tree is None,
        },
{
}

/// A snapshot is what was read, and is refused exactly where `HEAD` is blank.
pub proof fn law_snapshots_are_what_was_read(
    engine: UndoEngine,
    reads: SnapshotReads,
    r: Result<Snapshot, SnapshotError>,
)
    requires
        call_ensures(UndoEngine::read_snapshot, (&engine, &reads), r),
    ensures
        r is Err <==> trim_of(reads.head@).len() == 0,
        r matches Ok(s) ==> {
            &&& s.head@ == trim_of(reads.head@)
            &&& s.refs@ == reads.snapshot().refs
            &&& opt_text(s.stash_ref) == reads.snapshot().stash_ref
            &&& opt_text(s.index_tree) == reads.snapshot().index_tree
        },
{
}

/// The text of a snapshot holds all of it, one member on each line, and that of its
/// references one reference on each.
pub proof fn law_snapshot_text(s: Snapshot, indent: Seq<char>, i: int)
    ensures
        ({
            let line = "\n"@ + indent + "  "@;
            let next = ","@ + line;
            let head = "\"head\""@ + ": "@ + json_text(JsonView::Text(s.head@));
            let refs = "\"refs\""@ + ": "@ + pretty_object(s.refs.members(), indent + "  "@);
            let stash = "\"stash_ref\""@ + ": "@ + opt_string_of(opt_text(s.stash_ref));
            let tree = "\"index_tree\""@ + ": "@ + opt_string_of(opt_text(s.index_tree));
            s.pretty_text(indent) == "{"@ + line + (head + next + refs + next + stash + next + tree)
                + "\n"@ + indent + "}"@
        }),
        s.refs.members().len() == s.refs.listed().len(),
        0 <= i < s.refs.listed().len() ==> s.refs.members()[i] == (
            json_text(JsonView::Text(s.refs.listed()[i].0)),
            json_text(JsonView::Text(s.refs.listed()[i].1)),
        ),
{
    let m = s.members(indent);
    let t = member_texts(m, ": "@);
    let next = ","@ + ("\n"@ + indent + "  "@);
    assert(t.len() == 4);
    assert(t.drop_last() =~= seq![t[0], t[1], t[2]]);
    assert(seq![t[0], t[1], t[2]].drop_last() =~= seq![t[0], t[1]]);
    assert(seq![t[0], t[1]].drop_last() =~= seq![t[0]]);
    reveal_with_fuel(join_of, 5);
    assert(join_of(t, next) == t[0] + next + t[1] + next + t[2] + next + t[3]);
}

} // verus!
