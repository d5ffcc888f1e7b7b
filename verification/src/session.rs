//! A session on a repository: its epoch, and what changes to its files mean.
//!
//! The epoch counts the changes that a client has to know of. It is bumped by
//! every write and by every batch of changes to the files of the git directory
//! that may have moved a reference or the index.
use crate::text;
use crate::text::{lossy_of, texts, trim_of};
use crate::undo::{UndoErrorKind, UndoSummary};
use crate::write_queue::{succeeded, WriteCommand, WriteResult};
use vstd::prelude::*;
use vstd::string::*;
use vstd::utf8::{decode_utf8, valid_utf8};

verus! {

broadcast use vstd::string::group_string_axioms;

// ---------------------------------------------------------------------------
// Paths
// ---------------------------------------------------------------------------
/// A path in the file system: its components, from the root on.
#[derive(Debug, Clone)]
pub struct FsPath {
    pub components: Vec<Vec<u8>>,
}

impl View for FsPath {
    type V = Seq<Seq<u8>>;

    open spec fn view(&self) -> Seq<Seq<u8>> {
        self.components@.map_values(|c: Vec<u8>| c@)
    }
}

/// Components as one text of bytes, with slashes between them.
pub open spec fn slashed(components: Seq<Seq<u8>>) -> Seq<u8>
    decreases components.len(),
{
    if components.len() == 0 {
        Seq::<u8>::empty()
    } else if components.len() == 1 {
        components[0]
    } else {
        slashed(components.drop_last()) + seq![47u8] + components.last()
    }
}

/// The name of the file at a path, where it is valid text. Roots and the names
/// of the directory itself and of the one above are no file names.
pub open spec fn file_name(path: Seq<Seq<u8>>) -> Seq<char> {
    if path.len() == 0 {
        Seq::<char>::empty()
    } else {
        let last = path.last();
        if last == seq![46u8] || last == seq![46u8, 46u8] || last == seq![47u8] || !valid_utf8(
            last,
        ) {
            Seq::<char>::empty()
        } else {
            decode_utf8(last)
        }
    }
}

/// Whether two lists of bytes are the same.
fn same_bytes(a: &Vec<u8>, b: &Vec<u8>) -> (r: bool)
    ensures
        r == (a@ == b@),
{
    if a.len() != b.len() {
        return false;
    }
    let mut i: usize = 0;
    while i < a.len()
        invariant
            i <= a@.len(),
            a@.len() == b@.len(),
            forall|k: int| 0 <= k < i ==> a@[k] == b@[k],
        decreases a.len() - i,
    {
        if a[i] != b[i] {
            return false;
        }
        i += 1;
    }
    assert(a@ =~= b@);
    true
}

impl FsPath {
    /// Whether the path is `base` or lies below it.
    pub fn starts_with(&self, base: &FsPath) -> (r: bool)
        ensures
            r == base@.is_prefix_of(self@),
    {
        if base.components.len() > self.components.len() {
            return false;
        }
        let mut i: usize = 0;
        while i < base.components.len()
            invariant
                i <= base.components@.len() <= self.components@.len(),
                forall|k: int| 0 <= k < i ==> base@[k] == self@[k],
            decreases base.components.len() - i,
        {
            assert(base@[i as int] == base.components@[i as int]@);
            assert(self@[i as int] == self.components@[i as int]@);
            if !same_bytes(&base.components[i], &self.components[i]) {
                assert(self@.take(base@.len() as int)[i as int] == self@[i as int]);
                return false;
            }
            i += 1;
        }
        assert(base@ =~= self@.take(base@.len() as int));
        true
    }

    /// The components from `from` on as text.
    fn text_from(&self, from: usize) -> (r: String)
        requires
            from <= self.components@.len(),
        ensures
            r@ == lossy_of(slashed(self@.skip(from as int))),
    {
        let mut bytes: Vec<u8> = Vec::new();
        let mut i: usize = from;
        assert(self@.subrange(from as int, i as int) =~= Seq::<Seq<u8>>::empty());
        while i < self.components.len()
            invariant
                from <= i <= self.components@.len(),
                bytes@ == slashed(self@.subrange(from as int, i as int)),
            decreases self.components.len() - i,
        {
            let ghost before = bytes@;
            let ghost piece = self@[i as int];
            assert(piece == self.components@[i as int]@);
            proof {
                let more = self@.subrange(from as int, i + 1);
                assert(more.drop_last() =~= self@.subrange(from as int, i as int));
                assert(more.last() == piece);
            }
            if i > from {
                bytes.push(47);
                assert(bytes@ =~= before + seq![47u8]);
            }
            let ghost so_far = bytes@;
            let mut j: usize = 0;
            assert(so_far + piece.take(0) =~= so_far);
            while j < self.components[i].len()
                invariant
                    i < self.components@.len(),
                    piece == self.components@[i as int]@,
                    j <= piece.len(),
                    bytes@ == so_far + piece.take(j as int),
                decreases piece.len() - j,
            {
                bytes.push(self.components[i][j]);
                j += 1;
                assert(bytes@ =~= so_far + piece.take(j as int));
            }
            assert(piece.take(j as int) =~= piece);
            if i == from {
                assert(before + piece =~= piece);
            }
            i += 1;
        }
        assert(self@.subrange(from as int, i as int) =~= self@.skip(from as int));
        text::lossy(bytes.as_slice())
    }

    /// The name of the file at the path, where it is valid text.
    fn name(&self) -> (r: String)
        ensures
            r@ == file_name(self@),
    {
        let n: usize = self.components.len();
        if n == 0 {
            return String::new();
        }
        let last = &self.components[n - 1];
        assert(self@.last() == last@);
        let special = (last.len() == 1 && (last[0] == 46 || last[0] == 47)) || (last.len() == 2
            && last[0] == 46 && last[1] == 46);
        assert(special <==> (last@ == seq![46u8] || last@ == seq![46u8, 46u8] || last@
            == seq![47u8])) by {
            if last@.len() == 1 {
                assert(last@ =~= seq![last@[0]]);
            }
            if last@.len() == 2 {
                assert(last@ =~= seq![last@[0], last@[1]]);
            }
        }
        if special {
            return String::new();
        }
        match text::utf8_text(last.as_slice()) {
            Some(t) => t.to_owned(),
            None => String::new(),
        }
    }
}

/// Whether the git directory lies inside the worktree. That of a linked worktree
/// does not, and has to be watched on its own.
pub fn git_dir_inside_worktree(git_dir: &FsPath, repo_path: &FsPath) -> (r: bool)
    ensures
        r == repo_path@.is_prefix_of(git_dir@),
{
    git_dir.starts_with(repo_path)
}

// ---------------------------------------------------------------------------
// Events
// ---------------------------------------------------------------------------
/// Something that clients are told of.
#[derive(Debug, Clone)]
pub enum EngineEvent {
    RefsChanged { changed_refs: Vec<String>, epoch: u64 },
    WorktreeChanged { paths: Vec<String> },
    IndexChanged { epoch: u64 },
    HeadChanged { new_head: String, epoch: u64 },
    GraphInvalidated { epoch: u64 },
}

/// What an event says.
pub enum EventView {
    RefsChanged { changed_refs: Seq<Seq<char>>, epoch: u64 },
    WorktreeChanged { paths: Seq<Seq<char>> },
    IndexChanged { epoch: u64 },
    HeadChanged { new_head: Seq<char>, epoch: u64 },
    GraphInvalidated { epoch: u64 },
}

impl View for EngineEvent {
    type V = EventView;

    open spec fn view(&self) -> EventView {
        match self {
            EngineEvent::RefsChanged { changed_refs, epoch } => EventView::RefsChanged {
                changed_refs: texts(changed_refs@),
                epoch: *epoch,
            },
            EngineEvent::WorktreeChanged { paths } => EventView::WorktreeChanged {
                paths: texts(paths@),
            },
            EngineEvent::IndexChanged { epoch } => EventView::IndexChanged { epoch: *epoch },
            EngineEvent::HeadChanged { new_head, epoch } => EventView::HeadChanged {
                new_head: new_head@,
                epoch: *epoch,
            },
            EngineEvent::GraphInvalidated { epoch } => EventView::GraphInvalidated {
                epoch: *epoch,
            },
        }
    }
}

/// What the events of a list say.
pub open spec fn events_of(s: Seq<EngineEvent>) -> Seq<EventView> {
    s.map_values(|e: EngineEvent| e@)
}

// ---------------------------------------------------------------------------
// Changes to files
// ---------------------------------------------------------------------------
/// A change that the file system reports.
#[derive(Debug, Clone)]
pub struct FsEvent {
    /// Whether a file was only opened, read or closed.
    pub access: bool,
    pub paths: Vec<FsPath>,
}

/// What a change to a path means.
pub enum PathChange {
    /// Nothing that matters.
    Nothing,
    Head,
    Index,
    /// References, named by their file.
    Refs(Seq<char>),
    /// An operation of several commits, such as a rebase.
    Sequence,
    /// A file of the worktree.
    Worktree(Seq<char>),
}

/// Whether a file is one that editors create in passing.
pub open spec fn is_transient(name: Seq<char>) -> bool {
    ||| "."@.is_prefix_of(name) && ".swp"@.is_suffix_of(name)
    ||| "~"@.is_suffix_of(name)
    ||| "#"@.is_prefix_of(name)
}

/// What a change to a file of the git directory means.
pub open spec fn git_dir_change(rel: Seq<char>) -> PathChange {
    if ".lock"@.is_suffix_of(rel) {
        PathChange::Nothing
    } else if rel == "HEAD"@ {
        PathChange::Head
    } else if rel == "index"@ {
        PathChange::Index
    } else if "refs/"@.is_prefix_of(rel) || rel == "packed-refs"@ {
        PathChange::Refs(rel)
    } else if "sequencer/"@.is_prefix_of(rel) {
        PathChange::Sequence
    } else {
        PathChange::Nothing
    }
}

/// What a change to a path means.
pub open spec fn path_change(
    path: Seq<Seq<u8>>,
    repo_path: Seq<Seq<u8>>,
    git_dir: Seq<Seq<u8>>,
) -> PathChange {
    if is_transient(file_name(path)) {
        PathChange::Nothing
    } else if git_dir.is_prefix_of(path) {
        git_dir_change(lossy_of(slashed(path.skip(git_dir.len() as int))))
    } else if repo_path.is_prefix_of(path) {
        PathChange::Worktree(lossy_of(slashed(path.skip(repo_path.len() as int))))
    } else {
        PathChange::Nothing
    }
}

/// What a batch of changes means.
#[derive(Debug)]
pub struct Changes {
    pub head_changed: bool,
    pub index_changed: bool,
    pub graph_invalidated: bool,
    pub changed_refs: Vec<String>,
    pub worktree_paths: Vec<String>,
}

/// What a batch of changes means.
#[verifier::ext_equal]
pub struct ChangesView {
    pub head_changed: bool,
    pub index_changed: bool,
    pub graph_invalidated: bool,
    pub changed_refs: Seq<Seq<char>>,
    pub worktree_paths: Seq<Seq<char>>,
}

impl View for Changes {
    type V = ChangesView;

    open spec fn view(&self) -> ChangesView {
        ChangesView {
            head_changed: self.head_changed,
            index_changed: self.index_changed,
            graph_invalidated: self.graph_invalidated,
            changed_refs: texts(self.changed_refs@),
            worktree_paths: texts(self.worktree_paths@),
        }
    }
}

impl ChangesView {
    /// Changes that mean nothing.
    pub open spec fn none() -> ChangesView {
        ChangesView {
            head_changed: false,
            index_changed: false,
            graph_invalidated: false,
            changed_refs: Seq::empty(),
            worktree_paths: Seq::empty(),
        }
    }

    /// The changes with that of one more path.
    pub open spec fn with(self, change: PathChange) -> ChangesView {
        match change {
            PathChange::Nothing => self,
            PathChange::Head => ChangesView { head_changed: true, graph_invalidated: true, ..self },
            PathChange::Index => ChangesView { index_changed: true, ..self },
            PathChange::Refs(rel) => ChangesView {
                changed_refs: self.changed_refs.push(rel),
                graph_invalidated: true,
                ..self
            },
            PathChange::Sequence => ChangesView { graph_invalidated: true, ..self },
            PathChange::Worktree(rel) => ChangesView {
                worktree_paths: self.worktree_paths.push(rel),
                ..self
            },
        }
    }

    /// The changes with those of more paths.
    pub open spec fn with_paths(
        self,
        paths: Seq<FsPath>,
        repo_path: Seq<Seq<u8>>,
        git_dir: Seq<Seq<u8>>,
    ) -> ChangesView
        decreases paths.len(),
    {
        if paths.len() == 0 {
            self
        } else {
            self.with_paths(paths.drop_last(), repo_path, git_dir).with(
                path_change(paths.last()@, repo_path, git_dir),
            )
        }
    }

    /// Whether anything has changed that a client has to read again at a new
    /// epoch.
    pub open spec fn needs_epoch(self) -> bool {
        self.head_changed || self.index_changed || self.graph_invalidated
            || self.changed_refs.len() > 0
    }
}

/// What a batch of changes means.
pub open spec fn changes_of(
    events: Seq<FsEvent>,
    repo_path: Seq<Seq<u8>>,
    git_dir: Seq<Seq<u8>>,
) -> ChangesView
    decreases events.len(),
{
    if events.len() == 0 {
        ChangesView::none()
    } else {
        let before = changes_of(events.drop_last(), repo_path, git_dir);
        if events.last().access {
            before
        } else {
            before.with_paths(events.last().paths@, repo_path, git_dir)
        }
    }
}

impl Changes {
    /// Whether anything has changed that a client has to read again at a new
    /// epoch.
    pub fn needs_epoch(&self) -> (r: bool)
        ensures
            r == self@.needs_epoch(),
    {
        self.head_changed || self.index_changed || self.graph_invalidated
            || self.changed_refs.len() > 0
    }

    /// Adds a change to a file of the git directory.
    fn add_git_dir(&mut self, rel: String)
        ensures
            final(self)@ == old(self)@.with(git_dir_change(rel@)),
    {
        let ghost before = self@;
        if text::ends_with(rel.as_str(), ".lock") {
        } else if text::same(rel.as_str(), "HEAD") {
            self.head_changed = true;
            self.graph_invalidated = true;
        } else if text::same(rel.as_str(), "index") {
            self.index_changed = true;
        } else if text::starts_with(rel.as_str(), "refs/") || text::same(
            rel.as_str(),
            "packed-refs",
        ) {
            let ghost t = rel@;
            self.changed_refs.push(rel);
            self.graph_invalidated = true;
            assert(texts(self.changed_refs@) =~= before.changed_refs.push(t));
        } else if text::starts_with(rel.as_str(), "sequencer/") {
            self.graph_invalidated = true;
        }
    }

    /// Adds a change to a path.
    fn add_path(&mut self, path: &FsPath, repo_path: &FsPath, git_dir: &FsPath)
        ensures
            final(self)@ == old(self)@.with(path_change(path@, repo_path@, git_dir@)),
    {
        let ghost before = self@;
        let name = path.name();
        if (text::starts_with(name.as_str(), ".") && text::ends_with(name.as_str(), ".swp"))
            || text::ends_with(name.as_str(), "~") || text::starts_with(name.as_str(), "#") {
            return;
        }
        if path.starts_with(git_dir) {
            let rel = path.text_from(git_dir.components.len());
            self.add_git_dir(rel);
        } else if path.starts_with(repo_path) {
            let rel = path.text_from(repo_path.components.len());
            let ghost t = rel@;
            self.worktree_paths.push(rel);
            assert(texts(self.worktree_paths@) =~= before.worktree_paths.push(t));
        }
    }
}

/// What a batch of changes means. Pure accesses mean nothing: the engine itself
/// reads the files of the git directory, and would be told of that for ever.
/// Neither do lock files and the temporary files of editors.
pub fn classify(events: &Vec<FsEvent>, repo_path: &FsPath, git_dir: &FsPath) -> (r: Changes)
    ensures
        r@ == changes_of(events@, repo_path@, git_dir@),
{
    let mut changes = Changes {
        head_changed: false,
        index_changed: false,
        graph_invalidated: false,
        changed_refs: Vec::new(),
        worktree_paths: Vec::new(),
    };
    assert(changes@ =~= ChangesView::none());
    let mut i: usize = 0;
    assert(events@.take(0) =~= Seq::<FsEvent>::empty());
    while i < events.len()
        invariant
            i <= events@.len(),
            changes@ == changes_of(events@.take(i as int), repo_path@, git_dir@),
        decreases events.len() - i,
    {
        let ghost so_far = changes@;
        assert(events@.take(i + 1).drop_last() =~= events@.take(i as int));
        assert(events@.take(i + 1).last() == events@[i as int]);
        if !events[i].access {
            let paths = &events[i].paths;
            let mut j: usize = 0;
            assert(paths@.take(0) =~= Seq::<FsPath>::empty());
            while j < paths.len()
                invariant
                    j <= paths@.len(),
                    changes@ == so_far.with_paths(paths@.take(j as int), repo_path@, git_dir@),
                decreases paths.len() - j,
            {
                assert(paths@.take(j + 1).drop_last() =~= paths@.take(j as int));
                changes.add_path(&paths[j], repo_path, git_dir);
                j += 1;
            }
            assert(paths@.take(j as int) =~= paths@);
        }
        i += 1;
    }
    assert(events@.take(i as int) =~= events@);
    changes
}

/// The events for the changes of a batch, at the epoch `epoch`.
pub open spec fn announcements(changes: ChangesView, head: Seq<char>, epoch: u64) -> Seq<EventView> {
    let worktree = if changes.worktree_paths.len() > 0 {
        seq![EventView::WorktreeChanged { paths: changes.worktree_paths }]
    } else {
        Seq::empty()
    };
    if !changes.needs_epoch() {
        worktree
    } else {
        (if changes.head_changed {
            seq![EventView::HeadChanged { new_head: trim_of(head), epoch }]
        } else {
            Seq::empty()
        }) + (if changes.changed_refs.len() > 0 {
            seq![EventView::RefsChanged { changed_refs: changes.changed_refs, epoch }]
        } else {
            Seq::empty()
        }) + (if changes.index_changed {
            seq![EventView::IndexChanged { epoch }]
        } else {
            Seq::empty()
        }) + (if changes.graph_invalidated {
            seq![EventView::GraphInvalidated { epoch }]
        } else {
            Seq::empty()
        }) + worktree
    }
}

// ---------------------------------------------------------------------------
// Batches
// ---------------------------------------------------------------------------
/// The most events in a batch; those of a longer burst go into the next ones.
pub const MAX_EVENTS_PER_BATCH: usize = 4096;

/// How long a batch waits for another event, in milliseconds. One run of `git`
/// writes many files.
pub const EVENT_DEBOUNCE_MILLIS: u64 = 50;

/// What came while a batch was being collected.
#[derive(Debug, Clone, Copy, PartialEq, Eq)]
pub enum BatchInput {
    /// An event.
    Event,
    /// An error in place of an event.
    Broken,
    /// Nothing, for as long as a batch waits.
    Quiet,
    /// The end: nothing will come any more but what is there already.
    Closed,
}

/// How a batch goes on.
#[derive(Debug, Clone, Copy, PartialEq, Eq)]
pub enum BatchNext {
    /// It waits for more.
    Collect,
    /// It takes what is there already.
    Drain,
    /// It is complete.
    Complete,
}

/// Whether an event is taken into a batch of `len`.
pub fn has_room(len: usize) -> (r: bool)
    ensures
        r == (len < MAX_EVENTS_PER_BATCH),
{
    len < MAX_EVENTS_PER_BATCH
}

/// How a batch goes on that holds `len` events after `input`.
pub fn next_of_batch(len: usize, input: BatchInput) -> (r: BatchNext)
    ensures
        r == match input {
            BatchInput::Quiet => BatchNext::Complete,
            BatchInput::Closed => BatchNext::Drain,
            _ => if len < MAX_EVENTS_PER_BATCH {
                BatchNext::Collect
            } else {
                BatchNext::Complete
            },
        },
{
    match input {
        BatchInput::Quiet => BatchNext::Complete,
        BatchInput::Closed => BatchNext::Drain,
        _ => if len < MAX_EVENTS_PER_BATCH {
            BatchNext::Collect
        } else {
            BatchNext::Complete
        },
    }
}

// ---------------------------------------------------------------------------
// Watching
// ---------------------------------------------------------------------------
/// Something that is watched.
#[derive(Debug, Clone)]
pub enum Watch {
    /// The worktree and all below it.
    Worktree,
    /// A file of the git directory.
    File(String),
    /// A directory of the git directory and all below it.
    Directory(String),
}

/// What is watched.
pub enum WatchView {
    Worktree,
    File(Seq<char>),
    Directory(Seq<char>),
}

impl View for Watch {
    type V = WatchView;

    open spec fn view(&self) -> WatchView {
        match self {
            Watch::Worktree => WatchView::Worktree,
            Watch::File(name) => WatchView::File(name@),
            Watch::Directory(name) => WatchView::Directory(name@),
        }
    }
}

/// What is there in a git directory.
#[derive(Debug, Clone, Copy)]
pub struct GitDirEntries {
    pub head: bool,
    pub index: bool,
    pub packed_refs: bool,
    pub refs: bool,
}

/// A watch, where what it watches is there.
pub open spec fn watch_if(there: bool, w: WatchView) -> Seq<WatchView> {
    if there {
        seq![w]
    } else {
        Seq::empty()
    }
}

/// What is watched of a repository: the worktree, and the files of the git
/// directory that hold references and the index. These are watched on their
/// own, as the git directory may lie outside of the worktree, or the worktree
/// may be too large to be watched.
pub fn start_fs_watcher(entries: GitDirEntries) -> (r: Vec<Watch>)
    ensures
        r@.map_values(|w: Watch| w@) == seq![WatchView::Worktree] + watch_if(
            entries.head,
            WatchView::File("HEAD"@),
        ) + watch_if(entries.index, WatchView::File("index"@)) + watch_if(
            entries.packed_refs,
            WatchView::File("packed-refs"@),
        ) + watch_if(entries.refs, WatchView::Directory("refs"@)),
{
    let mut out: Vec<Watch> = Vec::new();
    out.push(Watch::Worktree);
    if entries.head {
        out.push(Watch::File("HEAD".to_owned()));
    }
    if entries.index {
        out.push(Watch::File("index".to_owned()));
    }
    if entries.packed_refs {
        out.push(Watch::File("packed-refs".to_owned()));
    }
    if entries.refs {
        out.push(Watch::Directory("refs".to_owned()));
    }
    assert(out@.map_values(|w: Watch| w@) =~= seq![WatchView::Worktree] + watch_if(
        entries.head,
        WatchView::File("HEAD"@),
    ) + watch_if(entries.index, WatchView::File("index"@)) + watch_if(
        entries.packed_refs,
        WatchView::File("packed-refs"@),
    ) + watch_if(entries.refs, WatchView::Directory("refs"@)));
    out
}

// ---------------------------------------------------------------------------
// The session
// ---------------------------------------------------------------------------
/// A session on a repository.
#[derive(Debug)]
pub struct Session {
    /// The root of the worktree.
    pub repo_path: FsPath,
    /// The git directory, which is elsewhere for a linked worktree.
    pub git_dir: FsPath,
    /// Counts the changes that a client has to know of. It begins where the
    /// cache has left off.
    pub epoch: u64,
}

/// Why a write was not answered.
#[derive(Debug, Clone, Copy, PartialEq, Eq)]
pub enum QueueError {
    /// It could not be handed over.
    Closed,
    /// It was handed over, and no result came back.
    Dropped,
}

impl QueueError {
    /// What the error says.
    pub open spec fn text(&self) -> Seq<char> {
        match self {
            QueueError::Closed => "write queue closed"@,
            QueueError::Dropped => "write result dropped"@,
        }
    }

    /// What the error says.
    pub fn message(&self) -> (r: String)
        ensures
            r@ == self.text(),
    {
        match self {
            QueueError::Closed => "write queue closed".to_owned(),
            QueueError::Dropped => "write result dropped".to_owned(),
        }
    }
}

impl Session {
    /// A session that begins at the epoch `epoch`.
    pub fn open(repo_path: FsPath, git_dir: FsPath, epoch: u64) -> (r: Session)
        ensures
            r.repo_path == repo_path,
            r.git_dir == git_dir,
            r.epoch == epoch,
    {
        Session { repo_path, git_dir, epoch }
    }

    /// Counts one more change.
    pub fn bump_epoch(&mut self) -> (r: u64)
        requires
            old(self).epoch < u64::MAX,
        ensures
            *final(self) == (Session { epoch: (old(self).epoch + 1) as u64, ..*old(self) }),
            r == old(self).epoch + 1,
    {
        self.epoch = self.epoch + 1;
        self.epoch
    }

    /// The current epoch.
    pub fn current_epoch(&self) -> (r: u64)
        ensures
            r == self.epoch,
    {
        self.epoch
    }

    /// What a client is answered to a write.
    pub fn enqueue_write(&self, reply: Result<WriteResult, QueueError>) -> (r: Result<
        String,
        String,
    >)
        ensures
            match reply {
                Ok(WriteResult::Done(output)) => r matches Ok(o) && o@ == output@,
                Ok(WriteResult::Failed(e)) => r matches Err(m) && m@ == e@,
                Ok(WriteResult::Undo(Ok(_))) => r matches Ok(o) && o@ == Seq::<char>::empty(),
                Ok(WriteResult::Undo(Err(k))) => r matches Err(m) && m@ == k.text(),
                Err(q) => r matches Err(m) && m@ == q.text(),
            },
    {
        match reply {
            Ok(WriteResult::Done(output)) => Ok(output),
            Ok(WriteResult::Failed(e)) => Err(e),
            Ok(WriteResult::Undo(Ok(_))) => Ok(String::new()),
            Ok(WriteResult::Undo(Err(k))) => Err(k.message()),
            Err(q) => Err(q.message()),
        }
    }

    /// What is made of the answer to an undo: how it ended, or why that cannot
    /// be told.
    pub fn enqueue_undo(&self, reply: Result<WriteResult, QueueError>) -> (r: Result<
        Result<UndoSummary, UndoErrorKind>,
        String,
    >)
        ensures
            match reply {
                Ok(WriteResult::Undo(u)) => r == Ok::<
                    Result<UndoSummary, UndoErrorKind>,
                    String,
                >(u),
                Ok(WriteResult::Done(_)) => r matches Err(m) && m@
                    == "internal error: undo command returned a write result"@,
                Ok(WriteResult::Failed(e)) => r matches Err(m) && m@ == e@,
                Err(q) => r matches Err(m) && m@ == q.text(),
            },
    {
        match reply {
            Ok(WriteResult::Undo(u)) => Ok(u),
            Ok(WriteResult::Done(_)) => Err(
                "internal error: undo command returned a write result".to_owned(),
            ),
            Ok(WriteResult::Failed(e)) => Err(e),
            Err(q) => Err(q.message()),
        }
    }

    /// What follows on a write: where it succeeded the epoch is bumped at once,
    /// so that clients can read again with a valid one, and an undo is
    /// announced.
    pub fn after_write(&mut self, cmd: &WriteCommand, result: &WriteResult) -> (r: Option<
        EngineEvent,
    >)
        requires
            succeeded(*result) ==> old(self).epoch < u64::MAX,
        ensures
            *final(self) == (Session {
                epoch: if succeeded(*result) {
                    (old(self).epoch + 1) as u64
                } else {
                    old(self).epoch
                },
                ..*old(self)
            }),
            match r {
                Some(e) => succeeded(*result) && cmd is Undo && e@ == (
                EventView::GraphInvalidated { epoch: final(self).epoch }),
                None => !succeeded(*result) || !(cmd is Undo),
            },
    {
        if !result.is_success() {
            return None;
        }
        let epoch: u64 = self.bump_epoch();
        match cmd {
            WriteCommand::Undo { .. } => Some(EngineEvent::GraphInvalidated { epoch }),
            _ => None,
        }
    }

    /// The events for the changes of a batch, given what `HEAD` holds now (it
    /// is only asked for where it has changed). One bump of the epoch covers
    /// the whole batch; changes to the worktree alone need none, as its status
    /// is not cached.
    pub fn process_event_batch(&mut self, changes: Changes, head: &str) -> (r: Vec<EngineEvent>)
        requires
            changes@.needs_epoch() ==> old(self).epoch < u64::MAX,
        ensures
            *final(self) == (Session {
                epoch: if changes@.needs_epoch() {
                    (old(self).epoch + 1) as u64
                } else {
                    old(self).epoch
                },
                ..*old(self)
            }),
            events_of(r@) == announcements(changes@, head@, final(self).epoch),
    {
        let ghost view = changes@;
        let mut out: Vec<EngineEvent> = Vec::new();
        let refs_changed = changes.changed_refs.len() > 0;
        let worktree_changed = changes.worktree_paths.len() > 0;
        if !changes.needs_epoch() {
            if worktree_changed {
                out.push(EngineEvent::WorktreeChanged { paths: changes.worktree_paths });
            }
            assert(events_of(out@) =~= announcements(view, head@, self.epoch));
            return out;
        }
        let epoch: u64 = self.bump_epoch();
        if changes.head_changed {
            out.push(EngineEvent::HeadChanged { new_head: text::trim(head), epoch });
        }
        if refs_changed {
            out.push(EngineEvent::RefsChanged { changed_refs: changes.changed_refs, epoch });
        }
        if changes.index_changed {
            out.push(EngineEvent::IndexChanged { epoch });
        }
        if changes.graph_invalidated {
            out.push(EngineEvent::GraphInvalidated { epoch });
        }
        if worktree_changed {
            out.push(EngineEvent::WorktreeChanged { paths: changes.worktree_paths });
        }
        assert(events_of(out@) =~= announcements(view, head@, epoch));
        out
    }
}

// ---------------------------------------------------------------------------
// Laws
// ---------------------------------------------------------------------------
/// The epoch that an event carries.
pub open spec fn event_epoch(e: EventView) -> Option<u64> {
    match e {
        EventView::RefsChanged { epoch, .. } => Some(epoch),
        EventView::WorktreeChanged { .. } => None,
        EventView::IndexChanged { epoch } => Some(epoch),
        EventView::HeadChanged { epoch, .. } => Some(epoch),
        EventView::GraphInvalidated { epoch } => Some(epoch),
    }
}

/// All events of a batch that carry an epoch carry the same one: clients read
/// again once.
pub proof fn law_batch_has_one_epoch(changes: ChangesView, head: Seq<char>, epoch: u64, i: int)
    requires
        0 <= i < announcements(changes, head, epoch).len(),
    ensures
        event_epoch(announcements(changes, head, epoch)[i]) matches Some(e) ==> e == epoch,
{
}

/// Accesses change nothing: a batch means what its other events mean.
pub proof fn law_accesses_mean_nothing(
    events: Seq<FsEvent>,
    access: FsEvent,
    repo_path: Seq<Seq<u8>>,
    git_dir: Seq<Seq<u8>>,
)
    requires
        access.access,
    ensures
        changes_of(events.push(access), repo_path, git_dir) == changes_of(
            events,
            repo_path,
            git_dir,
        ),
{
    assert(events.push(access).drop_last() =~= events);
}

/// A batch that touches nothing but lock files, temporary files and files
/// outside of the repository is not announced and leaves the epoch alone.
pub proof fn law_noise_is_not_announced(
    paths: Seq<FsPath>,
    repo_path: Seq<Seq<u8>>,
    git_dir: Seq<Seq<u8>>,
    head: Seq<char>,
    epoch: u64,
)
    requires
        forall|i: int|
            0 <= i < paths.len() ==> path_change((#[trigger] paths[i])@, repo_path, git_dir)
                is Nothing,
    ensures
        ChangesView::none().with_paths(paths, repo_path, git_dir) == ChangesView::none(),
        !ChangesView::none().needs_epoch(),
        announcements(ChangesView::none(), head, epoch) == Seq::<EventView>::empty(),
    decreases paths.len(),
{
    if paths.len() > 0 {
        let fewer = paths.drop_last();
        assert forall|i: int| 0 <= i < fewer.len() implies path_change(
            (#[trigger] fewer[i])@,
            repo_path,
            git_dir,
        ) is Nothing by {
            assert(fewer[i] == paths[i]);
        }
        law_noise_is_not_announced(fewer, repo_path, git_dir, head, epoch);
        assert(path_change(paths[paths.len() - 1]@, repo_path, git_dir) is Nothing);
    }
}

/// Paths as text: one component is itself, and the text of components that go on
/// is the text of the first ones, a slash, and the text of the others.
pub proof fn law_slashed(first: Seq<Seq<u8>>, second: Seq<Seq<u8>>, one: Seq<u8>)
    ensures
        slashed(seq![one]) == one,
        slashed(Seq::<Seq<u8>>::empty()) == Seq::<u8>::empty(),
        first.len() > 0 && second.len() > 0 ==> slashed(first + second) == slashed(first) + seq![
            '/' as u8,
        ] + slashed(second),
    decreases second.len(),
{
    if first.len() > 0 && second.len() > 0 {
        let fewer = second.drop_last();
        let all = first + second;
        assert(all.drop_last() =~= first + fewer);
        assert(all.last() == second.last());
        if fewer.len() > 0 {
            law_slashed(first, fewer, one);
            assert(slashed(all) =~= slashed(first) + seq!['/' as u8] + slashed(second));
        } else {
            assert(first + fewer =~= first);
            assert(slashed(second) == second.last());
        }
    }
}

/// Whether a text ends with another one.
pub open spec fn has_end(s: Seq<char>, end: Seq<char>) -> bool {
    s.len() >= end.len() && s.skip(s.len() - end.len()) == end
}

/// Whether a text begins with another one.
pub open spec fn has_start(s: Seq<char>, start: Seq<char>) -> bool {
    s.len() >= start.len() && s.take(start.len() as int) == start
}

/// Whether the file at a path is a temporary one of an editor: its name, where it
/// has one, is hidden and ends with `.swp`, ends with a tilde, or begins with a
/// number sign.
pub open spec fn is_temporary(path: Seq<Seq<u8>>) -> bool {
    let name = decode_utf8(path.last());
    &&& path.len() > 0
    &&& valid_utf8(path.last())
    &&& path.last() != seq!['.' as u8]
    &&& path.last() != seq!['.' as u8, '.' as u8]
    &&& path.last() != seq!['/' as u8]
    &&& name.len() > 0
    &&& (name[0] == '.' && has_end(name, seq!['.', 's', 'w', 'p'])) || name.last() == '~' || name[0]
        == '#'
}

/// Whether event number `i` changes its path number `j`: it is no mere access, and
/// the file is no temporary one.
pub open spec fn changes_path(events: Seq<FsEvent>, i: int, j: int) -> bool {
    &&& 0 <= i < events.len()
    &&& !events[i].access
    &&& 0 <= j < events[i].paths@.len()
    &&& !is_temporary(events[i].paths@[j]@)
}

/// Whether a path lies in a directory, where it has the text `rel`.
pub open spec fn is_within(path: Seq<Seq<u8>>, dir: Seq<Seq<u8>>, rel: Seq<char>) -> bool {
    &&& path.len() >= dir.len()
    &&& path.take(dir.len() as int) == dir
    &&& rel == lossy_of(slashed(path.skip(dir.len() as int)))
}

/// Whether a change to a path is one to the file `rel` of the git directory that
/// counts: lock files do not.
pub open spec fn counts_in_git_dir(
    path: Seq<Seq<u8>>,
    git_dir: Seq<Seq<u8>>,
    rel: Seq<char>,
) -> bool {
    is_within(path, git_dir, rel) && !has_end(rel, seq!['.', 'l', 'o', 'c', 'k'])
}

/// Whether a change to a path is one to the file `rel` of the worktree: the git
/// directory does not belong to it.
pub open spec fn counts_in_worktree(
    path: Seq<Seq<u8>>,
    repo_path: Seq<Seq<u8>>,
    git_dir: Seq<Seq<u8>>,
    rel: Seq<char>,
) -> bool {
    is_within(path, repo_path, rel) && !(path.len() >= git_dir.len() && path.take(
        git_dir.len() as int,
    ) == git_dir)
}

/// Whether the file `rel` of the git directory holds references.
pub open spec fn holds_refs(rel: Seq<char>) -> bool {
    has_start(rel, "refs/"@) || rel == "packed-refs"@
}

/// What a change to a path means, put plainly.
proof fn lemma_path_change(path: Seq<Seq<u8>>, repo_path: Seq<Seq<u8>>, git_dir: Seq<Seq<u8>>)
    ensures
        is_temporary(path) ==> path_change(path, repo_path, git_dir) is Nothing,
        !is_temporary(path) ==> {
            let change = path_change(path, repo_path, git_dir);
            let rel = lossy_of(slashed(path.skip(git_dir.len() as int)));
            let below = lossy_of(slashed(path.skip(repo_path.len() as int)));
            let counts = counts_in_git_dir(path, git_dir, rel);
            &&& change is Head <==> counts && rel == "HEAD"@
            &&& change is Index <==> counts && rel == "index"@
            &&& change is Refs <==> counts && holds_refs(rel)
            &&& change matches PathChange::Refs(t) ==> t == rel
            &&& change is Sequence <==> counts && has_start(rel, "sequencer/"@)
            &&& change is Worktree <==> counts_in_worktree(path, repo_path, git_dir, below)
            &&& change matches PathChange::Worktree(t) ==> t == below
        },
{
    reveal_strlit("HEAD");
    reveal_strlit("index");
    reveal_strlit("refs/");
    reveal_strlit("packed-refs");
    reveal_strlit("sequencer/");
    reveal_strlit(".lock");
    reveal_strlit(".swp");
    reveal_strlit(".");
    reveal_strlit("~");
    reveal_strlit("#");
    assert(".lock"@ =~= seq!['.', 'l', 'o', 'c', 'k']);
    assert(".swp"@ =~= seq!['.', 's', 'w', 'p']);
    let rel = lossy_of(slashed(path.skip(git_dir.len() as int)));
    lemma_affixes(rel, ".lock"@);
    lemma_affixes(rel, "refs/"@);
    lemma_affixes(rel, "sequencer/"@);
    let name = file_name(path);
    lemma_affixes(name, ".swp"@);
    assert("."@ =~= seq!['.']);
    assert("#"@ =~= seq!['#']);
    assert("~"@ =~= seq!['~']);
    lemma_one_char(name, '.');
    lemma_one_char(name, '#');
    lemma_one_char(name, '~');
    assert(is_transient(name) <==> is_temporary(path));
    assert(git_dir.is_prefix_of(path) <==> path.len() >= git_dir.len() && path.take(
        git_dir.len() as int,
    ) == git_dir) by {
        if path.len() >= git_dir.len() {
            assert(path.take(git_dir.len() as int) =~= path.subrange(0, git_dir.len() as int));
        }
    }
    assert(repo_path.is_prefix_of(path) <==> path.len() >= repo_path.len() && path.take(
        repo_path.len() as int,
    ) == repo_path) by {
        if path.len() >= repo_path.len() {
            assert(path.take(repo_path.len() as int) =~= path.subrange(0, repo_path.len() as int));
        }
    }
    assert("HEAD"@.len() == 4 && "index"@.len() == 5 && "packed-refs"@.len() == 11);
    assert(has_start(rel, "refs/"@) ==> rel[0] == 'r') by {
        if has_start(rel, "refs/"@) {
            assert(rel.take(5)[0] == rel[0]);
            assert("refs/"@[0] == 'r');
        }
    }
    assert(has_start(rel, "sequencer/"@) ==> rel[0] == 's') by {
        if has_start(rel, "sequencer/"@) {
            assert(rel.take(10)[0] == rel[0]);
            assert("sequencer/"@[0] == 's');
        }
    }
    assert("HEAD"@[0] == 'H' && "index"@[0] == 'i' && "packed-refs"@[0] == 'p');
}

/// What it means to begin or to end with one character.
proof fn lemma_one_char(s: Seq<char>, c: char)
    ensures
        seq![c].is_prefix_of(s) <==> s.len() > 0 && s[0] == c,
        seq![c].is_suffix_of(s) <==> s.len() > 0 && s.last() == c,
{
    if s.len() > 0 {
        assert(s.subrange(0, 1) =~= seq![s[0]]);
        assert(s.subrange(s.len() - 1, s.len() as int) =~= seq![s.last()]);
        assert(seq![c][0] == c);
    }
}

/// The two ways to say how a text begins or ends agree.
proof fn lemma_affixes(s: Seq<char>, p: Seq<char>)
    ensures
        p.is_prefix_of(s) <==> has_start(s, p),
        p.is_suffix_of(s) <==> has_end(s, p),
{
    if s.len() >= p.len() {
        assert(s.take(p.len() as int) =~= s.subrange(0, p.len() as int));
        assert(s.skip(s.len() - p.len()) =~= s.subrange(s.len() - p.len(), s.len() as int));
    }
}

/// Whether one of the paths means a change.
spec fn some_path_is(
    paths: Seq<FsPath>,
    repo_path: Seq<Seq<u8>>,
    git_dir: Seq<Seq<u8>>,
    change: PathChange,
) -> bool {
    exists|j: int| 0 <= j < paths.len() && path_change((#[trigger] paths[j])@, repo_path, git_dir)
        == change
}

/// What changes to paths one after another mean.
proof fn lemma_with_paths(
    before: ChangesView,
    paths: Seq<FsPath>,
    repo_path: Seq<Seq<u8>>,
    git_dir: Seq<Seq<u8>>,
    t: Seq<char>,
)
    ensures
        ({
            let after = before.with_paths(paths, repo_path, git_dir);
            let is = |c: PathChange| some_path_is(paths, repo_path, git_dir, c);
            &&& after.head_changed <==> before.head_changed || is(PathChange::Head)
            &&& after.index_changed <==> before.index_changed || is(PathChange::Index)
            &&& before.graph_invalidated ==> after.graph_invalidated
            &&& is(PathChange::Head) || is(PathChange::Sequence) || is(PathChange::Refs(t))
                ==> after.graph_invalidated
            &&& after.graph_invalidated ==> before.graph_invalidated || is(PathChange::Head) || is(
                PathChange::Sequence,
            ) || exists|r: Seq<char>| #[trigger]
                some_path_is(paths, repo_path, git_dir, PathChange::Refs(r))
            &&& after.changed_refs.contains(t) <==> before.changed_refs.contains(t) || is(
                PathChange::Refs(t),
            )
            &&& after.worktree_paths.contains(t) <==> before.worktree_paths.contains(t) || is(
                PathChange::Worktree(t),
            )
        }),
    decreases paths.len(),
{
    if paths.len() > 0 {
        let fewer = paths.drop_last();
        lemma_with_paths(before, fewer, repo_path, git_dir, t);
        let mid = before.with_paths(fewer, repo_path, git_dir);
        let after = before.with_paths(paths, repo_path, git_dir);
        let last = path_change(paths.last()@, repo_path, git_dir);
        let n = paths.len() - 1;
        assert forall|c: PathChange|
            #![trigger some_path_is(paths, repo_path, git_dir, c)]
            #![trigger some_path_is(fewer, repo_path, git_dir, c)]
            some_path_is(paths, repo_path, git_dir, c) <==> some_path_is(
                fewer,
                repo_path,
                git_dir,
                c,
            ) || last == c by {
            if some_path_is(fewer, repo_path, git_dir, c) {
                let j = choose|j: int|
                    0 <= j < fewer.len() && path_change((#[trigger] fewer[j])@, repo_path, git_dir)
                        == c;
                assert(paths[j] == fewer[j]);
                assert(path_change(paths[j]@, repo_path, git_dir) == c);
            }
            if last == c {
                assert(path_change(paths[n]@, repo_path, git_dir) == c);
            }
            if some_path_is(paths, repo_path, git_dir, c) {
                let j = choose|j: int|
                    0 <= j < paths.len() && path_change((#[trigger] paths[j])@, repo_path, git_dir)
                        == c;
                if j < n {
                    assert(fewer[j] == paths[j]);
                    assert(path_change(fewer[j]@, repo_path, git_dir) == c);
                }
            }
        }
        lemma_push_contains(mid.changed_refs, t);
        lemma_push_contains(mid.worktree_paths, t);
        match last {
            PathChange::Refs(r) => {
                assert(some_path_is(paths, repo_path, git_dir, PathChange::Refs(r)));
            },
            _ => {},
        }
        if mid.graph_invalidated && !before.graph_invalidated && !some_path_is(
            fewer,
            repo_path,
            git_dir,
            PathChange::Head,
        ) && !some_path_is(fewer, repo_path, git_dir, PathChange::Sequence) {
            let r = choose|r: Seq<char>| #[trigger]
                some_path_is(fewer, repo_path, git_dir, PathChange::Refs(r));
            assert(some_path_is(paths, repo_path, git_dir, PathChange::Refs(r)));
        }
    }
}

/// A list with one more text has that one and those before.
proof fn lemma_push_contains(s: Seq<Seq<char>>, t: Seq<char>)
    ensures
        forall|x: Seq<char>|
            #![trigger s.push(x)]
            s.push(x).contains(t) <==> s.contains(t) || x == t,
{
    assert forall|x: Seq<char>|
        #![trigger s.push(x)]
        s.push(x).contains(t) <==> s.contains(t) || x == t by {
        let more = s.push(x);
        if s.contains(t) {
            let i = choose|i: int| 0 <= i < s.len() && s[i] == t;
            assert(more[i] == t);
        }
        if x == t {
            assert(more[s.len() as int] == t);
        }
        if more.contains(t) {
            let i = choose|i: int| 0 <= i < more.len() && more[i] == t;
            if i < s.len() {
                assert(s[i] == t);
            }
        }
    }
}

/// The paths that the events of a batch change, accesses left out.
spec fn changed_paths(events: Seq<FsEvent>) -> Seq<FsPath>
    decreases events.len(),
{
    if events.len() == 0 {
        Seq::empty()
    } else if events.last().access {
        changed_paths(events.drop_last())
    } else {
        changed_paths(events.drop_last()) + events.last().paths@
    }
}

/// Changes to paths can be taken in two parts.
proof fn lemma_with_paths_join(
    before: ChangesView,
    first: Seq<FsPath>,
    second: Seq<FsPath>,
    repo_path: Seq<Seq<u8>>,
    git_dir: Seq<Seq<u8>>,
)
    ensures
        before.with_paths(first + second, repo_path, git_dir) == before.with_paths(
            first,
            repo_path,
            git_dir,
        ).with_paths(second, repo_path, git_dir),
    decreases second.len(),
{
    if second.len() == 0 {
        assert(first + second =~= first);
    } else {
        assert((first + second).drop_last() =~= first + second.drop_last());
        assert((first + second).last() == second.last());
        lemma_with_paths_join(before, first, second.drop_last(), repo_path, git_dir);
    }
}

/// What a batch means is what its changed paths mean, one after another.
proof fn lemma_changes_of(
    events: Seq<FsEvent>,
    repo_path: Seq<Seq<u8>>,
    git_dir: Seq<Seq<u8>>,
)
    ensures
        changes_of(events, repo_path, git_dir) == ChangesView::none().with_paths(
            changed_paths(events),
            repo_path,
            git_dir,
        ),
        forall|i: int, j: int|
            #![trigger events[i].paths@[j]]
            0 <= i < events.len() && !events[i].access && 0 <= j < events[i].paths@.len()
                ==> changed_paths(events).contains(events[i].paths@[j]),
        forall|x: FsPath| #[trigger]
            changed_paths(events).contains(x) ==> exists|i: int, j: int|
                #![trigger events[i].paths@[j]]
                0 <= i < events.len() && !events[i].access && 0 <= j < events[i].paths@.len()
                    && events[i].paths@[j] == x,
    decreases events.len(),
{
    if events.len() > 0 {
        let fewer = events.drop_last();
        let last = events.last();
        let n = events.len() - 1;
        lemma_changes_of(fewer, repo_path, git_dir);
        let some = changed_paths(fewer);
        let all = changed_paths(events);
        if !last.access {
            lemma_with_paths_join(ChangesView::none(), some, last.paths@, repo_path, git_dir);
        }
        assert forall|i: int, j: int|
            #![trigger events[i].paths@[j]]
            0 <= i < events.len() && !events[i].access && 0 <= j
                < events[i].paths@.len() implies all.contains(events[i].paths@[j]) by {
            if i < n {
                assert(fewer[i] == events[i]);
                assert(some.contains(fewer[i].paths@[j]));
                let at = choose|at: int| 0 <= at < some.len() && some[at] == events[i].paths@[j];
                assert(all[at] == some[at]);
            } else {
                assert(all[some.len() + j] == last.paths@[j]);
            }
        }
        assert forall|x: FsPath| #[trigger] all.contains(x) implies exists|i: int, j: int|
            #![trigger events[i].paths@[j]]
            0 <= i < events.len() && !events[i].access && 0 <= j < events[i].paths@.len()
                && events[i].paths@[j] == x by {
            let at = choose|at: int| 0 <= at < all.len() && all[at] == x;
            if at < some.len() {
                assert(some[at] == x);
                assert(some.contains(x));
                let (i, j) = choose|i: int, j: int|
                    #![trigger fewer[i].paths@[j]]
                    0 <= i < fewer.len() && !fewer[i].access && 0 <= j < fewer[i].paths@.len()
                        && fewer[i].paths@[j] == x;
                assert(events[i] == fewer[i]);
                assert(events[i].paths@[j] == x);
            } else {
                assert(events[n].paths@[at - some.len()] == x);
            }
        }
    }
}

/// Every change counts: a batch with a change to `HEAD`, the index, a file of
/// references, a running sequence or a file of the worktree tells of it, whatever
/// else is in the batch.
pub proof fn law_changes_are_told(
    events: Seq<FsEvent>,
    repo_path: Seq<Seq<u8>>,
    git_dir: Seq<Seq<u8>>,
    i: int,
    j: int,
    rel: Seq<char>,
)
    requires
        changes_path(events, i, j),
    ensures
        ({
            let path = events[i].paths@[j]@;
            let told = changes_of(events, repo_path, git_dir);
            let counts = counts_in_git_dir(path, git_dir, rel);
            &&& counts && rel == "HEAD"@ ==> told.head_changed && told.graph_invalidated
            &&& counts && rel == "index"@ ==> told.index_changed
            &&& counts && (has_start(rel, "refs/"@) || rel == "packed-refs"@)
                ==> told.changed_refs.contains(rel) && told.graph_invalidated
            &&& counts && has_start(rel, "sequencer/"@) ==> told.graph_invalidated
            &&& counts_in_worktree(path, repo_path, git_dir, rel) ==> told.worktree_paths.contains(
                rel,
            )
        }),
{
    let path = events[i].paths@[j];
    let all = changed_paths(events);
    lemma_changes_of(events, repo_path, git_dir);
    lemma_with_paths(ChangesView::none(), all, repo_path, git_dir, rel);
    lemma_path_change(path@, repo_path, git_dir);
    assert(all.contains(events[i].paths@[j]));
    let at = choose|at: int| 0 <= at < all.len() && all[at] == path;
    let change = path_change(all[at]@, repo_path, git_dir);
    assert(some_path_is(all, repo_path, git_dir, change));
}

/// Nothing is told that has not happened: what a batch tells of, it holds a change
/// to.
pub proof fn law_told_changes_happened(
    events: Seq<FsEvent>,
    repo_path: Seq<Seq<u8>>,
    git_dir: Seq<Seq<u8>>,
    t: Seq<char>,
)
    ensures
        ({
            let told = changes_of(events, repo_path, git_dir);
            &&& told.head_changed ==> exists|i: int, j: int| #[trigger]
                changes_path(events, i, j) && counts_in_git_dir(
                    events[i].paths@[j]@,
                    git_dir,
                    "HEAD"@,
                )
            &&& told.index_changed ==> exists|i: int, j: int| #[trigger]
                changes_path(events, i, j) && counts_in_git_dir(
                    events[i].paths@[j]@,
                    git_dir,
                    "index"@,
                )
            &&& told.changed_refs.contains(t) ==> holds_refs(t) && exists|i: int, j: int| #[trigger]
                changes_path(events, i, j) && counts_in_git_dir(events[i].paths@[j]@, git_dir, t)
            &&& told.graph_invalidated ==> exists|i: int, j: int, rel: Seq<char>| #[trigger]
                changes_path(events, i, j) && #[trigger] counts_in_git_dir(
                    events[i].paths@[j]@,
                    git_dir,
                    rel,
                ) && (rel == "HEAD"@ || holds_refs(rel) || has_start(rel, "sequencer/"@))
            &&& told.worktree_paths.contains(t) ==> exists|i: int, j: int| #[trigger]
                changes_path(events, i, j) && counts_in_worktree(
                    events[i].paths@[j]@,
                    repo_path,
                    git_dir,
                    t,
                )
        }),
{
    let all = changed_paths(events);
    let told = changes_of(events, repo_path, git_dir);
    let none = ChangesView::none();
    lemma_changes_of(events, repo_path, git_dir);
    lemma_with_paths(none, all, repo_path, git_dir, t);
    assert(!none.changed_refs.contains(t));
    assert(!none.worktree_paths.contains(t));
    assert forall|c: PathChange| #[trigger] some_path_is(
        all,
        repo_path,
        git_dir,
        c,
    ) && !(c is Nothing) implies exists|i: int, j: int| #[trigger]
        changes_path(events, i, j) && path_change(events[i].paths@[j]@, repo_path, git_dir)
            == c by {
        let at = choose|at: int|
            0 <= at < all.len() && path_change((#[trigger] all[at])@, repo_path, git_dir) == c;
        assert(all.contains(all[at]));
        let (i, j) = choose|i: int, j: int|
            #![trigger events[i].paths@[j]]
            0 <= i < events.len() && !events[i].access && 0 <= j < events[i].paths@.len()
                && events[i].paths@[j] == all[at];
        lemma_path_change(events[i].paths@[j]@, repo_path, git_dir);
        assert(changes_path(events, i, j));
    }
    if told.head_changed {
        let (i, j) = choose|i: int, j: int| #[trigger]
            changes_path(events, i, j) && path_change(events[i].paths@[j]@, repo_path, git_dir)
                == PathChange::Head;
        lemma_path_change(events[i].paths@[j]@, repo_path, git_dir);
    }
    if told.index_changed {
        let (i, j) = choose|i: int, j: int| #[trigger]
            changes_path(events, i, j) && path_change(events[i].paths@[j]@, repo_path, git_dir)
                == PathChange::Index;
        lemma_path_change(events[i].paths@[j]@, repo_path, git_dir);
    }
    if told.changed_refs.contains(t) {
        let (i, j) = choose|i: int, j: int| #[trigger]
            changes_path(events, i, j) && path_change(events[i].paths@[j]@, repo_path, git_dir)
                == PathChange::Refs(t);
        lemma_path_change(events[i].paths@[j]@, repo_path, git_dir);
    }
    if told.worktree_paths.contains(t) {
        let (i, j) = choose|i: int, j: int| #[trigger]
            changes_path(events, i, j) && path_change(events[i].paths@[j]@, repo_path, git_dir)
                == PathChange::Worktree(t);
        lemma_path_change(events[i].paths@[j]@, repo_path, git_dir);
    }
    if told.graph_invalidated {
        let c = if some_path_is(all, repo_path, git_dir, PathChange::Head) {
            PathChange::Head
        } else if some_path_is(all, repo_path, git_dir, PathChange::Sequence) {
            PathChange::Sequence
        } else {
            PathChange::Refs(
                choose|r: Seq<char>| #[trigger]
                    some_path_is(all, repo_path, git_dir, PathChange::Refs(r)),
            )
        };
        assert(some_path_is(all, repo_path, git_dir, c));
        let (i, j) = choose|i: int, j: int| #[trigger]
            changes_path(events, i, j) && path_change(events[i].paths@[j]@, repo_path, git_dir)
                == c;
        let path = events[i].paths@[j]@;
        lemma_path_change(path, repo_path, git_dir);
        let rel = lossy_of(slashed(path.skip(git_dir.len() as int)));
        assert(changes_path(events, i, j) && counts_in_git_dir(path, git_dir, rel));
    }
}

/// A batch means what its parts mean together: what either of them tells of, and
/// the references and the paths of both, those of the first part first.
pub proof fn law_batches_add_up(
    first: Seq<FsEvent>,
    second: Seq<FsEvent>,
    repo_path: Seq<Seq<u8>>,
    git_dir: Seq<Seq<u8>>,
)
    ensures
        ({
            let a = changes_of(first, repo_path, git_dir);
            let b = changes_of(second, repo_path, git_dir);
            let both = changes_of(first + second, repo_path, git_dir);
            &&& both.head_changed <==> a.head_changed || b.head_changed
            &&& both.index_changed <==> a.index_changed || b.index_changed
            &&& both.graph_invalidated <==> a.graph_invalidated || b.graph_invalidated
            &&& both.changed_refs == a.changed_refs + b.changed_refs
            &&& both.worktree_paths == a.worktree_paths + b.worktree_paths
        }),
    decreases second.len(),
{
    let a = changes_of(first, repo_path, git_dir);
    if second.len() == 0 {
        assert(first + second =~= first);
        assert(a.changed_refs + Seq::<Seq<char>>::empty() =~= a.changed_refs);
        assert(a.worktree_paths + Seq::<Seq<char>>::empty() =~= a.worktree_paths);
    } else {
        let fewer = second.drop_last();
        let last = second.last();
        law_batches_add_up(first, fewer, repo_path, git_dir);
        assert((first + second).drop_last() =~= first + fewer);
        assert((first + second).last() == last);
        if !last.access {
            let mid = changes_of(first + fewer, repo_path, git_dir);
            let part = changes_of(fewer, repo_path, git_dir);
            lemma_paths_add_up(a, mid, part, last.paths@, repo_path, git_dir);
        }
    }
}

/// The same paths add the same to two lists of changes.
proof fn lemma_paths_add_up(
    a: ChangesView,
    mid: ChangesView,
    part: ChangesView,
    paths: Seq<FsPath>,
    repo_path: Seq<Seq<u8>>,
    git_dir: Seq<Seq<u8>>,
)
    requires
        mid.head_changed <==> a.head_changed || part.head_changed,
        mid.index_changed <==> a.index_changed || part.index_changed,
        mid.graph_invalidated <==> a.graph_invalidated || part.graph_invalidated,
        mid.changed_refs == a.changed_refs + part.changed_refs,
        mid.worktree_paths == a.worktree_paths + part.worktree_paths,
    ensures
        ({
            let x = mid.with_paths(paths, repo_path, git_dir);
            let y = part.with_paths(paths, repo_path, git_dir);
            &&& x.head_changed <==> a.head_changed || y.head_changed
            &&& x.index_changed <==> a.index_changed || y.index_changed
            &&& x.graph_invalidated <==> a.graph_invalidated || y.graph_invalidated
            &&& x.changed_refs == a.changed_refs + y.changed_refs
            &&& x.worktree_paths == a.worktree_paths + y.worktree_paths
        }),
    decreases paths.len(),
{
    if paths.len() > 0 {
        lemma_paths_add_up(a, mid, part, paths.drop_last(), repo_path, git_dir);
        let x = mid.with_paths(paths, repo_path, git_dir);
        let y = part.with_paths(paths, repo_path, git_dir);
        assert(x.changed_refs =~= a.changed_refs + y.changed_refs);
        assert(x.worktree_paths =~= a.worktree_paths + y.worktree_paths);
    }
}

/// One change to one path tells of one thing at most.
pub proof fn law_one_change_tells_once(
    event: FsEvent,
    repo_path: Seq<Seq<u8>>,
    git_dir: Seq<Seq<u8>>,
)
    requires
        event.paths@.len() == 1,
    ensures
        changes_of(seq![event], repo_path, git_dir).changed_refs.len() + changes_of(
            seq![event],
            repo_path,
            git_dir,
        ).worktree_paths.len() <= 1,
{
    let none = ChangesView::none();
    assert(seq![event].drop_last() =~= Seq::<FsEvent>::empty());
    assert(changes_of(Seq::<FsEvent>::empty(), repo_path, git_dir) == none);
    assert(event.paths@.drop_last() =~= Seq::<FsPath>::empty());
    assert(none.with_paths(event.paths@.drop_last(), repo_path, git_dir) == none);
}

/// A new epoch is needed exactly where `HEAD`, the index or references have
/// changed or the graph has to be read again, and not for the worktree alone.
pub proof fn law_new_epoch_is_needed(changes: ChangesView)
    ensures
        changes.needs_epoch() <==> changes.head_changed || changes.index_changed
            || changes.graph_invalidated || changes.changed_refs.len() > 0,
{
}

/// Everything that a batch tells of is announced, once, with what `HEAD` now
/// holds, with the references and paths that have changed, and at the epoch of the
/// batch; and nothing else is.
pub proof fn law_changes_are_announced(changes: ChangesView, head: Seq<char>, epoch: u64, i: int)
    ensures
        ({
            let out = announcements(changes, head, epoch);
            let refs = changes.changed_refs;
            let paths = changes.worktree_paths;
            &&& changes.head_changed ==> out.contains(
                EventView::HeadChanged { new_head: trim_of(head), epoch },
            )
            &&& refs.len() > 0 ==> out.contains(
                EventView::RefsChanged { changed_refs: refs, epoch },
            )
            &&& changes.index_changed ==> out.contains(EventView::IndexChanged { epoch })
            &&& changes.graph_invalidated ==> out.contains(EventView::GraphInvalidated { epoch })
            &&& paths.len() > 0 ==> out.contains(EventView::WorktreeChanged { paths })
            &&& 0 <= i < out.len() ==> match out[i] {
                EventView::HeadChanged { .. } => changes.head_changed,
                EventView::RefsChanged { .. } => refs.len() > 0,
                EventView::IndexChanged { .. } => changes.index_changed,
                EventView::GraphInvalidated { .. } => changes.graph_invalidated,
                EventView::WorktreeChanged { .. } => paths.len() > 0,
            }
            &&& out.len() == (if changes.head_changed {
                1int
            } else {
                0
            }) + (if refs.len() > 0 {
                1int
            } else {
                0
            }) + (if changes.index_changed {
                1int
            } else {
                0
            }) + (if changes.graph_invalidated {
                1int
            } else {
                0
            }) + (if paths.len() > 0 {
                1int
            } else {
                0
            })
        }),
{
    let out = announcements(changes, head, epoch);
    let refs = changes.changed_refs;
    let paths = changes.worktree_paths;
    let h = if changes.head_changed {
        1int
    } else {
        0
    };
    let r = if refs.len() > 0 {
        1int
    } else {
        0
    };
    let x = if changes.index_changed {
        1int
    } else {
        0
    };
    let g = if changes.graph_invalidated {
        1int
    } else {
        0
    };
    if changes.head_changed {
        assert(out[0] == (EventView::HeadChanged { new_head: trim_of(head), epoch }));
    }
    if refs.len() > 0 {
        assert(out[h] == (EventView::RefsChanged { changed_refs: refs, epoch }));
    }
    if changes.index_changed {
        assert(out[h + r] == (EventView::IndexChanged { epoch }));
    }
    if changes.graph_invalidated {
        assert(out[h + r + x] == (EventView::GraphInvalidated { epoch }));
    }
    if paths.len() > 0 {
        assert(out[h + r + x + g] == (EventView::WorktreeChanged { paths }));
    }
}

/// A change to a file of references is told to the clients: the batch that holds it
/// bumps the epoch by one, and at the new epoch it announces the reference and that
/// the graph has to be read again.
pub proof fn law_ref_changes_reach_clients(
    events: Vec<FsEvent>,
    repo_path: FsPath,
    git_dir: FsPath,
    changes: Changes,
    session: &mut Session,
    head: &str,
    r: Vec<EngineEvent>,
    i: int,
    j: int,
    rel: Seq<char>,
)
    requires
        call_ensures(classify, (&events, &repo_path, &git_dir), changes),
        call_ensures(Session::process_event_batch, (session, changes, head), r),
        old(session).epoch < u64::MAX,
        changes_path(events@, i, j),
        counts_in_git_dir(events@[i].paths@[j]@, git_dir@, rel),
        has_start(rel, "refs/"@) || rel == "packed-refs"@,
    ensures
        final(session).epoch == old(session).epoch + 1,
        exists|k: int|
            0 <= k < r@.len() && (#[trigger] r@[k] matches EngineEvent::RefsChanged {
                changed_refs,
                epoch,
            } && texts(changed_refs@).contains(rel) && epoch == final(session).epoch),
        exists|k: int|
            0 <= k < r@.len() && (#[trigger] r@[k] matches EngineEvent::GraphInvalidated { epoch }
                && epoch == final(session).epoch),
{
    law_changes_are_told(events@, repo_path@, git_dir@, i, j, rel);
    let view = changes@;
    let epoch = final(session).epoch;
    law_changes_are_announced(view, head@, epoch, 0);
    let out = announcements(view, head@, epoch);
    let at = choose|at: int| 0 <= at < view.changed_refs.len() && view.changed_refs[at] == rel;
    let refs = EventView::RefsChanged { changed_refs: view.changed_refs, epoch };
    let graph = EventView::GraphInvalidated { epoch };
    assert(out.contains(refs));
    assert(out.contains(graph));
    let k = choose|k: int| 0 <= k < out.len() && out[k] == refs;
    assert(events_of(r@)[k] == r@[k]@);
    let g = choose|g: int| 0 <= g < out.len() && out[g] == graph;
    assert(events_of(r@)[g] == r@[g]@);
}

/// A batch bumps the epoch by one where `HEAD`, the index, a reference or the graph
/// has changed, and by nothing else; and nothing else of the session changes.
pub proof fn law_batches_bump_once(
    session: &mut Session,
    changes: Changes,
    head: &str,
    r: Vec<EngineEvent>,
)
    requires
        call_ensures(Session::process_event_batch, (session, changes, head), r),
        old(session).epoch < u64::MAX,
    ensures
        ({
            let bumps = changes.head_changed || changes.index_changed || changes.graph_invalidated
                || changes.changed_refs@.len() > 0;
            &&& bumps ==> final(session).epoch == old(session).epoch + 1
            &&& !bumps ==> final(session).epoch == old(session).epoch
        }),
        final(session).repo_path == old(session).repo_path,
        final(session).git_dir == old(session).git_dir,
        changes.head_changed ==> exists|k: int|
            0 <= k < r@.len() && (#[trigger] r@[k] matches EngineEvent::HeadChanged {
                new_head,
                epoch,
            } && new_head@ == trim_of(head@) && epoch == final(session).epoch),
        changes.index_changed ==> exists|k: int|
            0 <= k < r@.len() && (#[trigger] r@[k] matches EngineEvent::IndexChanged { epoch }
                && epoch == final(session).epoch),
        changes.worktree_paths@.len() > 0 ==> exists|k: int|
            0 <= k < r@.len() && (#[trigger] r@[k] matches EngineEvent::WorktreeChanged { paths }
                && texts(paths@) == texts(changes.worktree_paths@)),
{
    let view = changes@;
    let epoch = final(session).epoch;
    law_changes_are_announced(view, head@, epoch, 0);
    let out = announcements(view, head@, epoch);
    assert(view.changed_refs.len() == changes.changed_refs@.len());
    assert(view.worktree_paths.len() == changes.worktree_paths@.len());
    assert(events_of(r@) == out);
    assert forall|e: EventView| #[trigger] out.contains(e) implies exists|k: int|
        0 <= k < r@.len() && (#[trigger] r@[k])@ == e by {
        let k = choose|k: int| 0 <= k < out.len() && out[k] == e;
        assert(events_of(r@)[k] == r@[k]@);
    }
    if changes.head_changed {
        let e = EventView::HeadChanged { new_head: trim_of(head@), epoch };
        assert(out.contains(e));
        let k = choose|k: int| 0 <= k < r@.len() && (#[trigger] r@[k])@ == e;
        assert(r@[k]@ == e);
    }
    if changes.index_changed {
        let e = EventView::IndexChanged { epoch };
        assert(out.contains(e));
        let k = choose|k: int| 0 <= k < r@.len() && (#[trigger] r@[k])@ == e;
        assert(r@[k]@ == e);
    }
    if changes.worktree_paths@.len() > 0 {
        let e = EventView::WorktreeChanged { paths: view.worktree_paths };
        assert(out.contains(e));
        let k = choose|k: int| 0 <= k < r@.len() && (#[trigger] r@[k])@ == e;
        assert(r@[k]@ == e);
    }
}

/// A write that has succeeded bumps the epoch by one, and one that has failed
/// leaves it alone; an undo that has succeeded is announced at the new epoch, and
/// no other write is.
pub proof fn law_writes_bump_once(
    session: &mut Session,
    cmd: WriteCommand,
    result: WriteResult,
    r: Option<EngineEvent>,
)
    requires
        call_ensures(Session::after_write, (session, &cmd, &result), r),
        old(session).epoch < u64::MAX,
    ensures
        succeeded(result) ==> final(session).epoch == old(session).epoch + 1,
        !succeeded(result) ==> final(session).epoch == old(session).epoch,
        r is Some <==> succeeded(result) && cmd is Undo,
        r matches Some(e) ==> (e matches EngineEvent::GraphInvalidated { epoch }
            && epoch == final(session).epoch),
{
}

/// What is watched is the worktree and, of the git directory, what is there of
/// `HEAD`, the index, the packed references and the directory of references.
pub proof fn law_what_is_watched(entries: GitDirEntries, r: Vec<Watch>)
    requires
        call_ensures(start_fs_watcher, (entries,), r),
    ensures
        ({
            let watched = r@.map_values(|w: Watch| w@);
            &&& watched.contains(WatchView::Worktree)
            &&& watched.contains(WatchView::File("HEAD"@)) <==> entries.head
            &&& watched.contains(WatchView::File("index"@)) <==> entries.index
            &&& watched.contains(WatchView::File("packed-refs"@)) <==> entries.packed_refs
            &&& watched.contains(WatchView::Directory("refs"@)) <==> entries.refs
        }),
{
    reveal_strlit("HEAD");
    reveal_strlit("index");
    reveal_strlit("packed-refs");
    assert("HEAD"@.len() == 4 && "index"@.len() == 5 && "packed-refs"@.len() == 11);
    let a = seq![WatchView::Worktree];
    let b = watch_if(entries.head, WatchView::File("HEAD"@));
    let c = watch_if(entries.index, WatchView::File("index"@));
    let d = watch_if(entries.packed_refs, WatchView::File("packed-refs"@));
    let e = watch_if(entries.refs, WatchView::Directory("refs"@));
    let all = a + b + c + d + e;
    assert(all[0] == WatchView::Worktree);
    if entries.head {
        assert(all[1] == WatchView::File("HEAD"@));
    }
    if entries.index {
        assert(all[1int + b.len()] == WatchView::File("index"@));
    }
    if entries.packed_refs {
        assert(all[1int + b.len() + c.len()] == WatchView::File("packed-refs"@));
    }
    if entries.refs {
        assert(all[1int + b.len() + c.len() + d.len()] == WatchView::Directory("refs"@));
    }
}

/// A batch goes on until it is full, waited long enough, or nothing can come any
/// more.
pub proof fn law_batches_end(len: usize, input: BatchInput, next: BatchNext, room: bool)
    requires
        call_ensures(next_of_batch, (len, input), next),
        call_ensures(has_room, (len,), room),
    ensures
        input == BatchInput::Quiet ==> next == BatchNext::Complete,
        input == BatchInput::Closed ==> next == BatchNext::Drain,
        input == BatchInput::Event || input == BatchInput::Broken ==> (next == BatchNext::Collect
            <==> len < 4096) && (next == BatchNext::Complete <==> len >= 4096),
        room <==> len < 4096,
{
}

/// A client is answered to a write what it printed or what went wrong, also where
/// it could not be handed over or was dropped.
pub proof fn law_writes_are_answered(
    session: Session,
    reply: Result<WriteResult, QueueError>,
    r: Result<String, String>,
)
    requires
        call_ensures(Session::enqueue_write, (&session, reply), r),
    ensures
        r is Ok <==> (reply matches Ok(result) && succeeded(result)),
        reply matches Ok(WriteResult::Done(t)) ==> (r matches Ok(o) && o@ == t@),
        reply matches Ok(WriteResult::Failed(e)) ==> (r matches Err(m) && m@ == e@),
        reply matches Err(QueueError::Closed) ==> (r matches Err(m) && m@ == "write queue closed"@),
        reply matches Err(QueueError::Dropped) ==> (r matches Err(m) && m@
            == "write result dropped"@),
{
}

} // verus!
