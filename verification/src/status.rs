//! The status of the worktree and the index, the references, the content of a
//! file in a revision, and `HEAD`: what is made of what the repository gives.
use crate::adapt;
use crate::adapt::bstr_text_of;
use crate::graph;
use crate::graph::is_epoch_mismatch;
use crate::names;
use crate::names::{law_accepted_paths, path_fault, unfit_for_lookup};
use crate::protocol::{GetHeadResult, Ref, RefKind, StatusCode, StatusItem, WorkbenchError};
use crate::text;
use crate::text::{after_prefix, lossy_of, opt_text, quoted_of, texts, trim_end_char_of, trim_of};
use crate::text_laws::{law_after_prefix, law_trim_end_char};
use vstd::prelude::*;
use vstd::string::*;

verus! {

broadcast use vstd::string::group_string_axioms;

// ---------------------------------------------------------------------------
// Changes
// ---------------------------------------------------------------------------
/// A change between the tree of `HEAD` and the index.
#[derive(Debug, Clone)]
pub enum TreeIndexChange {
    Addition { location: Vec<u8> },
    Deletion { location: Vec<u8> },
    Modification { location: Vec<u8> },
    Rewrite { source_location: Vec<u8>, location: Vec<u8>, copy: bool },
}

/// What the index says of a file of the worktree.
#[derive(Debug, Clone, Copy, PartialEq, Eq)]
pub enum EntryStatus {
    /// It is unmerged.
    Conflict,
    /// It was deleted.
    Removed,
    /// It was changed in any other way.
    Changed,
    /// It is noted to be added later.
    IntentToAdd,
    /// Only what the index knows of the file system is out of date.
    NeedsUpdate,
}

/// What is known of a file that is not in the index.
#[derive(Debug, Clone, Copy, PartialEq, Eq)]
pub enum DirStatus {
    Untracked,
    Ignored,
    Other,
}

/// Where a file that was renamed or copied comes from.
#[derive(Debug, Clone)]
pub enum RewriteSource {
    /// An entry of the index.
    FromIndex(Vec<u8>),
    /// Another file that is not in the index.
    FromDirectory(Vec<u8>),
}

/// A change between the index and the worktree.
#[derive(Debug, Clone)]
pub enum IndexWorktreeItem {
    Modification { rela_path: Vec<u8>, status: EntryStatus },
    DirectoryContents { rela_path: Vec<u8>, status: DirStatus },
    Rewrite { source: RewriteSource, rela_path: Vec<u8>, copy: bool },
}

/// A change of either kind.
#[derive(Debug, Clone)]
pub enum StatusEntry {
    TreeIndex(TreeIndexChange),
    IndexWorktree(IndexWorktreeItem),
}

/// What an item of the status holds.
#[verifier::ext_equal]
pub struct StatusView {
    pub path: Seq<char>,
    pub status: StatusCode,
    pub old_path: Option<Seq<char>>,
    pub staged: bool,
}

impl View for StatusItem {
    type V = StatusView;

    open spec fn view(&self) -> StatusView {
        StatusView {
            path: self.path@,
            status: self.status,
            old_path: opt_text(self.old_path),
            staged: self.staged,
        }
    }
}

/// What a list of items holds.
pub open spec fn items_of(s: Seq<StatusItem>) -> Seq<StatusView> {
    s.map_values(|i: StatusItem| i@)
}

/// What an optional item holds.
pub open spec fn item_of(i: Option<StatusItem>) -> Option<StatusView> {
    match i {
        Some(i) => Some(i@),
        None => None,
    }
}

/// An item without an old path.
pub open spec fn plain_item(path: Seq<char>, status: StatusCode) -> StatusView {
    StatusView { path, status, old_path: None, staged: false }
}

/// An item for a file that comes from another one.
pub open spec fn moved_item(path: Seq<char>, from: Seq<char>, copy: bool) -> StatusView {
    StatusView {
        path,
        status: if copy {
            StatusCode::Copied
        } else {
            StatusCode::Renamed
        },
        old_path: Some(from),
        staged: false,
    }
}

/// The item for a change between the tree of `HEAD` and the index.
pub open spec fn tree_index_item(change: TreeIndexChange) -> StatusView {
    match change {
        TreeIndexChange::Addition { location } => plain_item(
            bstr_text_of(location@),
            StatusCode::Added,
        ),
        TreeIndexChange::Deletion { location } => plain_item(
            bstr_text_of(location@),
            StatusCode::Deleted,
        ),
        TreeIndexChange::Modification { location } => plain_item(
            bstr_text_of(location@),
            StatusCode::Modified,
        ),
        TreeIndexChange::Rewrite { source_location, location, copy } => moved_item(
            bstr_text_of(location@),
            bstr_text_of(source_location@),
            copy,
        ),
    }
}

/// An item without an old path.
fn plain(path: &Vec<u8>, status: StatusCode) -> (r: StatusItem)
    ensures
        r@ == plain_item(bstr_text_of(path@), status),
{
    let path = adapt::bstr_text(path.as_slice());
    StatusItem { path, status, old_path: None, staged: false }
}

/// An item for a file that comes from another one.
fn moved(path: &Vec<u8>, from: &Vec<u8>, copy: bool) -> (r: StatusItem)
    ensures
        r@ == moved_item(bstr_text_of(path@), bstr_text_of(from@), copy),
{
    let status = if copy {
        StatusCode::Copied
    } else {
        StatusCode::Renamed
    };
    let path = adapt::bstr_text(path.as_slice());
    let old_path = Some(adapt::bstr_text(from.as_slice()));
    StatusItem { path, status, old_path, staged: false }
}

/// The item for a change between the tree of `HEAD` and the index.
pub fn map_tree_index_change(change: &TreeIndexChange) -> (r: StatusItem)
    ensures
        r@ == tree_index_item(*change),
{
    match change {
        TreeIndexChange::Addition { location } => plain(location, StatusCode::Added),
        TreeIndexChange::Deletion { location } => plain(location, StatusCode::Deleted),
        TreeIndexChange::Modification { location } => plain(location, StatusCode::Modified),
        TreeIndexChange::Rewrite { source_location, location, copy } => moved(
            location,
            source_location,
            *copy,
        ),
    }
}

/// The item for a change between the index and the worktree, where it is one
/// that a client is told of.
pub open spec fn index_worktree_item(item: IndexWorktreeItem) -> Option<StatusView> {
    match item {
        IndexWorktreeItem::Modification { rela_path, status } => match status {
            EntryStatus::Conflict => Some(
                plain_item(bstr_text_of(rela_path@), StatusCode::Conflict),
            ),
            EntryStatus::Removed => Some(
                plain_item(bstr_text_of(rela_path@), StatusCode::Deleted),
            ),
            EntryStatus::Changed => Some(
                plain_item(bstr_text_of(rela_path@), StatusCode::Modified),
            ),
            EntryStatus::IntentToAdd => Some(
                plain_item(bstr_text_of(rela_path@), StatusCode::Added),
            ),
            EntryStatus::NeedsUpdate => None,
        },
        IndexWorktreeItem::DirectoryContents { rela_path, status } => match status {
            DirStatus::Untracked => Some(
                plain_item(bstr_text_of(rela_path@), StatusCode::Untracked),
            ),
            DirStatus::Ignored => Some(
                plain_item(bstr_text_of(rela_path@), StatusCode::Ignored),
            ),
            DirStatus::Other => None,
        },
        IndexWorktreeItem::Rewrite { source, rela_path, copy } => Some(
            match source {
                RewriteSource::FromIndex(from) => moved_item(
                    bstr_text_of(rela_path@),
                    bstr_text_of(from@),
                    copy,
                ),
                RewriteSource::FromDirectory(from) => moved_item(
                    bstr_text_of(rela_path@),
                    bstr_text_of(from@),
                    copy,
                ),
            },
        ),
    }
}

/// The item for a change between the index and the worktree, where it is one
/// that a client is told of.
pub fn map_index_worktree_item(item: &IndexWorktreeItem) -> (r: Option<StatusItem>)
    ensures
        item_of(r) == index_worktree_item(*item),
{
    match item {
        IndexWorktreeItem::Modification { rela_path, status } => {
            let code = match status {
                EntryStatus::Conflict => StatusCode::Conflict,
                EntryStatus::Removed => StatusCode::Deleted,
                EntryStatus::Changed => StatusCode::Modified,
                EntryStatus::IntentToAdd => StatusCode::Added,
                EntryStatus::NeedsUpdate => return None,
            };
            Some(plain(rela_path, code))
        },
        IndexWorktreeItem::DirectoryContents { rela_path, status } => {
            let code = match status {
                DirStatus::Untracked => StatusCode::Untracked,
                DirStatus::Ignored => StatusCode::Ignored,
                DirStatus::Other => return None,
            };
            Some(plain(rela_path, code))
        },
        IndexWorktreeItem::Rewrite { source, rela_path, copy } => {
            let from = match source {
                RewriteSource::FromIndex(from) => from,
                RewriteSource::FromDirectory(from) => from,
            };
            Some(moved(rela_path, from, *copy))
        },
    }
}

/// The item for a change: those to the index are staged.
pub open spec fn entry_item(entry: StatusEntry) -> Option<StatusView> {
    match entry {
        StatusEntry::TreeIndex(change) => Some(
            StatusView { staged: true, ..tree_index_item(change) },
        ),
        StatusEntry::IndexWorktree(item) => index_worktree_item(item),
    }
}

// ---------------------------------------------------------------------------
// The filter
// ---------------------------------------------------------------------------
/// Whether a path is the one that the filter names, or lies below it.
pub open spec fn is_below(path: Seq<char>, filter: Seq<char>) -> bool {
    let base = trim_end_char_of(filter, '/');
    path == base || (base + "/"@).is_prefix_of(path)
}

/// Whether a path is the one that the filter names, or lies below it. Whole
/// components are compared: `src` does not match `src-main.rs`.
pub fn path_matches(path: &str, filter: &str) -> (r: bool)
    ensures
        r == is_below(path@, filter@),
{
    let base = text::trim_end_char(filter, '/');
    if text::same(path, base.as_str()) {
        return true;
    }
    let below = base.concat("/");
    text::starts_with(path, below.as_str())
}

/// Whether a path is one that any of the filters names, or lies below one.
pub open spec fn is_below_any(path: Seq<char>, filters: Seq<Seq<char>>) -> bool {
    exists|i: int| 0 <= i < filters.len() && is_below(path, #[trigger] filters[i])
}

/// Whether an item passes a filter: any of its paths, or no filter at all.
pub open spec fn passes(item: StatusView, filter: Option<Seq<Seq<char>>>) -> bool {
    match filter {
        Some(paths) => is_below_any(item.path, paths),
        None => true,
    }
}

/// What the paths of a filter are.
pub open spec fn filter_of(filter: Option<&Vec<String>>) -> Option<Seq<Seq<char>>> {
    match filter {
        Some(paths) => Some(texts(paths@)),
        None => None,
    }
}

/// Whether an item passes a filter.
fn item_passes(item: &StatusItem, filter: Option<&Vec<String>>) -> (r: bool)
    ensures
        r == passes(item@, filter_of(filter)),
{
    match filter {
        None => true,
        Some(paths) => {
            let ghost all = texts(paths@);
            let mut i: usize = 0;
            while i < paths.len()
                invariant
                    i <= paths@.len(),
                    all == texts(paths@),
                    filter_of(filter) == Some(all),
                    forall|k: int| 0 <= k < i ==> !is_below(item@.path, #[trigger] all[k]),
                decreases paths.len() - i,
            {
                assert(all[i as int] == paths@[i as int]@);
                if path_matches(item.path.as_str(), paths[i].as_str()) {
                    assert(is_below(item@.path, all[i as int]));
                    return true;
                }
                i += 1;
            }
            false
        },
    }
}

/// The items for the changes that pass a filter, in order.
pub open spec fn status_of(entries: Seq<StatusEntry>, filter: Option<Seq<Seq<char>>>) -> Seq<
    StatusView,
>
    decreases entries.len(),
{
    if entries.len() == 0 {
        Seq::empty()
    } else {
        let before = status_of(entries.drop_last(), filter);
        match entry_item(entries.last()) {
            Some(item) => if passes(item, filter) {
                before.push(item)
            } else {
                before
            },
            None => before,
        }
    }
}

/// The status: the items for the changes that pass the filter. Where the epoch
/// at which the read began is no longer the current one, an error says so, as
/// the repository has changed in between.
pub fn read_status(
    entries: &Vec<StatusEntry>,
    filter: Option<&Vec<String>>,
    epoch: u64,
    epoch_at_end: u64,
) -> (r: Result<Vec<StatusItem>, WorkbenchError>)
    ensures
        match r {
            Ok(items) => epoch == epoch_at_end && items_of(items@) == status_of(
                entries@,
                filter_of(filter),
            ),
            Err(e) => epoch != epoch_at_end && is_epoch_mismatch(e, epoch_at_end, epoch),
        },
{
    let ghost paths = filter_of(filter);
    let mut out: Vec<StatusItem> = Vec::new();
    let mut i: usize = 0;
    assert(entries@.take(0) =~= Seq::<StatusEntry>::empty());
    assert(items_of(out@) =~= Seq::<StatusView>::empty());
    while i < entries.len()
        invariant
            i <= entries@.len(),
            paths == filter_of(filter),
            items_of(out@) == status_of(entries@.take(i as int), paths),
        decreases entries.len() - i,
    {
        let ghost before = items_of(out@);
        assert(entries@.take(i + 1).drop_last() =~= entries@.take(i as int));
        let item = match &entries[i] {
            StatusEntry::TreeIndex(change) => {
                let mut item = map_tree_index_change(change);
                item.staged = true;
                Some(item)
            },
            StatusEntry::IndexWorktree(item) => map_index_worktree_item(item),
        };
        assert(item_of(item) == entry_item(entries@[i as int]));
        if let Some(item) = item {
            if item_passes(&item, filter) {
                let ghost view = item@;
                out.push(item);
                assert(items_of(out@) =~= before.push(view));
            }
        }
        i += 1;
    }
    assert(entries@.take(i as int) =~= entries@);
    if let Err(e) = graph::check_epoch(epoch, epoch_at_end) {
        return Err(e);
    }
    Ok(out)
}

// ---------------------------------------------------------------------------
// References
// ---------------------------------------------------------------------------
/// The kind of a reference and the name that a client is shown.
pub open spec fn shown_ref(name: Seq<char>) -> (RefKind, Seq<char>) {
    match after_prefix(name, "refs/tags/"@) {
        Some(rest) => (RefKind::Tag, rest),
        None => match after_prefix(name, "refs/remotes/"@) {
            Some(rest) => (RefKind::RemoteBranch, rest),
            None => match after_prefix(name, "refs/heads/"@) {
                Some(rest) => (RefKind::Branch, rest),
                None => (RefKind::Branch, name),
            },
        },
    }
}

/// The kind of a reference and the name that a client is shown.
fn show_ref(name: &str) -> (r: (RefKind, String))
    ensures
        (r.0, r.1@) == shown_ref(name@),
{
    match text::strip_prefix(name, "refs/tags/") {
        Some(rest) => (RefKind::Tag, rest),
        None => match text::strip_prefix(name, "refs/remotes/") {
            Some(rest) => (RefKind::RemoteBranch, rest),
            None => match text::strip_prefix(name, "refs/heads/") {
                Some(rest) => (RefKind::Branch, rest),
                None => (RefKind::Branch, name.to_owned()),
            },
        },
    }
}

/// A reference of the repository: its full name, and the object it points at
/// unless it points at another reference.
#[derive(Debug, Clone)]
pub struct RawRef {
    pub name: Vec<u8>,
    pub target: Option<String>,
}

/// Whether `r` is what a client is shown of a reference.
pub open spec fn is_shown(r: Ref, raw: RawRef) -> bool {
    &&& (r.kind, r.name@) == shown_ref(bstr_text_of(raw.name@))
    &&& r.target@ == match raw.target {
        Some(t) => t@,
        None => Seq::<char>::empty(),
    }
}

/// The references as a client is shown them, in order.
pub fn read_refs(raw: &Vec<RawRef>) -> (r: Vec<Ref>)
    ensures
        r@.len() == raw@.len(),
        forall|i: int| #![trigger r@[i]] 0 <= i < r@.len() ==> is_shown(r@[i], raw@[i]),
{
    let mut out: Vec<Ref> = Vec::new();
    let mut i: usize = 0;
    while i < raw.len()
        invariant
            i <= raw@.len(),
            out@.len() == i,
            forall|k: int| #![trigger out@[k]] 0 <= k < i ==> is_shown(out@[k], raw@[k]),
        decreases raw.len() - i,
    {
        let (kind, name) = show_ref(adapt::bstr_text(raw[i].name.as_slice()).as_str());
        let target = match &raw[i].target {
            Some(t) => t.clone(),
            None => String::new(),
        };
        out.push(Ref { name, kind, target });
        i += 1;
    }
    out
}

// ---------------------------------------------------------------------------
// Blobs
// ---------------------------------------------------------------------------
/// What did not work when a file was looked up in a revision.
#[derive(Debug, Clone, Copy, PartialEq, Eq)]
pub enum LookupFault {
    /// There is no such revision.
    Revision,
    /// The revision is no commit.
    Commit,
    /// The path is no file.
    File,
    /// Anything else.
    Other,
}

/// What is said of a lookup that failed for `reason`.
pub open spec fn lookup_text(
    fault: LookupFault,
    revision: Seq<char>,
    path: Seq<char>,
    reason: Seq<char>,
) -> Seq<char> {
    match fault {
        LookupFault::Revision => "revision "@ + quoted_of(revision) + " not found: "@ + reason,
        LookupFault::Commit => quoted_of(revision) + " is not a commit: "@ + reason,
        LookupFault::File => quoted_of(path) + " is not a file: "@ + reason,
        LookupFault::Other => reason,
    }
}

/// What is said of a lookup that failed for `reason`.
pub fn lookup_error(fault: LookupFault, revision: &str, path: &str, reason: &str) -> (r: String)
    ensures
        r@ == lookup_text(fault, revision@, path@, reason@),
{
    match fault {
        LookupFault::Revision => {
            let mut out = "revision ".to_owned();
            out.append(text::quoted(revision).as_str());
            out.append(" not found: ");
            out.append(reason);
            out
        },
        LookupFault::Commit => {
            let mut out = text::quoted(revision);
            out.append(" is not a commit: ");
            out.append(reason);
            out
        },
        LookupFault::File => {
            let mut out = text::quoted(path);
            out.append(" is not a file: ");
            out.append(reason);
            out
        },
        LookupFault::Other => reason.to_owned(),
    }
}

/// The content of the file `path` in `revision`, given what the repository has
/// there: nothing at all is no error, but an empty content. Revisions and paths
/// that look like options are refused.
pub fn read_blob(
    revision: &str,
    path: &str,
    found: Result<Option<Vec<u8>>, (LookupFault, String)>,
) -> (r: Result<String, String>)
    ensures
        if unfit_for_lookup(revision@) {
            r matches Err(m) && m@ == "invalid revision: "@ + quoted_of(revision@)
        } else if unfit_for_lookup(path@) {
            r matches Err(m) && m@ == "invalid path: "@ + quoted_of(path@)
        } else {
            match found {
                Ok(Some(data)) => r matches Ok(t) && t@ == lossy_of(data@),
                Ok(None) => r matches Ok(t) && t@ == Seq::<char>::empty(),
                Err((fault, reason)) => r matches Err(m) && m@ == lookup_text(
                    fault,
                    revision@,
                    path@,
                    reason@,
                ),
            }
        },
{
    match names::validate_lookup(revision, path) {
        Ok(()) => {},
        Err(e) => return Err(e.message()),
    }
    match found {
        Ok(Some(data)) => Ok(text::lossy(data.as_slice())),
        Ok(None) => Ok(String::new()),
        Err((fault, reason)) => Err(lookup_error(fault, revision, path, reason.as_str())),
    }
}

// ---------------------------------------------------------------------------
// HEAD
// ---------------------------------------------------------------------------
/// What a client is told of `HEAD`, given what the file holds and the commit it
/// leads to, if any: no id on a branch without commits, no branch where `HEAD`
/// is detached.
pub fn read_head(raw: &str, commit: Option<String>) -> (r: GetHeadResult)
    ensures
        r.head@ == match commit {
            Some(id) => id@,
            None => Seq::<char>::empty(),
        },
        opt_text(r.branch) == after_prefix(trim_of(raw@), "ref: refs/heads/"@),
{
    let branch = text::strip_prefix(text::trim(raw).as_str(), "ref: refs/heads/");
    let head = match commit {
        Some(id) => id,
        None => String::new(),
    };
    GetHeadResult { head, branch }
}

// ---------------------------------------------------------------------------
// Laws
// ---------------------------------------------------------------------------
/// A filter matches whole components: a path that merely begins with the text
/// of the filter, and goes on with anything but a slash, does not match.
pub proof fn law_filter_is_component_aware(filter: Seq<char>, rest: Seq<char>)
    requires
        filter.len() > 0,
        filter.last() != '/',
        rest.len() > 0,
        rest[0] != '/',
    ensures
        is_below(filter, filter),
        is_below(filter + "/"@ + rest, filter),
        !is_below(filter + rest, filter),
{
    reveal_strlit("/");
    let base = trim_end_char_of(filter, '/');
    assert(base == filter);
    assert((base + "/"@).is_prefix_of(filter + "/"@ + rest)) by {
        assert((filter + "/"@ + rest).take((base + "/"@).len() as int) =~= base + "/"@);
    }
    let path = filter + rest;
    assert(path.len() != base.len());
    if (base + "/"@).is_prefix_of(path) {
        assert((base + "/"@)[base.len() as int] == path[base.len() as int]);
    }
}

/// Every item of a filtered status passes the filter.
pub proof fn law_status_passes_filter(
    entries: Seq<StatusEntry>,
    filter: Option<Seq<Seq<char>>>,
    i: int,
)
    requires
        0 <= i < status_of(entries, filter).len(),
    ensures
        passes(status_of(entries, filter)[i], filter),
    decreases entries.len(),
{
    let before = status_of(entries.drop_last(), filter);
    if i < before.len() {
        law_status_passes_filter(entries.drop_last(), filter, i);
    }
}

/// So many slashes.
pub open spec fn slashes(n: nat) -> Seq<char> {
    Seq::new(n, |i: int| '/')
}

/// Whether a path is `base` or lies below it.
pub open spec fn lies_at(path: Seq<char>, base: Seq<char>) -> bool {
    path == base || exists|rest: Seq<char>| path == #[trigger] (base + seq!['/'] + rest)
}

/// A filter matches the path that it names and all that lies below it, whether it
/// ends with slashes or not, and nothing else.
pub proof fn law_filter_means_its_path(path: Seq<char>, base: Seq<char>, n: nat)
    requires
        base.len() > 0 ==> base.last() != '/',
    ensures
        is_below(path, base + slashes(n)) <==> lies_at(path, base),
{
    reveal_strlit("/");
    assert("/"@ =~= seq!['/']);
    law_trim_end_char(base, '/', n);
    let below = base + seq!['/'];
    if below.is_prefix_of(path) {
        let rest = path.skip(below.len() as int);
        assert(path =~= base + seq!['/'] + rest);
    }
    if exists|rest: Seq<char>| path == #[trigger] (base + seq!['/'] + rest) {
        let rest = choose|rest: Seq<char>| path == #[trigger] (base + seq!['/'] + rest);
        assert(path.subrange(0, below.len() as int) =~= below);
    }
}

/// The status of changes one after another is the status of the first ones and
/// then that of the others.
pub proof fn law_status_adds_up(
    first: Seq<StatusEntry>,
    second: Seq<StatusEntry>,
    filter: Option<Seq<Seq<char>>>,
)
    ensures
        status_of(first + second, filter) == status_of(first, filter) + status_of(second, filter),
    decreases second.len(),
{
    let all = first + second;
    if second.len() == 0 {
        assert(all =~= first);
        assert(status_of(first, filter) + Seq::<StatusView>::empty() =~= status_of(first, filter));
    } else {
        law_status_adds_up(first, second.drop_last(), filter);
        assert(all.drop_last() =~= first + second.drop_last());
        assert(all.last() == second.last());
        assert(status_of(all, filter) =~= status_of(first, filter) + status_of(second, filter));
    }
}

/// Every change that a client is told of, and whose path is one that the filter
/// names or lies below one, whichever of them it is, is in the status; without a
/// filter every change is.
pub proof fn law_matching_changes_are_listed(
    entries: Seq<StatusEntry>,
    filter: Option<Seq<Seq<char>>>,
    i: int,
    item: StatusView,
    j: int,
    base: Seq<char>,
    n: nat,
)
    requires
        0 <= i < entries.len(),
        entry_item(entries[i]) == Some(item),
        filter matches Some(paths) ==> {
            &&& 0 <= j < paths.len()
            &&& paths[j] == base + slashes(n)
            &&& base.len() > 0 ==> base.last() != '/'
            &&& lies_at(item.path, base)
        },
    ensures
        status_of(entries, filter).contains(item),
    decreases entries.len(),
{
    if filter is Some {
        law_filter_means_its_path(item.path, base, n);
        let paths = filter->0;
        assert(is_below(item.path, paths[j]));
    }
    let fewer = entries.drop_last();
    let all = status_of(entries, filter);
    if i < fewer.len() {
        assert(fewer[i] == entries[i]);
        law_matching_changes_are_listed(fewer, filter, i, item, j, base, n);
        let before = status_of(fewer, filter);
        let at = choose|at: int| 0 <= at < before.len() && before[at] == item;
        assert(all[at] == item);
    } else {
        assert(passes(item, filter));
        assert(all[all.len() - 1] == item);
    }
}

/// Every item of the status tells of a change, and its path is one that the filter
/// names or lies below one.
pub proof fn law_listed_changes_match(
    entries: Seq<StatusEntry>,
    filter: Option<Seq<Seq<char>>>,
    at: int,
)
    requires
        0 <= at < status_of(entries, filter).len(),
    ensures
        exists|i: int|
            0 <= i < entries.len() && entry_item(#[trigger] entries[i]) == Some(
                status_of(entries, filter)[at],
            ),
        filter matches Some(paths) ==> exists|j: int, base: Seq<char>, n: nat|
            0 <= j < paths.len() && #[trigger] paths[j] == base + #[trigger] slashes(n)
                && #[trigger] lies_at(status_of(entries, filter)[at].path, base),
    decreases entries.len(),
{
    let fewer = entries.drop_last();
    let before = status_of(fewer, filter);
    let item = status_of(entries, filter)[at];
    if at < before.len() {
        law_listed_changes_match(fewer, filter, at);
        assert(before[at] == item);
        let i = choose|i: int|
            0 <= i < fewer.len() && entry_item(#[trigger] fewer[i]) == Some(before[at]);
        assert(entries[i] == fewer[i]);
    } else {
        assert(entry_item(entries[entries.len() - 1]) == Some(item));
        if filter is Some {
            let paths = filter->0;
            let j = choose|j: int| 0 <= j < paths.len() && is_below(item.path, #[trigger] paths[j]);
            lemma_slashes(paths[j]);
            let (base, n) = choose|base: Seq<char>, n: nat|
                paths[j] == #[trigger] (base + slashes(n)) && (base.len() > 0
                    ==> base.last() != '/');
            law_filter_means_its_path(item.path, base, n);
            assert(paths[j] == base + slashes(n) && lies_at(item.path, base));
        }
    }
}

/// Every text is one that ends with no slash, with slashes behind it.
proof fn lemma_slashes(s: Seq<char>)
    ensures
        exists|base: Seq<char>, n: nat|
            s == #[trigger] (base + slashes(n)) && (base.len() > 0 ==> base.last()
                != '/'),
    decreases s.len(),
{
    if s.len() > 0 && s.last() == '/' {
        lemma_slashes(s.drop_last());
        let (base, n) = choose|base: Seq<char>, n: nat|
            s.drop_last() == #[trigger] (base + slashes(n)) && (base.len() > 0
                ==> base.last() != '/');
        assert(slashes(n + 1) =~= slashes(n).push('/'));
        assert(s =~= s.drop_last().push('/'));
        assert(s =~= base + slashes(n + 1));
    } else {
        assert(s =~= s + slashes(0));
    }
}

/// What a client is told of a change to the index: the path, where it came from if
/// it was moved or copied, and that it is staged.
pub proof fn law_index_changes_are_staged(change: TreeIndexChange)
    ensures
        entry_item(StatusEntry::TreeIndex(change)) matches Some(item) && {
            &&& item.staged
            &&& match change {
                TreeIndexChange::Addition { location } => item.path == bstr_text_of(location@)
                    && item.status == StatusCode::Added && item.old_path is None,
                TreeIndexChange::Deletion { location } => item.path == bstr_text_of(location@)
                    && item.status == StatusCode::Deleted && item.old_path is None,
                TreeIndexChange::Modification { location } => item.path == bstr_text_of(location@)
                    && item.status == StatusCode::Modified && item.old_path is None,
                TreeIndexChange::Rewrite { source_location, location, copy } => {
                    &&& item.path == bstr_text_of(location@)
                    &&& item.old_path == Some(bstr_text_of(source_location@))
                    &&& copy ==> item.status == StatusCode::Copied
                    &&& !copy ==> item.status == StatusCode::Renamed
                },
            }
        },
{
}

/// What a client is told of a change in the worktree: it is not staged, and
/// nothing is told of what is no change to the content.
pub proof fn law_worktree_changes_are_not_staged(change: IndexWorktreeItem)
    ensures
        entry_item(StatusEntry::IndexWorktree(change)) matches Some(item) ==> !item.staged,
        match change {
            IndexWorktreeItem::Modification { rela_path, status } => {
                let told = entry_item(StatusEntry::IndexWorktree(change));
                &&& told is None <==> status == EntryStatus::NeedsUpdate
                &&& told matches Some(item) ==> {
                    &&& item.path == bstr_text_of(rela_path@)
                    &&& item.old_path is None
                    &&& item.status == StatusCode::Conflict <==> status == EntryStatus::Conflict
                    &&& item.status == StatusCode::Deleted <==> status == EntryStatus::Removed
                    &&& item.status == StatusCode::Modified <==> status == EntryStatus::Changed
                    &&& item.status == StatusCode::Added <==> status == EntryStatus::IntentToAdd
                }
            },
            IndexWorktreeItem::DirectoryContents { rela_path, status } => {
                let told = entry_item(StatusEntry::IndexWorktree(change));
                &&& told is None <==> status == DirStatus::Other
                &&& told matches Some(item) ==> {
                    &&& item.path == bstr_text_of(rela_path@)
                    &&& item.old_path is None
                    &&& item.status == StatusCode::Untracked <==> status == DirStatus::Untracked
                    &&& item.status == StatusCode::Ignored <==> status == DirStatus::Ignored
                }
            },
            IndexWorktreeItem::Rewrite { source, rela_path, copy } => {
                let from = match source {
                    RewriteSource::FromIndex(from) => from,
                    RewriteSource::FromDirectory(from) => from,
                };
                entry_item(StatusEntry::IndexWorktree(change)) matches Some(item) && {
                    &&& item.path == bstr_text_of(rela_path@)
                    &&& item.old_path == Some(bstr_text_of(from@))
                    &&& item.status == if copy {
                        StatusCode::Copied
                    } else {
                        StatusCode::Renamed
                    }
                }
            },
        },
{
}

/// References are shown by their kind and without the directory of their kind; a
/// reference of no known kind is shown as a branch under its full name.
pub proof fn law_refs_are_shown_short(name: Seq<char>)
    ensures
        shown_ref("refs/tags/"@ + name) == (RefKind::Tag, name),
        shown_ref("refs/remotes/"@ + name) == (RefKind::RemoteBranch, name),
        shown_ref("refs/heads/"@ + name) == (RefKind::Branch, name),
        !"refs/tags/"@.is_prefix_of(name) && !"refs/remotes/"@.is_prefix_of(name)
            && !"refs/heads/"@.is_prefix_of(name) ==> shown_ref(name) == (RefKind::Branch, name),
{
    reveal_strlit("refs/tags/");
    reveal_strlit("refs/remotes/");
    reveal_strlit("refs/heads/");
    law_after_prefix(name, "refs/tags/"@, name);
    law_after_prefix(name, "refs/remotes/"@, name);
    law_after_prefix(name, "refs/heads/"@, name);
    let remote = "refs/remotes/"@ + name;
    let head = "refs/heads/"@ + name;
    assert(remote[5] == 'r' && head[5] == 'h' && "refs/tags/"@[5] == 't' && "refs/remotes/"@[5]
        == 'r');
    assert(!"refs/tags/"@.is_prefix_of(remote));
    assert(!"refs/tags/"@.is_prefix_of(head));
    assert(!"refs/remotes/"@.is_prefix_of(head));
}

/// A client is told the branch that `HEAD` names, and none where it names no local
/// branch.
pub proof fn law_head_names_its_branch(
    raw: &str,
    commit: Option<String>,
    r: GetHeadResult,
    branch: Seq<char>,
)
    requires
        call_ensures(read_head, (raw, commit), r),
    ensures
        commit matches Some(id) ==> r.head@ == id@,
        commit is None ==> r.head@.len() == 0,
        trim_of(raw@) == "ref: refs/heads/"@ + branch ==> (r.branch matches Some(b) && b@
            == branch),
        !"ref: refs/heads/"@.is_prefix_of(trim_of(raw@)) ==> r.branch is None,
{
    law_after_prefix(trim_of(raw@), "ref: refs/heads/"@, branch);
}

/// The status that was read lists every change that a client is told of and that
/// lies at a path of the filter, and is refused exactly where the epoch has moved.
pub proof fn law_read_status_is_complete(
    entries: Vec<StatusEntry>,
    filter: Option<&Vec<String>>,
    epoch: u64,
    epoch_at_end: u64,
    r: Result<Vec<StatusItem>, WorkbenchError>,
    i: int,
    item: StatusView,
    j: int,
    base: Seq<char>,
    n: nat,
)
    requires
        call_ensures(read_status, (&entries, filter, epoch, epoch_at_end), r),
        0 <= i < entries@.len(),
        entry_item(entries@[i]) == Some(item),
        filter matches Some(paths) ==> {
            &&& 0 <= j < paths@.len()
            &&& paths@[j]@ == base + slashes(n)
            &&& base.len() > 0 ==> base.last() != '/'
            &&& lies_at(item.path, base)
        },
    ensures
        r is Ok <==> epoch == epoch_at_end,
        r matches Ok(items) ==> exists|k: int|
            0 <= k < items@.len() && {
                let x = #[trigger] items@[k];
                &&& x.path@ == item.path
                &&& x.status == item.status
                &&& opt_text(x.old_path) == item.old_path
                &&& x.staged == item.staged
            },
        r matches Err(e) ==> e.code == -32004,
{
    if let Some(paths) = filter {
        assert(texts(paths@)[j] == paths@[j]@);
    }
    law_matching_changes_are_listed(entries@, filter_of(filter), i, item, j, base, n);
    if let Ok(items) = r {
        let all = items_of(items@);
        let k = choose|k: int| 0 <= k < all.len() && all[k] == item;
        assert(all[k] == items@[k]@);
    }
}

/// A file that is looked up is given as text; nothing at all is given as no text;
/// and a revision or a path that looks like an option is refused.
pub proof fn law_files_are_read(
    revision: &str,
    path: &str,
    found: Result<Option<Vec<u8>>, (LookupFault, String)>,
    r: Result<String, String>,
)
    requires
        call_ensures(read_blob, (revision, path, found), r),
    ensures
        r is Ok <==> path_fault(revision@) is None && path_fault(path@) is None && found is Ok,
        path_fault(revision@) is Some ==> (r matches Err(m) && m@ == "invalid revision: "@
            + quoted_of(revision@)),
        r matches Ok(t) ==> (found matches Ok(Some(data)) ==> t@ == lossy_of(data@)),
        r matches Ok(t) ==> (found matches Ok(None) ==> t@.len() == 0),
{
    law_accepted_paths(revision@);
    law_accepted_paths(path@);
}

/// References are shown in the order in which they were read, each with what it
/// points at.
pub proof fn law_read_refs_are_complete(raw: Vec<RawRef>, r: Vec<Ref>, i: int)
    requires
        call_ensures(read_refs, (&raw,), r),
        0 <= i < raw@.len(),
    ensures
        r@.len() == raw@.len(),
        (r@[i].kind, r@[i].name@) == shown_ref(bstr_text_of(raw@[i].name@)),
        raw@[i].target matches Some(t) ==> r@[i].target@ == t@,
        raw@[i].target is None ==> r@[i].target@.len() == 0,
{
    assert(is_shown(r@[i], raw@[i]));
}

/// A lookup that has failed is told of with what was looked for and why.
pub proof fn law_failed_lookups_are_told(
    revision: Seq<char>,
    path: Seq<char>,
    reason: Seq<char>,
)
    ensures
        lookup_text(LookupFault::Revision, revision, path, reason) == "revision "@ + quoted_of(
            revision,
        ) + " not found: "@ + reason,
        lookup_text(LookupFault::Commit, revision, path, reason) == quoted_of(revision)
            + " is not a commit: "@ + reason,
        lookup_text(LookupFault::File, revision, path, reason) == quoted_of(path)
            + " is not a file: "@ + reason,
        lookup_text(LookupFault::Other, revision, path, reason) == reason,
{
}

} // verus!
