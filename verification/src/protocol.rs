//! The messages of the workbench protocol: requests, results, notifications
//! and errors, and the JSON that stands for what the engine sends.
use crate::json;
use crate::json::{
    json_view, json_views, member_texts, members_of, object_text, JsonView, Member,
};
use crate::text;
use crate::text::{decimal_of, join_of, opt_text, signed_decimal_of, texts};
use serde_json::Value;
use vstd::prelude::*;
use vstd::string::*;

verus! {

/// Unique session identifier for a repository connection.
pub type SessionId = String;

/// What the protocol sends for an optional text: the text, or `null`.
pub open spec fn opt_json_text(s: Option<Seq<char>>) -> JsonView {
    match s {
        Some(t) => JsonView::Text(t),
        None => JsonView::Null,
    }
}

/// What the protocol sends for a list of texts.
pub open spec fn json_texts(s: Seq<Seq<char>>) -> JsonView {
    JsonView::Array(s.map_values(|t: Seq<char>| JsonView::Text(t)))
}

/// The JSON of an optional text.
pub fn opt_to_json(s: &Option<String>) -> (r: Value)
    ensures
        json_view(r) == opt_json_text(opt_text(*s)),
{
    match s {
        Some(t) => json::text(t.clone()),
        None => json::null(),
    }
}

/// The JSON of a list of texts.
pub fn texts_to_json(list: &Vec<String>) -> (r: Value)
    ensures
        json_view(r) == json_texts(texts(list@)),
{
    let mut items: Vec<Value> = Vec::new();
    let mut i: usize = 0;
    while i < list.len()
        invariant
            0 <= i <= list@.len(),
            json_views(items@) == texts(list@).take(i as int).map_values(
                |t: Seq<char>| JsonView::Text(t),
            ),
        decreases list.len() - i,
    {
        let ghost before = json_views(items@);
        items.push(json::text(list[i].clone()));
        i += 1;
        assert(json_views(items@) =~= before.push(JsonView::Text(list@[i - 1]@)));
        assert(json_views(items@) =~= texts(list@).take(i as int).map_values(
            |t: Seq<char>| JsonView::Text(t),
        ));
    }
    assert(texts(list@).take(i as int) =~= texts(list@));
    json::array(items)
}

// ---------------------------------------------------------------------------
// Core data types
// ---------------------------------------------------------------------------
/// A commit as a row of the graph.
#[derive(Debug, Clone, PartialEq, Eq)]
pub struct Commit {
    pub id: String,
    pub message: String,
    pub author_name: String,
    pub author_email: String,
    pub author_time: i64,
    pub parent_ids: Vec<String>,
    /// The column in which the graph shows the commit.
    pub lane: u16,
}

impl Commit {
    /// The JSON object that stands for the value.
    pub open spec fn json(&self) -> JsonView {
        JsonView::Object(
            map![
                "id"@ => JsonView::Text(self.id@),
                "message"@ => JsonView::Text(self.message@),
                "author_name"@ => JsonView::Text(self.author_name@),
                "author_email"@ => JsonView::Text(self.author_email@),
                "author_time"@ => JsonView::Int(self.author_time as int),
                "parent_ids"@ => json_texts(texts(self.parent_ids@)),
                "lane"@ => JsonView::Int(self.lane as int),
            ],
        )
    }

    /// The JSON object that stands for the value.
    pub fn to_json(&self) -> (r: Value)
        ensures
            json_view(r) == self.json(),
    {
        let mut v = json::object();
        json::put(&mut v, "id", json::text(self.id.clone()));
        json::put(&mut v, "message", json::text(self.message.clone()));
        json::put(&mut v, "author_name", json::text(self.author_name.clone()));
        json::put(&mut v, "author_email", json::text(self.author_email.clone()));
        json::put(&mut v, "author_time", json::signed(self.author_time));
        json::put(&mut v, "parent_ids", texts_to_json(&self.parent_ids));
        json::put(&mut v, "lane", json::unsigned(self.lane as u64));
        v
    }
}

/// What the protocol sends for a list of commits.
pub open spec fn commits_json(s: Seq<Commit>) -> JsonView {
    JsonView::Array(s.map_values(|x: Commit| x.json()))
}

/// The JSON of a list of commits.
pub fn commits_to_json(list: &Vec<Commit>) -> (r: Value)
    ensures
        json_view(r) == commits_json(list@),
{
    let mut items: Vec<Value> = Vec::new();
    let mut i: usize = 0;
    while i < list.len()
        invariant
            0 <= i <= list@.len(),
            json_views(items@) == list@.take(i as int).map_values(|x: Commit| x.json()),
        decreases list.len() - i,
    {
        let ghost before = json_views(items@);
        items.push(list[i].to_json());
        i += 1;
        assert(json_views(items@) =~= before.push(list@[i - 1].json()));
        assert(json_views(items@) =~= list@.take(i as int).map_values(|x: Commit| x.json()));
    }
    assert(list@.take(i as int) =~= list@);
    json::array(items)
}

/// A reference under its short name.
#[derive(Debug, Clone, PartialEq, Eq)]
pub struct Ref {
    pub name: String,
    pub kind: RefKind,
    pub target: String,
}

impl Ref {
    /// The JSON object that stands for the value.
    pub open spec fn json(&self) -> JsonView {
        JsonView::Object(
            map![
                "name"@ => JsonView::Text(self.name@),
                "kind"@ => self.kind.json(),
                "target"@ => JsonView::Text(self.target@),
            ],
        )
    }

    /// The JSON object that stands for the value.
    pub fn to_json(&self) -> (r: Value)
        ensures
            json_view(r) == self.json(),
    {
        let mut v = json::object();
        json::put(&mut v, "name", json::text(self.name.clone()));
        json::put(&mut v, "kind", self.kind.to_json());
        json::put(&mut v, "target", json::text(self.target.clone()));
        v
    }
}

/// What the protocol sends for a list of references.
pub open spec fn refs_json(s: Seq<Ref>) -> JsonView {
    JsonView::Array(s.map_values(|x: Ref| x.json()))
}

/// The JSON of a list of references.
pub fn refs_to_json(list: &Vec<Ref>) -> (r: Value)
    ensures
        json_view(r) == refs_json(list@),
{
    let mut items: Vec<Value> = Vec::new();
    let mut i: usize = 0;
    while i < list.len()
        invariant
            0 <= i <= list@.len(),
            json_views(items@) == list@.take(i as int).map_values(|x: Ref| x.json()),
        decreases list.len() - i,
    {
        let ghost before = json_views(items@);
        items.push(list[i].to_json());
        i += 1;
        assert(json_views(items@) =~= before.push(list@[i - 1].json()));
        assert(json_views(items@) =~= list@.take(i as int).map_values(|x: Ref| x.json()));
    }
    assert(list@.take(i as int) =~= list@);
    json::array(items)
}

/// What a reference is.
#[derive(Debug, Clone, Copy, PartialEq, Eq, Structural)]
pub enum RefKind {
    Branch,
    Tag,
    RemoteBranch,
}

impl RefKind {
    /// The name that the protocol has for the value.
    pub open spec fn wire_name(&self) -> Seq<char> {
        match *self {
            RefKind::Branch => "branch"@,
            RefKind::Tag => "tag"@,
            RefKind::RemoteBranch => "remote_branch"@,
        }
    }

    /// The JSON string that stands for the value.
    pub open spec fn json(&self) -> JsonView {
        JsonView::Text(self.wire_name())
    }

    /// The JSON string that stands for the value.
    pub fn to_json(&self) -> (r: Value)
        ensures
            json_view(r) == self.json(),
    {
        let name = match self {
            RefKind::Branch => "branch",
            RefKind::Tag => "tag",
            RefKind::RemoteBranch => "remote_branch",
        };
        json::text(name.to_owned())
    }
}

/// A path whose state differs between two of HEAD, the index and the worktree.
#[derive(Debug, Clone, PartialEq, Eq)]
pub struct StatusItem {
    pub path: String,
    pub status: StatusCode,
    /// Where the content was before, for a renamed or copied path.
    pub old_path: Option<String>,
    /// Whether the index differs from HEAD, and not the worktree from the index.
    pub staged: bool,
}

impl StatusItem {
    /// The JSON object that stands for the value.
    pub open spec fn json(&self) -> JsonView {
        JsonView::Object(
            map![
                "path"@ => JsonView::Text(self.path@),
                "status"@ => self.status.json(),
                "old_path"@ => opt_json_text(opt_text(self.old_path)),
                "staged"@ => JsonView::Bool(self.staged),
            ],
        )
    }

    /// The JSON object that stands for the value.
    pub fn to_json(&self) -> (r: Value)
        ensures
            json_view(r) == self.json(),
    {
        let mut v = json::object();
        json::put(&mut v, "path", json::text(self.path.clone()));
        json::put(&mut v, "status", self.status.to_json());
        json::put(&mut v, "old_path", opt_to_json(&self.old_path));
        json::put(&mut v, "staged", json::boolean(self.staged));
        v
    }
}

/// What the protocol sends for a list of status items.
pub open spec fn status_json(s: Seq<StatusItem>) -> JsonView {
    JsonView::Array(s.map_values(|x: StatusItem| x.json()))
}

/// The JSON of a list of status items.
pub fn status_to_json(list: &Vec<StatusItem>) -> (r: Value)
    ensures
        json_view(r) == status_json(list@),
{
    let mut items: Vec<Value> = Vec::new();
    let mut i: usize = 0;
    while i < list.len()
        invariant
            0 <= i <= list@.len(),
            json_views(items@) == list@.take(i as int).map_values(|x: StatusItem| x.json()),
        decreases list.len() - i,
    {
        let ghost before = json_views(items@);
        items.push(list[i].to_json());
        i += 1;
        assert(json_views(items@) =~= before.push(list@[i - 1].json()));
        assert(json_views(items@) =~= list@.take(i as int).map_values(|x: StatusItem| x.json()));
    }
    assert(list@.take(i as int) =~= list@);
    json::array(items)
}

/// How the state of a path differs.
#[derive(Debug, Clone, Copy, PartialEq, Eq, Structural)]
pub enum StatusCode {
    Added,
    Modified,
    Deleted,
    Renamed,
    Copied,
    Untracked,
    Ignored,
    Conflict,
}

impl StatusCode {
    /// The name that the protocol has for the value.
    pub open spec fn wire_name(&self) -> Seq<char> {
        match *self {
            StatusCode::Added => "added"@,
            StatusCode::Modified => "modified"@,
            StatusCode::Deleted => "deleted"@,
            StatusCode::Renamed => "renamed"@,
            StatusCode::Copied => "copied"@,
            StatusCode::Untracked => "untracked"@,
            StatusCode::Ignored => "ignored"@,
            StatusCode::Conflict => "conflict"@,
        }
    }

    /// The JSON string that stands for the value.
    pub open spec fn json(&self) -> JsonView {
        JsonView::Text(self.wire_name())
    }

    /// The JSON string that stands for the value.
    pub fn to_json(&self) -> (r: Value)
        ensures
            json_view(r) == self.json(),
    {
        let name = match self {
            StatusCode::Added => "added",
            StatusCode::Modified => "modified",
            StatusCode::Deleted => "deleted",
            StatusCode::Renamed => "renamed",
            StatusCode::Copied => "copied",
            StatusCode::Untracked => "untracked",
            StatusCode::Ignored => "ignored",
            StatusCode::Conflict => "conflict",
        };
        json::text(name.to_owned())
    }
}

// ---------------------------------------------------------------------------
// Graph pagination
// ---------------------------------------------------------------------------
/// The rows of the graph that a client asks for.
#[derive(Debug, Clone, PartialEq, Eq)]
pub struct GraphViewport {
    pub offset: u64,
    pub limit: u32,
    /// The commit at which the page is pinned.
    pub anchor_commit: Option<String>,
    /// The epoch the client believes it is viewing; used for cache validation.
    pub epoch: u64,
}

/// A page of the graph.
#[derive(Debug, Clone, PartialEq, Eq)]
pub struct GraphPage {
    pub commits: Vec<Commit>,
    /// A lower bound of the number of commits.
    pub total_approx: u64,
    /// Whether rows follow the page.
    pub has_more: bool,
    pub epoch: u64,
    pub anchor_commit: Option<String>,
}

impl GraphPage {
    /// The JSON object that stands for the value.
    pub open spec fn json(&self) -> JsonView {
        JsonView::Object(
            map![
                "commits"@ => commits_json(self.commits@),
                "total_approx"@ => JsonView::Int(self.total_approx as int),
                "has_more"@ => JsonView::Bool(self.has_more),
                "epoch"@ => JsonView::Int(self.epoch as int),
                "anchor_commit"@ => opt_json_text(opt_text(self.anchor_commit)),
            ],
        )
    }

    /// The JSON object that stands for the value.
    pub fn to_json(&self) -> (r: Value)
        ensures
            json_view(r) == self.json(),
    {
        let mut v = json::object();
        json::put(&mut v, "commits", commits_to_json(&self.commits));
        json::put(&mut v, "total_approx", json::unsigned(self.total_approx));
        json::put(&mut v, "has_more", json::boolean(self.has_more));
        json::put(&mut v, "epoch", json::unsigned(self.epoch));
        json::put(&mut v, "anchor_commit", opt_to_json(&self.anchor_commit));
        v
    }
}

// ---------------------------------------------------------------------------
// Requests and their results
// ---------------------------------------------------------------------------
/// Initialize a session for a given repository path.
#[derive(Debug, Clone, PartialEq, Eq)]
pub struct Initialize {
    pub repo_path: String,
}

/// What the engine can do for a client.
#[derive(Debug, Clone, PartialEq, Eq)]
pub struct Capabilities {
    pub graph: bool,
    pub status: bool,
    pub write_ops: bool,
    pub undo: bool,
    pub notifications: bool,
}

impl Capabilities {
    /// The JSON object that stands for the value.
    pub open spec fn json(&self) -> JsonView {
        JsonView::Object(
            map![
                "graph"@ => JsonView::Bool(self.graph),
                "status"@ => JsonView::Bool(self.status),
                "writeOps"@ => JsonView::Bool(self.write_ops),
                "undo"@ => JsonView::Bool(self.undo),
                "notifications"@ => JsonView::Bool(self.notifications),
            ],
        )
    }

    /// The JSON object that stands for the value.
    pub fn to_json(&self) -> (r: Value)
        ensures
            json_view(r) == self.json(),
    {
        let mut v = json::object();
        json::put(&mut v, "graph", json::boolean(self.graph));
        json::put(&mut v, "status", json::boolean(self.status));
        json::put(&mut v, "writeOps", json::boolean(self.write_ops));
        json::put(&mut v, "undo", json::boolean(self.undo));
        json::put(&mut v, "notifications", json::boolean(self.notifications));
        v
    }
}

/// The result of `initialize`.
#[derive(Debug, Clone, PartialEq, Eq)]
pub struct InitializeResult {
    pub session_id: SessionId,
    pub protocol_version: u32,
    pub engine_version: String,
    pub epoch: u64,
    pub capabilities: Capabilities,
}

impl InitializeResult {
    /// The JSON object that stands for the value.
    pub open spec fn json(&self) -> JsonView {
        JsonView::Object(
            map![
                "session_id"@ => JsonView::Text(self.session_id@),
                "protocol_version"@ => JsonView::Int(self.protocol_version as int),
                "engine_version"@ => JsonView::Text(self.engine_version@),
                "epoch"@ => JsonView::Int(self.epoch as int),
                "capabilities"@ => self.capabilities.json(),
            ],
        )
    }

    /// The JSON object that stands for the value.
    pub fn to_json(&self) -> (r: Value)
        ensures
            json_view(r) == self.json(),
    {
        let mut v = json::object();
        json::put(&mut v, "session_id", json::text(self.session_id.clone()));
        json::put(&mut v, "protocol_version", json::unsigned(self.protocol_version as u64));
        json::put(&mut v, "engine_version", json::text(self.engine_version.clone()));
        json::put(&mut v, "epoch", json::unsigned(self.epoch));
        json::put(&mut v, "capabilities", self.capabilities.to_json());
        v
    }
}

/// Ask for a page of the graph.
#[derive(Debug, Clone, PartialEq, Eq)]
pub struct GetGraph {
    pub viewport: GraphViewport,
}

/// Ask for the status, of all paths or of those under the given ones.
#[derive(Debug, Clone, PartialEq, Eq)]
pub struct GetStatus {
    pub paths: Option<Vec<String>>,
}

/// Ask for the content of a file in a revision.
#[derive(Debug, Clone, PartialEq, Eq)]
pub struct GetBlob {
    pub revision: String,
    pub path: String,
}

/// The result of `getHead`.
#[derive(Debug, Clone, PartialEq, Eq)]
pub struct GetHeadResult {
    /// The commit id, empty on an unborn branch.
    pub head: String,
    /// The short branch name, where HEAD is symbolic.
    pub branch: Option<String>,
}

impl GetHeadResult {
    /// The JSON object that stands for the value.
    pub open spec fn json(&self) -> JsonView {
        JsonView::Object(
            map![
                "head"@ => JsonView::Text(self.head@),
                "branch"@ => opt_json_text(opt_text(self.branch)),
            ],
        )
    }

    /// The JSON object that stands for the value.
    pub fn to_json(&self) -> (r: Value)
        ensures
            json_view(r) == self.json(),
    {
        let mut v = json::object();
        json::put(&mut v, "head", json::text(self.head.clone()));
        json::put(&mut v, "branch", opt_to_json(&self.branch));
        v
    }
}

/// Add paths to the index.
#[derive(Debug, Clone, PartialEq, Eq)]
pub struct Stage {
    pub paths: Vec<String>,
}

/// Reset paths in the index.
#[derive(Debug, Clone, PartialEq, Eq)]
pub struct Unstage {
    pub paths: Vec<String>,
}

/// Commit the index.
#[derive(Debug, Clone, PartialEq, Eq)]
pub struct CommitMsg {
    pub message: String,
    pub amend: bool,
}

/// The id of a new commit.
#[derive(Debug, Clone, PartialEq, Eq)]
pub struct CommitResult {
    pub commit_id: String,
}

impl CommitResult {
    /// The JSON object that stands for the value.
    pub open spec fn json(&self) -> JsonView {
        JsonView::Object(
            map![
                "commit_id"@ => JsonView::Text(self.commit_id@),
            ],
        )
    }

    /// The JSON object that stands for the value.
    pub fn to_json(&self) -> (r: Value)
        ensures
            json_view(r) == self.json(),
    {
        let mut v = json::object();
        json::put(&mut v, "commit_id", json::text(self.commit_id.clone()));
        v
    }
}

/// Create a branch, at HEAD or at a base.
#[derive(Debug, Clone, PartialEq, Eq)]
pub struct CreateBranch {
    pub name: String,
    pub base: Option<String>,
}

/// Delete a branch.
#[derive(Debug, Clone, PartialEq, Eq)]
pub struct DeleteBranch {
    pub name: String,
    pub force: bool,
}

/// Switch to a branch, with or without stashing local changes.
#[derive(Debug, Clone, PartialEq, Eq)]
pub struct SwitchBranch {
    pub name: String,
    pub auto_stash: bool,
}

/// Fetch from a remote.
#[derive(Debug, Clone, PartialEq, Eq)]
pub struct Fetch {
    pub remote: Option<String>,
}

/// Pull from a remote.
#[derive(Debug, Clone, PartialEq, Eq)]
pub struct Pull {
    pub remote: Option<String>,
    pub branch: Option<String>,
}

/// Push to a remote.
#[derive(Debug, Clone, PartialEq, Eq)]
pub struct Push {
    pub remote: String,
    pub branch: String,
    pub force: bool,
}

/// The output of a git command.
#[derive(Debug, Clone, PartialEq, Eq)]
pub struct OutputResult {
    pub output: String,
}

impl OutputResult {
    /// The JSON object that stands for the value.
    pub open spec fn json(&self) -> JsonView {
        JsonView::Object(
            map![
                "output"@ => JsonView::Text(self.output@),
            ],
        )
    }

    /// The JSON object that stands for the value.
    pub fn to_json(&self) -> (r: Value)
        ensures
            json_view(r) == self.json(),
    {
        let mut v = json::object();
        json::put(&mut v, "output", json::text(self.output.clone()));
        v
    }
}

/// Undo a transaction and all that follow it.
#[derive(Debug, Clone, PartialEq, Eq)]
pub struct Undo {
    pub transaction_id: u64,
}

/// Whether an undo restored anything, and what to tell the user.
#[derive(Debug, Clone, PartialEq, Eq)]
pub struct UndoResult {
    pub restored: bool,
    pub message: String,
}

impl UndoResult {
    /// The JSON object that stands for the value.
    pub open spec fn json(&self) -> JsonView {
        JsonView::Object(
            map![
                "restored"@ => JsonView::Bool(self.restored),
                "message"@ => JsonView::Text(self.message@),
            ],
        )
    }

    /// The JSON object that stands for the value.
    pub fn to_json(&self) -> (r: Value)
        ensures
            json_view(r) == self.json(),
    {
        let mut v = json::object();
        json::put(&mut v, "restored", json::boolean(self.restored));
        json::put(&mut v, "message", json::text(self.message.clone()));
        v
    }
}

/// The result of `undo`. Whether it was a no-op is informational and stays off the wire.
#[derive(Debug, Clone, PartialEq, Eq)]
pub struct UndoResponse {
    pub restored_refs: usize,
    pub noop: bool,
    pub epoch: u64,
}

impl UndoResponse {
    /// The JSON object that stands for the value.
    pub open spec fn json(&self) -> JsonView {
        JsonView::Object(
            map![
                "restored_refs"@ => JsonView::Int(self.restored_refs as int),
                "epoch"@ => JsonView::Int(self.epoch as int),
            ],
        )
    }

    /// The JSON object that stands for the value.
    pub fn to_json(&self) -> (r: Value)
        ensures
            json_view(r) == self.json(),
    {
        let mut v = json::object();
        json::put(&mut v, "restored_refs", json::unsigned(self.restored_refs as u64));
        json::put(&mut v, "epoch", json::unsigned(self.epoch));
        v
    }

    /// The members of the JSON object for the value, in order.
    pub open spec fn members(&self) -> Seq<(Seq<char>, Seq<char>)> {
        seq![
            ("\"restored_refs\""@, decimal_of(self.restored_refs as nat)),
            ("\"epoch\""@, decimal_of(self.epoch as nat)),
        ]
    }

    /// The JSON text of the value, with its members in order.
    pub fn to_json_text(&self) -> (r: String)
        ensures
            r@ == object_text(self.members()),
    {
        let mut members: Vec<Member> = Vec::new();
        members.push(
            json::member("\"restored_refs\"", text::decimal(self.restored_refs as u64)),
        );
        members.push(json::member("\"epoch\"", text::decimal(self.epoch)));
        assert(members_of(members@) =~= self.members());
        json::print_object(&members)
    }
}

/// Ask for the newest transactions.
#[derive(Debug, Clone, PartialEq, Eq)]
pub struct ListUndoStack {
    pub limit: i64,
}

/// A transaction that can be undone.
#[derive(Debug, Clone, PartialEq, Eq)]
pub struct UndoEntry {
    pub id: u64,
    pub timestamp: i64,
    pub description: String,
    pub epoch_at_creation: u64,
}

impl UndoEntry {
    /// The JSON object that stands for the value.
    pub open spec fn json(&self) -> JsonView {
        JsonView::Object(
            map![
                "id"@ => JsonView::Int(self.id as int),
                "timestamp"@ => JsonView::Int(self.timestamp as int),
                "description"@ => JsonView::Text(self.description@),
                "epoch_at_creation"@ => JsonView::Int(self.epoch_at_creation as int),
            ],
        )
    }

    /// The JSON object that stands for the value.
    pub fn to_json(&self) -> (r: Value)
        ensures
            json_view(r) == self.json(),
    {
        let mut v = json::object();
        json::put(&mut v, "id", json::unsigned(self.id));
        json::put(&mut v, "timestamp", json::signed(self.timestamp));
        json::put(&mut v, "description", json::text(self.description.clone()));
        json::put(&mut v, "epoch_at_creation", json::unsigned(self.epoch_at_creation));
        v
    }
}

/// What the protocol sends for a list of undo entries.
pub open spec fn entries_json(s: Seq<UndoEntry>) -> JsonView {
    JsonView::Array(s.map_values(|x: UndoEntry| x.json()))
}

/// The JSON of a list of undo entries.
pub fn entries_to_json(list: &Vec<UndoEntry>) -> (r: Value)
    ensures
        json_view(r) == entries_json(list@),
{
    let mut items: Vec<Value> = Vec::new();
    let mut i: usize = 0;
    while i < list.len()
        invariant
            0 <= i <= list@.len(),
            json_views(items@) == list@.take(i as int).map_values(|x: UndoEntry| x.json()),
        decreases list.len() - i,
    {
        let ghost before = json_views(items@);
        items.push(list[i].to_json());
        i += 1;
        assert(json_views(items@) =~= before.push(list@[i - 1].json()));
        assert(json_views(items@) =~= list@.take(i as int).map_values(|x: UndoEntry| x.json()));
    }
    assert(list@.take(i as int) =~= list@);
    json::array(items)
}

/// What `SwitchBranch::auto_stash` is where a request leaves it out.
pub const DEFAULT_AUTO_STASH: bool = true;

/// What `CommitMsg::amend` is where a request leaves it out.
pub const DEFAULT_AMEND: bool = false;

/// What `ListUndoStack::limit` is where a request leaves it out.
pub const DEFAULT_UNDO_LIMIT: i64 = 50;

// ---------------------------------------------------------------------------
// Notifications
// ---------------------------------------------------------------------------
/// References have changed.
#[derive(Debug, Clone, PartialEq, Eq)]
pub struct RefsChanged {
    pub changed_refs: Vec<String>,
    pub epoch: u64,
}

impl RefsChanged {
    /// The JSON object that stands for the value.
    pub open spec fn json(&self) -> JsonView {
        JsonView::Object(
            map![
                "changed_refs"@ => json_texts(texts(self.changed_refs@)),
                "epoch"@ => JsonView::Int(self.epoch as int),
            ],
        )
    }

    /// The JSON object that stands for the value.
    pub fn to_json(&self) -> (r: Value)
        ensures
            json_view(r) == self.json(),
    {
        let mut v = json::object();
        json::put(&mut v, "changed_refs", texts_to_json(&self.changed_refs));
        json::put(&mut v, "epoch", json::unsigned(self.epoch));
        v
    }
}

/// Files of the worktree have changed.
#[derive(Debug, Clone, PartialEq, Eq)]
pub struct WorktreeChanged {
    pub paths: Vec<String>,
}

impl WorktreeChanged {
    /// The JSON object that stands for the value.
    pub open spec fn json(&self) -> JsonView {
        JsonView::Object(
            map![
                "paths"@ => json_texts(texts(self.paths@)),
            ],
        )
    }

    /// The JSON object that stands for the value.
    pub fn to_json(&self) -> (r: Value)
        ensures
            json_view(r) == self.json(),
    {
        let mut v = json::object();
        json::put(&mut v, "paths", texts_to_json(&self.paths));
        v
    }
}

/// The index has changed.
#[derive(Debug, Clone, PartialEq, Eq)]
pub struct IndexChanged {
    pub epoch: u64,
}

impl IndexChanged {
    /// The JSON object that stands for the value.
    pub open spec fn json(&self) -> JsonView {
        JsonView::Object(
            map![
                "epoch"@ => JsonView::Int(self.epoch as int),
            ],
        )
    }

    /// The JSON object that stands for the value.
    pub fn to_json(&self) -> (r: Value)
        ensures
            json_view(r) == self.json(),
    {
        let mut v = json::object();
        json::put(&mut v, "epoch", json::unsigned(self.epoch));
        v
    }
}

/// HEAD has changed.
#[derive(Debug, Clone, PartialEq, Eq)]
pub struct HeadChanged {
    pub new_head: String,
    pub epoch: u64,
}

impl HeadChanged {
    /// The JSON object that stands for the value.
    pub open spec fn json(&self) -> JsonView {
        JsonView::Object(
            map![
                "new_head"@ => JsonView::Text(self.new_head@),
                "epoch"@ => JsonView::Int(self.epoch as int),
            ],
        )
    }

    /// The JSON object that stands for the value.
    pub fn to_json(&self) -> (r: Value)
        ensures
            json_view(r) == self.json(),
    {
        let mut v = json::object();
        json::put(&mut v, "new_head", json::text(self.new_head.clone()));
        json::put(&mut v, "epoch", json::unsigned(self.epoch));
        v
    }
}

/// The graph has to be read again.
#[derive(Debug, Clone, PartialEq, Eq)]
pub struct GraphInvalidated {
    pub epoch: u64,
}

impl GraphInvalidated {
    /// The JSON object that stands for the value.
    pub open spec fn json(&self) -> JsonView {
        JsonView::Object(
            map![
                "epoch"@ => JsonView::Int(self.epoch as int),
            ],
        )
    }

    /// The JSON object that stands for the value.
    pub fn to_json(&self) -> (r: Value)
        ensures
            json_view(r) == self.json(),
    {
        let mut v = json::object();
        json::put(&mut v, "epoch", json::unsigned(self.epoch));
        v
    }
}

// ---------------------------------------------------------------------------
// Errors
// ---------------------------------------------------------------------------
/// An error that a client is answered.
#[derive(Debug, Clone)]
pub struct WorkbenchError {
    pub code: i32,
    pub message: String,
}

impl WorkbenchError {
    /// The JSON object that stands for the value.
    pub open spec fn json(&self) -> JsonView {
        JsonView::Object(
            map![
                "code"@ => JsonView::Int(self.code as int),
                "message"@ => JsonView::Text(self.message@),
            ],
        )
    }

    /// The JSON object that stands for the value.
    pub fn to_json(&self) -> (r: Value)
        ensures
            json_view(r) == self.json(),
    {
        let mut v = json::object();
        json::put(&mut v, "code", json::signed(self.code as i64));
        json::put(&mut v, "message", json::text(self.message.clone()));
        v
    }
}

impl WorkbenchError {
    pub const REPO_NOT_FOUND: i32 = -32001;

    pub const GIT_ERROR: i32 = -32002;

    pub const CONCURRENT_OPERATION: i32 = -32003;

    pub const EPOCH_MISMATCH: i32 = -32004;

    pub const INVALID_ARGUMENT: i32 = -32005;

    pub const NOT_INITIALIZED: i32 = -32006;

    pub const UNDO_BLOCKED: i32 = -32007;

    /// The path is no repository.
    pub fn repo_not_found(msg: String) -> (r: WorkbenchError)
        ensures
            r.code == Self::REPO_NOT_FOUND,
            r.message@ == msg@,
    {
        WorkbenchError { code: Self::REPO_NOT_FOUND, message: msg }
    }

    /// An operation on the repository failed.
    pub fn git_error(msg: String) -> (r: WorkbenchError)
        ensures
            r.code == Self::GIT_ERROR,
            r.message@ == msg@,
    {
        WorkbenchError { code: Self::GIT_ERROR, message: msg }
    }

    /// A request cannot be served as it stands.
    pub fn invalid_argument(msg: String) -> (r: WorkbenchError)
        ensures
            r.code == Self::INVALID_ARGUMENT,
            r.message@ == msg@,
    {
        WorkbenchError { code: Self::INVALID_ARGUMENT, message: msg }
    }

    /// A request came before `initialize`.
    pub fn not_initialized(msg: String) -> (r: WorkbenchError)
        ensures
            r.code == Self::NOT_INITIALIZED,
            r.message@ == msg@,
    {
        WorkbenchError { code: Self::NOT_INITIALIZED, message: msg }
    }

    /// An undo would overwrite changes from outside.
    pub fn undo_blocked(msg: String) -> (r: WorkbenchError)
        ensures
            r.code == Self::UNDO_BLOCKED,
            r.message@ == msg@,
    {
        WorkbenchError { code: Self::UNDO_BLOCKED, message: msg }
    }

    /// What an epoch mismatch says.
    pub open spec fn epoch_mismatch_text(expected: u64, actual: u64) -> Seq<char> {
        "epoch mismatch: expected "@ + decimal_of(expected as nat) + ", got "@ + decimal_of(
            actual as nat,
        )
    }

    /// A client looks at another epoch than the current one.
    pub fn epoch_mismatch(expected: u64, actual: u64) -> (r: WorkbenchError)
        ensures
            r.code == Self::EPOCH_MISMATCH,
            r.message@ == Self::epoch_mismatch_text(expected, actual),
    {
        let mut message = "epoch mismatch: expected ".to_owned();
        message.append(text::decimal(expected).as_str());
        message.append(", got ");
        message.append(text::decimal(actual).as_str());
        WorkbenchError { code: Self::EPOCH_MISMATCH, message }
    }

    /// What an error reads like.
    pub open spec fn display_text(&self) -> Seq<char> {
        "WorkbenchError "@ + signed_decimal_of(self.code as int) + ": "@ + self.message@
    }

    /// The error as a line of text.
    pub fn to_text(&self) -> (r: String)
        ensures
            r@ == self.display_text(),
    {
        let mut out = "WorkbenchError ".to_owned();
        out.append(text::signed_decimal(self.code as i64).as_str());
        out.append(": ");
        out.append(self.message.as_str());
        out
    }
}

// ---------------------------------------------------------------------------
// Laws
// ---------------------------------------------------------------------------
/// A commit is sent with all that it holds, each field under its name.
pub proof fn law_commits_are_sent(c: Commit)
    ensures
        c.json().member("id"@) == Some(JsonView::Text(c.id@)),
        c.json().member("message"@) == Some(JsonView::Text(c.message@)),
        c.json().member("author_name"@) == Some(JsonView::Text(c.author_name@)),
        c.json().member("author_email"@) == Some(JsonView::Text(c.author_email@)),
        c.json().member("author_time"@) == Some(JsonView::Int(c.author_time as int)),
        c.json().member("parent_ids"@) == Some(json_texts(texts(c.parent_ids@))),
        c.json().member("lane"@) == Some(JsonView::Int(c.lane as int)),
{
    reveal_strlit("id");
    reveal_strlit("message");
    reveal_strlit("author_name");
    reveal_strlit("author_email");
    reveal_strlit("author_time");
    reveal_strlit("parent_ids");
    reveal_strlit("lane");
    assert("id"@.len() == 2);
    assert("message"@.len() == 7);
    assert("author_name"@.len() == 11);
    assert("author_email"@.len() == 12);
    assert("author_time"@.len() == 11);
    assert("parent_ids"@.len() == 10);
    assert("lane"@.len() == 4);
    assert("author_name"@[7] == 'n' && "author_time"@[7] == 't');
}

/// A reference is sent with its short name, its kind and what it points at.
pub proof fn law_refs_are_sent(x: Ref)
    ensures
        x.json().member("name"@) == Some(JsonView::Text(x.name@)),
        x.json().member("kind"@) == Some(x.kind.json()),
        x.json().member("target"@) == Some(JsonView::Text(x.target@)),
        RefKind::Branch.json() == JsonView::Text("branch"@),
        RefKind::Tag.json() == JsonView::Text("tag"@),
        RefKind::RemoteBranch.json() == JsonView::Text("remote_branch"@),
{
    reveal_strlit("name");
    reveal_strlit("kind");
    reveal_strlit("target");
    assert("name"@.len() == 4 && "kind"@.len() == 4 && "target"@.len() == 6);
    assert("name"@[0] == 'n' && "kind"@[0] == 'k');
}

/// An item of the status is sent with its path, its code, where it came from, and
/// whether it is staged.
pub proof fn law_status_items_are_sent(x: StatusItem)
    ensures
        x.json().member("path"@) == Some(JsonView::Text(x.path@)),
        x.json().member("status"@) == Some(x.status.json()),
        x.json().member("old_path"@) == Some(opt_json_text(opt_text(x.old_path))),
        x.json().member("staged"@) == Some(JsonView::Bool(x.staged)),
        StatusCode::Added.json() == JsonView::Text("added"@),
        StatusCode::Modified.json() == JsonView::Text("modified"@),
        StatusCode::Deleted.json() == JsonView::Text("deleted"@),
        StatusCode::Renamed.json() == JsonView::Text("renamed"@),
        StatusCode::Copied.json() == JsonView::Text("copied"@),
        StatusCode::Untracked.json() == JsonView::Text("untracked"@),
        StatusCode::Ignored.json() == JsonView::Text("ignored"@),
        StatusCode::Conflict.json() == JsonView::Text("conflict"@),
{
    reveal_strlit("path");
    reveal_strlit("status");
    reveal_strlit("old_path");
    reveal_strlit("staged");
    assert("path"@.len() == 4);
    assert("status"@.len() == 6);
    assert("old_path"@.len() == 8);
    assert("staged"@.len() == 6);
    assert("status"@[3] == 't' && "staged"@[3] == 'g');
}

/// A page is sent with its rows, their number, whether more follow, its epoch and its
/// anchor.
pub proof fn law_pages_are_sent(x: GraphPage)
    ensures
        x.json().member("commits"@) == Some(commits_json(x.commits@)),
        x.json().member("total_approx"@) == Some(JsonView::Int(x.total_approx as int)),
        x.json().member("has_more"@) == Some(JsonView::Bool(x.has_more)),
        x.json().member("epoch"@) == Some(JsonView::Int(x.epoch as int)),
        x.json().member("anchor_commit"@) == Some(opt_json_text(opt_text(x.anchor_commit))),
{
    reveal_strlit("commits");
    reveal_strlit("total_approx");
    reveal_strlit("has_more");
    reveal_strlit("epoch");
    reveal_strlit("anchor_commit");
    assert("commits"@.len() == 7);
    assert("total_approx"@.len() == 12);
    assert("has_more"@.len() == 8);
    assert("epoch"@.len() == 5);
    assert("anchor_commit"@.len() == 13);
}

/// The engine tells what it can do.
pub proof fn law_capabilities_are_sent(x: Capabilities)
    ensures
        x.json().member("graph"@) == Some(JsonView::Bool(x.graph)),
        x.json().member("status"@) == Some(JsonView::Bool(x.status)),
        x.json().member("writeOps"@) == Some(JsonView::Bool(x.write_ops)),
        x.json().member("undo"@) == Some(JsonView::Bool(x.undo)),
        x.json().member("notifications"@) == Some(JsonView::Bool(x.notifications)),
{
    reveal_strlit("graph");
    reveal_strlit("status");
    reveal_strlit("writeOps");
    reveal_strlit("undo");
    reveal_strlit("notifications");
    assert("graph"@.len() == 5);
    assert("status"@.len() == 6);
    assert("writeOps"@.len() == 8);
    assert("undo"@.len() == 4);
    assert("notifications"@.len() == 13);
}

/// A session that was opened is sent with its id, the versions, the epoch and what the
/// engine can do.
pub proof fn law_sessions_are_sent(x: InitializeResult)
    ensures
        x.json().member("session_id"@) == Some(JsonView::Text(x.session_id@)),
        x.json().member("protocol_version"@) == Some(JsonView::Int(x.protocol_version as int)),
        x.json().member("engine_version"@) == Some(JsonView::Text(x.engine_version@)),
        x.json().member("epoch"@) == Some(JsonView::Int(x.epoch as int)),
        x.json().member("capabilities"@) == Some(x.capabilities.json()),
{
    reveal_strlit("session_id");
    reveal_strlit("protocol_version");
    reveal_strlit("engine_version");
    reveal_strlit("epoch");
    reveal_strlit("capabilities");
    assert("session_id"@.len() == 10);
    assert("protocol_version"@.len() == 16);
    assert("engine_version"@.len() == 14);
    assert("epoch"@.len() == 5);
    assert("capabilities"@.len() == 12);
}

/// `HEAD` is sent with its commit and its branch.
pub proof fn law_heads_are_sent(x: GetHeadResult)
    ensures
        x.json().member("head"@) == Some(JsonView::Text(x.head@)),
        x.json().member("branch"@) == Some(opt_json_text(opt_text(x.branch))),
{
    reveal_strlit("head");
    reveal_strlit("branch");
    assert("head"@.len() == 4 && "branch"@.len() == 6);
}

/// The end of an undo is sent with the number of references it has changed and the
/// epoch after it.
pub proof fn law_undos_are_sent(x: UndoResponse)
    ensures
        x.json().member("restored_refs"@) == Some(JsonView::Int(x.restored_refs as int)),
        x.json().member("epoch"@) == Some(JsonView::Int(x.epoch as int)),
        x.json().member("noop"@) is None,
{
    reveal_strlit("restored_refs");
    reveal_strlit("epoch");
    reveal_strlit("noop");
    assert("restored_refs"@.len() == 13 && "epoch"@.len() == 5 && "noop"@.len() == 4);
}

/// A transaction is sent with its id, its time, its description and its epoch.
pub proof fn law_transactions_are_sent(x: UndoEntry)
    ensures
        x.json().member("id"@) == Some(JsonView::Int(x.id as int)),
        x.json().member("timestamp"@) == Some(JsonView::Int(x.timestamp as int)),
        x.json().member("description"@) == Some(JsonView::Text(x.description@)),
        x.json().member("epoch_at_creation"@) == Some(JsonView::Int(x.epoch_at_creation as int)),
{
    reveal_strlit("id");
    reveal_strlit("timestamp");
    reveal_strlit("description");
    reveal_strlit("epoch_at_creation");
    assert("id"@.len() == 2);
    assert("timestamp"@.len() == 9);
    assert("description"@.len() == 11);
    assert("epoch_at_creation"@.len() == 17);
}

/// Changed references are sent with their names and the epoch.
pub proof fn law_changed_refs_are_sent(x: RefsChanged)
    ensures
        x.json().member("changed_refs"@) == Some(json_texts(texts(x.changed_refs@))),
        x.json().member("epoch"@) == Some(JsonView::Int(x.epoch as int)),
{
    reveal_strlit("changed_refs");
    reveal_strlit("epoch");
    assert("changed_refs"@.len() == 12 && "epoch"@.len() == 5);
}

/// A new `HEAD` is sent with what it holds and the epoch.
pub proof fn law_new_heads_are_sent(x: HeadChanged)
    ensures
        x.json().member("new_head"@) == Some(JsonView::Text(x.new_head@)),
        x.json().member("epoch"@) == Some(JsonView::Int(x.epoch as int)),
{
    reveal_strlit("new_head");
    reveal_strlit("epoch");
    assert("new_head"@.len() == 8 && "epoch"@.len() == 5);
}

/// The other notifications and results are sent with their one field each.
pub proof fn law_single_fields_are_sent(
    paths: WorktreeChanged,
    index: IndexChanged,
    graph: GraphInvalidated,
    output: OutputResult,
    commit: CommitResult,
)
    ensures
        paths.json().member("paths"@) == Some(json_texts(texts(paths.paths@))),
        index.json().member("epoch"@) == Some(JsonView::Int(index.epoch as int)),
        graph.json().member("epoch"@) == Some(JsonView::Int(graph.epoch as int)),
        output.json().member("output"@) == Some(JsonView::Text(output.output@)),
        commit.json().member("commit_id"@) == Some(JsonView::Text(commit.commit_id@)),
{
}

/// An error is sent with its code and its message.
pub proof fn law_errors_are_sent(x: WorkbenchError)
    ensures
        x.json().member("code"@) == Some(JsonView::Int(x.code as int)),
        x.json().member("message"@) == Some(JsonView::Text(x.message@)),
{
    reveal_strlit("code");
    reveal_strlit("message");
    assert("code"@.len() == 4 && "message"@.len() == 7);
}

/// Lists are sent as arrays of what their items are sent as, in order, and a text
/// that may be missing as the text or as `null`.
pub proof fn law_lists_are_sent(
    list: Seq<Seq<char>>,
    commits: Seq<Commit>,
    refs: Seq<Ref>,
    items: Seq<StatusItem>,
    entries: Seq<UndoEntry>,
    i: int,
)
    ensures
        json_texts(list) matches JsonView::Array(a) && a.len() == list.len() && (0 <= i < list.len()
            ==> a[i] == JsonView::Text(list[i])),
        commits_json(commits) matches JsonView::Array(a) && a.len() == commits.len() && (0 <= i
            < commits.len() ==> a[i] == commits[i].json()),
        refs_json(refs) matches JsonView::Array(a) && a.len() == refs.len() && (0 <= i < refs.len()
            ==> a[i] == refs[i].json()),
        status_json(items) matches JsonView::Array(a) && a.len() == items.len() && (0 <= i
            < items.len() ==> a[i] == items[i].json()),
        entries_json(entries) matches JsonView::Array(a) && a.len() == entries.len() && (0 <= i
            < entries.len() ==> a[i] == entries[i].json()),
        0 <= i < list.len() ==> opt_json_text(Some(list[i])) == JsonView::Text(list[i]),
        opt_json_text(None) == JsonView::Null,
{
}

/// The codes of errors differ, and an epoch that has passed is told of with the one
/// that is current and the one that was looked at.
pub proof fn law_error_codes(expected: u64, actual: u64)
    ensures
        WorkbenchError::REPO_NOT_FOUND == -32001,
        WorkbenchError::GIT_ERROR == -32002,
        WorkbenchError::CONCURRENT_OPERATION == -32003,
        WorkbenchError::EPOCH_MISMATCH == -32004,
        WorkbenchError::INVALID_ARGUMENT == -32005,
        WorkbenchError::NOT_INITIALIZED == -32006,
        WorkbenchError::UNDO_BLOCKED == -32007,
        WorkbenchError::epoch_mismatch_text(expected, actual) == "epoch mismatch: expected "@
            + decimal_of(expected as nat) + ", got "@ + decimal_of(actual as nat),
{
}

/// The text of the result of an undo has its two members in order.
pub proof fn law_undo_response_text(x: UndoResponse, r: String)
    requires
        call_ensures(UndoResponse::to_json_text, (&x,), r),
    ensures
        r@ == "{"@ + ("\"restored_refs\""@ + ":"@ + decimal_of(x.restored_refs as nat) + ","@ + (
        "\"epoch\""@ + ":"@ + decimal_of(x.epoch as nat))) + "}"@,
{
    let t = member_texts(x.members(), ":"@);
    assert(t.drop_last() =~= seq![t[0]]);
    reveal_with_fuel(join_of, 3);
    assert(join_of(t, ","@) == t[0] + ","@ + t[1]);
}

} // verus!
