//! The server: which request asks for what, and how it is answered.
//!
//! Requests and responses are JSON-RPC. Parameters are read into the types of
//! `protocol` before they come here; `dispatch_with_session` says what a request
//! asks for, and `reply_to` how its outcome is reported.
use crate::framing::{
    body_message, frame_of, law_read_is_bounded, law_written_frame_reads_back, read_stream, FrameError,
    IncomingMessage, MessageView, ReadView, MAX_CONTENT_LENGTH,
};
use crate::graph::ReadError;
use crate::json;
use crate::json::{json_text, json_view, opt_json, JsonView};
use crate::protocol;
use crate::protocol::{
    entries_json, json_texts, law_changed_refs_are_sent, law_new_heads_are_sent,
    law_undos_are_sent, refs_json, status_json, Capabilities, CommitMsg, CreateBranch, DeleteBranch,
    Fetch, GetBlob, GetGraph, GetHeadResult, GetStatus, GraphInvalidated, GraphPage, GraphViewport,
    HeadChanged, IndexChanged, InitializeResult, ListUndoStack, OutputResult, Pull, Push, Ref,
    RefsChanged, Stage, StatusItem, SwitchBranch, Undo, UndoEntry, UndoResponse, Unstage,
    WorkbenchError, WorktreeChanged,
};
use crate::session::EngineEvent;
use crate::text;
use crate::text::{decimal_of, is_hex_digit, opt_text, quoted_of, texts};
use crate::undo::{UndoErrorKind, UndoSummary};
use crate::write_queue::WriteCommand;
use serde_json::Value;
use vstd::prelude::*;
use vstd::string::*;
use vstd::utf8::encode_utf8;

verus! {

broadcast use vstd::string::group_string_axioms;

/// The version of the protocol.
pub const PROTOCOL_VERSION: u32 = 1;

/// The most rows of a page of the graph.
pub const MAX_GRAPH_LIMIT: u32 = 1000;

/// The most transactions of a list.
pub const MAX_UNDO_LIMIT: u32 = 500;

/// The code of an answer to bytes that are no message.
pub const PARSE_ERROR: i64 = -32700;

// ---------------------------------------------------------------------------
// Methods
// ---------------------------------------------------------------------------
/// What a method asks for.
#[derive(Debug, Clone, Copy, PartialEq, Eq)]
pub enum Method {
    Initialize,
    Shutdown,
    GetRefs,
    GetBlob,
    GetHead,
    GetGraph,
    GetStatus,
    Stage,
    Unstage,
    Commit,
    CreateBranch,
    DeleteBranch,
    SwitchBranch,
    Fetch,
    Pull,
    Push,
    ListUndoStack,
    Undo,
    /// None that is known.
    Unknown,
}

/// What the method `name` asks for.
pub open spec fn method_of(name: Seq<char>) -> Method {
    if name == "initialize"@ {
        Method::Initialize
    } else if name == "shutdown"@ {
        Method::Shutdown
    } else if name == "getRefs"@ {
        Method::GetRefs
    } else if name == "getBlob"@ {
        Method::GetBlob
    } else if name == "getHead"@ {
        Method::GetHead
    } else if name == "getGraph"@ {
        Method::GetGraph
    } else if name == "getStatus"@ {
        Method::GetStatus
    } else if name == "stage"@ {
        Method::Stage
    } else if name == "unstage"@ {
        Method::Unstage
    } else if name == "commit"@ {
        Method::Commit
    } else if name == "createBranch"@ {
        Method::CreateBranch
    } else if name == "deleteBranch"@ {
        Method::DeleteBranch
    } else if name == "switchBranch"@ {
        Method::SwitchBranch
    } else if name == "fetch"@ {
        Method::Fetch
    } else if name == "pull"@ {
        Method::Pull
    } else if name == "push"@ {
        Method::Push
    } else if name == "listUndoStack"@ {
        Method::ListUndoStack
    } else if name == "undo"@ {
        Method::Undo
    } else {
        Method::Unknown
    }
}

/// What the method `name` asks for.
pub fn dispatch(name: &str) -> (r: Method)
    ensures
        r == method_of(name@),
{
    if text::same(name, "initialize") {
        Method::Initialize
    } else if text::same(name, "shutdown") {
        Method::Shutdown
    } else if text::same(name, "getRefs") {
        Method::GetRefs
    } else if text::same(name, "getBlob") {
        Method::GetBlob
    } else if text::same(name, "getHead") {
        Method::GetHead
    } else if text::same(name, "getGraph") {
        Method::GetGraph
    } else if text::same(name, "getStatus") {
        Method::GetStatus
    } else if text::same(name, "stage") {
        Method::Stage
    } else if text::same(name, "unstage") {
        Method::Unstage
    } else if text::same(name, "commit") {
        Method::Commit
    } else if text::same(name, "createBranch") {
        Method::CreateBranch
    } else if text::same(name, "deleteBranch") {
        Method::DeleteBranch
    } else if text::same(name, "switchBranch") {
        Method::SwitchBranch
    } else if text::same(name, "fetch") {
        Method::Fetch
    } else if text::same(name, "pull") {
        Method::Pull
    } else if text::same(name, "push") {
        Method::Push
    } else if text::same(name, "listUndoStack") {
        Method::ListUndoStack
    } else if text::same(name, "undo") {
        Method::Undo
    } else {
        Method::Unknown
    }
}

// ---------------------------------------------------------------------------
// Errors
// ---------------------------------------------------------------------------
/// What an error answers: a code and a message.
pub open spec fn error_view(e: WorkbenchError) -> (i32, Seq<char>) {
    (e.code, e.message@)
}

/// The answer to a method that is not known.
pub fn unknown_method(method: &str) -> (r: WorkbenchError)
    ensures
        error_view(r) == (WorkbenchError::INVALID_ARGUMENT, "unknown method: "@ + method@),
{
    WorkbenchError::invalid_argument("unknown method: ".to_owned().concat(method))
}

/// The answer to a request for the method `name` that reached a session, where
/// it asks for nothing that can be done with one.
pub open spec fn refusal_of(method: Method, name: Seq<char>) -> Option<(i32, Seq<char>)> {
    if method is Initialize || method is Shutdown || method is Unknown {
        Some((WorkbenchError::INVALID_ARGUMENT, "unknown method: "@ + name))
    } else {
        None
    }
}

/// The answer to a request for the method `name` that reached a session, where
/// it asks for nothing that can be done with one. Nothing is done for it then.
pub fn refusal(method: Method, name: &str) -> (r: Option<WorkbenchError>)
    ensures
        match r {
            Some(e) => refusal_of(method, name@) == Some(error_view(e)),
            None => refusal_of(method, name@) is None,
        },
{
    match method {
        Method::Initialize | Method::Shutdown | Method::Unknown => Some(unknown_method(name)),
        _ => None,
    }
}

/// The answer to parameters that are not those of the method.
pub fn parse_params(method: &str, reason: &str) -> (r: WorkbenchError)
    ensures
        error_view(r) == (WorkbenchError::INVALID_ARGUMENT, method@ + ": "@ + reason@),
{
    let mut out = method.to_owned();
    out.append(": ");
    out.append(reason);
    WorkbenchError::invalid_argument(out)
}

/// The answer to a request that needs a session where there is none.
pub fn no_session() -> (r: WorkbenchError)
    ensures
        error_view(r) == (WorkbenchError::NOT_INITIALIZED, "no session; call initialize first"@),
{
    WorkbenchError::not_initialized("no session; call initialize first".to_owned())
}

// ---------------------------------------------------------------------------
// Sessions
// ---------------------------------------------------------------------------
/// What the server knows of its session: there is at most one.
#[derive(Debug, Clone, Copy, PartialEq, Eq)]
pub struct WorkbenchServer {
    /// Whether there is a session.
    pub session: bool,
    /// Whether any `initialize` has got as far as opening a session, be it with
    /// success or without, or the server has come to its end.
    pub session_ready: bool,
}

/// What becomes of a request that needs a session.
#[derive(Debug, Clone, Copy, PartialEq, Eq)]
pub enum Admission {
    /// It is served.
    Serve,
    /// It waits: an `initialize` may be on its way.
    Wait,
    /// It is refused.
    Refuse,
}

impl WorkbenchServer {
    /// A server that has just started.
    pub fn new() -> (r: WorkbenchServer)
        ensures
            r == (WorkbenchServer { session: false, session_ready: false }),
    {
        WorkbenchServer { session: false, session_ready: false }
    }

    /// An `initialize` begins: the session before it is dropped first, as it
    /// holds a lock that the new one needs.
    pub fn begin_initialize(&mut self)
        ensures
            *final(self) == (WorkbenchServer { session: false, ..*old(self) }),
    {
        self.session = false;
    }

    /// An `initialize` that tried to open a session has ended: with one, or
    /// without. Either way those who wait are let go.
    pub fn end_initialize(&mut self, opened: bool)
        ensures
            *final(self) == old(self).ended(opened),
    {
        if opened {
            self.session = true;
        }
        self.session_ready = true;
    }

    /// The server stops: those who wait are let go.
    pub fn stop(&mut self)
        ensures
            *final(self) == (WorkbenchServer { session_ready: true, ..*old(self) }),
    {
        self.session_ready = true;
    }

    /// What becomes of a request that needs a session.
    pub open spec fn admission(self) -> Admission {
        if self.session {
            Admission::Serve
        } else if self.session_ready {
            Admission::Refuse
        } else {
            Admission::Wait
        }
    }

    /// The server once an `initialize` that tried to open a session has ended.
    pub open spec fn ended(self, opened: bool) -> WorkbenchServer {
        WorkbenchServer { session: opened || self.session, session_ready: true }
    }

    /// What becomes of a request that needs a session.
    pub fn get_any_session(&self) -> (r: Admission)
        ensures
            r == self.admission(),
    {
        if self.session {
            Admission::Serve
        } else if self.session_ready {
            Admission::Refuse
        } else {
            Admission::Wait
        }
    }
}

/// Why `initialize` has failed.
#[derive(Debug, Clone)]
pub enum InitializeFault {
    /// The path cannot be resolved.
    Unresolved { repo_path: String, reason: String },
    /// There is no repository at the path.
    NoRepository { path: String },
    /// The repository cannot be opened.
    NotOpened { reason: String },
}

/// The answer to an `initialize` that has failed.
pub fn initialize_error(fault: &InitializeFault) -> (r: WorkbenchError)
    ensures
        error_view(r) == match fault {
            InitializeFault::Unresolved { repo_path, reason } => (
                WorkbenchError::INVALID_ARGUMENT,
                "initialize: cannot resolve repo_path "@ + quoted_of(repo_path@) + ": "@ + reason@,
            ),
            InitializeFault::NoRepository { path } => (WorkbenchError::REPO_NOT_FOUND, path@),
            InitializeFault::NotOpened { reason } => (
                WorkbenchError::GIT_ERROR,
                "failed to open session: "@ + reason@,
            ),
        },
{
    match fault {
        InitializeFault::Unresolved { repo_path, reason } => {
            let mut out = "initialize: cannot resolve repo_path ".to_owned();
            out.append(text::quoted(repo_path.as_str()).as_str());
            out.append(": ");
            out.append(reason.as_str());
            WorkbenchError::invalid_argument(out)
        },
        InitializeFault::NoRepository { path } => WorkbenchError::repo_not_found(path.clone()),
        InitializeFault::NotOpened { reason } => WorkbenchError::git_error(
            "failed to open session: ".to_owned().concat(reason.as_str()),
        ),
    }
}

/// Whether a text has the form of a random identifier: five groups of lower case
/// hexadecimal digits, with the version 4 and the variant in their places.
pub open spec fn is_random_id(s: Seq<char>) -> bool {
    &&& s.len() == 36
    &&& forall|i: int|
        0 <= i < 36 ==> if i == 8 || i == 13 || i == 18 || i == 23 {
            #[trigger] s[i] == '-'
        } else {
            is_hex_digit(s[i]) && !('A' <= s[i] <= 'F')
        }
    &&& s[14] == '4'
    &&& s[19] == '8' || s[19] == '9' || s[19] == 'a' || s[19] == 'b'
}

/// Calls `uuid::Uuid::new_v4` and prints the result by its `std::fmt::Display`:
/// a random identifier. Which one it is depends on chance; only its form is
/// stated.
#[verifier::external_body]
fn random_id() -> (r: String)
    ensures
        is_random_id(r@),
{
    uuid::Uuid::new_v4().to_string()
}

/// The answer to an `initialize` that has opened the session `session_id`, which
/// is at the epoch `epoch` now.
pub fn initialize_result(session_id: String, engine_version: String, epoch: u64) -> (r:
    InitializeResult)
    ensures
        r.session_id@ == session_id@,
        r.protocol_version == PROTOCOL_VERSION,
        r.engine_version@ == engine_version@,
        r.epoch == epoch,
        r.capabilities == all_capabilities(),
{
    InitializeResult {
        session_id,
        protocol_version: PROTOCOL_VERSION,
        engine_version,
        epoch,
        capabilities: Capabilities {
            graph: true,
            status: true,
            write_ops: true,
            undo: true,
            notifications: true,
        },
    }
}

/// All that the engine can do.
pub open spec fn all_capabilities() -> Capabilities {
    Capabilities { graph: true, status: true, write_ops: true, undo: true, notifications: true }
}

/// The answer to an `initialize` that has opened a session, which gets a random
/// name and is at the epoch `epoch` now.
pub fn handle_initialize(engine_version: String, epoch: u64) -> (r: InitializeResult)
    ensures
        is_random_id(r.session_id@),
        r.protocol_version == PROTOCOL_VERSION,
        r.engine_version@ == engine_version@,
        r.epoch == epoch,
        r.capabilities == all_capabilities(),
{
    initialize_result(random_id(), engine_version, epoch)
}

// ---------------------------------------------------------------------------
// Requests
// ---------------------------------------------------------------------------
/// A request that needs a session, with its parameters.
#[derive(Debug, Clone)]
pub enum Request {
    GetRefs,
    GetBlob(GetBlob),
    GetHead,
    GetGraph(GetGraph),
    GetStatus(GetStatus),
    Stage(Stage),
    Unstage(Unstage),
    Commit(CommitMsg),
    CreateBranch(CreateBranch),
    DeleteBranch(DeleteBranch),
    SwitchBranch(SwitchBranch),
    Fetch(Fetch),
    Pull(Pull),
    Push(Push),
    ListUndoStack(ListUndoStack),
    Undo(Undo),
}

/// What a request asks for.
#[derive(Debug, Clone)]
pub enum Task {
    ReadRefs,
    ReadBlob { revision: String, path: String },
    ReadHead,
    ReadGraph(GraphViewport),
    ReadStatus { paths: Option<Vec<String>> },
    /// A write; some are answered with what it printed, others with nothing.
    Write { cmd: WriteCommand, shows_output: bool },
    ListTransactions { limit: u32 },
    Undo { transaction_id: u64 },
}

/// The number of transactions that are listed for a requested limit: at least
/// one and at most so many, whatever is asked for.
pub open spec fn undo_limit(limit: i64) -> u32 {
    if limit < 1 || limit > u32::MAX {
        1
    } else if limit > MAX_UNDO_LIMIT {
        MAX_UNDO_LIMIT
    } else {
        limit as u32
    }
}

/// What a request asks for.
pub open spec fn is_task_of(t: Task, r: Request) -> bool {
    match r {
        Request::GetRefs => t is ReadRefs,
        Request::GetBlob(q) => t == (Task::ReadBlob { revision: q.revision, path: q.path }),
        Request::GetHead => t is ReadHead,
        Request::GetGraph(q) => t == Task::ReadGraph(
            GraphViewport {
                limit: if q.viewport.limit > MAX_GRAPH_LIMIT {
                    MAX_GRAPH_LIMIT
                } else {
                    q.viewport.limit
                },
                ..q.viewport
            },
        ),
        Request::GetStatus(q) => t == (Task::ReadStatus { paths: q.paths }),
        Request::Stage(q) => t == (Task::Write {
            cmd: WriteCommand::Stage(q.paths),
            shows_output: false,
        }),
        Request::Unstage(q) => t == (Task::Write {
            cmd: WriteCommand::Unstage(q.paths),
            shows_output: false,
        }),
        Request::Commit(q) => t == (Task::Write {
            cmd: WriteCommand::Commit { message: q.message, amend: q.amend },
            shows_output: false,
        }),
        Request::CreateBranch(q) => t == (Task::Write {
            cmd: WriteCommand::CreateBranch { name: q.name, base: q.base },
            shows_output: false,
        }),
        Request::DeleteBranch(q) => t == (Task::Write {
            cmd: WriteCommand::DeleteBranch { name: q.name, force: q.force },
            shows_output: false,
        }),
        Request::SwitchBranch(q) => t == (Task::Write {
            cmd: WriteCommand::SwitchBranch { name: q.name, auto_stash: q.auto_stash },
            shows_output: true,
        }),
        Request::Fetch(q) => t == (Task::Write {
            cmd: WriteCommand::Fetch { remote: q.remote },
            shows_output: true,
        }),
        Request::Pull(q) => t == (Task::Write {
            cmd: WriteCommand::Pull { remote: q.remote, branch: q.branch },
            shows_output: true,
        }),
        Request::Push(q) => t == (Task::Write {
            cmd: WriteCommand::Push { remote: q.remote, branch: q.branch, force: q.force },
            shows_output: false,
        }),
        Request::ListUndoStack(q) => t == (Task::ListTransactions { limit: undo_limit(q.limit) }),
        Request::Undo(q) => t == (Task::Undo { transaction_id: q.transaction_id }),
    }
}

/// What a request asks for. Limits are cut to what is served, so that a huge or
/// negative one neither wraps nor blows up the answer.
pub fn dispatch_with_session(request: Request) -> (r: Task)
    ensures
        is_task_of(r, request),
{
    match request {
        Request::GetRefs => Task::ReadRefs,
        Request::GetBlob(q) => Task::ReadBlob { revision: q.revision, path: q.path },
        Request::GetHead => Task::ReadHead,
        Request::GetGraph(q) => {
            let mut viewport = q.viewport;
            if viewport.limit > MAX_GRAPH_LIMIT {
                viewport.limit = MAX_GRAPH_LIMIT;
            }
            Task::ReadGraph(viewport)
        },
        Request::GetStatus(q) => Task::ReadStatus { paths: q.paths },
        Request::Stage(q) => Task::Write {
            cmd: WriteCommand::Stage(q.paths),
            shows_output: false,
        },
        Request::Unstage(q) => Task::Write {
            cmd: WriteCommand::Unstage(q.paths),
            shows_output: false,
        },
        Request::Commit(q) => Task::Write {
            cmd: WriteCommand::Commit { message: q.message, amend: q.amend },
            shows_output: false,
        },
        Request::CreateBranch(q) => Task::Write {
            cmd: WriteCommand::CreateBranch { name: q.name, base: q.base },
            shows_output: false,
        },
        Request::DeleteBranch(q) => Task::Write {
            cmd: WriteCommand::DeleteBranch { name: q.name, force: q.force },
            shows_output: false,
        },
        Request::SwitchBranch(q) => Task::Write {
            cmd: WriteCommand::SwitchBranch { name: q.name, auto_stash: q.auto_stash },
            shows_output: true,
        },
        Request::Fetch(q) => Task::Write {
            cmd: WriteCommand::Fetch { remote: q.remote },
            shows_output: true,
        },
        Request::Pull(q) => Task::Write {
            cmd: WriteCommand::Pull { remote: q.remote, branch: q.branch },
            shows_output: true,
        },
        Request::Push(q) => Task::Write {
            cmd: WriteCommand::Push { remote: q.remote, branch: q.branch, force: q.force },
            shows_output: false,
        },
        Request::ListUndoStack(q) => {
            let limit: u32 = if q.limit < 1 || q.limit > u32::MAX as i64 {
                1
            } else if q.limit > MAX_UNDO_LIMIT as i64 {
                MAX_UNDO_LIMIT
            } else {
                q.limit as u32
            };
            Task::ListTransactions { limit }
        },
        Request::Undo(q) => Task::Undo { transaction_id: q.transaction_id },
    }
}

// ---------------------------------------------------------------------------
// Replies
// ---------------------------------------------------------------------------
/// What a task has given.
#[derive(Debug)]
pub enum Outcome {
    Refs(Result<Vec<Ref>, String>),
    Blob(Result<String, String>),
    Head(Result<GetHeadResult, String>),
    Graph(Result<GraphPage, ReadError>),
    Status(Result<Vec<StatusItem>, ReadError>),
    Written { result: Result<String, String>, shows_output: bool },
    Transactions(Result<Vec<UndoEntry>, String>),
    /// How an undo ended, or why that cannot be told, and the epoch after it.
    Undone {
        transaction_id: u64,
        result: Result<Result<UndoSummary, UndoErrorKind>, String>,
        epoch: u64,
    },
}

/// A failure of the repository, as an answer.
pub open spec fn git_failure(reason: Seq<char>) -> Result<JsonView, (i32, Seq<char>)> {
    Err((WorkbenchError::GIT_ERROR, reason))
}

/// The message of a read that has failed.
pub open spec fn read_error_text(e: ReadError) -> Seq<char> {
    match e {
        ReadError::Coded(e) => e.display_text(),
        ReadError::Plain(m) => m@,
    }
}

/// The answer to an undo.
pub open spec fn undo_reply(
    transaction_id: u64,
    result: Result<UndoSummary, UndoErrorKind>,
    epoch: u64,
) -> Result<JsonView, (i32, Seq<char>)> {
    match result {
        Ok(s) => Ok(
            (UndoResponse { restored_refs: s.restored_refs, noop: s.noop, epoch }).json(),
        ),
        Err(UndoErrorKind::NotFound) => Err(
            (
                WorkbenchError::INVALID_ARGUMENT,
                "undo: transaction "@ + decimal_of(transaction_id as nat) + " not found"@,
            ),
        ),
        Err(UndoErrorKind::Blocked { reason }) => Err((WorkbenchError::UNDO_BLOCKED, reason@)),
        Err(UndoErrorKind::Failure { msg }) => git_failure(msg@),
    }
}

/// The answer to a task's outcome.
pub open spec fn reply_of(outcome: Outcome) -> Result<JsonView, (i32, Seq<char>)> {
    match outcome {
        Outcome::Refs(Ok(refs)) => Ok(refs_json(refs@)),
        Outcome::Refs(Err(e)) => git_failure(e@),
        Outcome::Blob(Ok(content)) => Ok(JsonView::Text(content@)),
        Outcome::Blob(Err(e)) => git_failure(e@),
        Outcome::Head(Ok(head)) => Ok(head.json()),
        Outcome::Head(Err(e)) => git_failure(e@),
        Outcome::Graph(Ok(page)) => Ok(page.json()),
        Outcome::Graph(Err(ReadError::Coded(e))) => Err(error_view(e)),
        Outcome::Graph(Err(ReadError::Plain(m))) => git_failure(m@),
        Outcome::Status(Ok(items)) => Ok(status_json(items@)),
        Outcome::Status(Err(e)) => git_failure(read_error_text(e)),
        Outcome::Written { result: Ok(output), shows_output } => if shows_output {
            Ok((OutputResult { output }).json())
        } else {
            Ok(JsonView::Null)
        },
        Outcome::Written { result: Err(e), .. } => git_failure(e@),
        Outcome::Transactions(Ok(entries)) => Ok(entries_json(entries@)),
        Outcome::Transactions(Err(e)) => git_failure(e@),
        Outcome::Undone { transaction_id, result: Ok(r), epoch } => undo_reply(
            transaction_id,
            r,
            epoch,
        ),
        Outcome::Undone { result: Err(e), .. } => git_failure(e@),
    }
}

/// What an answer holds.
pub open spec fn answer_view(r: Result<Value, WorkbenchError>) -> Result<
    JsonView,
    (i32, Seq<char>),
> {
    match r {
        Ok(v) => Ok(json_view(v)),
        Err(e) => Err(error_view(e)),
    }
}

/// The answer to an undo.
fn reply_to_undo(
    transaction_id: u64,
    result: Result<UndoSummary, UndoErrorKind>,
    epoch: u64,
) -> (r: Result<Value, WorkbenchError>)
    ensures
        answer_view(r) == undo_reply(transaction_id, result, epoch),
{
    match result {
        Ok(s) => {
            let response = UndoResponse { restored_refs: s.restored_refs, noop: s.noop, epoch };
            Ok(response.to_json())
        },
        Err(UndoErrorKind::NotFound) => {
            let mut out = "undo: transaction ".to_owned();
            out.append(text::decimal(transaction_id).as_str());
            out.append(" not found");
            Err(WorkbenchError::invalid_argument(out))
        },
        Err(UndoErrorKind::Blocked { reason }) => Err(WorkbenchError::undo_blocked(reason)),
        Err(UndoErrorKind::Failure { msg }) => Err(WorkbenchError::git_error(msg)),
    }
}

/// The answer to a task's outcome. A page of the graph keeps the code of its
/// error, so that a client can tell that it looked at an epoch that has passed.
pub fn reply_to(outcome: Outcome) -> (r: Result<Value, WorkbenchError>)
    ensures
        answer_view(r) == reply_of(outcome),
{
    match outcome {
        Outcome::Refs(Ok(refs)) => Ok(protocol::refs_to_json(&refs)),
        Outcome::Refs(Err(e)) => Err(WorkbenchError::git_error(e)),
        Outcome::Blob(Ok(content)) => Ok(json::text(content)),
        Outcome::Blob(Err(e)) => Err(WorkbenchError::git_error(e)),
        Outcome::Head(Ok(head)) => Ok(head.to_json()),
        Outcome::Head(Err(e)) => Err(WorkbenchError::git_error(e)),
        Outcome::Graph(Ok(page)) => Ok(page.to_json()),
        Outcome::Graph(Err(ReadError::Coded(e))) => Err(e),
        Outcome::Graph(Err(ReadError::Plain(m))) => Err(WorkbenchError::git_error(m)),
        Outcome::Status(Ok(items)) => Ok(protocol::status_to_json(&items)),
        Outcome::Status(Err(ReadError::Coded(e))) => Err(WorkbenchError::git_error(e.to_text())),
        Outcome::Status(Err(ReadError::Plain(m))) => Err(WorkbenchError::git_error(m)),
        Outcome::Written { result: Ok(output), shows_output } => if shows_output {
            let result = OutputResult { output };
            Ok(result.to_json())
        } else {
            Ok(json::null())
        },
        Outcome::Written { result: Err(e), shows_output: _ } => Err(WorkbenchError::git_error(e)),
        Outcome::Transactions(Ok(entries)) => Ok(protocol::entries_to_json(&entries)),
        Outcome::Transactions(Err(e)) => Err(WorkbenchError::git_error(e)),
        Outcome::Undone { transaction_id, result: Ok(r), epoch } => reply_to_undo(
            transaction_id,
            r,
            epoch,
        ),
        Outcome::Undone { transaction_id: _, result: Err(e), epoch: _ } => Err(
            WorkbenchError::git_error(e),
        ),
    }
}

// ---------------------------------------------------------------------------
// Responses
// ---------------------------------------------------------------------------
/// The JSON of an error.
pub open spec fn error_json(e: (i32, Seq<char>)) -> JsonView {
    JsonView::Object(
        map![
            "code"@ => JsonView::Int(e.0 as int),
            "message"@ => JsonView::Text(e.1),
        ],
    )
}

/// The response to the request `id`.
pub open spec fn response_of(id: JsonView, answer: Result<JsonView, (i32, Seq<char>)>) -> JsonView {
    match answer {
        Ok(v) => JsonView::Object(
            map![
                "jsonrpc"@ => JsonView::Text("2.0"@),
                "id"@ => id,
                "result"@ => v,
            ],
        ),
        Err(e) => JsonView::Object(
            map![
                "jsonrpc"@ => JsonView::Text("2.0"@),
                "id"@ => id,
                "error"@ => error_json(e),
            ],
        ),
    }
}

/// The text of the response to a message, given what it is answered: a request
/// gets one, and a notification, which has no id, gets none.
pub fn handle_message(id: Option<Value>, answer: Result<Value, WorkbenchError>) -> (r: Option<
    String,
>)
    ensures
        opt_text(r) == match opt_json(id) {
            Some(id) => Some(json_text(response_of(id, answer_view(answer)))),
            None => None,
        },
{
    match id {
        None => None,
        Some(id) => {
            let ghost id_view = json_view(id);
            let mut v = json::object();
            json::put(&mut v, "jsonrpc", json::text("2.0".to_owned()));
            json::put(&mut v, "id", id);
            match answer {
                Ok(result) => {
                    let ghost held = json_view(result);
                    json::put(&mut v, "result", result);
                    assert(json_view(v)->Object_0 =~= response_of(
                        id_view,
                        Ok(held),
                    )->Object_0);
                },
                Err(e) => {
                    assert(e.json()->Object_0 =~= error_json(error_view(e))->Object_0);
                    json::put(&mut v, "error", e.to_json());
                    assert(json_view(v)->Object_0 =~= response_of(
                        id_view,
                        Err(error_view(e)),
                    )->Object_0);
                },
            }
            Some(json::print(&v))
        },
    }
}

/// The response to bytes that are no message.
pub open spec fn violation_response(reason: Seq<char>) -> JsonView {
    JsonView::Object(
        map![
            "jsonrpc"@ => JsonView::Text("2.0"@),
            "id"@ => JsonView::Null,
            "error"@ => JsonView::Object(
                map![
                    "code"@ => JsonView::Int(PARSE_ERROR as int),
                    "message"@ => JsonView::Text(
                        "parse error: "@ + reason + "; connection closed"@,
                    ),
                ],
            ),
        ],
    )
}

/// The text of the response to bytes that are no message. The connection is
/// closed after it: where the next message begins is not known any more.
pub fn framing_violation(e: &FrameError) -> (r: String)
    ensures
        r@ == json_text(violation_response(e@.text())),
{
    let mut message = "parse error: ".to_owned();
    message.append(e.message().as_str());
    message.append("; connection closed");
    let mut error = json::object();
    json::put(&mut error, "code", json::signed(PARSE_ERROR));
    json::put(&mut error, "message", json::text(message));
    let mut v = json::object();
    json::put(&mut v, "jsonrpc", json::text("2.0".to_owned()));
    json::put(&mut v, "id", json::null());
    let ghost inner = json_view(error);
    json::put(&mut v, "error", error);
    let ghost expected = violation_response(e@.text());
    assert(inner->Object_0 =~= expected->Object_0["error"@]->Object_0);
    assert(json_view(v)->Object_0 =~= expected->Object_0);
    json::print(&v)
}

// ---------------------------------------------------------------------------
// Notifications
// ---------------------------------------------------------------------------
/// The method and the parameters of the notification of an event.
pub open spec fn notification_parts(event: EngineEvent) -> (Seq<char>, JsonView) {
    match event {
        EngineEvent::RefsChanged { changed_refs, epoch } => (
            "refsChanged"@,
            (RefsChanged { changed_refs, epoch }).json(),
        ),
        EngineEvent::WorktreeChanged { paths } => (
            "worktreeChanged"@,
            (WorktreeChanged { paths }).json(),
        ),
        EngineEvent::IndexChanged { epoch } => ("indexChanged"@, (IndexChanged { epoch }).json()),
        EngineEvent::HeadChanged { new_head, epoch } => (
            "headChanged"@,
            (HeadChanged { new_head, epoch }).json(),
        ),
        EngineEvent::GraphInvalidated { epoch } => (
            "graphInvalidated"@,
            (GraphInvalidated { epoch }).json(),
        ),
    }
}

/// The notification of an event.
pub open spec fn notification_of(event: EngineEvent) -> JsonView {
    JsonView::Object(
        map![
            "jsonrpc"@ => JsonView::Text("2.0"@),
            "method"@ => JsonView::Text(notification_parts(event).0),
            "params"@ => notification_parts(event).1,
        ],
    )
}

/// The text of the notification of an event.
pub fn engine_event_to_notification(event: EngineEvent) -> (r: String)
    ensures
        r@ == json_text(notification_of(event)),
{
    let ghost parts = notification_parts(event);
    let (method, params) = match event {
        EngineEvent::RefsChanged { changed_refs, epoch } => {
            let n = RefsChanged { changed_refs, epoch };
            ("refsChanged", n.to_json())
        },
        EngineEvent::WorktreeChanged { paths } => {
            let n = WorktreeChanged { paths };
            ("worktreeChanged", n.to_json())
        },
        EngineEvent::IndexChanged { epoch } => {
            let n = IndexChanged { epoch };
            ("indexChanged", n.to_json())
        },
        EngineEvent::HeadChanged { new_head, epoch } => {
            let n = HeadChanged { new_head, epoch };
            ("headChanged", n.to_json())
        },
        EngineEvent::GraphInvalidated { epoch } => {
            let n = GraphInvalidated { epoch };
            ("graphInvalidated", n.to_json())
        },
    };
    assert(method@ == parts.0 && json_view(params) == parts.1);
    let mut v = json::object();
    json::put(&mut v, "jsonrpc", json::text("2.0".to_owned()));
    json::put(&mut v, "method", json::text(method.to_owned()));
    json::put(&mut v, "params", params);
    json::print(&v)
}

// ---------------------------------------------------------------------------
// The loop
// ---------------------------------------------------------------------------
/// What the loop of the server waits for.
#[derive(Debug, Clone, Copy, PartialEq, Eq)]
pub enum LoopInput {
    /// A message has come.
    Message,
    /// No message will come any more.
    ReaderDone,
    /// The engine has something to announce.
    Event,
    /// The engine will announce nothing any more.
    EventsClosed,
    /// The server is asked to stop.
    Shutdown,
}

/// What the loop of the server does.
#[derive(Debug, Clone, Copy, PartialEq, Eq)]
pub enum LoopAction {
    /// It has the message handled on its own, and goes on.
    Handle,
    /// It sends the notification, and goes on.
    Announce,
    /// It sends the notifications that are there already, and stops.
    DrainAndStop,
    /// It stops.
    Stop,
}

impl WorkbenchServer {
    /// What the loop of the server does on an input.
    pub fn run(&self, input: LoopInput) -> (r: LoopAction)
        ensures
            r == match input {
                LoopInput::Message => LoopAction::Handle,
                LoopInput::Event => LoopAction::Announce,
                LoopInput::ReaderDone => LoopAction::DrainAndStop,
                LoopInput::EventsClosed => LoopAction::Stop,
                LoopInput::Shutdown => LoopAction::Stop,
            },
    {
        match input {
            LoopInput::Message => LoopAction::Handle,
            LoopInput::Event => LoopAction::Announce,
            LoopInput::ReaderDone => LoopAction::DrainAndStop,
            LoopInput::EventsClosed => LoopAction::Stop,
            LoopInput::Shutdown => LoopAction::Stop,
        }
    }
}

// ---------------------------------------------------------------------------
// The reader
// ---------------------------------------------------------------------------
/// What the reader of the server does on what it has read.
#[derive(Debug, Clone, Copy, PartialEq, Eq)]
pub enum ReaderStep {
    /// It hands the message on, and reads the next one.
    Forward,
    /// It stops: the stream has ended.
    Stop,
    /// It sends the response to bytes that are no message, and stops: the
    /// stream cannot be trusted any more.
    ReportAndStop,
}

/// What the reader of the server does on what it has read.
pub fn reader_step(read: &Result<Option<IncomingMessage>, FrameError>) -> (r: ReaderStep)
    ensures
        r == match read {
            Ok(Some(_)) => ReaderStep::Forward,
            Ok(None) => ReaderStep::Stop,
            Err(_) => ReaderStep::ReportAndStop,
        },
{
    match read {
        Ok(Some(_)) => ReaderStep::Forward,
        Ok(None) => ReaderStep::Stop,
        Err(_) => ReaderStep::ReportAndStop,
    }
}

/// What the reader of the server does on what a stream begins with.
pub open spec fn step_on(read: ReadView) -> ReaderStep {
    match read {
        ReadView::Message { .. } => ReaderStep::Forward,
        ReadView::Eof => ReaderStep::Stop,
        ReadView::Failed(_) => ReaderStep::ReportAndStop,
    }
}

/// What the reader of the server makes of a stream: the messages that it hands
/// on, and the responses that it sends itself.
#[verifier::ext_equal]
pub struct ReaderRun {
    pub messages: Seq<MessageView>,
    pub responses: Seq<JsonView>,
}

/// What the reader of the server makes of a stream, step by step. It reads on
/// behind a message, and nowhere else.
pub open spec fn reader_run(data: Seq<u8>) -> ReaderRun
    decreases data.len(),
{
    let read = read_stream(data);
    match step_on(read) {
        ReaderStep::Forward => {
            let later = if read->rest.len() < data.len() {
                reader_run(read->rest)
            } else {
                ReaderRun { messages: Seq::empty(), responses: Seq::empty() }
            };
            ReaderRun { messages: seq![read->message] + later.messages, ..later }
        },
        ReaderStep::Stop => ReaderRun { messages: Seq::empty(), responses: Seq::empty() },
        ReaderStep::ReportAndStop => ReaderRun {
            messages: Seq::empty(),
            responses: seq![violation_response(read->Failed_0.text())],
        },
    }
}

/// The bytes of frames one after another.
pub open spec fn frames_of(bodies: Seq<Seq<char>>) -> Seq<u8>
    decreases bodies.len(),
{
    if bodies.len() == 0 {
        Seq::empty()
    } else {
        frame_of(bodies[0]) + frames_of(bodies.skip(1))
    }
}

/// The messages that bodies stand for.
pub open spec fn messages_of(bodies: Seq<Seq<char>>) -> Seq<MessageView> {
    bodies.map_values(|b: Seq<char>| body_message(encode_utf8(b))->Ok_0)
}

// ---------------------------------------------------------------------------
// Laws
// ---------------------------------------------------------------------------
/// The reader hands on the messages before the first violation of the framing,
/// and no others. At the violation it sends one response, with the code of a
/// parse error and no id, and reads no further: what follows never shows.
pub proof fn law_reader_stops_at_violation(data: Seq<u8>)
    ensures
        match read_stream(data) {
            ReadView::Message { message, rest } => {
                &&& reader_run(data).messages == seq![message] + reader_run(rest).messages
                &&& reader_run(data).responses == reader_run(rest).responses
            },
            ReadView::Eof => {
                &&& reader_run(data).messages.len() == 0
                &&& reader_run(data).responses.len() == 0
            },
            ReadView::Failed(e) => {
                &&& reader_run(data).messages.len() == 0
                &&& reader_run(data).responses == seq![violation_response(e.text())]
            },
        },
        reader_run(data).responses.len() <= 1,
    decreases data.len(),
{
    law_read_is_bounded(data);
    if let ReadView::Message { message, rest } = read_stream(data) {
        law_reader_stops_at_violation(rest);
    }
}

/// Frames that stand for messages are all handed on, once each and in order,
/// and the reader then goes on as with what follows them: where that violates
/// the framing, exactly one response tells of it.
pub proof fn law_reader_hands_on_frames(bodies: Seq<Seq<char>>, tail: Seq<u8>)
    requires
        forall|i: int|
            #![trigger bodies[i]]
            0 <= i < bodies.len() ==> encode_utf8(bodies[i]).len() <= MAX_CONTENT_LENGTH
                && body_message(encode_utf8(bodies[i])) is Ok,
    ensures
        reader_run(frames_of(bodies) + tail).messages == messages_of(bodies) + reader_run(
            tail,
        ).messages,
        reader_run(frames_of(bodies) + tail).responses == reader_run(tail).responses,
        read_stream(tail) matches ReadView::Failed(e) ==> {
            &&& reader_run(frames_of(bodies) + tail).messages == messages_of(bodies)
            &&& reader_run(frames_of(bodies) + tail).responses == seq![
                violation_response(e.text()),
            ]
        },
    decreases bodies.len(),
{
    let data = frames_of(bodies) + tail;
    if bodies.len() == 0 {
        assert(data =~= tail);
    } else {
        let later = bodies.skip(1);
        assert forall|i: int| #![trigger later[i]] 0 <= i < later.len() implies encode_utf8(
            later[i],
        ).len() <= MAX_CONTENT_LENGTH && body_message(encode_utf8(later[i])) is Ok by {
            assert(later[i] == bodies[i + 1]);
        }
        law_reader_hands_on_frames(later, tail);
        let rest = frames_of(later) + tail;
        assert(data =~= frame_of(bodies[0]) + rest);
        law_written_frame_reads_back(bodies[0], rest);
        law_reader_stops_at_violation(data);
        assert(messages_of(bodies) =~= seq![body_message(encode_utf8(bodies[0]))->Ok_0]
            + messages_of(later));
    }
    assert(reader_run(data).messages =~= messages_of(bodies) + reader_run(tail).messages);
}

/// A response carries the id of its request, and a result or an error, but never
/// both.
pub proof fn law_response_answers_request(id: JsonView, answer: Result<JsonView, (i32, Seq<char>)>)
    ensures
        response_of(id, answer).member("id"@) == Some(id),
        response_of(id, answer).member("jsonrpc"@) == Some(JsonView::Text("2.0"@)),
        response_of(id, answer).member("result"@) is Some <==> answer is Ok,
        response_of(id, answer).member("error"@) is Some <==> answer is Err,
{
    lemma_member_names();
}

/// The names of the members of a response differ.
proof fn lemma_member_names()
    ensures
        "jsonrpc"@ != "id"@,
        "jsonrpc"@ != "result"@,
        "jsonrpc"@ != "error"@,
        "id"@ != "result"@,
        "id"@ != "error"@,
        "result"@ != "error"@,
{
    reveal_strlit("jsonrpc");
    reveal_strlit("id");
    reveal_strlit("result");
    reveal_strlit("error");
    assert("result"@[0] == 'r');
    assert("error"@[0] == 'e');
    assert("jsonrpc"@.len() == 7 && "id"@.len() == 2 && "result"@.len() == 6 && "error"@.len()
        == 5);
}

/// The methods that are carried out with a session.
pub open spec fn session_methods() -> Seq<Seq<char>> {
    seq![
        "getRefs"@,
        "getBlob"@,
        "getHead"@,
        "getGraph"@,
        "getStatus"@,
        "stage"@,
        "unstage"@,
        "commit"@,
        "createBranch"@,
        "deleteBranch"@,
        "switchBranch"@,
        "fetch"@,
        "pull"@,
        "push"@,
        "listUndoStack"@,
        "undo"@,
    ]
}

/// A session serves its own methods and no other: a request for any other name
/// is answered as one for an unknown method.
pub proof fn law_other_methods_are_refused(name: Seq<char>)
    ensures
        refusal_of(method_of(name), name) == if session_methods().contains(name) {
            None
        } else {
            Some((WorkbenchError::INVALID_ARGUMENT, "unknown method: "@ + name))
        },
{
    let names = session_methods();
    reveal_strlit("initialize");
    reveal_strlit("shutdown");
    reveal_strlit("getRefs");
    reveal_strlit("getBlob");
    reveal_strlit("getHead");
    reveal_strlit("getGraph");
    reveal_strlit("getStatus");
    reveal_strlit("stage");
    reveal_strlit("unstage");
    reveal_strlit("commit");
    reveal_strlit("createBranch");
    reveal_strlit("deleteBranch");
    reveal_strlit("switchBranch");
    reveal_strlit("fetch");
    reveal_strlit("pull");
    reveal_strlit("push");
    reveal_strlit("listUndoStack");
    reveal_strlit("undo");
    assert(names.len() == 16);
    assert("getGraph"@[0] == 'g' && "shutdown"@[0] == 's');
    assert(forall|i: int| 0 <= i < 16 ==> #[trigger] names[i].len() != "initialize"@.len());
    assert(forall|i: int|
        0 <= i < 16 && i != 3 ==> #[trigger] names[i].len() != "shutdown"@.len());
    assert(names[0] == "getRefs"@ && names[1] == "getBlob"@ && names[2] == "getHead"@);
    assert(names[3] == "getGraph"@ && names[4] == "getStatus"@ && names[5] == "stage"@);
    assert(names[6] == "unstage"@ && names[7] == "commit"@ && names[8] == "createBranch"@);
    assert(names[9] == "deleteBranch"@ && names[10] == "switchBranch"@ && names[11] == "fetch"@);
    assert(names[12] == "pull"@ && names[13] == "push"@ && names[14] == "listUndoStack"@);
    assert(names[15] == "undo"@);
}

/// However large or small the requested limits are, a page of the graph has at
/// most a thousand rows, and a list of transactions between one and five
/// hundred.
pub proof fn law_limits_are_clamped(request: Request, task: Task)
    requires
        is_task_of(task, request),
    ensures
        task matches Task::ReadGraph(v) ==> v.limit <= 1000,
        task matches Task::ListTransactions { limit } ==> 1 <= limit <= 500,
{
}

/// Once any `initialize` has tried to open a session, no request waits any more:
/// it is served where a session was opened, and else served or refused at once.
pub proof fn law_ended_initialize_lets_go(server: WorkbenchServer, opened: bool)
    ensures
        server.ended(opened).admission() != Admission::Wait,
        opened ==> server.ended(opened).admission() == Admission::Serve,
{
}

/// Every method has one name, by which it is asked for, and no other name asks for
/// it.
pub proof fn law_methods_have_one_name(name: Seq<char>)
    ensures
        method_of(name) == Method::Initialize <==> name == "initialize"@,
        method_of(name) == Method::Shutdown <==> name == "shutdown"@,
        method_of(name) == Method::GetRefs <==> name == "getRefs"@,
        method_of(name) == Method::GetBlob <==> name == "getBlob"@,
        method_of(name) == Method::GetHead <==> name == "getHead"@,
        method_of(name) == Method::GetGraph <==> name == "getGraph"@,
        method_of(name) == Method::GetStatus <==> name == "getStatus"@,
        method_of(name) == Method::Stage <==> name == "stage"@,
        method_of(name) == Method::Unstage <==> name == "unstage"@,
        method_of(name) == Method::Commit <==> name == "commit"@,
        method_of(name) == Method::CreateBranch <==> name == "createBranch"@,
        method_of(name) == Method::DeleteBranch <==> name == "deleteBranch"@,
        method_of(name) == Method::SwitchBranch <==> name == "switchBranch"@,
        method_of(name) == Method::Fetch <==> name == "fetch"@,
        method_of(name) == Method::Pull <==> name == "pull"@,
        method_of(name) == Method::Push <==> name == "push"@,
        method_of(name) == Method::ListUndoStack <==> name == "listUndoStack"@,
        method_of(name) == Method::Undo <==> name == "undo"@,
{
    reveal_strlit("initialize");
    reveal_strlit("shutdown");
    reveal_strlit("getRefs");
    reveal_strlit("getBlob");
    reveal_strlit("getHead");
    reveal_strlit("getGraph");
    reveal_strlit("getStatus");
    reveal_strlit("stage");
    reveal_strlit("unstage");
    reveal_strlit("commit");
    reveal_strlit("createBranch");
    reveal_strlit("deleteBranch");
    reveal_strlit("switchBranch");
    reveal_strlit("fetch");
    reveal_strlit("pull");
    reveal_strlit("push");
    reveal_strlit("listUndoStack");
    reveal_strlit("undo");
    assert("initialize"@.len() == 10);
    assert("shutdown"@.len() == 8);
    assert("getGraph"@.len() == 8);
    assert("getRefs"@.len() == 7);
    assert("getBlob"@.len() == 7);
    assert("getHead"@.len() == 7);
    assert("unstage"@.len() == 7);
    assert("getStatus"@.len() == 9);
    assert("stage"@.len() == 5);
    assert("fetch"@.len() == 5);
    assert("commit"@.len() == 6);
    assert("createBranch"@.len() == 12);
    assert("deleteBranch"@.len() == 12);
    assert("switchBranch"@.len() == 12);
    assert("pull"@.len() == 4);
    assert("push"@.len() == 4);
    assert("undo"@.len() == 4);
    assert("listUndoStack"@.len() == 13);
    assert("shutdown"@[0] == 's');
    assert("getGraph"@[0] == 'g');
    assert("getRefs"@[3] == 'R');
    assert("getBlob"@[3] == 'B');
    assert("getHead"@[3] == 'H');
    assert("getRefs"@[0] == 'g');
    assert("unstage"@[0] == 'u');
    assert("getBlob"@[0] == 'g');
    assert("getHead"@[0] == 'g');
    assert("stage"@[0] == 's');
    assert("fetch"@[0] == 'f');
    assert("createBranch"@[0] == 'c');
    assert("deleteBranch"@[0] == 'd');
    assert("switchBranch"@[0] == 's');
    assert("pull"@[2] == 'l');
    assert("push"@[2] == 's');
    assert("pull"@[0] == 'p');
    assert("undo"@[0] == 'u');
    assert("push"@[0] == 'p');
}

/// A list of transactions has as many as were asked for, but 500 at most; a limit
/// that is no positive number of the protocol asks for one.
pub proof fn law_undo_limits(limit: i64)
    ensures
        1 <= limit <= 500 ==> undo_limit(limit) == limit,
        500 < limit <= 4294967295 ==> undo_limit(limit) == 500,
        limit < 1 || limit > 4294967295 ==> undo_limit(limit) == 1,
{
}

/// A page of the graph is read for the viewport that was asked for, with a thousand
/// rows at most.
pub proof fn law_graph_requests_keep_their_viewport(q: GetGraph, task: Task)
    requires
        is_task_of(task, Request::GetGraph(q)),
    ensures
        task matches Task::ReadGraph(v) && {
            &&& v.offset == q.viewport.offset
            &&& v.epoch == q.viewport.epoch
            &&& v.anchor_commit == q.viewport.anchor_commit
            &&& q.viewport.limit <= 1000 ==> v.limit == q.viewport.limit
            &&& q.viewport.limit > 1000 ==> v.limit == 1000
        },
{
}

/// The other reads are carried out with the parameters that were given.
pub proof fn law_read_requests_keep_their_parameters(task: Task, request: Request)
    requires
        is_task_of(task, request),
    ensures
        request is GetRefs ==> task is ReadRefs,
        request is GetHead ==> task is ReadHead,
        request matches Request::GetBlob(q) ==> (task matches Task::ReadBlob { revision, path }
            && revision@ == q.revision@ && path@ == q.path@),
        request matches Request::GetStatus(q) ==> (task matches Task::ReadStatus { paths } && paths
            == q.paths),
        request matches Request::ListUndoStack(q) ==> (task matches Task::ListTransactions { limit }
            && limit == undo_limit(q.limit)),
        request matches Request::Undo(q) ==> (task matches Task::Undo { transaction_id }
            && transaction_id == q.transaction_id),
{
}

/// A request for a write asks for that write, with all that was given; what it
/// printed is shown of a switch, a fetch and a pull alone.
pub proof fn law_write_requests_keep_their_parameters(task: Task, request: Request)
    requires
        is_task_of(task, request),
    ensures
        request matches Request::Stage(q) ==> (task matches Task::Write { cmd, shows_output }
            && cmd == WriteCommand::Stage(q.paths) && !shows_output),
        request matches Request::Unstage(q) ==> (task matches Task::Write { cmd, shows_output }
            && cmd == WriteCommand::Unstage(q.paths) && !shows_output),
        request matches Request::Commit(q) ==> (task matches Task::Write { cmd, shows_output }
            && cmd == (WriteCommand::Commit { message: q.message, amend: q.amend })
            && !shows_output),
        request matches Request::CreateBranch(q) ==> (task matches Task::Write { cmd, shows_output }
            && cmd == (WriteCommand::CreateBranch { name: q.name, base: q.base })
            && !shows_output),
        request matches Request::DeleteBranch(q) ==> (task matches Task::Write { cmd, shows_output }
            && cmd == (WriteCommand::DeleteBranch { name: q.name, force: q.force })
            && !shows_output),
        request matches Request::SwitchBranch(q) ==> (task matches Task::Write { cmd, shows_output }
            && cmd == (WriteCommand::SwitchBranch { name: q.name, auto_stash: q.auto_stash })
            && shows_output),
        request matches Request::Fetch(q) ==> (task matches Task::Write { cmd, shows_output }
            && cmd == (WriteCommand::Fetch { remote: q.remote }) && shows_output),
        request matches Request::Pull(q) ==> (task matches Task::Write { cmd, shows_output }
            && cmd == (WriteCommand::Pull { remote: q.remote, branch: q.branch })
            && shows_output),
        request matches Request::Push(q) ==> (task matches Task::Write { cmd, shows_output }
            && cmd == (WriteCommand::Push {
            remote: q.remote,
            branch: q.branch,
            force: q.force,
        }) && !shows_output),
{
}

/// A task that has worked is answered with what it gave; a write with what it
/// printed or with nothing.
pub proof fn law_results_are_answered(
    refs: Vec<Ref>,
    content: String,
    head: GetHeadResult,
    page: GraphPage,
    items: Vec<StatusItem>,
    entries: Vec<UndoEntry>,
    output: String,
    id: u64,
    summary: UndoSummary,
    epoch: u64,
)
    ensures
        reply_of(Outcome::Refs(Ok(refs))) == Ok::<JsonView, (i32, Seq<char>)>(refs_json(refs@)),
        reply_of(Outcome::Blob(Ok(content))) == Ok::<JsonView, (i32, Seq<char>)>(
            JsonView::Text(content@),
        ),
        reply_of(Outcome::Head(Ok(head))) == Ok::<JsonView, (i32, Seq<char>)>(head.json()),
        reply_of(Outcome::Graph(Ok(page))) == Ok::<JsonView, (i32, Seq<char>)>(page.json()),
        reply_of(Outcome::Status(Ok(items))) == Ok::<JsonView, (i32, Seq<char>)>(
            status_json(items@),
        ),
        reply_of(Outcome::Transactions(Ok(entries))) == Ok::<JsonView, (i32, Seq<char>)>(
            entries_json(entries@),
        ),
        reply_of(Outcome::Written { result: Ok(output), shows_output: false }) == Ok::<
            JsonView,
            (i32, Seq<char>),
        >(JsonView::Null),
        reply_of(Outcome::Written { result: Ok(output), shows_output: true }) matches Ok(v)
            && v.member("output"@) == Some(JsonView::Text(output@)),
        reply_of(Outcome::Undone { transaction_id: id, result: Ok(Ok(summary)), epoch }) matches Ok(
            v,
        ) && v.member("restored_refs"@) == Some(JsonView::Int(summary.restored_refs as int))
            && v.member("epoch"@) == Some(JsonView::Int(epoch as int)),
{
    law_undos_are_sent(
        UndoResponse { restored_refs: summary.restored_refs, noop: summary.noop, epoch },
    );
}

/// A task that has failed is answered with why: a page keeps the code of its error,
/// an undo is told apart by its own codes, and all else is a failure of the
/// repository.
pub proof fn law_failures_are_answered(
    e: String,
    coded: WorkbenchError,
    id: u64,
    epoch: u64,
    shows_output: bool,
)
    ensures
        reply_of(Outcome::Refs(Err(e))) == Err::<JsonView, (i32, Seq<char>)>((WorkbenchError::GIT_ERROR, e@)),
        reply_of(Outcome::Blob(Err(e))) == Err::<JsonView, (i32, Seq<char>)>((WorkbenchError::GIT_ERROR, e@)),
        reply_of(Outcome::Head(Err(e))) == Err::<JsonView, (i32, Seq<char>)>((WorkbenchError::GIT_ERROR, e@)),
        reply_of(Outcome::Graph(Err(ReadError::Plain(e)))) == Err::<JsonView, (i32, Seq<char>)>(
            (WorkbenchError::GIT_ERROR, e@),
        ),
        reply_of(Outcome::Graph(Err(ReadError::Coded(coded)))) == Err::<
            JsonView,
            (i32, Seq<char>),
        >((coded.code, coded.message@)),
        reply_of(Outcome::Status(Err(ReadError::Plain(e)))) == Err::<JsonView, (i32, Seq<char>)>(
            (WorkbenchError::GIT_ERROR, e@),
        ),
        reply_of(Outcome::Status(Err(ReadError::Coded(coded)))) == Err::<
            JsonView,
            (i32, Seq<char>),
        >((WorkbenchError::GIT_ERROR, coded.display_text())),
        reply_of(Outcome::Written { result: Err(e), shows_output }) == Err::<
            JsonView,
            (i32, Seq<char>),
        >((WorkbenchError::GIT_ERROR, e@)),
        reply_of(Outcome::Transactions(Err(e))) == Err::<JsonView, (i32, Seq<char>)>((WorkbenchError::GIT_ERROR, e@)),
        reply_of(
            Outcome::Undone { transaction_id: id, result: Ok(Err(UndoErrorKind::NotFound)), epoch },
        ) == Err::<JsonView, (i32, Seq<char>)>(
            (WorkbenchError::INVALID_ARGUMENT, "undo: transaction "@ + decimal_of(id as nat) + " not found"@),
        ),
        reply_of(
            Outcome::Undone {
                transaction_id: id,
                result: Ok(Err(UndoErrorKind::Blocked { reason: e })),
                epoch,
            },
        ) == Err::<JsonView, (i32, Seq<char>)>((WorkbenchError::UNDO_BLOCKED, e@)),
        reply_of(
            Outcome::Undone {
                transaction_id: id,
                result: Ok(Err(UndoErrorKind::Failure { msg: e })),
                epoch,
            },
        ) == Err::<JsonView, (i32, Seq<char>)>((WorkbenchError::GIT_ERROR, e@)),
        reply_of(Outcome::Undone { transaction_id: id, result: Err(e), epoch }) == Err::<
            JsonView,
            (i32, Seq<char>),
        >((WorkbenchError::GIT_ERROR, e@)),
{
}

/// A response holds the result of its request, or the code and the message of its
/// error.
pub proof fn law_responses_hold_the_answer(id: JsonView, v: JsonView, code: i32, text: Seq<char>)
    ensures
        response_of(id, Ok(v)).member("result"@) == Some(v),
        response_of(id, Err((code, text))).member("error"@) matches Some(e) && e.member("code"@)
            == Some(JsonView::Int(code as int)) && e.member("message"@) == Some(
            JsonView::Text(text),
        ),
        violation_response(text).member("id"@) == Some(JsonView::Null),
        violation_response(text).member("jsonrpc"@) == Some(JsonView::Text("2.0"@)),
        violation_response(text).member("error"@) matches Some(e) && e.member("code"@) == Some(
            JsonView::Int(-32700),
        ) && e.member("message"@) == Some(
            JsonView::Text("parse error: "@ + text + "; connection closed"@),
        ),
{
    lemma_member_names();
    reveal_strlit("code");
    reveal_strlit("message");
    assert("code"@.len() == 4 && "message"@.len() == 7);
}

/// An event is notified under its name, with all that it holds.
pub proof fn law_events_are_notified(
    refs: Vec<String>,
    paths: Vec<String>,
    head: String,
    epoch: u64,
)
    ensures
        ({
            let n = notification_of(EngineEvent::RefsChanged { changed_refs: refs, epoch });
            &&& n.member("method"@) == Some(JsonView::Text("refsChanged"@))
            &&& n.member("params"@) matches Some(p) && p.member("changed_refs"@) == Some(
                json_texts(texts(refs@)),
            ) && p.member("epoch"@) == Some(JsonView::Int(epoch as int))
        }),
        ({
            let n = notification_of(EngineEvent::WorktreeChanged { paths });
            &&& n.member("method"@) == Some(JsonView::Text("worktreeChanged"@))
            &&& n.member("params"@) matches Some(p) && p.member("paths"@) == Some(
                json_texts(texts(paths@)),
            )
        }),
        ({
            let n = notification_of(EngineEvent::IndexChanged { epoch });
            &&& n.member("method"@) == Some(JsonView::Text("indexChanged"@))
            &&& n.member("params"@) matches Some(p) && p.member("epoch"@) == Some(
                JsonView::Int(epoch as int),
            )
        }),
        ({
            let n = notification_of(EngineEvent::HeadChanged { new_head: head, epoch });
            &&& n.member("method"@) == Some(JsonView::Text("headChanged"@))
            &&& n.member("params"@) matches Some(p) && p.member("new_head"@) == Some(
                JsonView::Text(head@),
            ) && p.member("epoch"@) == Some(JsonView::Int(epoch as int))
        }),
        ({
            let n = notification_of(EngineEvent::GraphInvalidated { epoch });
            &&& n.member("jsonrpc"@) == Some(JsonView::Text("2.0"@))
            &&& n.member("id"@) is None
            &&& n.member("method"@) == Some(JsonView::Text("graphInvalidated"@))
            &&& n.member("params"@) matches Some(p) && p.member("epoch"@) == Some(
                JsonView::Int(epoch as int),
            )
        }),
{
    reveal_strlit("jsonrpc");
    reveal_strlit("method");
    reveal_strlit("params");
    reveal_strlit("id");
    assert("jsonrpc"@.len() == 7 && "id"@.len() == 2);
    assert("method"@.len() == 6 && "params"@.len() == 6);
    assert("method"@[0] == 'm' && "params"@[0] == 'p');
    law_changed_refs_are_sent(RefsChanged { changed_refs: refs, epoch });
    law_new_heads_are_sent(HeadChanged { new_head: head, epoch });
}

/// A request is served where there is a session; without one it waits until some
/// `initialize` has been tried or the server stops, and is refused from then on.
pub proof fn law_requests_are_admitted(server: WorkbenchServer)
    ensures
        server.session <==> server.admission() == Admission::Serve,
        !server.session && !server.session_ready <==> server.admission() == Admission::Wait,
        !server.session && server.session_ready <==> server.admission() == Admission::Refuse,
{
}

/// Errors are answered with their own codes: a request without a session, bad
/// parameters, and each way in which `initialize` fails.
pub proof fn law_errors_have_their_codes(
    method: &str,
    reason: &str,
    bad: WorkbenchError,
    none: WorkbenchError,
    fault: InitializeFault,
    failed: WorkbenchError,
)
    requires
        call_ensures(parse_params, (method, reason), bad),
        call_ensures(no_session, (), none),
        call_ensures(initialize_error, (&fault,), failed),
    ensures
        bad.code == -32005,
        bad.message@ == method@ + ": "@ + reason@,
        none.code == -32006,
        none.message@ == "no session; call initialize first"@,
        fault is Unresolved ==> failed.code == -32005,
        fault is NoRepository ==> failed.code == -32001,
        fault is NotOpened ==> failed.code == -32002,
        fault matches InitializeFault::NoRepository { path } ==> failed.message@ == path@,
{
}

/// A session is there from an `initialize` that has opened one until the next one
/// begins; those who wait are let go once one was tried or the server stops.
pub proof fn law_sessions_come_and_go(
    begun: &mut WorkbenchServer,
    ended: &mut WorkbenchServer,
    stopped: &mut WorkbenchServer,
    opened: bool,
)
    requires
        call_ensures(WorkbenchServer::begin_initialize, (begun,), ()),
        call_ensures(WorkbenchServer::end_initialize, (ended, opened), ()),
        call_ensures(WorkbenchServer::stop, (stopped,), ()),
    ensures
        !final(begun).session,
        final(begun).session_ready == old(begun).session_ready,
        final(ended).session == (opened || old(ended).session),
        final(ended).session_ready,
        final(stopped).session == old(stopped).session,
        final(stopped).session_ready,
{
}

/// The loop handles messages and announces events for as long as they come; once no
/// more messages come it sends what is there already and stops.
pub proof fn law_loop_goes_on(
    server: WorkbenchServer,
    input: LoopInput,
    r: LoopAction,
    read: Result<Option<IncomingMessage>, FrameError>,
    step: ReaderStep,
)
    requires
        call_ensures(WorkbenchServer::run, (&server, input), r),
        call_ensures(reader_step, (&read,), step),
    ensures
        input == LoopInput::Message ==> r == LoopAction::Handle,
        input == LoopInput::Event ==> r == LoopAction::Announce,
        input == LoopInput::ReaderDone ==> r == LoopAction::DrainAndStop,
        input == LoopInput::EventsClosed || input == LoopInput::Shutdown ==> r == LoopAction::Stop,
        step == ReaderStep::Forward <==> (read matches Ok(m) && m is Some),
        step == ReaderStep::Stop <==> (read matches Ok(m) && m is None),
        step == ReaderStep::ReportAndStop <==> read is Err,
{
}

/// A message with an id gets one response, which answers it, and one without an id
/// gets none.
pub proof fn law_notifications_get_no_response(
    id: Option<Value>,
    answer: Result<Value, WorkbenchError>,
    r: Option<String>,
)
    requires
        call_ensures(handle_message, (id, answer), r),
    ensures
        r is Some <==> id is Some,
        r matches Some(t) ==> (id matches Some(v) && t@ == json_text(
            response_of(
                json_view(v),
                match answer {
                    Ok(result) => Ok(json_view(result)),
                    Err(e) => Err((e.code, e.message@)),
                },
            ),
        )),
{
}

/// An `initialize` that has worked is answered with the session, the version of the
/// protocol, and all that the engine can do.
pub proof fn law_initialize_is_answered(
    session_id: String,
    version: String,
    epoch: u64,
    r: InitializeResult,
)
    requires
        call_ensures(initialize_result, (session_id, version, epoch), r),
    ensures
        r.session_id@ == session_id@,
        r.engine_version@ == version@,
        r.protocol_version == 1,
        r.epoch == epoch,
        r.capabilities.graph && r.capabilities.status && r.capabilities.write_ops
            && r.capabilities.undo && r.capabilities.notifications,
{
}

/// The name of a session has the form of a random identifier: groups of eight, four,
/// four, four and twelve lower case hexadecimal digits with dashes between them, the
/// third group with the version and the fourth with the variant in front.
pub proof fn law_session_ids_have_their_form(
    engine_version: String,
    epoch: u64,
    r: InitializeResult,
    i: int,
)
    requires
        call_ensures(handle_initialize, (engine_version, epoch), r),
    ensures
        r.session_id@.len() == 36,
        0 <= i < 36 ==> {
            let c = r.session_id@[i];
            &&& c == '-' <==> i == 8 || i == 13 || i == 18 || i == 23
            &&& c == '-' || '0' <= c <= '9' || 'a' <= c <= 'f'
        },
        r.session_id@[14] == '4',
        seq!['8', '9', 'a', 'b'].contains(r.session_id@[19]),
{
    let four = seq!['8', '9', 'a', 'b'];
    assert(four[0] == '8' && four[1] == '9' && four[2] == 'a' && four[3] == 'b');
    if 0 <= i < 36 {
        assert(r.session_id@[i] == '-' || is_hex_digit(r.session_id@[i]));
    }
}

} // verus!
