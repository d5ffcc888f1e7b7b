//! The undo stack: a journal of write transactions, each with a snapshot from
//! before and one from after the write.
//!
//! The journal and the snapshots are files below the git directory. What is to
//! be done to them is given as a list of steps, each of which is durable before
//! the next one begins. The laws in `undo_laws` say what a crash between two
//! steps can leave behind.
use crate::json;
use crate::json::{
    bool_of, is_printable, json_text, json_view, lemma_object_printable, members_of, object_text,
    pretty_object, string_of, JsonView, Member,
};
use crate::protocol::UndoEntry;
use crate::snapshot::{Snapshot, SnapshotView};
use crate::text;
use crate::text::{
    decimal_of, is_whitespace, lines_of, parse_of, signed_decimal_of, stem_of, texts, trim_of,
};
use crate::undo_laws::law_journal_lines_read_back;
use crate::write_queue::WriteResult;
use vstd::prelude::*;
use vstd::string::*;

verus! {

broadcast use vstd::string::group_string_axioms;

// ---------------------------------------------------------------------------
// Transactions
// ---------------------------------------------------------------------------
/// A journaled write transaction.
#[derive(Debug, Clone)]
pub struct Transaction {
    pub id: u64,
    pub timestamp: i64,
    pub description: String,
    pub epoch_at_creation: u64,
    pub success: bool,
}

/// What a transaction holds.
#[verifier::ext_equal]
pub struct TransactionView {
    pub id: u64,
    pub timestamp: i64,
    pub description: Seq<char>,
    pub epoch_at_creation: u64,
    pub success: bool,
}

impl View for Transaction {
    type V = TransactionView;

    open spec fn view(&self) -> TransactionView {
        TransactionView {
            id: self.id,
            timestamp: self.timestamp,
            description: self.description@,
            epoch_at_creation: self.epoch_at_creation,
            success: self.success,
        }
    }
}

/// What a list of transactions holds.
pub open spec fn transactions_of(s: Seq<Transaction>) -> Seq<TransactionView> {
    s.map_values(|t: Transaction| t@)
}

impl Transaction {
    /// A copy of the transaction.
    pub fn copy(&self) -> (r: Transaction)
        ensures
            r@ == self@,
    {
        Transaction {
            id: self.id,
            timestamp: self.timestamp,
            description: self.description.clone(),
            epoch_at_creation: self.epoch_at_creation,
            success: self.success,
        }
    }

    /// The members of the JSON object for the transaction, in order.
    pub open spec fn members(&self) -> Seq<(Seq<char>, Seq<char>)> {
        seq![
            ("\"id\""@, decimal_of(self.id as nat)),
            ("\"timestamp\""@, signed_decimal_of(self.timestamp as int)),
            ("\"description\""@, string_of(self.description@)),
            ("\"epoch_at_creation\""@, decimal_of(self.epoch_at_creation as nat)),
            ("\"success\""@, bool_of(self.success)),
        ]
    }

    /// The line of the journal for the transaction, without its line feed.
    pub open spec fn line_text(&self) -> Seq<char> {
        object_text(self.members())
    }

    /// The line of the journal for the transaction, without its line feed.
    pub fn line(&self) -> (r: String)
        ensures
            r@ == self.line_text(),
            is_journal_line(r@),
    {
        let description = json::string(self.description.as_str());
        let ghost described = description@;
        let success = if self.success {
            "true"
        } else {
            "false"
        };
        let mut members: Vec<Member> = Vec::new();
        members.push(json::member("\"id\"", text::decimal(self.id)));
        members.push(json::member("\"timestamp\"", text::signed_decimal(self.timestamp)));
        members.push(json::member("\"description\"", description));
        members.push(
            json::member("\"epoch_at_creation\"", text::decimal(self.epoch_at_creation)),
        );
        members.push(json::member("\"success\"", success.to_owned()));
        assert(members_of(members@) =~= self.members());
        proof {
            lemma_members_printable(*self);
            lemma_object_printable(self.members());
        }
        json::print_object(&members)
    }
}

/// The members of a transaction are printable.
proof fn lemma_members_printable(t: Transaction)
    requires
        is_printable(string_of(t.description@)),
    ensures
        forall|i: int|
            #![trigger t.members()[i]]
            0 <= i < t.members().len() ==> is_printable(t.members()[i].0) && is_printable(
                t.members()[i].1,
            ),
{
    reveal_strlit("\"id\"");
    reveal_strlit("\"timestamp\"");
    reveal_strlit("\"description\"");
    reveal_strlit("\"epoch_at_creation\"");
    reveal_strlit("\"success\"");
    reveal_strlit("true");
    reveal_strlit("false");
    text::lemma_decimal_is_digits(t.id as nat);
    text::lemma_decimal_is_digits(t.epoch_at_creation as nat);
    if t.timestamp < 0 {
        text::lemma_decimal_is_digits((-(t.timestamp as int)) as nat);
    } else {
        text::lemma_decimal_is_digits(t.timestamp as nat);
    }
    assert(is_printable(decimal_of(t.id as nat)));
    assert(is_printable(decimal_of(t.epoch_at_creation as nat)));
    assert(is_printable(signed_decimal_of(t.timestamp as int)));
    assert(is_printable("\"id\""@));
    assert(is_printable("\"timestamp\""@));
    assert(is_printable("\"description\""@));
    assert(is_printable("\"epoch_at_creation\""@));
    assert(is_printable("\"success\""@));
    assert(is_printable(bool_of(t.success)));
}

/// What a snapshot file says of the transaction that it belongs to.
#[derive(Debug, Clone)]
pub struct TransactionMeta {
    pub id: u64,
    pub description: String,
    pub epoch: u64,
}

/// A snapshot file: a snapshot and the transaction that it belongs to.
#[derive(Debug)]
pub struct TransactionFile {
    pub meta: TransactionMeta,
    pub snapshot: Snapshot,
}

/// What a snapshot file holds.
#[verifier::ext_equal]
pub struct FileView {
    pub id: u64,
    pub description: Seq<char>,
    pub epoch: u64,
    pub snapshot: SnapshotView,
}

impl View for TransactionFile {
    type V = FileView;

    open spec fn view(&self) -> FileView {
        FileView {
            id: self.meta.id,
            description: self.meta.description@,
            epoch: self.meta.epoch,
            snapshot: self.snapshot@,
        }
    }
}

impl TransactionMeta {
    /// The members of the JSON object for the value, in order.
    pub open spec fn members(&self) -> Seq<(Seq<char>, Seq<char>)> {
        seq![
            ("\"id\""@, decimal_of(self.id as nat)),
            ("\"description\""@, string_of(self.description@)),
            ("\"epoch\""@, decimal_of(self.epoch as nat)),
        ]
    }
}

impl TransactionFile {
    /// The content of the file.
    pub open spec fn content_text(&self) -> Seq<char> {
        pretty_object(
            seq![
                ("\"meta\""@, pretty_object(self.meta.members(), "  "@)),
                ("\"snapshot\""@, self.snapshot.pretty_text("  "@)),
            ],
            ""@,
        )
    }

    /// The content of the file.
    pub fn content(&self) -> (r: String)
        ensures
            r@ == self.content_text(),
    {
        let mut meta: Vec<Member> = Vec::new();
        meta.push(json::member("\"id\"", text::decimal(self.meta.id)));
        meta.push(
            json::member("\"description\"", json::string(self.meta.description.as_str())),
        );
        meta.push(json::member("\"epoch\"", text::decimal(self.meta.epoch)));
        assert(members_of(meta@) =~= self.meta.members());
        let mut members: Vec<Member> = Vec::new();
        members.push(json::member("\"meta\"", json::print_pretty_object(&meta, "  ")));
        members.push(json::member("\"snapshot\"", self.snapshot.pretty("  ")));
        assert(members_of(members@) =~= seq![
            ("\"meta\""@, pretty_object(self.meta.members(), "  "@)),
            ("\"snapshot\""@, self.snapshot.pretty_text("  "@)),
        ]);
        json::print_pretty_object(&members, "")
    }
}

// ---------------------------------------------------------------------------
// Outcomes
// ---------------------------------------------------------------------------
/// How an undo ended.
#[derive(Debug, Clone, Copy, PartialEq, Eq)]
pub enum UndoOutcome {
    /// The repository was restored; this many references changed.
    Restored { restored_refs: usize },
    /// The write and all later ones had failed: nothing had to be restored.
    Noop,
}

/// How an undo ended, for those who asked for it.
#[derive(Debug, Clone, Copy, PartialEq, Eq)]
pub struct UndoSummary {
    pub restored_refs: usize,
    pub noop: bool,
}

/// Why an undo failed, for those who asked for it.
#[derive(Debug, Clone)]
pub enum UndoErrorKind {
    NotFound,
    Blocked { reason: String },
    Failure { msg: String },
}

impl UndoErrorKind {
    /// What the error says.
    pub open spec fn text(&self) -> Seq<char> {
        match self {
            UndoErrorKind::NotFound => "transaction not found"@,
            UndoErrorKind::Blocked { reason } => "undo blocked: "@ + reason@,
            UndoErrorKind::Failure { msg } => msg@,
        }
    }

    /// What the error says.
    pub fn message(&self) -> (r: String)
        ensures
            r@ == self.text(),
    {
        match self {
            UndoErrorKind::NotFound => "transaction not found".to_owned(),
            UndoErrorKind::Blocked { reason } => "undo blocked: ".to_owned().concat(
                reason.as_str(),
            ),
            UndoErrorKind::Failure { msg } => msg.clone(),
        }
    }
}

/// Why an undo failed.
#[derive(Debug, Clone)]
pub enum UndoError {
    /// The journal has no such transaction.
    NotFound,
    /// Something else has changed the repository since.
    Blocked { reason: String },
    /// A file could not be read or written.
    Io(String),
    /// The repository could not be restored.
    Git(String),
}

/// What an error says of an undo.
pub enum UndoErrorView {
    NotFound,
    Blocked(Seq<char>),
    Io(Seq<char>),
    Git(Seq<char>),
}

impl View for UndoError {
    type V = UndoErrorView;

    open spec fn view(&self) -> UndoErrorView {
        match self {
            UndoError::NotFound => UndoErrorView::NotFound,
            UndoError::Blocked { reason } => UndoErrorView::Blocked(reason@),
            UndoError::Io(msg) => UndoErrorView::Io(msg@),
            UndoError::Git(msg) => UndoErrorView::Git(msg@),
        }
    }
}

impl UndoError {
    /// What the error says.
    pub open spec fn text(&self) -> Seq<char> {
        match self {
            UndoError::NotFound => "transaction not found"@,
            UndoError::Blocked { reason } => "undo blocked: "@ + reason@,
            UndoError::Io(msg) => msg@,
            UndoError::Git(msg) => msg@,
        }
    }

    /// What the error says.
    pub fn message(&self) -> (r: String)
        ensures
            r@ == self.text(),
    {
        match self {
            UndoError::NotFound => "transaction not found".to_owned(),
            UndoError::Blocked { reason } => "undo blocked: ".to_owned().concat(reason.as_str()),
            UndoError::Io(msg) => msg.clone(),
            UndoError::Git(msg) => msg.clone(),
        }
    }

    /// The error for those who asked for the undo: whether it was a file or the
    /// repository that failed is not told apart, but what is said stays the same.
    pub fn kind(&self) -> (r: UndoErrorKind)
        ensures
            r.text() == self.text(),
            match self {
                UndoError::NotFound => r is NotFound,
                UndoError::Blocked { reason } => r matches UndoErrorKind::Blocked { reason: told }
                    && told@ == reason@,
                UndoError::Io(e) => r matches UndoErrorKind::Failure { msg } && msg@ == e@,
                UndoError::Git(e) => r matches UndoErrorKind::Failure { msg } && msg@ == e@,
            },
    {
        match self {
            UndoError::NotFound => UndoErrorKind::NotFound,
            UndoError::Blocked { reason } => UndoErrorKind::Blocked { reason: reason.clone() },
            UndoError::Io(e) => UndoErrorKind::Failure { msg: e.clone() },
            UndoError::Git(e) => UndoErrorKind::Failure { msg: e.clone() },
        }
    }
}

// ---------------------------------------------------------------------------
// Files
// ---------------------------------------------------------------------------
/// The directory of the undo files, below the git directory.
pub const UNDO_DIR: &'static str = "git-workbench/undo";

/// The journal, in the directory of the undo files.
pub const JOURNAL: &'static str = "journal.jsonl";

/// The file that the journal is rewritten through.
pub const JOURNAL_TMP: &'static str = "journal.jsonl.tmp";

/// The file that is there while an undo is in progress: it holds the snapshot
/// that is being restored.
pub const UNDO_MARKER: &'static str = "undo-in-progress.json";

/// The log of all writes, below the git directory.
pub const AUDIT_LOG: &'static str = "git-workbench/audit.log";

/// The transaction that a file of the undo directory belongs to by its name.
pub open spec fn file_id(name: Seq<char>) -> Option<nat> {
    match parse_of(stem_of(name), u64::MAX as nat) {
        Ok(id) => Some(id),
        Err(_) => None,
    }
}

/// The transaction that a file of the undo directory belongs to by its name.
pub fn snapshot_id(name: &str) -> (r: Option<u64>)
    ensures
        match (r, file_id(name@)) {
            (Some(a), Some(b)) => a == b,
            (None, None) => true,
            _ => false,
        },
{
    match text::parse_decimal(text::file_stem(name).as_str(), u64::MAX) {
        Ok(id) => Some(id),
        Err(_) => None,
    }
}

/// Whether the file `name` of the undo directory is deleted once the
/// transactions from `transaction_id` on are gone.
pub fn is_pruned(name: &str, transaction_id: u64) -> (r: bool)
    ensures
        r == (file_id(name@) matches Some(id) && id >= transaction_id),
{
    match snapshot_id(name) {
        Some(id) => id >= transaction_id,
        None => false,
    }
}

// ---------------------------------------------------------------------------
// The journal
// ---------------------------------------------------------------------------
/// Whether a text can stand in the journal as one line: it is not empty, begins
/// with no whitespace and has no control characters below the space.
pub open spec fn is_journal_line(line: Seq<char>) -> bool {
    &&& line.len() > 0
    &&& !is_whitespace(line[0])
    &&& forall|i: int| 0 <= i < line.len() ==> #[trigger] line[i] >= ' '
}

/// The lines of the journal that may hold a transaction.
pub open spec fn entry_lines(content: Seq<char>) -> Seq<Seq<char>> {
    lines_of(content).filter(|line: Seq<char>| trim_of(line).len() > 0)
}

/// The lines of the journal that may hold a transaction: those that are not
/// blank.
pub fn journal_lines(content: &str) -> (r: Vec<String>)
    ensures
        texts(r@) == entry_lines(content@),
{
    let all = text::lines(content);
    let ghost whole = texts(all@);
    let ghost filled = |line: Seq<char>| trim_of(line).len() > 0;
    let mut out: Vec<String> = Vec::new();
    let mut i: usize = 0;
    assert(texts(out@) =~= whole.take(0).filter(filled)) by {
        reveal(Seq::filter);
        assert(whole.take(0) =~= Seq::<Seq<char>>::empty());
    }
    while i < all.len()
        invariant
            i <= all@.len(),
            whole == texts(all@),
            filled == (|line: Seq<char>| trim_of(line).len() > 0),
            texts(out@) == whole.take(i as int).filter(filled),
        decreases all.len() - i,
    {
        let ghost before = texts(out@);
        proof {
            assert(whole.take(i + 1) =~= whole.take(i as int).push(whole[i as int]));
            whole.take(i as int).lemma_filter_push(whole[i as int], filled);
        }
        if !text::trim(all[i].as_str()).as_str().is_empty() {
            out.push(all[i].clone());
            assert(texts(out@) =~= before.push(whole[i as int]));
        }
        i += 1;
    }
    assert(whole.take(i as int) =~= whole);
    out
}

/// The transactions with one more, behind all that have no greater id.
pub open spec fn insert_by_id(s: Seq<TransactionView>, t: TransactionView) -> Seq<TransactionView>
    decreases s.len(),
{
    if s.len() == 0 || s.last().id <= t.id {
        s.push(t)
    } else {
        insert_by_id(s.drop_last(), t).push(s.last())
    }
}

/// The transactions that were read, by id; those with the same id keep their
/// order. Lines that hold no transaction are passed over.
pub open spec fn journal_of(parsed: Seq<Option<Transaction>>) -> Seq<TransactionView>
    decreases parsed.len(),
{
    if parsed.len() == 0 {
        Seq::empty()
    } else {
        let before = journal_of(parsed.drop_last());
        match parsed.last() {
            Some(t) => insert_by_id(before, t@),
            None => before,
        }
    }
}

/// Inserting by id is inserting at the place that the ids give.
proof fn lemma_insert_at(s: Seq<TransactionView>, t: TransactionView, at: int)
    requires
        0 <= at <= s.len(),
        at > 0 ==> s[at - 1].id <= t.id,
        forall|k: int| at <= k < s.len() ==> (#[trigger] s[k]).id > t.id,
    ensures
        insert_by_id(s, t) == s.insert(at, t),
    decreases s.len(),
{
    if at < s.len() {
        assert(s[s.len() - 1].id > t.id);
        lemma_insert_at(s.drop_last(), t, at);
        assert(s.drop_last().insert(at, t).push(s.last()) =~= s.insert(at, t));
    } else {
        assert(s.push(t) =~= s.insert(at, t));
    }
}

/// The transactions of the journal by id, from what its lines hold. The last
/// line may be cut off by a crash, and holds none then.
pub fn read_journal(parsed: Vec<Option<Transaction>>) -> (r: Vec<Transaction>)
    ensures
        transactions_of(r@) == journal_of(parsed@),
{
    let mut out: Vec<Transaction> = Vec::new();
    let mut i: usize = 0;
    assert(parsed@.take(0) =~= Seq::<Option<Transaction>>::empty());
    assert(transactions_of(out@) =~= Seq::<TransactionView>::empty());
    while i < parsed.len()
        invariant
            i <= parsed@.len(),
            transactions_of(out@) == journal_of(parsed@.take(i as int)),
        decreases parsed.len() - i,
    {
        assert(parsed@.take(i + 1).drop_last() =~= parsed@.take(i as int));
        if let Some(t) = &parsed[i] {
            let ghost before = transactions_of(out@);
            let mut at: usize = out.len();
            while at > 0 && out[at - 1].id > t.id
                invariant
                    at <= out@.len(),
                    before == transactions_of(out@),
                    forall|k: int| at <= k < before.len() ==> (#[trigger] before[k]).id > t.id,
                decreases at,
            {
                assert(before[at - 1].id == out@[at - 1].id);
                at -= 1;
            }
            proof {
                assert(at > 0 ==> before[at - 1].id == out@[at - 1].id);
                lemma_insert_at(before, t@, at as int);
            }
            out.insert(at, t.copy());
            assert(transactions_of(out@) =~= before.insert(at as int, t@));
        }
        i += 1;
    }
    assert(parsed@.take(i as int) =~= parsed@);
    out
}

/// The transactions before `transaction_id`.
pub open spec fn truncated(s: Seq<TransactionView>, transaction_id: u64) -> Seq<TransactionView> {
    s.filter(|t: TransactionView| t.id < transaction_id)
}

/// The transactions before `transaction_id`: an undo takes back all the later
/// ones too.
pub fn truncate_journal_at(transactions: &Vec<Transaction>, transaction_id: u64) -> (r: Vec<
    Transaction,
>)
    ensures
        transactions_of(r@) == truncated(transactions_of(transactions@), transaction_id),
{
    let ghost all = transactions_of(transactions@);
    let ghost earlier = |t: TransactionView| t.id < transaction_id;
    let mut out: Vec<Transaction> = Vec::new();
    let mut i: usize = 0;
    assert(transactions_of(out@) =~= all.take(0).filter(earlier)) by {
        reveal(Seq::filter);
        assert(all.take(0) =~= Seq::<TransactionView>::empty());
    }
    while i < transactions.len()
        invariant
            i <= transactions@.len(),
            all == transactions_of(transactions@),
            earlier == (|t: TransactionView| t.id < transaction_id),
            transactions_of(out@) == all.take(i as int).filter(earlier),
        decreases transactions.len() - i,
    {
        let ghost before = transactions_of(out@);
        proof {
            assert(all.take(i + 1) =~= all.take(i as int).push(all[i as int]));
            all.take(i as int).lemma_filter_push(all[i as int], earlier);
        }
        if transactions[i].id < transaction_id {
            out.push(transactions[i].copy());
            assert(transactions_of(out@) =~= before.push(all[i as int]));
        }
        i += 1;
    }
    assert(all.take(i as int) =~= all);
    out
}

/// The content of a journal with these lines.
pub open spec fn content_of(lines: Seq<Seq<char>>) -> Seq<char>
    decreases lines.len(),
{
    if lines.len() == 0 {
        Seq::<char>::empty()
    } else {
        content_of(lines.drop_last()) + lines.last() + "\n"@
    }
}

/// The lines of a journal with these transactions.
pub open spec fn lines_for(s: Seq<Transaction>) -> Seq<Seq<char>> {
    s.map_values(|t: Transaction| t.line_text())
}

/// The content of a journal with these transactions, one line each. It is read
/// back line for line.
pub fn journal_content(transactions: &Vec<Transaction>) -> (r: String)
    ensures
        r@ == content_of(lines_for(transactions@)),
        entry_lines(r@) == lines_for(transactions@),
{
    let ghost all = lines_for(transactions@);
    let mut out = String::new();
    let mut i: usize = 0;
    assert(all.take(0) =~= Seq::<Seq<char>>::empty());
    while i < transactions.len()
        invariant
            i <= transactions@.len(),
            all == lines_for(transactions@),
            out@ == content_of(all.take(i as int)),
            forall|k: int| 0 <= k < i ==> is_journal_line(#[trigger] all[k]),
        decreases transactions.len() - i,
    {
        assert(all.take(i + 1).drop_last() =~= all.take(i as int));
        out.append(transactions[i].line().as_str());
        out.append("\n");
        i += 1;
    }
    assert(all.take(i as int) =~= all);
    proof {
        law_journal_lines_read_back(all);
    }
    out
}

/// What a client is shown of a transaction.
pub open spec fn entry_for(t: TransactionView, e: UndoEntry) -> bool {
    &&& e.id == t.id
    &&& e.timestamp == t.timestamp
    &&& e.description@ == t.description
    &&& e.epoch_at_creation == t.epoch_at_creation
}

/// The transactions that a client is shown: the newest first, `limit` at most.
pub open spec fn listing(journal: Seq<TransactionView>, limit: nat) -> Seq<TransactionView> {
    Seq::new(
        if journal.len() < limit {
            journal.len()
        } else {
            limit
        },
        |i: int| journal[journal.len() - 1 - i],
    )
}

impl UndoEngine {
    /// The transactions as a client is shown them: the newest first, `limit` at
    /// most.
    pub fn list_transactions(&self, transactions: &Vec<Transaction>, limit: u32) -> (r: Vec<
        UndoEntry,
    >)
        ensures
            r@.len() == listing(transactions_of(transactions@), limit as nat).len(),
            forall|i: int|
                #![trigger r@[i]]
                0 <= i < r@.len() ==> entry_for(
                    listing(transactions_of(transactions@), limit as nat)[i],
                    r@[i],
                ),
    {
        let mut out: Vec<UndoEntry> = Vec::new();
        let mut left: usize = transactions.len();
        while left > 0 && out.len() < limit as usize
            invariant
                left + out@.len() == transactions@.len(),
                out@.len() <= limit,
                forall|i: int|
                    #![trigger out@[i]]
                    0 <= i < out@.len() ==> entry_for(
                        transactions@[transactions@.len() - 1 - i]@,
                        out@[i],
                    ),
            decreases left,
        {
            left -= 1;
            let t = &transactions[left];
            out.push(
                UndoEntry {
                    id: t.id,
                    timestamp: t.timestamp,
                    description: t.description.clone(),
                    epoch_at_creation: t.epoch_at_creation,
                },
            );
        }
        out
    }
}

// ---------------------------------------------------------------------------
// Steps
// ---------------------------------------------------------------------------
/// Something that is to be done to the undo files or to the repository. A step
/// is durable before the next one begins.
#[derive(Debug)]
pub enum UndoStep {
    /// Writes the snapshot from before a transaction.
    WritePre(TransactionFile),
    /// Writes the snapshot from after a transaction.
    WritePost(TransactionFile),
    /// Adds a transaction to the journal.
    AppendJournal(Transaction),
    /// Notes that an undo is in progress, and what it restores.
    WriteMarker(TransactionFile),
    /// Replaces the journal by one without the transactions from this one on.
    TruncateJournal(u64),
    /// Restores a snapshot.
    Restore(Snapshot),
    /// Removes the note that an undo is in progress.
    RemoveMarker,
    /// Deletes the snapshots of the transactions from this one on.
    Prune(u64),
}

/// What a step is.
pub enum StepView {
    WritePre(FileView),
    WritePost(FileView),
    AppendJournal(TransactionView),
    WriteMarker(FileView),
    TruncateJournal(u64),
    Restore(SnapshotView),
    RemoveMarker,
    Prune(u64),
}

impl View for UndoStep {
    type V = StepView;

    open spec fn view(&self) -> StepView {
        match self {
            UndoStep::WritePre(f) => StepView::WritePre(f@),
            UndoStep::WritePost(f) => StepView::WritePost(f@),
            UndoStep::AppendJournal(t) => StepView::AppendJournal(t@),
            UndoStep::WriteMarker(f) => StepView::WriteMarker(f@),
            UndoStep::TruncateJournal(id) => StepView::TruncateJournal(*id),
            UndoStep::Restore(s) => StepView::Restore(s@),
            UndoStep::RemoveMarker => StepView::RemoveMarker,
            UndoStep::Prune(id) => StepView::Prune(*id),
        }
    }
}

/// What the steps of a list are.
pub open spec fn steps_of(s: Seq<UndoStep>) -> Seq<StepView> {
    s.map_values(|t: UndoStep| t@)
}

impl UndoStep {
    /// The error of an undo in which this step failed for `reason`. Snapshots
    /// that are no longer needed may stay behind.
    pub fn error(&self, reason: String) -> (r: Option<UndoError>)
        ensures
            match self@ {
                StepView::Prune(_) => r is None,
                StepView::Restore(_) => r matches Some(e) && e@ == UndoErrorView::Git(reason@),
                StepView::RemoveMarker => r matches Some(e) && e@ == UndoErrorView::Io(
                    "failed to remove undo marker: "@ + reason@,
                ),
                _ => r matches Some(e) && e@ == UndoErrorView::Io(reason@),
            },
    {
        match self {
            UndoStep::Prune(_) => None,
            UndoStep::Restore(_) => Some(UndoError::Git(reason)),
            UndoStep::RemoveMarker => Some(
                UndoError::Io("failed to remove undo marker: ".to_owned().concat(reason.as_str())),
            ),
            _ => Some(UndoError::Io(reason)),
        }
    }

    /// The error of a recovery in which this step failed for `reason`. A
    /// snapshot that cannot be restored is passed over, and the steps after it
    /// are taken all the same: the journal is in order, and the repository may
    /// need a look by hand.
    pub fn recovery_error(&self, reason: String) -> (r: Option<String>)
        ensures
            r is None <==> self is Restore,
            r matches Some(m) ==> m@ == reason@,
    {
        match self {
            UndoStep::Restore(_) => None,
            _ => Some(reason),
        }
    }
}

/// The steps that undo a transaction. The note comes first and the journal
/// second: from then on the undo is finished by the next start of the engine,
/// should this one crash.
pub open spec fn undo_steps(target: TransactionView, pre: SnapshotView) -> Seq<StepView> {
    seq![
        StepView::WriteMarker(
            FileView {
                id: target.id,
                description: target.description,
                epoch: target.epoch_at_creation,
                snapshot: pre,
            },
        ),
        StepView::TruncateJournal(target.id),
        StepView::Restore(pre),
        StepView::RemoveMarker,
        StepView::Prune(target.id),
    ]
}

/// The steps that finish an undo that a crash has interrupted.
pub open spec fn recovery_steps(marker: FileView) -> Seq<StepView> {
    seq![
        StepView::TruncateJournal(marker.id),
        StepView::Restore(marker.snapshot),
        StepView::RemoveMarker,
    ]
}

/// The first transaction with the id `id`.
pub open spec fn first_with(s: Seq<TransactionView>, id: u64) -> Option<TransactionView>
    decreases s.len(),
{
    if s.len() == 0 {
        None
    } else {
        match first_with(s.drop_last(), id) {
            Some(t) => Some(t),
            None => if s.last().id == id {
                Some(s.last())
            } else {
                None
            },
        }
    }
}

/// The place of the first transaction with the id `id`.
fn find_transaction(transactions: &Vec<Transaction>, id: u64) -> (r: Option<usize>)
    ensures
        match r {
            Some(i) => i < transactions@.len() && first_with(transactions_of(transactions@), id)
                == Some(transactions@[i as int]@) && transactions@[i as int].id == id,
            None => first_with(transactions_of(transactions@), id) is None,
        },
{
    let ghost all = transactions_of(transactions@);
    let mut i: usize = 0;
    assert(all.take(0) =~= Seq::<TransactionView>::empty());
    while i < transactions.len()
        invariant
            i <= transactions@.len(),
            all == transactions_of(transactions@),
            first_with(all.take(i as int), id) is None,
        decreases transactions.len() - i,
    {
        assert(all.take(i + 1).drop_last() =~= all.take(i as int));
        assert(all.take(i + 1).last() == transactions@[i as int]@);
        if transactions[i].id == id {
            proof {
                lemma_first_stays(all, id, i + 1);
            }
            return Some(i);
        }
        i += 1;
    }
    assert(all.take(i as int) =~= all);
    None
}

/// The first transaction among the first ones is the first of all.
proof fn lemma_first_stays(s: Seq<TransactionView>, id: u64, n: int)
    requires
        0 <= n <= s.len(),
        first_with(s.take(n), id) is Some,
    ensures
        first_with(s, id) == first_with(s.take(n), id),
    decreases s.len() - n,
{
    if n < s.len() {
        assert(s.take(n + 1).drop_last() =~= s.take(n));
        lemma_first_stays(s, id, n + 1);
    } else {
        assert(s.take(n) =~= s);
    }
}

/// What to do next in order to undo a transaction.
#[derive(Debug)]
pub enum UndoDecision {
    /// The undo is refused.
    Refuse(UndoError),
    /// The write had failed, and so has every later one: there is nothing to
    /// restore, and they only leave the journal.
    Pop(Vec<UndoStep>),
    /// The snapshot from after this transaction has to be read.
    NeedPost(u64),
    /// The current state of the repository has to be read.
    NeedCurrent,
    /// The snapshot from before this transaction has to be read.
    NeedPre(u64),
    /// The repository is restored.
    Restore(Vec<UndoStep>),
}

/// What a decision is.
pub enum DecisionView {
    Refuse(UndoErrorView),
    Pop(Seq<StepView>),
    NeedPost(u64),
    NeedCurrent,
    NeedPre(u64),
    Restore(Seq<StepView>),
}

impl View for UndoDecision {
    type V = DecisionView;

    open spec fn view(&self) -> DecisionView {
        match self {
            UndoDecision::Refuse(e) => DecisionView::Refuse(e@),
            UndoDecision::Pop(steps) => DecisionView::Pop(steps_of(steps@)),
            UndoDecision::NeedPost(id) => DecisionView::NeedPost(*id),
            UndoDecision::NeedCurrent => DecisionView::NeedCurrent,
            UndoDecision::NeedPre(id) => DecisionView::NeedPre(*id),
            UndoDecision::Restore(steps) => DecisionView::Restore(steps_of(steps@)),
        }
    }
}

/// What a snapshot that was read holds, where it was.
pub open spec fn read_view(s: Option<&Snapshot>) -> Option<SnapshotView> {
    match s {
        Some(s) => Some(s@),
        None => None,
    }
}

/// What is said of an undo that something else has got in the way of.
pub open spec fn blocked_reason() -> Seq<char> {
    "repository state changed externally since the last workbench operation"@
}

/// Whether any transaction from `id` on has succeeded.
pub open spec fn any_success_from(journal: Seq<TransactionView>, id: u64) -> bool {
    exists|i: int|
        #![trigger journal[i]]
        0 <= i < journal.len() && journal[i].id >= id && journal[i].success
}

/// Whether any transaction from `id` on has succeeded.
fn has_success_from(transactions: &Vec<Transaction>, id: u64) -> (r: bool)
    ensures
        r == any_success_from(transactions_of(transactions@), id),
{
    let ghost all = transactions_of(transactions@);
    let mut i: usize = 0;
    while i < transactions.len()
        invariant
            i <= transactions@.len(),
            all == transactions_of(transactions@),
            forall|k: int|
                #![trigger all[k]]
                0 <= k < i ==> !(all[k].id >= id && all[k].success),
        decreases transactions.len() - i,
    {
        assert(all[i as int] == transactions@[i as int]@);
        if transactions[i].id >= id && transactions[i].success {
            return true;
        }
        i += 1;
    }
    false
}

/// What to do next in order to undo the transaction `id`, given what has been
/// read so far: the snapshot from after the latest transaction, the current
/// state, and the snapshot from before the transaction.
pub open spec fn decide(
    journal: Seq<TransactionView>,
    id: u64,
    post: Option<SnapshotView>,
    current: Option<SnapshotView>,
    pre: Option<SnapshotView>,
) -> DecisionView {
    match first_with(journal, id) {
        None => DecisionView::Refuse(UndoErrorView::NotFound),
        Some(target) => if !any_success_from(journal, id) {
            DecisionView::Pop(seq![StepView::TruncateJournal(id)])
        } else {
            match (post, current, pre) {
                (None, _, _) => DecisionView::NeedPost(journal.last().id),
                (_, None, _) => DecisionView::NeedCurrent,
                (Some(post), Some(current), pre) => if current != post {
                    DecisionView::Refuse(UndoErrorView::Blocked(blocked_reason()))
                } else {
                    match pre {
                        None => DecisionView::NeedPre(id),
                        Some(pre) => DecisionView::Restore(undo_steps(target, pre)),
                    }
                },
            }
        },
    }
}

// ---------------------------------------------------------------------------
// The engine
// ---------------------------------------------------------------------------
/// The undo engine of a repository.
#[derive(Debug)]
pub struct UndoEngine {
    /// The id of the next transaction.
    pub next_id: u64,
}

/// Whether an engine that begins at `next` gives no id that is taken.
pub open spec fn is_next_id(next: u64, ids: Seq<u64>, files: Seq<Seq<char>>) -> bool {
    &&& next >= 1
    &&& forall|i: int| 0 <= i < ids.len() ==> (#[trigger] ids[i]) < next
    &&& forall|i: int|
        0 <= i < files.len() ==> (file_id(#[trigger] files[i]) matches Some(id) ==> id < next)
}

impl UndoEngine {
    /// An engine for the transactions that the journal holds and the files that
    /// stand in the undo directory: a write that crashed leaves files without
    /// an entry in the journal. The next id is the least one above all of them.
    pub fn new(ids: &Vec<u64>, files: &Vec<String>) -> (r: UndoEngine)
        requires
            forall|i: int| 0 <= i < ids@.len() ==> (#[trigger] ids@[i]) < u64::MAX,
            forall|i: int|
                0 <= i < files@.len() ==> file_id((#[trigger] files@[i])@) != Some(
                    u64::MAX as nat,
                ),
        ensures
            is_next_id(r.next_id, ids@, texts(files@)),
            forall|n: u64| #[trigger] is_next_id(n, ids@, texts(files@)) ==> r.next_id <= n,
    {
        let ghost names = texts(files@);
        let mut next_id: u64 = 1;
        let mut i: usize = 0;
        while i < ids.len()
            invariant
                i <= ids@.len(),
                forall|i: int| 0 <= i < ids@.len() ==> (#[trigger] ids@[i]) < u64::MAX,
                is_next_id(next_id, ids@.take(i as int), Seq::empty()),
                forall|n: u64| #[trigger] is_next_id(n, ids@, names) ==> next_id <= n,
            decreases ids.len() - i,
        {
            let id: u64 = ids[i];
            assert(ids@.take(i + 1) =~= ids@.take(i as int).push(id));
            assert(forall|n: u64| #[trigger] is_next_id(n, ids@, names) ==> ids@[i as int] < n);
            if next_id < id + 1 {
                next_id = id + 1;
            }
            i += 1;
        }
        assert(ids@.take(i as int) =~= ids@);
        let mut i: usize = 0;
        assert(names.take(0) =~= Seq::<Seq<char>>::empty());
        while i < files.len()
            invariant
                i <= files@.len(),
                names == texts(files@),
                forall|i: int|
                    0 <= i < files@.len() ==> file_id((#[trigger] files@[i])@) != Some(
                        u64::MAX as nat,
                    ),
                is_next_id(next_id, ids@, names.take(i as int)),
                forall|n: u64| #[trigger] is_next_id(n, ids@, names) ==> next_id <= n,
            decreases files.len() - i,
        {
            assert(names.take(i + 1) =~= names.take(i as int).push(names[i as int]));
            assert(names[i as int] == files@[i as int]@);
            if let Some(id) = snapshot_id(files[i].as_str()) {
                assert(forall|n: u64| #[trigger]
                    is_next_id(n, ids@, names) ==> file_id(names[i as int])->0 < n);
                if next_id < id + 1 {
                    next_id = id + 1;
                }
            }
            i += 1;
        }
        assert(names.take(i as int) =~= names);
        UndoEngine { next_id }
    }

    /// The file of the snapshot from before a transaction, below the git
    /// directory.
    pub fn pre_path(&self, id: u64) -> (r: String)
        ensures
            r@ == UNDO_DIR@ + "/"@ + decimal_of(id as nat) + ".pre"@,
    {
        let mut out = UNDO_DIR.to_owned();
        out.append("/");
        out.append(text::decimal(id).as_str());
        out.append(".pre");
        out
    }

    /// The file of the snapshot from after a transaction, below the git
    /// directory.
    pub fn post_path(&self, id: u64) -> (r: String)
        ensures
            r@ == UNDO_DIR@ + "/"@ + decimal_of(id as nat) + ".post"@,
    {
        let mut out = UNDO_DIR.to_owned();
        out.append("/");
        out.append(text::decimal(id).as_str());
        out.append(".post");
        out
    }

    /// Begins a transaction with the state from before the write. Its id is
    /// used up even where that state could not be read. The journal gets its
    /// entry when the transaction is committed, so a write that crashes never
    /// appears in it.
    pub fn begin(
        &mut self,
        description: &str,
        epoch: u64,
        snapshot: Result<Snapshot, String>,
    ) -> (r: Result<(u64, Vec<UndoStep>), String>)
        ensures
            final(self).next_id == if old(self).next_id == u64::MAX {
                0
            } else {
                (old(self).next_id + 1) as u64
            },
            match (r, snapshot) {
                (Ok((id, steps)), Ok(state)) => {
                    &&& id == old(self).next_id
                    &&& steps_of(steps@) == seq![
                        StepView::WritePre(
                            FileView { id, description: description@, epoch, snapshot: state@ },
                        ),
                    ]
                },
                (Err(e), Err(reason)) => e@ == reason@,
                _ => false,
            },
    {
        let id: u64 = self.next_id;
        self.next_id = if id == u64::MAX {
            0
        } else {
            id + 1
        };
        match snapshot {
            Ok(snapshot) => {
                let meta = TransactionMeta { id, description: description.to_owned(), epoch };
                let mut steps: Vec<UndoStep> = Vec::new();
                steps.push(UndoStep::WritePre(TransactionFile { meta, snapshot }));
                assert(steps_of(steps@) =~= seq![steps@[0]@]);
                Ok((id, steps))
            },
            Err(e) => Err(e),
        }
    }

    /// Commits a transaction at the time `timestamp` with the state from after
    /// the write. The snapshot is written before the entry of the journal that
    /// refers to it.
    pub fn commit_at(
        &self,
        id: u64,
        description: &str,
        epoch: u64,
        success: bool,
        snapshot: Snapshot,
        timestamp: i64,
    ) -> (r: Vec<UndoStep>)
        ensures
            steps_of(r@) == seq![
                StepView::WritePost(
                    FileView { id, description: description@, epoch, snapshot: snapshot@ },
                ),
                StepView::AppendJournal(
                    TransactionView {
                        id,
                        timestamp,
                        description: description@,
                        epoch_at_creation: epoch,
                        success,
                    },
                ),
            ],
    {
        let meta = TransactionMeta { id, description: description.to_owned(), epoch };
        let mut steps: Vec<UndoStep> = Vec::new();
        steps.push(UndoStep::WritePost(TransactionFile { meta, snapshot }));
        steps.push(
            UndoStep::AppendJournal(
                Transaction {
                    id,
                    timestamp,
                    description: description.to_owned(),
                    epoch_at_creation: epoch,
                    success,
                },
            ),
        );
        assert(steps_of(steps@) =~= seq![steps@[0]@, steps@[1]@]);
        steps
    }

    /// Commits a transaction now, with the state from after the write.
    pub fn commit(
        &self,
        id: u64,
        description: &str,
        epoch: u64,
        success: bool,
        snapshot: Result<Snapshot, String>,
    ) -> (r: Result<Vec<UndoStep>, String>)
        ensures
            match (r, snapshot) {
                (Ok(steps), Ok(state)) => exists|timestamp: i64|
                    timestamp >= 0 && steps_of(steps@) == #[trigger] commit_steps(
                        id,
                        timestamp,
                        description@,
                        epoch,
                        success,
                        state@,
                    ),
                (Err(e), Err(reason)) => e@ == reason@,
                _ => false,
            },
    {
        match snapshot {
            Ok(state) => {
                let timestamp: i64 = now();
                let ghost view = state@;
                let steps = self.commit_at(id, description, epoch, success, state, timestamp);
                assert(steps_of(steps@) == commit_steps(
                    id,
                    timestamp,
                    description@,
                    epoch,
                    success,
                    view,
                ));
                Ok(steps)
            },
            Err(e) => Err(e),
        }
    }

    /// What to do next in order to undo the transaction `transaction_id`, given
    /// what has been read so far. The current state must be the one from after
    /// the latest transaction: where references were moved by anything else,
    /// the undo is refused. All transactions from this one on are taken back.
    /// The contents of files in the worktree are not restored.
    pub fn undo(
        &self,
        transactions: &Vec<Transaction>,
        transaction_id: u64,
        post: Option<&Snapshot>,
        current: Option<&Snapshot>,
        pre: Option<&Snapshot>,
    ) -> (r: UndoDecision)
        ensures
            r@ == decide(
                transactions_of(transactions@),
                transaction_id,
                read_view(post),
                read_view(current),
                read_view(pre),
            ),
    {
        let ghost journal = transactions_of(transactions@);
        let target = match find_transaction(transactions, transaction_id) {
            Some(i) => i,
            None => return UndoDecision::Refuse(UndoError::NotFound),
        };
        let mut steps: Vec<UndoStep> = Vec::new();
        if !has_success_from(transactions, transaction_id) {
            steps.push(UndoStep::TruncateJournal(transaction_id));
            assert(steps_of(steps@) =~= seq![StepView::TruncateJournal(transaction_id)]);
            return UndoDecision::Pop(steps);
        }
        let post = match post {
            Some(s) => s,
            None => return UndoDecision::NeedPost(transactions[transactions.len() - 1].id),
        };
        let current = match current {
            Some(s) => s,
            None => return UndoDecision::NeedCurrent,
        };
        if !current.same_as(post) {
            return UndoDecision::Refuse(
                UndoError::Blocked {
                    reason: "repository state changed externally since the last workbench operation".to_owned(),
                },
            );
        }
        let pre = match pre {
            Some(s) => s,
            None => return UndoDecision::NeedPre(transaction_id),
        };
        let meta = TransactionMeta {
            id: transaction_id,
            description: transactions[target].description.clone(),
            epoch: transactions[target].epoch_at_creation,
        };
        steps.push(UndoStep::WriteMarker(TransactionFile { meta, snapshot: pre.copy() }));
        steps.push(UndoStep::TruncateJournal(transaction_id));
        steps.push(UndoStep::Restore(pre.copy()));
        steps.push(UndoStep::RemoveMarker);
        steps.push(UndoStep::Prune(transaction_id));
        assert(steps_of(steps@) =~= undo_steps(transactions@[target as int]@, pre@));
        UndoDecision::Restore(steps)
    }

    /// The steps that finish the undo that a crash has interrupted, where the
    /// note of one was found. Where the snapshot cannot be restored, the note
    /// is removed all the same.
    pub fn recover(&self, marker: Option<&TransactionFile>) -> (r: Vec<UndoStep>)
        ensures
            steps_of(r@) == match marker {
                Some(m) => recovery_steps(m@),
                None => Seq::empty(),
            },
    {
        let mut steps: Vec<UndoStep> = Vec::new();
        match marker {
            Some(m) => {
                steps.push(UndoStep::TruncateJournal(m.meta.id));
                steps.push(UndoStep::Restore(m.snapshot.copy()));
                steps.push(UndoStep::RemoveMarker);
                assert(steps_of(steps@) =~= recovery_steps(m@));
            },
            None => {
                assert(steps_of(steps@) =~= Seq::<StepView>::empty());
            },
        }
        steps
    }
}

/// The steps that commit a transaction.
pub open spec fn commit_steps(
    id: u64,
    timestamp: i64,
    description: Seq<char>,
    epoch: u64,
    success: bool,
    snapshot: SnapshotView,
) -> Seq<StepView> {
    seq![
        StepView::WritePost(FileView { id, description, epoch, snapshot }),
        StepView::AppendJournal(
            TransactionView { id, timestamp, description, epoch_at_creation: epoch, success },
        ),
    ]
}

/// Calls `chrono::Utc::now` and `chrono::DateTime::timestamp`: the seconds since
/// the start of 1970 by the clock of the machine. They depend on the clock, so
/// nothing is said of them but that they are not negative. The call panics where
/// the clock is set to a time before 1970.
#[verifier::external_body]
fn now() -> (r: i64)
    ensures
        r >= 0,
{
    chrono::Utc::now().timestamp()
}

// ---------------------------------------------------------------------------
// The audit log
// ---------------------------------------------------------------------------
/// What the audit log says of the result of a write.
pub open spec fn audit_status(result: WriteResult) -> Seq<char> {
    match result {
        WriteResult::Done(_) => "ok"@,
        WriteResult::Undo(Ok(_)) => "ok"@,
        WriteResult::Failed(_) => "err"@,
        WriteResult::Undo(Err(_)) => "err"@,
    }
}

/// An entry of the audit log.
pub open spec fn audit_json(
    timestamp: i64,
    operation: Seq<char>,
    epoch: u64,
    status: Seq<char>,
    transaction_id: u64,
) -> JsonView {
    JsonView::Object(
        map![
            "timestamp"@ => JsonView::Int(timestamp as int),
            "operation"@ => JsonView::Text(operation),
            "epoch"@ => JsonView::Int(epoch as int),
            "status"@ => JsonView::Text(status),
            "transaction_id"@ => JsonView::Int(transaction_id as int),
        ],
    )
}

/// The line of the audit log, with its line feed, for an entry.
pub open spec fn audit_line(
    timestamp: i64,
    operation: Seq<char>,
    epoch: u64,
    status: Seq<char>,
    transaction_id: u64,
) -> Seq<char> {
    json_text(audit_json(timestamp, operation, epoch, status, transaction_id)) + "\n"@
}

impl UndoEngine {
    /// The line that is added to the audit log at the time `timestamp`.
    pub fn append_audit_log_at(
        &self,
        operation: &str,
        epoch: u64,
        result: &WriteResult,
        transaction_id: u64,
        timestamp: i64,
    ) -> (r: String)
        ensures
            r@ == audit_line(timestamp, operation@, epoch, audit_status(*result), transaction_id),
    {
        let status = match result {
            WriteResult::Done(_) => "ok",
            WriteResult::Undo(Ok(_)) => "ok",
            WriteResult::Failed(_) => "err",
            WriteResult::Undo(Err(_)) => "err",
        };
        let mut v = json::object();
        json::put(&mut v, "timestamp", json::signed(timestamp));
        json::put(&mut v, "operation", json::text(operation.to_owned()));
        json::put(&mut v, "epoch", json::unsigned(epoch));
        json::put(&mut v, "status", json::text(status.to_owned()));
        json::put(&mut v, "transaction_id", json::unsigned(transaction_id));
        assert(json_view(v)->Object_0 =~= audit_json(
            timestamp,
            operation@,
            epoch,
            status@,
            transaction_id,
        )->Object_0);
        let mut out = json::print(&v);
        out.append("\n");
        out
    }

    /// The line that is added to the audit log now.
    pub fn append_audit_log(
        &self,
        operation: &str,
        epoch: u64,
        result: &WriteResult,
        transaction_id: u64,
    ) -> (r: String)
        ensures
            exists|timestamp: i64|
                timestamp >= 0 && r@ == #[trigger] audit_line(
                    timestamp,
                    operation@,
                    epoch,
                    audit_status(*result),
                    transaction_id,
                ),
    {
        let timestamp: i64 = now();
        self.append_audit_log_at(operation, epoch, result, transaction_id, timestamp)
    }
}

} // verus!
