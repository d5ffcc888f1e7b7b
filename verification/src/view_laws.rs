//! What is said of a value is said of what it holds: the contracts speak of values
//! through views, and a view leaves nothing out and changes nothing.
use crate::adapt::RawCommit;
use crate::cache::CachedCommit;
use crate::framing::{FrameError, FrameErrorView, HeaderStep, HeaderStepView, IncomingMessage};
use crate::graph::{lane_views, meta_entries, metas_of};
use crate::json::{json_view, opt_json};
use crate::lanes::rows_of;
use crate::protocol::{Commit, GraphPage, StatusItem};
use crate::queue::{QueueStep, QueueStepView, WriteNext, WriteNextView};
use crate::restore::{command_views, RefCommand, RefCommandView};
use crate::session::{
    events_of, Changes, EngineEvent, EventView, FsPath, Watch, WatchView,
};
use crate::snapshot::{entry_views, Snapshot};
use crate::status::items_of;
use crate::text::{opt_text, texts};
use crate::undo::{
    steps_of, transactions_of, DecisionView, StepView, Transaction, TransactionFile, UndoDecision,
    UndoError, UndoErrorView, UndoStep,
};
use crate::write_queue::{outcome_text, result_text, ActionView, PhaseView, RunAction, RunPhase};
use vstd::prelude::*;

verus! {

/// Lists are seen item by item, in order.
pub proof fn law_lists_are_seen_whole(
    list: Seq<String>,
    rows: Seq<Commit>,
    metas: Seq<CachedCommit>,
    items: Seq<StatusItem>,
    transactions: Seq<Transaction>,
    i: int,
)
    ensures
        texts(list).len() == list.len(),
        0 <= i < list.len() ==> texts(list)[i] == list[i]@,
        rows_of(rows).len() == rows.len(),
        0 <= i < rows.len() ==> rows_of(rows)[i] == rows[i]@,
        metas_of(metas).len() == metas.len(),
        0 <= i < metas.len() ==> metas_of(metas)[i] == metas[i]@,
        items_of(items).len() == items.len(),
        0 <= i < items.len() ==> items_of(items)[i] == items[i]@,
        transactions_of(transactions).len() == transactions.len(),
        0 <= i < transactions.len() ==> transactions_of(transactions)[i] == transactions[i]@,
{
}

/// So are steps, commands, events and pairs.
pub proof fn law_sequences_are_seen_whole(
    steps: Seq<UndoStep>,
    commands: Seq<RefCommand>,
    events: Seq<EngineEvent>,
    entries: Seq<(String, String)>,
    metas: Seq<(String, CachedCommit)>,
    lanes: Seq<(String, u16)>,
    i: int,
)
    ensures
        steps_of(steps).len() == steps.len(),
        0 <= i < steps.len() ==> steps_of(steps)[i] == steps[i]@,
        command_views(commands).len() == commands.len(),
        0 <= i < commands.len() ==> command_views(commands)[i] == commands[i]@,
        events_of(events).len() == events.len(),
        0 <= i < events.len() ==> events_of(events)[i] == events[i]@,
        entry_views(entries).len() == entries.len(),
        0 <= i < entries.len() ==> entry_views(entries)[i] == (entries[i].0@, entries[i].1@),
        meta_entries(metas).len() == metas.len(),
        0 <= i < metas.len() ==> meta_entries(metas)[i] == (metas[i].0@, metas[i].1@),
        lane_views(lanes).len() == lanes.len(),
        0 <= i < lanes.len() ==> lane_views(lanes)[i] == (lanes[i].0@, lanes[i].1),
{
}

/// What may be missing is seen where it is there.
pub proof fn law_options_are_seen(s: String, v: serde_json::Value, e: String)
    ensures
        opt_text(Some(s)) == Some(s@),
        opt_text(None) is None,
        opt_json(Some(v)) == Some(json_view(v)),
        opt_json(None) is None,
        result_text(Ok(s)) == Ok::<Seq<char>, Seq<char>>(s@),
        result_text(Err(e)) == Err::<Seq<char>, Seq<char>>(e@),
{
}

/// A commit is seen with all of its fields, as a row and as metadata.
pub proof fn law_commits_are_seen_whole(c: Commit, m: CachedCommit, r: RawCommit)
    ensures
        c@.id == c.id@,
        c@.message == c.message@,
        c@.author_name == c.author_name@,
        c@.author_email == c.author_email@,
        c@.author_time == c.author_time,
        c@.parent_ids == texts(c.parent_ids@),
        c@.lane == c.lane,
        m@.message == m.message@,
        m@.author_name == m.author_name@,
        m@.author_email == m.author_email@,
        m@.author_time == m.author_time,
        m@.parent_ids == texts(m.parent_ids@),
        r@.summary == r.summary@,
        r@.author_name == r.author_name@,
        r@.author_email == r.author_email@,
        r@.author_time == r.author_time,
        r@.parent_ids == texts(r.parent_ids@),
{
}

/// A page and an item of the status are seen with all of their fields.
pub proof fn law_answers_are_seen_whole(page: GraphPage, item: StatusItem)
    ensures
        page@.commits == rows_of(page.commits@),
        page@.total_approx == page.total_approx,
        page@.has_more == page.has_more,
        page@.epoch == page.epoch,
        page@.anchor_commit == opt_text(page.anchor_commit),
        item@.path == item.path@,
        item@.status == item.status,
        item@.old_path == opt_text(item.old_path),
        item@.staged == item.staged,
{
}

/// A snapshot, its file and a transaction are seen with all of their fields.
pub proof fn law_undo_values_are_seen_whole(s: Snapshot, f: TransactionFile, t: Transaction)
    ensures
        s@.head == s.head@,
        s@.refs == s.refs@,
        s@.stash_ref == opt_text(s.stash_ref),
        s@.index_tree == opt_text(s.index_tree),
        f@.id == f.meta.id,
        f@.description == f.meta.description@,
        f@.epoch == f.meta.epoch,
        f@.snapshot == f.snapshot@,
        t@.id == t.id,
        t@.timestamp == t.timestamp,
        t@.description == t.description@,
        t@.epoch_at_creation == t.epoch_at_creation,
        t@.success == t.success,
{
}

/// A step of an undo is seen as what it does, with what it does it with.
pub proof fn law_undo_steps_are_seen(step: UndoStep)
    ensures
        step matches UndoStep::WritePre(f) ==> step@ == StepView::WritePre(f@),
        step matches UndoStep::WritePost(f) ==> step@ == StepView::WritePost(f@),
        step matches UndoStep::AppendJournal(t) ==> step@ == StepView::AppendJournal(t@),
        step matches UndoStep::WriteMarker(f) ==> step@ == StepView::WriteMarker(f@),
        step matches UndoStep::TruncateJournal(id) ==> step@ == StepView::TruncateJournal(id),
        step matches UndoStep::Restore(s) ==> step@ == StepView::Restore(s@),
        step is RemoveMarker ==> step@ == StepView::RemoveMarker,
        step matches UndoStep::Prune(id) ==> step@ == StepView::Prune(id),
{
}

/// A decision on an undo and its error are seen as what they are.
pub proof fn law_undo_decisions_are_seen(d: UndoDecision, e: UndoError)
    ensures
        d matches UndoDecision::Refuse(why) ==> d@ == DecisionView::Refuse(why@),
        d matches UndoDecision::Pop(steps) ==> d@ == DecisionView::Pop(steps_of(steps@)),
        d matches UndoDecision::NeedPost(id) ==> d@ == DecisionView::NeedPost(id),
        d is NeedCurrent ==> d@ == DecisionView::NeedCurrent,
        d matches UndoDecision::NeedPre(id) ==> d@ == DecisionView::NeedPre(id),
        d matches UndoDecision::Restore(steps) ==> d@ == DecisionView::Restore(steps_of(steps@)),
        e is NotFound ==> e@ == UndoErrorView::NotFound,
        e matches UndoError::Blocked { reason } ==> e@ == UndoErrorView::Blocked(reason@),
        e matches UndoError::Io(m) ==> e@ == UndoErrorView::Io(m@),
        e matches UndoError::Git(m) ==> e@ == UndoErrorView::Git(m@),
{
}

/// A command on a reference is seen with its reference and its values.
pub proof fn law_ref_commands_are_seen(c: RefCommand)
    ensures
        c matches RefCommand::Update { name, target, old: held } ==> c@ == (
        RefCommandView::Update { name: name@, target: target@, old: held@ }),
        c matches RefCommand::Delete { name, old: held } ==> c@ == (RefCommandView::Delete {
            name: name@,
            old: held@,
        }),
{
}

/// Events, changes, watches and paths are seen with all that they hold.
pub proof fn law_session_values_are_seen(
    e: EngineEvent,
    c: Changes,
    w: Watch,
    path: FsPath,
    i: int,
)
    ensures
        e matches EngineEvent::RefsChanged { changed_refs, epoch } ==> e@ == (
        EventView::RefsChanged { changed_refs: texts(changed_refs@), epoch }),
        e matches EngineEvent::WorktreeChanged { paths } ==> e@ == (EventView::WorktreeChanged {
            paths: texts(paths@),
        }),
        e matches EngineEvent::IndexChanged { epoch } ==> e@ == (EventView::IndexChanged { epoch }),
        e matches EngineEvent::HeadChanged { new_head, epoch } ==> e@ == (EventView::HeadChanged {
            new_head: new_head@,
            epoch,
        }),
        e matches EngineEvent::GraphInvalidated { epoch } ==> e@ == (EventView::GraphInvalidated {
            epoch,
        }),
        c@.head_changed == c.head_changed,
        c@.index_changed == c.index_changed,
        c@.graph_invalidated == c.graph_invalidated,
        c@.changed_refs == texts(c.changed_refs@),
        c@.worktree_paths == texts(c.worktree_paths@),
        w is Worktree ==> w@ == WatchView::Worktree,
        w matches Watch::File(name) ==> w@ == WatchView::File(name@),
        w matches Watch::Directory(name) ==> w@ == WatchView::Directory(name@),
        path@.len() == path.components@.len(),
        0 <= i < path.components@.len() ==> path@[i] == path.components@[i]@,
{
}

/// What comes next in a write is seen with all that it holds.
pub proof fn law_write_values_are_seen(
    next: WriteNext,
    step: QueueStep,
    phase: RunPhase,
    action: RunAction,
)
    ensures
        next matches WriteNext::Begin { description } ==> next@ == (WriteNextView::Begin {
            description: description@,
        }),
        next is Execute ==> next@ == WriteNextView::Execute,
        next matches WriteNext::Commit { tx_id, description, success } ==> next@ == (
        WriteNextView::Commit { tx_id, description: description@, success }),
        next matches WriteNext::Finish(r, id) ==> next@ == WriteNextView::Finish(
            outcome_text(r),
            id,
        ),
        step matches QueueStep::Audit { operation, epoch, transaction_id } ==> step@ == (
        QueueStepView::Audit { operation: operation@, epoch, transaction_id }),
        step is Bump ==> step@ == QueueStepView::Bump,
        step is Reply ==> step@ == QueueStepView::Reply,
        phase is Only ==> phase@ == PhaseView::Only,
        phase is Status ==> phase@ == PhaseView::Status,
        phase is Stash ==> phase@ == PhaseView::Stash,
        phase matches RunPhase::Switch { stashed } ==> phase@ == PhaseView::Switch(stashed),
        phase matches RunPhase::PopBack { error } ==> phase@ == PhaseView::PopBack(error@),
        phase matches RunPhase::Pop { output } ==> phase@ == PhaseView::Pop(output@),
        action matches RunAction::Run(args, p) ==> action@ == ActionView::Run(texts(args@), p@),
        action matches RunAction::Finish(r) ==> action@ == ActionView::Finish(result_text(r)),
{
}

/// Messages and what a header line leads to are seen with all that they hold.
pub proof fn law_messages_are_seen(m: IncomingMessage, step: HeaderStep, e: FrameError)
    ensures
        m@.id == opt_json(m.id),
        m@.method == m.method@,
        m@.params == json_view(m.params),
        step matches HeaderStep::Body(n) ==> step@ == HeaderStepView::Body(n as nat),
        step is Eof ==> step@ == HeaderStepView::Eof,
        step matches HeaderStep::More(b) ==> (step@ matches HeaderStepView::More {
            content_length,
            header_bytes,
        } && header_bytes == b.header_bytes && (b.content_length matches Some(n) ==> content_length
            == Some(n as nat)) && (b.content_length is None ==> content_length is None)),
        e is Truncated ==> e@ == FrameErrorView::Truncated,
        e is MissingMethod ==> e@ == FrameErrorView::MissingMethod,
        e is MissingContentLength ==> e@ == FrameErrorView::MissingContentLength,
        e is HeaderNotUtf8 ==> e@ == FrameErrorView::HeaderNotUtf8,
        e is HeaderBlockTooLarge ==> e@ == FrameErrorView::HeaderBlockTooLarge,
        e is HeaderLineTooLong ==> e@ == FrameErrorView::HeaderLineTooLong,
{
}

} // verus!
