//! The write queue: the order in which a write is carried out and settled.
//!
//! Writes are taken one after another. A write is a transaction of the undo
//! stack: it is begun, then `git` runs, then it is committed, and what comes
//! next is decided by what has come of it so far. Once the result is there the
//! write is settled: it is noted in the audit log, the epoch is bumped where it
//! has changed the repository, and whoever asked for it gets an answer.
use crate::session::EventView;
use crate::snapshot::SnapshotView;
use crate::undo::{audit_line, audit_status, commit_steps, TransactionView};
use crate::undo_laws::{all_effects, lemma_committed, Store};
use crate::write_queue;
use crate::write_queue::{
    outcome_text, result_text, succeeded, summary_of, WriteCommand, WriteResult,
};
use vstd::prelude::*;

verus! {

// ---------------------------------------------------------------------------
// Carrying out a write
// ---------------------------------------------------------------------------
/// What comes next in a write that is no undo.
#[derive(Debug)]
pub enum WriteNext {
    /// Its transaction is begun, under this description.
    Begin { description: String },
    /// `git` is run for it, as often as the command asks for it.
    Execute,
    /// Its transaction is committed.
    Commit { tx_id: u64, description: String, success: bool },
    /// It is over, in this transaction (0 for none).
    Finish(WriteResult, u64),
}

/// What comes next in a write, over texts.
pub enum WriteNextView {
    Begin { description: Seq<char> },
    Execute,
    Commit { tx_id: u64, description: Seq<char>, success: bool },
    Finish(Result<Seq<char>, Seq<char>>, u64),
}

impl View for WriteNext {
    type V = WriteNextView;

    open spec fn view(&self) -> WriteNextView {
        match self {
            WriteNext::Begin { description } => WriteNextView::Begin { description: description@ },
            WriteNext::Execute => WriteNextView::Execute,
            WriteNext::Commit { tx_id, description, success } => WriteNextView::Commit {
                tx_id: *tx_id,
                description: description@,
                success: *success,
            },
            WriteNext::Finish(r, tx_id) => WriteNextView::Finish(outcome_text(*r), *tx_id),
        }
    }
}

/// What a write reports, given what came of the run and of the commit.
pub open spec fn write_report(
    executed: Result<Seq<char>, Seq<char>>,
    committed: Result<(), Seq<char>>,
) -> Result<Seq<char>, Seq<char>> {
    match (executed, committed) {
        (Ok(output), Ok(())) => Ok(output),
        (Ok(_), Err(e)) => Err(
            "git operation succeeded but is NOT undoable (journal write failed): "@ + e,
        ),
        (Err(e), _) => Err(e),
    }
}

/// What comes next in the write `cmd`, given what has come of it so far: of
/// beginning its transaction, of the runs of `git`, and of committing it.
pub open spec fn write_decision(
    cmd: WriteCommand,
    begun: Option<Result<u64, Seq<char>>>,
    executed: Option<Result<Seq<char>, Seq<char>>>,
    committed: Option<Result<(), Seq<char>>>,
) -> WriteNextView {
    match begun {
        None => WriteNextView::Begin { description: summary_of(cmd.shape()) },
        Some(Err(e)) => WriteNextView::Finish(Err("undo snapshot failed: "@ + e), 0),
        Some(Ok(tx_id)) => match executed {
            None => WriteNextView::Execute,
            Some(executed) => match committed {
                None => WriteNextView::Commit {
                    tx_id,
                    description: summary_of(cmd.shape()),
                    success: executed is Ok,
                },
                Some(committed) => WriteNextView::Finish(write_report(executed, committed), tx_id),
            },
        },
    }
}

/// What has come of beginning a transaction.
pub open spec fn begun_text(r: Option<Result<u64, String>>) -> Option<Result<u64, Seq<char>>> {
    match r {
        None => None,
        Some(Ok(id)) => Some(Ok(id)),
        Some(Err(e)) => Some(Err(e@)),
    }
}

/// What has come of the runs of `git`.
pub open spec fn executed_text(r: Option<Result<String, String>>) -> Option<
    Result<Seq<char>, Seq<char>>,
> {
    match r {
        None => None,
        Some(r) => Some(result_text(r)),
    }
}

/// What has come of committing a transaction.
pub open spec fn committed_text(r: Option<Result<(), String>>) -> Option<Result<(), Seq<char>>> {
    match r {
        None => None,
        Some(Ok(())) => Some(Ok(())),
        Some(Err(e)) => Some(Err(e@)),
    }
}

/// What comes next in the write `cmd`, given what has come of it so far.
pub fn write_next(
    cmd: &WriteCommand,
    begun: &Option<Result<u64, String>>,
    executed: &Option<Result<String, String>>,
    committed: &Option<Result<(), String>>,
) -> (r: WriteNext)
    ensures
        r@ == write_decision(
            *cmd,
            begun_text(*begun),
            executed_text(*executed),
            committed_text(*committed),
        ),
        r matches WriteNext::Finish(result, _) ==> !(result is Undo),
{
    let tx_id: u64 = match begun {
        None => return WriteNext::Begin { description: cmd.op_summary() },
        Some(Err(e)) => {
            let (result, tx_id) = write_queue::begin_failed(e.as_str());
            return WriteNext::Finish(result, tx_id);
        },
        Some(Ok(id)) => *id,
    };
    let executed = match executed {
        None => return WriteNext::Execute,
        Some(Ok(output)) => Ok(output.clone()),
        Some(Err(e)) => Err(e.clone()),
    };
    match committed {
        None => WriteNext::Commit {
            tx_id,
            description: cmd.op_summary(),
            success: match executed {
                Ok(_) => true,
                Err(_) => false,
            },
        },
        Some(committed) => {
            let committed = match committed {
                Ok(()) => Ok(()),
                Err(e) => Err(e.clone()),
            };
            let (result, tx_id) = write_queue::run_write(tx_id, executed, committed);
            WriteNext::Finish(result, tx_id)
        },
    }
}

// ---------------------------------------------------------------------------
// Settling a write
// ---------------------------------------------------------------------------
/// What is done once the result of a write is there.
#[derive(Debug)]
pub enum QueueStep {
    /// The write is noted in the audit log.
    Audit { operation: String, epoch: u64, transaction_id: u64 },
    /// The epoch is bumped, and an undo is announced.
    Bump,
    /// Whoever asked for the write gets its result.
    Reply,
}

/// What is done once the result of a write is there, over texts.
pub enum QueueStepView {
    Audit { operation: Seq<char>, epoch: u64, transaction_id: u64 },
    Bump,
    Reply,
}

impl View for QueueStep {
    type V = QueueStepView;

    open spec fn view(&self) -> QueueStepView {
        match self {
            QueueStep::Audit { operation, epoch, transaction_id } => QueueStepView::Audit {
                operation: operation@,
                epoch: *epoch,
                transaction_id: *transaction_id,
            },
            QueueStep::Bump => QueueStepView::Bump,
            QueueStep::Reply => QueueStepView::Reply,
        }
    }
}

/// What the steps of a list are.
pub open spec fn queue_steps_of(s: Seq<QueueStep>) -> Seq<QueueStepView> {
    s.map_values(|t: QueueStep| t@)
}

/// What is done, in this order, to settle a write that began at the epoch
/// `epoch`.
pub open spec fn settling(
    cmd: WriteCommand,
    epoch: u64,
    result: WriteResult,
    transaction_id: u64,
) -> Seq<QueueStepView> {
    let audit = QueueStepView::Audit { operation: summary_of(cmd.shape()), epoch, transaction_id };
    if succeeded(result) {
        seq![audit, QueueStepView::Bump, QueueStepView::Reply]
    } else {
        seq![audit, QueueStepView::Reply]
    }
}

/// What is done, in this order, to settle a write that began at the epoch
/// `epoch`: it is noted in the audit log, the epoch is bumped where it has
/// changed the repository, and only then it is answered.
pub fn settle(cmd: &WriteCommand, epoch: u64, result: &WriteResult, transaction_id: u64) -> (r: Vec<
    QueueStep,
>)
    ensures
        queue_steps_of(r@) == settling(*cmd, epoch, *result, transaction_id),
{
    let mut steps: Vec<QueueStep> = Vec::new();
    steps.push(QueueStep::Audit { operation: cmd.op_summary(), epoch, transaction_id });
    if result.is_success() {
        steps.push(QueueStep::Bump);
    }
    steps.push(QueueStep::Reply);
    assert(queue_steps_of(steps@) =~= settling(*cmd, epoch, *result, transaction_id));
    steps
}

// ---------------------------------------------------------------------------
// The queue as a whole
// ---------------------------------------------------------------------------
/// A write that the queue has carried out, and when it was settled.
pub struct QueueRun {
    pub cmd: WriteCommand,
    pub result: WriteResult,
    pub transaction_id: u64,
    pub timestamp: i64,
}

/// What shows of the queue.
pub enum QueueEffect {
    /// A line is added to the audit log.
    Audited(Seq<char>),
    /// The epoch is now this one.
    Bumped(int),
    /// An event is announced.
    Emitted(EventView),
    /// A write is answered.
    Replied(WriteResult),
}

/// What shows of one step of settling a write, at the epoch `epoch`.
pub open spec fn shown_by(step: QueueStepView, run: QueueRun, epoch: int) -> Seq<QueueEffect> {
    match step {
        QueueStepView::Audit { operation, epoch, transaction_id } => seq![
            QueueEffect::Audited(
                audit_line(
                    run.timestamp,
                    operation,
                    epoch,
                    audit_status(run.result),
                    transaction_id,
                ),
            ),
        ],
        QueueStepView::Bump => if run.cmd is Undo {
            seq![
                QueueEffect::Bumped(epoch + 1),
                QueueEffect::Emitted(EventView::GraphInvalidated { epoch: (epoch + 1) as u64 }),
            ]
        } else {
            seq![QueueEffect::Bumped(epoch + 1)]
        },
        QueueStepView::Reply => seq![QueueEffect::Replied(run.result)],
    }
}

/// What shows of steps of settling a write that began at the epoch `epoch`.
pub open spec fn shown_by_all(steps: Seq<QueueStepView>, run: QueueRun, epoch: int) -> Seq<
    QueueEffect,
>
    decreases steps.len(),
{
    if steps.len() == 0 {
        Seq::empty()
    } else {
        shown_by_all(steps.drop_last(), run, epoch) + shown_by(steps.last(), run, epoch)
    }
}

/// What shows of a write that began at the epoch `epoch`.
pub open spec fn shown(run: QueueRun, epoch: int) -> Seq<QueueEffect> {
    shown_by_all(settling(run.cmd, epoch as u64, run.result, run.transaction_id), run, epoch)
}

/// The epoch after writes one after another, where nothing else bumps it.
pub open spec fn epoch_after(start: int, runs: Seq<QueueRun>) -> int
    decreases runs.len(),
{
    if runs.len() == 0 {
        start
    } else {
        epoch_after(start, runs.drop_last()) + if succeeded(runs.last().result) {
            1int
        } else {
            0int
        }
    }
}

/// What shows of writes one after another, where nothing else bumps the epoch.
pub open spec fn queue_trace(start: int, runs: Seq<QueueRun>) -> Seq<QueueEffect>
    decreases runs.len(),
{
    if runs.len() == 0 {
        Seq::empty()
    } else {
        queue_trace(start, runs.drop_last()) + shown(
            runs.last(),
            epoch_after(start, runs.drop_last()),
        )
    }
}

// ---------------------------------------------------------------------------
// Laws
// ---------------------------------------------------------------------------
/// Writes are settled one at a time and in order: what shows of the write `i`
/// follows on what shows of those before it, and comes before all that follows.
/// It is one line of the audit log, with the summary of the write and the epoch
/// before it; then, if and only if the write has changed the repository, the
/// epoch that is one higher, and for an undo the announcement of it; and one
/// answer at the end.
pub proof fn law_queue_settles_in_order(start: u64, runs: Seq<QueueRun>, i: int)
    requires
        0 <= i < runs.len(),
        epoch_after(start as int, runs) <= u64::MAX,
    ensures
        ({
            let run = runs[i];
            let epoch = epoch_after(start as int, runs.take(i));
            let before = queue_trace(start as int, runs.take(i));
            let with = queue_trace(start as int, runs.take(i + 1));
            let audited = QueueEffect::Audited(
                audit_line(
                    run.timestamp,
                    summary_of(run.cmd.shape()),
                    epoch as u64,
                    audit_status(run.result),
                    run.transaction_id,
                ),
            );
            let replied = QueueEffect::Replied(run.result);
            let announced = QueueEffect::Emitted(
                EventView::GraphInvalidated { epoch: (epoch + 1) as u64 },
            );
            &&& start <= epoch <= start + i
            &&& epoch_after(start as int, runs.take(i + 1)) <= u64::MAX
            &&& epoch_after(start as int, runs.take(i + 1)) == if succeeded(run.result) {
                epoch + 1
            } else {
                epoch
            }
            &&& with == before + (if !succeeded(run.result) {
                seq![audited, replied]
            } else if run.cmd is Undo {
                seq![audited, QueueEffect::Bumped(epoch + 1), announced, replied]
            } else {
                seq![audited, QueueEffect::Bumped(epoch + 1), replied]
            })
            &&& with.is_prefix_of(queue_trace(start as int, runs))
        }),
{
    let run = runs[i];
    let some = runs.take(i + 1);
    let epoch = epoch_after(start as int, runs.take(i));
    assert(some.drop_last() =~= runs.take(i));
    assert(some.last() == run);
    lemma_epoch_grows(start as int, runs.take(i));
    lemma_epoch_never_falls(start as int, runs, i + 1);
    lemma_shown(run, epoch);
    lemma_trace_grows(start as int, runs, i + 1);
}

/// The epoch after the first writes is at most the one after all of them.
proof fn lemma_epoch_never_falls(start: int, runs: Seq<QueueRun>, n: int)
    requires
        0 <= n <= runs.len(),
    ensures
        epoch_after(start, runs.take(n)) <= epoch_after(start, runs),
    decreases runs.len(),
{
    if n < runs.len() {
        let fewer = runs.drop_last();
        assert(fewer.take(n) =~= runs.take(n));
        lemma_epoch_never_falls(start, fewer, n);
    } else {
        assert(runs.take(n) =~= runs);
    }
}

/// The epoch grows by at most one with each write.
proof fn lemma_epoch_grows(start: int, runs: Seq<QueueRun>)
    ensures
        start <= epoch_after(start, runs) <= start + runs.len(),
    decreases runs.len(),
{
    if runs.len() > 0 {
        lemma_epoch_grows(start, runs.drop_last());
    }
}

/// What shows of the first writes stays as it is when more follow.
proof fn lemma_trace_grows(start: int, runs: Seq<QueueRun>, n: int)
    requires
        0 <= n <= runs.len(),
    ensures
        queue_trace(start, runs.take(n)).is_prefix_of(queue_trace(start, runs)),
    decreases runs.len(),
{
    if n < runs.len() {
        let fewer = runs.drop_last();
        assert(fewer.take(n) =~= runs.take(n));
        lemma_trace_grows(start, fewer, n);
        let some = queue_trace(start, runs.take(n));
        let most = queue_trace(start, fewer);
        let all = queue_trace(start, runs);
        assert(some =~= all.subrange(0, some.len() as int)) by {
            assert forall|k: int| 0 <= k < some.len() implies some[k] == all[k] by {
                assert(some[k] == most.subrange(0, some.len() as int)[k]);
            }
        }
    } else {
        assert(runs.take(n) =~= runs);
    }
}

/// What shows of a write, effect for effect.
proof fn lemma_shown(run: QueueRun, epoch: int)
    ensures
        ({
            let audited = QueueEffect::Audited(
                audit_line(
                    run.timestamp,
                    summary_of(run.cmd.shape()),
                    epoch as u64,
                    audit_status(run.result),
                    run.transaction_id,
                ),
            );
            let replied = QueueEffect::Replied(run.result);
            let announced = QueueEffect::Emitted(
                EventView::GraphInvalidated { epoch: (epoch + 1) as u64 },
            );
            shown(run, epoch) == (if !succeeded(run.result) {
                seq![audited, replied]
            } else if run.cmd is Undo {
                seq![audited, QueueEffect::Bumped(epoch + 1), announced, replied]
            } else {
                seq![audited, QueueEffect::Bumped(epoch + 1), replied]
            })
        }),
{
    let steps = settling(run.cmd, epoch as u64, run.result, run.transaction_id);
    reveal_with_fuel(shown_by_all, 4);
    assert(steps.take(0) =~= Seq::<QueueStepView>::empty());
    assert(steps.take(1).drop_last() =~= steps.take(0));
    assert(steps.take(2).drop_last() =~= steps.take(1));
    if succeeded(run.result) {
        assert(steps.drop_last() =~= steps.take(2));
    } else {
        assert(steps.drop_last() =~= steps.take(1));
    }
}

/// A write that is reported as a success is in the journal: its transaction was
/// begun, it was committed with success and the summary of the command as its
/// description, and that worked.
pub proof fn law_reported_success_is_journaled(
    s: Store,
    cmd: WriteCommand,
    begun: Result<u64, Seq<char>>,
    executed: Result<Seq<char>, Seq<char>>,
    committed: Result<(), Seq<char>>,
    tx_id: u64,
    timestamp: i64,
    epoch: u64,
    state: SnapshotView,
)
    requires
        write_decision(cmd, Some(begun), Some(executed), Some(committed)) matches
            WriteNextView::Finish(Ok(_), id) && id == tx_id,
    ensures
        begun == Ok::<u64, Seq<char>>(tx_id),
        committed is Ok,
        write_decision(cmd, Some(begun), Some(executed), None) == (WriteNextView::Commit {
            tx_id,
            description: summary_of(cmd.shape()),
            success: true,
        }),
        s.after_all(
            all_effects(
                commit_steps(tx_id, timestamp, summary_of(cmd.shape()), epoch, true, state),
            ),
        ).journal == s.journal.push(
            TransactionView {
                id: tx_id,
                timestamp,
                description: summary_of(cmd.shape()),
                epoch_at_creation: epoch,
                success: true,
            },
        ),
{
    lemma_committed(s, tx_id, timestamp, summary_of(cmd.shape()), epoch, true, state);
}

/// A write whose transaction cannot be begun is over at once: `git` is not run,
/// nothing is committed, and there is no transaction.
pub proof fn law_failed_begin_runs_nothing(
    cmd: WriteCommand,
    reason: Seq<char>,
    executed: Option<Result<Seq<char>, Seq<char>>>,
    committed: Option<Result<(), Seq<char>>>,
)
    ensures
        write_decision(cmd, Some(Err(reason)), executed, committed) == WriteNextView::Finish(
            Err("undo snapshot failed: "@ + reason),
            0,
        ),
{
}

/// A write goes its way in this order: its transaction is begun under its summary,
/// `git` is run, the transaction is committed with whether that has worked, and it
/// is over, with what `git` printed where all of that has worked.
pub proof fn law_writes_go_in_order(
    cmd: WriteCommand,
    tx_id: u64,
    executed: Result<Seq<char>, Seq<char>>,
    committed: Result<(), Seq<char>>,
    early: Option<Result<Seq<char>, Seq<char>>>,
    late: Option<Result<(), Seq<char>>>,
)
    ensures
        write_decision(cmd, None, early, late) == (WriteNextView::Begin {
            description: summary_of(cmd.shape()),
        }),
        write_decision(cmd, Some(Ok(tx_id)), None, late) == WriteNextView::Execute,
        write_decision(cmd, Some(Ok(tx_id)), Some(executed), None) == (WriteNextView::Commit {
            tx_id,
            description: summary_of(cmd.shape()),
            success: executed is Ok,
        }),
        write_decision(cmd, Some(Ok(tx_id)), Some(executed), Some(committed)) matches
            WriteNextView::Finish(report, id) && {
            &&& id == tx_id
            &&& report is Ok <==> executed is Ok && committed is Ok
            &&& report is Ok ==> report == executed
            &&& executed is Err ==> report == executed
            &&& executed is Ok ==> (committed matches Err(e) ==> report == Err::<
                Seq<char>,
                Seq<char>,
            >("git operation succeeded but is NOT undoable (journal write failed): "@ + e))
        },
{
}

/// Every write is noted in the audit log and answered, in this order, once each;
/// in between the epoch is bumped exactly where the write has succeeded.
pub proof fn law_writes_are_settled(
    cmd: WriteCommand,
    epoch: u64,
    result: WriteResult,
    transaction_id: u64,
)
    ensures
        ({
            let steps = settling(cmd, epoch, result, transaction_id);
            &&& steps[0] == (QueueStepView::Audit {
                operation: summary_of(cmd.shape()),
                epoch,
                transaction_id,
            })
            &&& steps.last() == QueueStepView::Reply
            &&& succeeded(result) ==> steps.len() == 3 && steps[1] == QueueStepView::Bump
            &&& !succeeded(result) ==> steps.len() == 2
        }),
        audit_status(result) == if succeeded(result) {
            "ok"@
        } else {
            "err"@
        },
{
}

} // verus!
