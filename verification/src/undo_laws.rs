//! What holds of the undo stack as a whole: in which order its transactions
//! stand, what an undo takes back, and what a crash can leave behind.
use crate::json::{
    json_text, law_object_text, member_texts, object_text, pretty_object, JsonView,
};
use crate::protocol::UndoEntry;
use crate::snapshot::{Snapshot, SnapshotView};
use crate::text::{
    decimal_of, digits_value, is_digit, is_whitespace, join_of, lemma_decimal_is_digits,
    lemma_decimal_round_trip, lines_of, parse_of, signed_decimal_of, split_of, texts, trim_end_of, trim_of, without_cr,
};
use crate::text_laws::{law_lines, law_stem};
use crate::undo::{
    any_success_from, audit_json, audit_line, commit_steps, content_of, decide, entry_for,
    entry_lines, file_id, first_with, insert_by_id, is_journal_line, is_next_id, is_pruned,
    journal_of, listing, recovery_steps, steps_of, transactions_of, truncated, undo_steps,
    DecisionView, FileView, StepView, Transaction, TransactionFile, TransactionView, UndoEngine,
    UndoError, UndoErrorView, UndoStep, AUDIT_LOG, JOURNAL, JOURNAL_TMP, UNDO_DIR, UNDO_MARKER,
};
use vstd::prelude::*;

verus! {

// ---------------------------------------------------------------------------
// The journal
// ---------------------------------------------------------------------------
/// Whether transactions stand by id.
pub open spec fn by_id(s: Seq<TransactionView>) -> bool {
    forall|i: int, j: int| #![trigger s[i], s[j]] 0 <= i <= j < s.len() ==> s[i].id <= s[j].id
}

/// Inserting by id keeps the order.
proof fn lemma_insert_sorted(s: Seq<TransactionView>, t: TransactionView)
    requires
        by_id(s),
    ensures
        by_id(insert_by_id(s, t)),
        insert_by_id(s, t).len() == s.len() + 1,
        insert_by_id(s, t).to_multiset() == s.to_multiset().insert(t),
        insert_by_id(s, t).last().id == if s.len() > 0 && s.last().id > t.id {
            s.last().id
        } else {
            t.id
        },
    decreases s.len(),
{
    broadcast use vstd::seq_lib::group_to_multiset_ensures;

    if s.len() > 0 && s.last().id > t.id {
        let fewer = s.drop_last();
        assert forall|i: int, j: int|
            #![trigger fewer[i], fewer[j]]
            0 <= i <= j < fewer.len() implies fewer[i].id <= fewer[j].id by {
            assert(fewer[i] == s[i] && fewer[j] == s[j]);
        }
        lemma_insert_sorted(fewer, t);
        let inner = insert_by_id(fewer, t);
        assert(fewer.len() > 0 ==> fewer.last() == s[s.len() - 2]);
        assert(s[s.len() - 1] == s.last());
        assert(inner.last().id <= s.last().id);
        let all = inner.push(s.last());
        assert forall|i: int, j: int|
            #![trigger all[i], all[j]]
            0 <= i <= j < all.len() implies all[i].id <= all[j].id by {
            assert(inner[inner.len() - 1] == inner.last());
            if j < inner.len() {
                assert(all[i] == inner[i] && all[j] == inner[j]);
            } else if i < inner.len() {
                assert(all[i] == inner[i]);
                assert(inner[i].id <= inner[inner.len() - 1].id);
            }
        }
        assert(s =~= fewer.push(s.last()));
        assert(s.to_multiset() =~= fewer.to_multiset().insert(s.last()));
        assert(all.to_multiset() =~= s.to_multiset().insert(t));
    } else {
        let all = s.push(t);
        assert forall|i: int, j: int|
            #![trigger all[i], all[j]]
            0 <= i <= j < all.len() implies all[i].id <= all[j].id by {
            if j < s.len() {
                assert(all[i] == s[i] && all[j] == s[j]);
            } else if i < s.len() {
                assert(all[i] == s[i]);
                assert(s[i].id <= s[s.len() - 1].id);
            }
        }
    }
}

/// The transactions that the lines of the journal hold, in the order of the
/// lines.
pub open spec fn held_by(parsed: Seq<Option<Transaction>>) -> Seq<TransactionView>
    decreases parsed.len(),
{
    if parsed.len() == 0 {
        Seq::empty()
    } else {
        match parsed.last() {
            Some(t) => held_by(parsed.drop_last()).push(t@),
            None => held_by(parsed.drop_last()),
        }
    }
}

/// The journal is read as the transactions that its lines hold, each as often
/// as it stands there, by id.
pub proof fn law_journal_is_sorted(parsed: Seq<Option<Transaction>>)
    ensures
        by_id(journal_of(parsed)),
        journal_of(parsed).to_multiset() == held_by(parsed).to_multiset(),
    decreases parsed.len(),
{
    broadcast use vstd::seq_lib::group_to_multiset_ensures;

    if parsed.len() > 0 {
        law_journal_is_sorted(parsed.drop_last());
        if let Some(t) = parsed.last() {
            lemma_insert_sorted(journal_of(parsed.drop_last()), t@);
            assert(held_by(parsed).to_multiset() =~= held_by(
                parsed.drop_last(),
            ).to_multiset().insert(t@));
        }
    }
}

/// A journal whose lines already stand by id is read in their order.
pub proof fn law_sorted_journal_stays(parsed: Seq<Option<Transaction>>)
    requires
        by_id(held_by(parsed)),
    ensures
        journal_of(parsed) == held_by(parsed),
    decreases parsed.len(),
{
    if parsed.len() > 0 {
        let fewer = parsed.drop_last();
        let all = held_by(parsed);
        let some = held_by(fewer);
        if let Some(t) = parsed.last() {
            assert forall|i: int, j: int|
                #![trigger some[i], some[j]]
                0 <= i <= j < some.len() implies some[i].id <= some[j].id by {
                assert(all[i] == some[i] && all[j] == some[j]);
            }
            law_sorted_journal_stays(fewer);
            if some.len() > 0 {
                assert(all[some.len() - 1] == some.last());
                assert(all[some.len() as int] == t@);
            }
        } else {
            law_sorted_journal_stays(fewer);
        }
    }
}

/// What an undo of `id` leaves in the journal is every transaction before it and
/// none from it on.
pub proof fn law_truncation_cascades(journal: Seq<TransactionView>, id: u64)
    ensures
        forall|i: int|
            0 <= i < truncated(journal, id).len() ==> (#[trigger] truncated(journal, id)[i]).id
                < id,
        forall|i: int|
            0 <= i < journal.len() && (#[trigger] journal[i]).id < id ==> truncated(
                journal,
                id,
            ).contains(journal[i]),
        forall|i: int|
            0 <= i < truncated(journal, id).len() ==> journal.contains(
                #[trigger] truncated(journal, id)[i],
            ),
        first_with(truncated(journal, id), id) is None,
{
    let kept = truncated(journal, id);
    lemma_kept(journal, id);
    lemma_first_absent(kept, id);
}

/// What a truncation keeps.
proof fn lemma_kept(journal: Seq<TransactionView>, id: u64)
    ensures
        forall|i: int|
            0 <= i < truncated(journal, id).len() ==> (#[trigger] truncated(journal, id)[i]).id
                < id && journal.contains(truncated(journal, id)[i]),
        forall|i: int|
            0 <= i < journal.len() && (#[trigger] journal[i]).id < id ==> truncated(
                journal,
                id,
            ).contains(journal[i]),
    decreases journal.len(),
{
    reveal(Seq::filter);
    if journal.len() > 0 {
        let fewer = journal.drop_last();
        let last = journal.last();
        lemma_kept(fewer, id);
        let some = truncated(fewer, id);
        let kept = truncated(journal, id);
        assert forall|i: int| 0 <= i < kept.len() implies (#[trigger] kept[i]).id < id
            && journal.contains(kept[i]) by {
            if i < some.len() {
                assert(kept[i] == some[i]);
                let k = choose|k: int| 0 <= k < fewer.len() && fewer[k] == some[i];
                assert(journal[k] == kept[i]);
            } else {
                assert(journal[journal.len() - 1] == kept[i]);
            }
        }
        assert forall|i: int| 0 <= i < journal.len() && (#[trigger] journal[i]).id < id implies
            kept.contains(journal[i]) by {
            if i < fewer.len() {
                assert(fewer[i] == journal[i]);
                let k = choose|k: int| 0 <= k < some.len() && some[k] == fewer[i];
                assert(kept[k] == journal[i]);
            } else {
                assert(kept[kept.len() - 1] == last);
            }
        }
    }
}

/// A transaction that is nowhere in a list is not found in it.
proof fn lemma_first_absent(s: Seq<TransactionView>, id: u64)
    requires
        forall|i: int| 0 <= i < s.len() ==> (#[trigger] s[i]).id != id,
    ensures
        first_with(s, id) is None,
    decreases s.len(),
{
    if s.len() > 0 {
        assert(s[s.len() - 1].id != id);
        let fewer = s.drop_last();
        assert forall|i: int| 0 <= i < fewer.len() implies (#[trigger] fewer[i]).id != id by {
            assert(fewer[i] == s[i]);
        }
        lemma_first_absent(fewer, id);
    }
}

/// Truncating a journal twice at the same transaction is truncating it once.
pub proof fn law_truncation_is_idempotent(journal: Seq<TransactionView>, id: u64)
    ensures
        truncated(truncated(journal, id), id) == truncated(journal, id),
    decreases journal.len(),
{
    reveal(Seq::filter);
    let earlier = |t: TransactionView| t.id < id;
    if journal.len() > 0 {
        law_truncation_is_idempotent(journal.drop_last(), id);
        let some = truncated(journal.drop_last(), id);
        if journal.last().id < id {
            some.lemma_filter_push(journal.last(), earlier);
        }
    }
}

/// A text splits behind its last line feed.
proof fn lemma_split_append(a: Seq<char>, line: Seq<char>)
    requires
        forall|i: int| 0 <= i < line.len() ==> (#[trigger] line[i]) != '\n',
    ensures
        split_of(a + line, '\n') == split_of(a, '\n').update(
            split_of(a, '\n').len() - 1,
            split_of(a, '\n').last() + line,
        ),
    decreases line.len(),
{
    crate::text::lemma_split_nonempty(a, '\n');
    let pieces = split_of(a, '\n');
    if line.len() == 0 {
        assert(a + line =~= a);
        assert(pieces.last() + line =~= pieces.last());
        assert(pieces.update(pieces.len() - 1, pieces.last()) =~= pieces);
    } else {
        let shorter = line.drop_last();
        assert forall|i: int| 0 <= i < shorter.len() implies (#[trigger] shorter[i]) != '\n' by {
            assert(shorter[i] == line[i]);
        }
        lemma_split_append(a, shorter);
        assert(line[line.len() - 1] == line.last());
        assert((a + line).drop_last() =~= a + shorter);
        let before = pieces.update(pieces.len() - 1, pieces.last() + shorter);
        assert(before.last() == pieces.last() + shorter);
        assert((pieces.last() + shorter).push(line.last()) =~= pieces.last() + line);
        assert(before.update(before.len() - 1, pieces.last() + line) =~= pieces.update(
            pieces.len() - 1,
            pieces.last() + line,
        ));
    }
}

/// A journal splits into its lines and an empty rest.
proof fn lemma_content_splits(lines: Seq<Seq<char>>)
    requires
        forall|i: int| 0 <= i < lines.len() ==> is_journal_line(#[trigger] lines[i]),
    ensures
        split_of(content_of(lines), '\n') == lines.push(Seq::<char>::empty()),
    decreases lines.len(),
{
    reveal_strlit("\n");
    if lines.len() == 0 {
        assert(split_of(content_of(lines), '\n') =~= lines.push(Seq::<char>::empty()));
    } else {
        let fewer = lines.drop_last();
        let last = lines.last();
        assert forall|i: int| 0 <= i < fewer.len() implies is_journal_line(#[trigger] fewer[i]) by {
            assert(fewer[i] == lines[i]);
        }
        lemma_content_splits(fewer);
        assert(is_journal_line(lines[lines.len() - 1]));
        let head = content_of(fewer);
        lemma_split_append(head, last);
        let pieces = split_of(head, '\n');
        assert(pieces.last() + last =~= last);
        assert(split_of(head + last, '\n') =~= fewer.push(last));
        let whole = content_of(lines);
        assert("\n"@ =~= seq!['\n']);
        assert(whole =~= (head + last).push('\n'));
        assert(whole.drop_last() =~= head + last);
        assert(fewer.push(last) =~= lines);
    }
}

/// What is written to the journal is read back line for line, with nothing left
/// out: a line of the journal is never blank and never holds a line break.
pub proof fn law_journal_lines_read_back(lines: Seq<Seq<char>>)
    requires
        forall|i: int| 0 <= i < lines.len() ==> is_journal_line(#[trigger] lines[i]),
    ensures
        lines_of(content_of(lines)) == lines,
        entry_lines(content_of(lines)) == lines,
{
    lemma_content_splits(lines);
    let pieces = lines.push(Seq::<char>::empty());
    assert(pieces.drop_last() =~= lines);
    assert forall|i: int| 0 <= i < lines.len() implies without_cr(#[trigger] lines[i])
        == lines[i] by {
        assert(is_journal_line(lines[i]));
        assert(lines[i][lines[i].len() - 1] >= ' ');
    }
    assert(lines.map_values(|line: Seq<char>| without_cr(line)) =~= lines);
    let filled = |line: Seq<char>| trim_of(line).len() > 0;
    assert forall|i: int| 0 <= i < lines.len() implies filled(#[trigger] lines[i]) by {
        assert(is_journal_line(lines[i]));
        lemma_trim_end_keeps(lines[i]);
    }
    lemma_filter_all(lines, filled);
}

/// A text that does not begin with whitespace is not trimmed away.
proof fn lemma_trim_end_keeps(s: Seq<char>)
    requires
        s.len() > 0,
        !is_whitespace(s[0]),
    ensures
        trim_end_of(s).len() > 0,
    decreases s.len(),
{
    if is_whitespace(s.last()) {
        assert(s.len() > 1);
        assert(s.drop_last()[0] == s[0]);
        lemma_trim_end_keeps(s.drop_last());
    }
}

/// Filtering keeps a list whose items all pass.
proof fn lemma_filter_all(s: Seq<Seq<char>>, keep: spec_fn(Seq<char>) -> bool)
    requires
        forall|i: int| 0 <= i < s.len() ==> keep(#[trigger] s[i]),
    ensures
        s.filter(keep) == s,
    decreases s.len(),
{
    reveal(Seq::filter);
    if s.len() > 0 {
        let fewer = s.drop_last();
        assert forall|i: int| 0 <= i < fewer.len() implies keep(#[trigger] fewer[i]) by {
            assert(fewer[i] == s[i]);
        }
        lemma_filter_all(fewer, keep);
        assert(keep(s[s.len() - 1]));
        assert(fewer.push(s.last()) =~= s);
    }
}

/// An engine that starts anew gives no id that a transaction in the journal or a
/// snapshot file already has.
pub proof fn law_ids_are_fresh(next: u64, ids: Seq<u64>, files: Seq<Seq<char>>, id: u64)
    requires
        is_next_id(next, ids, files),
        id >= next,
    ensures
        !ids.contains(id),
        forall|i: int| 0 <= i < files.len() ==> file_id(#[trigger] files[i]) != Some(id as nat),
{
}

// ---------------------------------------------------------------------------
// The files and the repository
// ---------------------------------------------------------------------------
/// What the undo files and the repository hold.
#[verifier::ext_equal]
pub struct Store {
    pub journal: Seq<TransactionView>,
    pub pre: Map<u64, FileView>,
    pub post: Map<u64, FileView>,
    pub marker: Option<FileView>,
    pub repo: SnapshotView,
}

/// Something that happens to the undo files or the repository as a whole: a
/// crash leaves it done or not done.
pub enum Effect {
    PutPre(FileView),
    PutPost(FileView),
    Append(TransactionView),
    PutMarker(FileView),
    Truncate(u64),
    SetRefs(SnapshotView),
    SetIndex(SnapshotView),
    SetHead(SnapshotView),
    DropMarker,
    /// Deletes the snapshots from this transaction on.
    Prune(u64),
}

/// What happens in a step, in order. A snapshot is restored in three parts: the
/// references at once, then the index, then `HEAD`.
pub open spec fn effects_of(step: StepView) -> Seq<Effect> {
    match step {
        StepView::WritePre(f) => seq![Effect::PutPre(f)],
        StepView::WritePost(f) => seq![Effect::PutPost(f)],
        StepView::AppendJournal(t) => seq![Effect::Append(t)],
        StepView::WriteMarker(f) => seq![Effect::PutMarker(f)],
        StepView::TruncateJournal(id) => seq![Effect::Truncate(id)],
        StepView::Restore(s) => seq![Effect::SetRefs(s), Effect::SetIndex(s), Effect::SetHead(s)],
        StepView::RemoveMarker => seq![Effect::DropMarker],
        StepView::Prune(id) => seq![Effect::Prune(id)],
    }
}

/// What happens in a list of steps.
pub open spec fn all_effects(steps: Seq<StepView>) -> Seq<Effect>
    decreases steps.len(),
{
    if steps.len() == 0 {
        Seq::empty()
    } else {
        all_effects(steps.drop_last()) + effects_of(steps.last())
    }
}

/// The state of a repository once a snapshot is restored: its branches and its
/// `HEAD`, and its index where the snapshot has one. The stash stays.
pub open spec fn restored(repo: SnapshotView, pre: SnapshotView) -> SnapshotView {
    SnapshotView {
        head: pre.head,
        refs: pre.refs,
        stash_ref: repo.stash_ref,
        index_tree: if pre.index_tree is Some {
            pre.index_tree
        } else {
            repo.index_tree
        },
    }
}

impl Store {
    /// What is there after one effect.
    pub open spec fn after(self, e: Effect) -> Store {
        match e {
            Effect::PutPre(f) => Store { pre: self.pre.insert(f.id, f), ..self },
            Effect::PutPost(f) => Store { post: self.post.insert(f.id, f), ..self },
            Effect::Append(t) => Store { journal: self.journal.push(t), ..self },
            Effect::PutMarker(f) => Store { marker: Some(f), ..self },
            Effect::Truncate(id) => Store { journal: truncated(self.journal, id), ..self },
            Effect::SetRefs(s) => Store {
                repo: SnapshotView { refs: s.refs, ..self.repo },
                ..self
            },
            Effect::SetIndex(s) => Store {
                repo: SnapshotView {
                    index_tree: if s.index_tree is Some {
                        s.index_tree
                    } else {
                        self.repo.index_tree
                    },
                    ..self.repo
                },
                ..self
            },
            Effect::SetHead(s) => Store {
                repo: SnapshotView { head: s.head, ..self.repo },
                ..self
            },
            Effect::DropMarker => Store { marker: None, ..self },
            Effect::Prune(id) => Store {
                pre: self.pre.restrict(Set::new(|k: u64| self.pre.contains_key(k) && k < id)),
                post: self.post.restrict(Set::new(|k: u64| self.post.contains_key(k) && k < id)),
                ..self
            },
        }
    }

    /// What is there after effects one after another.
    pub open spec fn after_all(self, effects: Seq<Effect>) -> Store
        decreases effects.len(),
    {
        if effects.len() == 0 {
            self
        } else {
            self.after_all(effects.drop_last()).after(effects.last())
        }
    }

    /// What is there once the engine has started again: an undo that was in
    /// progress is finished.
    pub open spec fn recovered(self) -> Store {
        match self.marker {
            Some(m) => self.after_all(all_effects(recovery_steps(m))),
            None => self,
        }
    }

    /// Whether every transaction of the journal has both of its snapshots.
    pub open spec fn backed(self) -> bool {
        forall|i: int|
            #![trigger self.journal[i]]
            0 <= i < self.journal.len() ==> self.pre.contains_key(self.journal[i].id)
                && self.post.contains_key(self.journal[i].id)
    }
}

/// One more effect at the end.
proof fn lemma_after_push(s: Store, effects: Seq<Effect>, e: Effect)
    ensures
        s.after_all(effects.push(e)) == s.after_all(effects).after(e),
{
    assert(effects.push(e).drop_last() =~= effects);
}

/// What happens in an undo, effect for effect.
proof fn lemma_undo_effects(target: TransactionView, pre: SnapshotView)
    ensures
        all_effects(undo_steps(target, pre)) == seq![
            Effect::PutMarker(
                FileView {
                    id: target.id,
                    description: target.description,
                    epoch: target.epoch_at_creation,
                    snapshot: pre,
                },
            ),
            Effect::Truncate(target.id),
            Effect::SetRefs(pre),
            Effect::SetIndex(pre),
            Effect::SetHead(pre),
            Effect::DropMarker,
            Effect::Prune(target.id),
        ],
{
    let steps = undo_steps(target, pre);
    reveal_with_fuel(all_effects, 6);
    assert(steps.drop_last() =~= steps.take(4));
    assert(steps.take(4).drop_last() =~= steps.take(3));
    assert(steps.take(3).drop_last() =~= steps.take(2));
    assert(steps.take(2).drop_last() =~= steps.take(1));
    assert(steps.take(1).drop_last() =~= steps.take(0));
}

/// What happens in a recovery, effect for effect.
proof fn lemma_recovery_effects(marker: FileView)
    ensures
        all_effects(recovery_steps(marker)) == seq![
            Effect::Truncate(marker.id),
            Effect::SetRefs(marker.snapshot),
            Effect::SetIndex(marker.snapshot),
            Effect::SetHead(marker.snapshot),
            Effect::DropMarker,
        ],
{
    let steps = recovery_steps(marker);
    reveal_with_fuel(all_effects, 4);
    assert(steps.drop_last() =~= steps.take(2));
    assert(steps.take(2).drop_last() =~= steps.take(1));
    assert(steps.take(1).drop_last() =~= steps.take(0));
}

/// What a recovery makes of a store.
proof fn lemma_recovered(s: Store)
    ensures
        s.marker matches Some(m) ==> s.recovered() == (Store {
            journal: truncated(s.journal, m.id),
            marker: None,
            repo: restored(s.repo, m.snapshot),
            ..s
        }),
{
    if let Some(m) = s.marker {
        lemma_recovery_effects(m);
        let effects = all_effects(recovery_steps(m));
        reveal_with_fuel(Store::after_all, 6);
        assert(effects.drop_last() =~= effects.take(4));
        assert(effects.take(4).drop_last() =~= effects.take(3));
        assert(effects.take(3).drop_last() =~= effects.take(2));
        assert(effects.take(2).drop_last() =~= effects.take(1));
        assert(effects.take(1).drop_last() =~= effects.take(0));
    }
}

/// What an undo has done after its first `n` effects.
proof fn lemma_undo_progress(s: Store, target: TransactionView, pre: SnapshotView, n: int)
    requires
        s.marker is None,
        0 <= n <= 7,
    ensures
        all_effects(undo_steps(target, pre)).len() == 7,
        ({
            let c = s.after_all(all_effects(undo_steps(target, pre)).take(n));
            &&& c.marker == if 1 <= n < 6 {
                Some(
                    FileView {
                        id: target.id,
                        description: target.description,
                        epoch: target.epoch_at_creation,
                        snapshot: pre,
                    },
                )
            } else {
                None
            }
            &&& c.journal == if n < 2 {
                s.journal
            } else {
                truncated(s.journal, target.id)
            }
            &&& restored(c.repo, pre) == restored(s.repo, pre)
            &&& n < 3 ==> c.repo == s.repo
            &&& c.repo.stash_ref == s.repo.stash_ref
            &&& n >= 3 ==> c.repo.refs == pre.refs
            &&& c.repo.index_tree == if n >= 4 {
                restored(s.repo, pre).index_tree
            } else {
                s.repo.index_tree
            }
            &&& n >= 5 ==> c.repo == restored(s.repo, pre)
            &&& n < 7 ==> c.pre == s.pre && c.post == s.post
            &&& n == 7 ==> c.pre == s.pre.restrict(
                Set::new(|k: u64| s.pre.contains_key(k) && k < target.id),
            ) && c.post == s.post.restrict(
                Set::new(|k: u64| s.post.contains_key(k) && k < target.id),
            )
        }),
    decreases n,
{
    lemma_undo_effects(target, pre);
    let effects = all_effects(undo_steps(target, pre));
    if n > 0 {
        lemma_undo_progress(s, target, pre, n - 1);
        assert(effects.take(n) =~= effects.take(n - 1).push(effects[n - 1]));
        lemma_after_push(s, effects.take(n - 1), effects[n - 1]);
    } else {
        assert(effects.take(0) =~= Seq::<Effect>::empty());
    }
}

/// An undo that runs to its end restores the snapshot, leaves no note behind and
/// takes the transaction and all later ones off the journal.
pub proof fn law_undo_restores(s: Store, target: TransactionView, pre: SnapshotView)
    requires
        s.marker is None,
    ensures
        ({
            let end = s.after_all(all_effects(undo_steps(target, pre)));
            &&& end.repo == restored(s.repo, pre)
            &&& end.journal == truncated(s.journal, target.id)
            &&& end.marker is None
        }),
{
    let effects = all_effects(undo_steps(target, pre));
    lemma_undo_progress(s, target, pre, 7);
    assert(effects.take(7) =~= effects);
}

/// Wherever an undo crashes, the next start of the engine finds it not begun or
/// finishes it: once its note is written, journal and repository end up as they
/// would have without the crash.
pub proof fn law_crashed_undo_is_finished(
    s: Store,
    target: TransactionView,
    pre: SnapshotView,
    n: int,
)
    requires
        s.marker is None,
        0 <= n <= all_effects(undo_steps(target, pre)).len(),
    ensures
        ({
            let effects = all_effects(undo_steps(target, pre));
            let crashed = s.after_all(effects.take(n)).recovered();
            let finished = s.after_all(effects);
            &&& n == 0 ==> crashed == s
            &&& n > 0 ==> {
                &&& crashed.journal == finished.journal
                &&& crashed.repo == finished.repo
                &&& crashed.marker is None
            }
        }),
{
    let effects = all_effects(undo_steps(target, pre));
    lemma_undo_progress(s, target, pre, 7);
    lemma_undo_progress(s, target, pre, n);
    assert(effects.take(7) =~= effects);
    lemma_recovered(s.after_all(effects.take(n)));
    law_truncation_is_idempotent(s.journal, target.id);
    if n == 0 {
        assert(effects.take(0) =~= Seq::<Effect>::empty());
    }
}

/// A start of the engine that itself crashes while it finishes an undo is made
/// up for by the next one.
pub proof fn law_crashed_recovery_is_finished(s: Store, n: int)
    requires
        s.marker matches Some(m) && 0 <= n <= all_effects(recovery_steps(m)).len(),
    ensures
        s.marker matches Some(m) && {
            let crashed = s.after_all(all_effects(recovery_steps(m)).take(n)).recovered();
            &&& crashed.journal == s.recovered().journal
            &&& crashed.repo == s.recovered().repo
            &&& crashed.marker is None
        },
{
    let m = s.marker->0;
    let effects = all_effects(recovery_steps(m));
    lemma_recovery_effects(m);
    lemma_recovered(s);
    lemma_recovery_progress(s, m, n);
    lemma_recovered(s.after_all(effects.take(n)));
    law_truncation_is_idempotent(s.journal, m.id);
}

/// What a recovery has done after its first `n` effects.
proof fn lemma_recovery_progress(s: Store, m: FileView, n: int)
    requires
        s.marker == Some(m),
        0 <= n <= 5,
    ensures
        ({
            let c = s.after_all(all_effects(recovery_steps(m)).take(n));
            &&& c.marker == if n < 5 {
                Some(m)
            } else {
                None
            }
            &&& c.journal == if n < 1 {
                s.journal
            } else {
                truncated(s.journal, m.id)
            }
            &&& restored(c.repo, m.snapshot) == restored(s.repo, m.snapshot)
            &&& c.repo.stash_ref == s.repo.stash_ref
            &&& n >= 2 ==> c.repo.refs == m.snapshot.refs
            &&& c.repo.index_tree == if n >= 3 {
                restored(s.repo, m.snapshot).index_tree
            } else {
                s.repo.index_tree
            }
            &&& n >= 4 ==> c.repo == restored(s.repo, m.snapshot)
        }),
    decreases n,
{
    lemma_recovery_effects(m);
    let effects = all_effects(recovery_steps(m));
    if n > 0 {
        lemma_recovery_progress(s, m, n - 1);
        assert(effects.take(n) =~= effects.take(n - 1).push(effects[n - 1]));
        lemma_after_push(s, effects.take(n - 1), effects[n - 1]);
    } else {
        assert(effects.take(0) =~= Seq::<Effect>::empty());
    }
}

/// A snapshot that is restored twice gives what it gives when restored once.
pub proof fn law_restoring_is_idempotent(repo: SnapshotView, pre: SnapshotView)
    ensures
        restored(restored(repo, pre), pre) == restored(repo, pre),
{
}

/// A write that has begun, and crashes before it is committed, never appears in
/// the journal, and its snapshot keeps its id from being given again.
pub proof fn law_begun_write_is_not_journaled(s: Store, f: FileView)
    ensures
        s.after_all(all_effects(seq![StepView::WritePre(f)])).journal == s.journal,
        s.after_all(all_effects(seq![StepView::WritePre(f)])).pre.contains_key(f.id),
        s.backed() ==> s.after_all(all_effects(seq![StepView::WritePre(f)])).backed(),
{
    let steps = seq![StepView::WritePre(f)];
    reveal_with_fuel(all_effects, 2);
    assert(steps.drop_last() =~= Seq::<StepView>::empty());
    let none = Seq::<Effect>::empty();
    assert(all_effects(steps) =~= none.push(Effect::PutPre(f)));
    lemma_after_push(s, none, Effect::PutPre(f));
    assert(s.after_all(none) == s);
    let after = s.after(Effect::PutPre(f));
    if s.backed() {
        assert forall|i: int| #![trigger after.journal[i]] 0 <= i < after.journal.len() implies
            after.pre.contains_key(after.journal[i].id) && after.post.contains_key(
            after.journal[i].id,
        ) by {
            assert(after.journal[i] == s.journal[i]);
        }
    }
}

/// What happens in a commit, effect for effect.
proof fn lemma_commit_effects(
    id: u64,
    timestamp: i64,
    description: Seq<char>,
    epoch: u64,
    success: bool,
    snapshot: SnapshotView,
)
    ensures
        all_effects(commit_steps(id, timestamp, description, epoch, success, snapshot)) == seq![
            Effect::PutPost(FileView { id, description, epoch, snapshot }),
            Effect::Append(
                TransactionView { id, timestamp, description, epoch_at_creation: epoch, success },
            ),
        ],
{
    let steps = commit_steps(id, timestamp, description, epoch, success, snapshot);
    reveal_with_fuel(all_effects, 3);
    assert(steps.drop_last() =~= steps.take(1));
    assert(steps.take(1).drop_last() =~= steps.take(0));
}

/// What a commit makes of a store: the snapshot from after the write is there,
/// and the transaction is the last of the journal.
pub proof fn lemma_committed(
    s: Store,
    id: u64,
    timestamp: i64,
    description: Seq<char>,
    epoch: u64,
    success: bool,
    snapshot: SnapshotView,
)
    ensures
        s.after_all(
            all_effects(commit_steps(id, timestamp, description, epoch, success, snapshot)),
        ) == (Store {
            post: s.post.insert(id, FileView { id, description, epoch, snapshot }),
            journal: s.journal.push(
                TransactionView { id, timestamp, description, epoch_at_creation: epoch, success },
            ),
            ..s
        }),
{
    lemma_commit_effects(id, timestamp, description, epoch, success, snapshot);
    let effects = all_effects(
        commit_steps(id, timestamp, description, epoch, success, snapshot),
    );
    let none = Seq::<Effect>::empty();
    assert(effects =~= none.push(effects[0]).push(effects[1]));
    lemma_after_push(s, none, effects[0]);
    lemma_after_push(s, none.push(effects[0]), effects[1]);
    assert(s.after_all(none) == s);
}

/// The ids of transactions.
pub open spec fn ids_of(journal: Seq<TransactionView>) -> Seq<u64> {
    journal.map_values(|t: TransactionView| t.id)
}

/// Whether transactions stand by id, no id twice.
pub open spec fn strictly_by_id(s: Seq<TransactionView>) -> bool {
    forall|i: int, j: int| #![trigger s[i], s[j]] 0 <= i < j < s.len() ==> s[i].id < s[j].id
}

/// A write that is begun changes nothing in the list of transactions; once it is
/// committed, whether it has worked or not, it leads the list, and the others
/// follow as they were. The ids in the list go down strictly, the next id is
/// again above all of them, and an engine that starts anew reads the same
/// journal.
pub proof fn law_committed_write_leads_the_list(
    s: Store,
    files: Seq<Seq<char>>,
    id: u64,
    timestamp: i64,
    description: Seq<char>,
    epoch: u64,
    success: bool,
    before: SnapshotView,
    after: SnapshotView,
    limit: nat,
)
    requires
        strictly_by_id(s.journal),
        is_next_id(id, ids_of(s.journal), files),
        limit >= 1,
    ensures
        ({
            let f = FileView { id, description, epoch, snapshot: before };
            let t = TransactionView {
                id,
                timestamp,
                description,
                epoch_at_creation: epoch,
                success,
            };
            let begun = s.after_all(all_effects(seq![StepView::WritePre(f)]));
            let done = begun.after_all(
                all_effects(commit_steps(id, timestamp, description, epoch, success, after)),
            );
            let old_list = listing(s.journal, limit);
            let list = listing(done.journal, limit);
            &&& listing(begun.journal, limit) == old_list
            &&& done.journal == insert_by_id(s.journal, t)
            &&& list == seq![t] + old_list.take(
                if old_list.len() < limit {
                    old_list.len() as int
                } else {
                    limit - 1
                },
            )
            &&& forall|i: int, j: int|
                #![trigger list[i], list[j]]
                0 <= i < j < list.len() ==> list[i].id > list[j].id
            &&& strictly_by_id(done.journal)
            &&& id < u64::MAX ==> is_next_id((id + 1) as u64, ids_of(done.journal), files)
            &&& forall|parsed: Seq<Option<Transaction>>| #[trigger]
                held_by(parsed) == done.journal ==> journal_of(parsed) == done.journal
        }),
{
    let f = FileView { id, description, epoch, snapshot: before };
    let t = TransactionView { id, timestamp, description, epoch_at_creation: epoch, success };
    let begun = s.after_all(all_effects(seq![StepView::WritePre(f)]));
    let done = begun.after_all(
        all_effects(commit_steps(id, timestamp, description, epoch, success, after)),
    );
    law_begun_write_is_not_journaled(s, f);
    lemma_committed(begun, id, timestamp, description, epoch, success, after);
    assert(done.journal == s.journal.push(t));
    let ids = ids_of(s.journal);
    assert forall|i: int| 0 <= i < s.journal.len() implies (#[trigger] s.journal[i]).id < id by {
        assert(ids[i] == s.journal[i].id);
    }
    if s.journal.len() > 0 {
        assert(s.journal[s.journal.len() - 1].id < id);
    }
    let old_list = listing(s.journal, limit);
    let list = listing(done.journal, limit);
    assert(list =~= seq![t] + old_list.take(
        if old_list.len() < limit {
            old_list.len() as int
        } else {
            limit - 1
        },
    ));
    assert(strictly_by_id(done.journal)) by {
        assert forall|i: int, j: int|
            #![trigger done.journal[i], done.journal[j]]
            0 <= i < j < done.journal.len() implies done.journal[i].id < done.journal[j].id by {
            assert(done.journal[i] == s.journal[i]);
            if j < s.journal.len() {
                assert(done.journal[j] == s.journal[j]);
            }
        }
    }
    assert forall|i: int, j: int|
        #![trigger list[i], list[j]]
        0 <= i < j < list.len() implies list[i].id > list[j].id by {
        let n = done.journal.len();
        assert(done.journal[n - 1 - j].id < done.journal[n - 1 - i].id);
    }
    let new_ids = ids_of(done.journal);
    assert forall|i: int| 0 <= i < new_ids.len() implies (#[trigger] new_ids[i]) < id + 1 by {
        assert(new_ids[i] == done.journal[i].id);
        if i < s.journal.len() {
            assert(done.journal[i] == s.journal[i]);
        }
    }
    assert forall|parsed: Seq<Option<Transaction>>| #[trigger] held_by(parsed)
        == done.journal implies journal_of(parsed) == done.journal by {
        assert(by_id(done.journal)) by {
            assert forall|i: int, j: int|
                #![trigger done.journal[i], done.journal[j]]
                0 <= i <= j < done.journal.len() implies done.journal[i].id
                <= done.journal[j].id by {
                if i < j {
                    assert(done.journal[i].id < done.journal[j].id);
                }
            }
        }
        law_sorted_journal_stays(parsed);
    }
}

/// Wherever a commit crashes, every transaction of the journal has both of its
/// snapshots: the entry is added only once the second one is written.
pub proof fn law_commit_keeps_journal_backed(
    s: Store,
    id: u64,
    timestamp: i64,
    description: Seq<char>,
    epoch: u64,
    success: bool,
    snapshot: SnapshotView,
    n: int,
)
    requires
        s.backed(),
        s.pre.contains_key(id),
        0 <= n <= 2,
    ensures
        s.after_all(
            all_effects(
                commit_steps(id, timestamp, description, epoch, success, snapshot),
            ).take(n),
        ).backed(),
{
    lemma_commit_effects(id, timestamp, description, epoch, success, snapshot);
    let effects = all_effects(
        commit_steps(id, timestamp, description, epoch, success, snapshot),
    );
    let none = Seq::<Effect>::empty();
    assert(effects.take(0) =~= none);
    assert(effects.take(1) =~= none.push(effects[0]));
    assert(effects.take(2) =~= none.push(effects[0]).push(effects[1]));
    lemma_after_push(s, none, effects[0]);
    lemma_after_push(s, none.push(effects[0]), effects[1]);
    assert(s.after_all(none) == s);
    let one = s.after(effects[0]);
    assert(one.backed());
    let two = one.after(effects[1]);
    assert forall|i: int| #![trigger two.journal[i]] 0 <= i < two.journal.len() implies
        two.pre.contains_key(two.journal[i].id) && two.post.contains_key(two.journal[i].id) by {
        if i < s.journal.len() {
            assert(two.journal[i] == s.journal[i]);
        }
    }
}

/// Wherever an undo crashes, every transaction of the journal has both of its
/// snapshots: those that are deleted belong to none of them.
pub proof fn law_undo_keeps_journal_backed(
    s: Store,
    target: TransactionView,
    pre: SnapshotView,
    n: int,
)
    requires
        s.backed(),
        s.marker is None,
        0 <= n <= 7,
    ensures
        s.after_all(all_effects(undo_steps(target, pre)).take(n)).backed(),
{
    lemma_undo_progress(s, target, pre, n);
    let c = s.after_all(all_effects(undo_steps(target, pre)).take(n));
    if n >= 2 {
        law_truncation_cascades(s.journal, target.id);
        assert forall|i: int| #![trigger c.journal[i]] 0 <= i < c.journal.len() implies
            c.pre.contains_key(c.journal[i].id) && c.post.contains_key(c.journal[i].id) by {
            let t = c.journal[i];
            assert(t == truncated(s.journal, target.id)[i]);
            assert(s.journal.contains(t));
            let k = choose|k: int| 0 <= k < s.journal.len() && s.journal[k] == t;
            assert(s.journal[k].id < target.id);
        }
    }
}

/// Every transaction from the given one on is taken back, whether that one itself
/// had failed or not: where any of them has changed the repository, the undo
/// restores the state from before the given one, and the journal holds only what
/// came before it.
pub proof fn law_undo_takes_all_back(s: Store, id: u64, pre: SnapshotView)
    requires
        s.marker is None,
        first_with(s.journal, id) is Some,
        any_success_from(s.journal, id),
    ensures
        decide(s.journal, id, Some(s.repo), Some(s.repo), Some(pre)) matches DecisionView::Restore(
            steps,
        ) && {
            let end = s.after_all(all_effects(steps));
            &&& end.repo == restored(s.repo, pre)
            &&& end.journal == truncated(s.journal, id)
            &&& end.marker is None
        },
{
    let target = first_with(s.journal, id)->0;
    lemma_first_has_id(s.journal, id);
    law_undo_restores(s, target, pre);
}

/// The transaction that is found is the one that was looked for.
proof fn lemma_first_has_id(s: Seq<TransactionView>, id: u64)
    ensures
        first_with(s, id) matches Some(t) ==> t.id == id && s.contains(t),
    decreases s.len(),
{
    if s.len() > 0 {
        let fewer = s.drop_last();
        lemma_first_has_id(fewer, id);
        if let Some(t) = first_with(fewer, id) {
            let k = choose|k: int| 0 <= k < fewer.len() && fewer[k] == t;
            assert(s[k] == t);
        } else {
            assert(s[s.len() - 1] == s.last());
        }
    }
}

/// An undo that restores nothing takes nothing out of reach: every transaction
/// that it takes off the journal had failed.
pub proof fn law_popped_writes_had_failed(
    journal: Seq<TransactionView>,
    id: u64,
    post: Option<SnapshotView>,
    current: Option<SnapshotView>,
    pre: Option<SnapshotView>,
    i: int,
)
    requires
        decide(journal, id, post, current, pre) is Pop,
        0 <= i < journal.len(),
        journal[i].id >= id,
    ensures
        !journal[i].success,
{
}

/// An undo restores only where the repository is as the latest transaction left
/// it: where anything else has moved a reference since, it is refused.
pub proof fn law_undo_is_blocked_by_changes(
    journal: Seq<TransactionView>,
    id: u64,
    post: SnapshotView,
    current: SnapshotView,
    pre: Option<SnapshotView>,
)
    requires
        first_with(journal, id) is Some,
        any_success_from(journal, id),
        current != post,
    ensures
        decide(journal, id, Some(post), Some(current), pre) matches DecisionView::Refuse(
            UndoErrorView::Blocked(_),
        ),
{
}

// ---------------------------------------------------------------------------
// What is shown, found and decided
// ---------------------------------------------------------------------------
/// The list of transactions has the newest first, then the others back to the
/// oldest, as many as were asked for or as there are, each as the journal has it.
pub proof fn law_newest_come_first(
    journal: Seq<TransactionView>,
    limit: nat,
    i: int,
    e: UndoEntry,
)
    ensures
        listing(journal, limit).len() <= limit,
        listing(journal, limit).len() <= journal.len(),
        listing(journal, limit).len() == limit || listing(journal, limit).len() == journal.len(),
        0 <= i < listing(journal, limit).len() ==> listing(journal, limit)[i]
            == journal[journal.len() - 1 - i],
        0 <= i < journal.len() && entry_for(journal[i], e) ==> {
            &&& e.id == journal[i].id
            &&& e.timestamp == journal[i].timestamp
            &&& e.description@ == journal[i].description
            &&& e.epoch_at_creation == journal[i].epoch_at_creation
        },
{
}

/// A transaction is found exactly where the journal has one with its id, and then
/// it is the first of them.
pub proof fn law_first_transaction_is_found(journal: Seq<TransactionView>, id: u64, i: int)
    ensures
        first_with(journal, id) is None <==> forall|k: int|
            0 <= k < journal.len() ==> (#[trigger] journal[k]).id != id,
        0 <= i < journal.len() && journal[i].id == id && (forall|k: int|
            0 <= k < i ==> (#[trigger] journal[k]).id != id) ==> first_with(journal, id) == Some(
            journal[i],
        ),
    decreases journal.len(),
{
    if journal.len() > 0 {
        let fewer = journal.drop_last();
        law_first_transaction_is_found(fewer, id, i);
        lemma_first_has_id(fewer, id);
        assert forall|k: int| 0 <= k < fewer.len() implies #[trigger] journal[k] == fewer[k] by {}
        assert(journal[journal.len() - 1] == journal.last());
        if first_with(fewer, id) is Some {
            let t = first_with(fewer, id)->0;
            let k = choose|k: int| 0 <= k < fewer.len() && fewer[k] == t;
            assert(journal[k].id == id);
        } else {
            assert forall|k: int| 0 <= k < fewer.len() implies (#[trigger] journal[k]).id != id by {
                assert(fewer[k].id != id);
            }
        }
    }
}

/// How an undo is decided. It is refused where there is no such transaction; it
/// only takes the transactions off the journal where each of them had failed; and
/// else it asks for the state from after the latest transaction, for the current
/// state, and, where these are the same, for the state from before the one to
/// undo, which is then restored.
pub proof fn law_undo_is_decided(
    journal: Seq<TransactionView>,
    i: int,
    id: u64,
    post: SnapshotView,
    current: SnapshotView,
    pre: SnapshotView,
    some_current: Option<SnapshotView>,
    some_pre: Option<SnapshotView>,
)
    requires
        0 <= i < journal.len(),
        journal[i].id == id,
        forall|k: int| 0 <= k < i ==> (#[trigger] journal[k]).id != id,
    ensures
        (forall|k: int|
            0 <= k < journal.len() && (#[trigger] journal[k]).id >= id ==> !journal[k].success)
            ==> decide(journal, id, Some(post), some_current, some_pre) == DecisionView::Pop(
            seq![StepView::TruncateJournal(id)],
        ),
        (exists|k: int|
            0 <= k < journal.len() && (#[trigger] journal[k]).id >= id && journal[k].success) ==> {
            &&& decide(journal, id, None, some_current, some_pre) == DecisionView::NeedPost(
                journal[journal.len() - 1].id,
            )
            &&& decide(journal, id, Some(post), None, some_pre) == DecisionView::NeedCurrent
            &&& current != post ==> decide(journal, id, Some(post), Some(current), some_pre)
                == DecisionView::Refuse(
                UndoErrorView::Blocked(
                    "repository state changed externally since the last workbench operation"@,
                ),
            )
            &&& decide(journal, id, Some(post), Some(post), None) == DecisionView::NeedPre(id)
            &&& decide(journal, id, Some(post), Some(post), Some(pre)) == DecisionView::Restore(
                seq![
                    StepView::WriteMarker(
                        FileView {
                            id,
                            description: journal[i].description,
                            epoch: journal[i].epoch_at_creation,
                            snapshot: pre,
                        },
                    ),
                    StepView::TruncateJournal(id),
                    StepView::Restore(pre),
                    StepView::RemoveMarker,
                    StepView::Prune(id),
                ],
            )
        },
{
    law_first_transaction_is_found(journal, id, i);
}

/// An undo of a transaction that the journal does not have is refused, whatever
/// else is known.
pub proof fn law_unknown_transactions_are_refused(
    journal: Seq<TransactionView>,
    id: u64,
    post: Option<SnapshotView>,
    current: Option<SnapshotView>,
    pre: Option<SnapshotView>,
)
    requires
        forall|k: int| 0 <= k < journal.len() ==> (#[trigger] journal[k]).id != id,
    ensures
        decide(journal, id, post, current, pre) == DecisionView::Refuse(UndoErrorView::NotFound),
{
    law_first_transaction_is_found(journal, id, 0);
}

/// The files of the snapshots belong to the transaction that their names give, and
/// a name that gives no number belongs to none.
pub proof fn law_snapshot_files_are_known(id: u64, name: Seq<char>, extension: Seq<char>)
    requires
        !extension.contains('.'),
        name.len() > 0,
        name != seq!['.'] || extension.len() > 0,
    ensures
        file_id(decimal_of(id as nat) + ".pre"@) == Some(id as nat),
        file_id(decimal_of(id as nat) + ".post"@) == Some(id as nat),
        parse_of(name, u64::MAX as nat) is Err ==> file_id(name + seq!['.'] + extension) is None,
        parse_of(name, u64::MAX as nat) matches Ok(n) ==> file_id(name + seq!['.'] + extension)
            == Some(n),
{
    reveal_strlit(".pre");
    reveal_strlit(".post");
    reveal_strlit("pre");
    reveal_strlit("post");
    let digits = decimal_of(id as nat);
    lemma_decimal_is_digits(id as nat);
    lemma_decimal_round_trip(id as nat, u64::MAX as nat);
    assert(is_digit(digits[0]));
    assert(digits != seq!['.']);
    assert(!"pre"@.contains('.')) by {
        assert("pre"@ =~= seq!['p', 'r', 'e']);
    }
    assert(!"post"@.contains('.')) by {
        assert("post"@ =~= seq!['p', 'o', 's', 't']);
    }
    law_stem(digits, "pre"@);
    law_stem(digits, "post"@);
    assert(digits + ".pre"@ =~= digits + seq!['.'] + "pre"@);
    assert(digits + ".post"@ =~= digits + seq!['.'] + "post"@);
    law_stem(name, extension);
}

/// The entry of the journal for a transaction holds all of it, in one line.
pub proof fn law_journal_line(t: Transaction)
    ensures
        t.line_text() == "{"@ + "\"id\""@ + ":"@ + decimal_of(t.id as nat) + ","@
            + "\"timestamp\""@ + ":"@ + signed_decimal_of(t.timestamp as int) + ","@
            + "\"description\""@ + ":"@ + json_text(JsonView::Text(t.description@)) + ","@
            + "\"epoch_at_creation\""@ + ":"@ + decimal_of(t.epoch_at_creation as nat) + ","@
            + "\"success\""@ + ":"@ + (if t.success {
            "true"@
        } else {
            "false"@
        }) + "}"@,
{
    reveal_strlit("}");
    let m = t.members();
    let none = Seq::<(Seq<char>, Seq<char>)>::empty();
    let m1 = seq![m[0]];
    let m2 = m1.push(m[1]);
    let m3 = m2.push(m[2]);
    let m4 = m3.push(m[3]);
    assert(m =~= m4.push(m[4]));
    law_object_text(none, m[0].0, m[0].1);
    law_object_text(m1, m[1].0, m[1].1);
    law_object_text(m2, m[2].0, m[2].1);
    law_object_text(m3, m[3].0, m[3].1);
    law_object_text(m4, m[4].0, m[4].1);
    let o1 = "{"@ + m[0].0 + ":"@ + m[0].1;
    let o2 = o1 + ","@ + m[1].0 + ":"@ + m[1].1;
    let o3 = o2 + ","@ + m[2].0 + ":"@ + m[2].1;
    let o4 = o3 + ","@ + m[3].0 + ":"@ + m[3].1;
    assert(object_text(m1).drop_last() =~= o1);
    assert(object_text(m2).drop_last() =~= o2);
    assert(object_text(m3).drop_last() =~= o3);
    assert(object_text(m4).drop_last() =~= o4);
}

/// An entry of the audit log says when which operation ended how, at which epoch
/// and in which transaction.
pub proof fn law_audit_entries(
    timestamp: i64,
    operation: Seq<char>,
    epoch: u64,
    status: Seq<char>,
    transaction_id: u64,
)
    ensures
        ({
            let entry = audit_json(timestamp, operation, epoch, status, transaction_id);
            &&& entry.member("timestamp"@) == Some(JsonView::Int(timestamp as int))
            &&& entry.member("operation"@) == Some(JsonView::Text(operation))
            &&& entry.member("epoch"@) == Some(JsonView::Int(epoch as int))
            &&& entry.member("status"@) == Some(JsonView::Text(status))
            &&& entry.member("transaction_id"@) == Some(JsonView::Int(transaction_id as int))
            &&& audit_line(timestamp, operation, epoch, status, transaction_id) == json_text(entry)
                + "\n"@
        }),
{
    reveal_strlit("timestamp");
    reveal_strlit("operation");
    reveal_strlit("epoch");
    reveal_strlit("status");
    reveal_strlit("transaction_id");
    assert("timestamp"@.len() == 9 && "operation"@.len() == 9 && "epoch"@.len() == 5
        && "status"@.len() == 6 && "transaction_id"@.len() == 14);
    assert("timestamp"@[0] == 't' && "operation"@[0] == 'o');
}

/// Lines of the journal that are blank are passed over, and all others are read.
pub proof fn law_blank_lines_are_passed_over(line: Seq<char>, rest: Seq<char>)
    requires
        !line.contains('\n'),
        line.len() > 0 ==> line.last() != '\r',
    ensures
        entry_lines(line + seq!['\n'] + rest) == if trim_of(line).len() > 0 {
            seq![line] + entry_lines(rest)
        } else {
            entry_lines(rest)
        },
{
    law_lines(line, rest);
    let keep = |l: Seq<char>| trim_of(l).len() > 0;
    Seq::filter_distributes_over_add(seq![line], lines_of(rest), keep);
    reveal(Seq::filter);
    let none = Seq::<Seq<char>>::empty();
    assert(seq![line].drop_last() =~= none);
    assert(none.filter(keep) =~= none);
    assert(seq![line].filter(keep) =~= if trim_of(line).len() > 0 {
        seq![line]
    } else {
        none
    });
    assert(none + entry_lines(rest) =~= entry_lines(rest));
}

/// What is done to commit a transaction and to finish an undo: the state from after
/// a write is written before the entry that refers to it; and an undo that was cut
/// off is finished from its note, which goes last.
pub proof fn law_commits_and_recoveries(
    id: u64,
    timestamp: i64,
    description: Seq<char>,
    epoch: u64,
    success: bool,
    snapshot: SnapshotView,
    marker: FileView,
)
    ensures
        ({
            let steps = commit_steps(id, timestamp, description, epoch, success, snapshot);
            &&& steps.len() == 2
            &&& steps[0] matches StepView::WritePost(f) && f.id == id && f.description
                == description && f.epoch == epoch && f.snapshot == snapshot
            &&& steps[1] matches StepView::AppendJournal(t) && t.id == id && t.timestamp
                == timestamp && t.description == description && t.epoch_at_creation == epoch
                && t.success == success
        }),
        ({
            let steps = recovery_steps(marker);
            &&& steps.len() == 3
            &&& steps[0] == StepView::TruncateJournal(marker.id)
            &&& steps[1] == StepView::Restore(marker.snapshot)
            &&& steps[2] == StepView::RemoveMarker
        }),
{
}

/// A transaction that is begun gets the next id, which is used up in any case, and
/// its first step is to write the state from before the write.
pub proof fn law_transactions_begin(
    engine: &mut UndoEngine,
    description: &str,
    epoch: u64,
    snapshot: Result<Snapshot, String>,
    r: Result<(u64, Vec<UndoStep>), String>,
)
    requires
        call_ensures(UndoEngine::begin, (engine, description, epoch, snapshot), r),
        old(engine).next_id < u64::MAX,
    ensures
        final(engine).next_id == old(engine).next_id + 1,
        r is Ok <==> snapshot is Ok,
        r matches Ok((id, steps)) ==> {
            &&& id == old(engine).next_id
            &&& steps@.len() == 1
            &&& steps@[0] matches UndoStep::WritePre(f) && f.meta.id == id && f.meta.description@
                == description@ && f.meta.epoch == epoch && Ok::<SnapshotView, Seq<char>>(
                f.snapshot@,
            ) == (match snapshot {
                Ok(s) => Ok::<SnapshotView, Seq<char>>(s@),
                Err(e) => Err::<SnapshotView, Seq<char>>(e@),
            })
        },
        snapshot matches Err(e) ==> (r matches Err(m) && m@ == e@),
{
    if let Ok((id, steps)) = r {
        assert(steps_of(steps@).len() == steps@.len());
        assert(steps_of(steps@)[0] == steps@[0]@);
    }
}

/// A transaction that is committed leaves the state from after the write and then
/// its entry in the journal, with its own id, description, epoch and success.
pub proof fn law_transactions_are_committed(
    engine: UndoEngine,
    id: u64,
    description: &str,
    epoch: u64,
    success: bool,
    snapshot: Snapshot,
    timestamp: i64,
    r: Vec<UndoStep>,
)
    requires
        call_ensures(
            UndoEngine::commit_at,
            (&engine, id, description, epoch, success, snapshot, timestamp),
            r,
        ),
    ensures
        r@.len() == 2,
        r@[0] matches UndoStep::WritePost(f) && f.meta.id == id && f.meta.description@
            == description@ && f.meta.epoch == epoch && f.snapshot@ == snapshot@,
        r@[1] matches UndoStep::AppendJournal(t) && t.id == id && t.timestamp == timestamp
            && t.description@ == description@ && t.epoch_at_creation == epoch && t.success
            == success,
{
    assert(steps_of(r@).len() == r@.len());
    assert(steps_of(r@)[0] == r@[0]@);
    assert(steps_of(r@)[1] == r@[1]@);
}

/// A client is shown the newest transactions of the journal, back to the oldest,
/// each with what the journal has of it.
pub proof fn law_transactions_are_listed(
    engine: UndoEngine,
    transactions: Vec<Transaction>,
    limit: u32,
    r: Vec<UndoEntry>,
    i: int,
)
    requires
        call_ensures(UndoEngine::list_transactions, (&engine, &transactions, limit), r),
    ensures
        r@.len() == if transactions@.len() < limit {
            transactions@.len() as int
        } else {
            limit as int
        },
        0 <= i < r@.len() ==> {
            let t = transactions@[transactions@.len() - 1 - i];
            &&& r@[i].id == t.id
            &&& r@[i].timestamp == t.timestamp
            &&& r@[i].description@ == t.description@
            &&& r@[i].epoch_at_creation == t.epoch_at_creation
        },
{
    let all = transactions_of(transactions@);
    law_newest_come_first(all, limit as nat, i, r@[i]);
    if 0 <= i < r@.len() {
        assert(entry_for(listing(all, limit as nat)[i], r@[i]));
        assert(all[all.len() - 1 - i] == transactions@[transactions@.len() - 1 - i]@);
    }
}

/// The states from before and after a transaction stand in files of their own, from
/// whose names the transaction is known; they are deleted with it and with every
/// earlier one that is undone.
pub proof fn law_snapshot_files(
    engine: UndoEngine,
    id: u64,
    other: u64,
    pre: String,
    post: String,
    name: &str,
    pruned: bool,
)
    requires
        call_ensures(UndoEngine::pre_path, (&engine, id), pre),
        call_ensures(UndoEngine::post_path, (&engine, id), post),
        call_ensures(is_pruned, (name, other), pruned),
    ensures
        pre@ == "git-workbench/undo"@ + "/"@ + decimal_of(id as nat) + ".pre"@,
        post@ == "git-workbench/undo"@ + "/"@ + decimal_of(id as nat) + ".post"@,
        name@ == decimal_of(id as nat) + ".pre"@ ==> (pruned <==> id >= other),
        name@ == decimal_of(id as nat) + ".post"@ ==> (pruned <==> id >= other),
        file_id(name@) is None ==> !pruned,
{
    let x = seq!['x'];
    assert(x[0] != seq!['.'][0]);
    assert(!Seq::<char>::empty().contains('.'));
    law_snapshot_files_are_known(id, x, Seq::<char>::empty());
}

/// The file of a snapshot holds the transaction that it belongs to and the state.
pub proof fn law_snapshot_file_text(f: TransactionFile)
    ensures
        ({
            let line = "\n"@ + "  "@ + "  "@;
            let next = ","@ + line;
            let meta = "{"@ + line + ("\"id\""@ + ": "@ + decimal_of(f.meta.id as nat) + next
                + ("\"description\""@ + ": "@ + json_text(JsonView::Text(f.meta.description@)))
                + next + ("\"epoch\""@ + ": "@ + decimal_of(f.meta.epoch as nat))) + "\n"@ + "  "@
                + "}"@;
            let outer = "\n"@ + ""@ + "  "@;
            f.content_text() == "{"@ + outer + ("\"meta\""@ + ": "@ + meta + (","@ + outer) + (
            "\"snapshot\""@ + ": "@ + f.snapshot.pretty_text("  "@))) + "\n"@ + ""@ + "}"@
        }),
{
    let m = f.meta.members();
    let t = member_texts(m, ": "@);
    let line = "\n"@ + "  "@ + "  "@;
    let next = ","@ + line;
    assert(t.drop_last() =~= seq![t[0], t[1]]);
    assert(seq![t[0], t[1]].drop_last() =~= seq![t[0]]);
    reveal_with_fuel(join_of, 4);
    assert(join_of(t, next) == t[0] + next + t[1] + next + t[2]);
    let both = seq![
        ("\"meta\""@, pretty_object(m, "  "@)),
        ("\"snapshot\""@, f.snapshot.pretty_text("  "@)),
    ];
    let u = member_texts(both, ": "@);
    let outer = "\n"@ + ""@ + "  "@;
    assert(u.drop_last() =~= seq![u[0]]);
    assert(join_of(u, ","@ + outer) == u[0] + (","@ + outer) + u[1]);
}

/// A step that fails in an undo is told as what it was: a failure of the repository
/// where a state could not be restored, and else one of a file; that files which
/// are no longer needed stay behind is not told.
pub proof fn law_failed_steps_are_told(
    step: UndoStep,
    reason: String,
    r: Option<UndoError>,
    recovered: Option<String>,
)
    requires
        call_ensures(UndoStep::error, (&step, reason), r),
        call_ensures(UndoStep::recovery_error, (&step, reason), recovered),
    ensures
        r is None <==> step is Prune,
        step is Restore ==> (r matches Some(UndoError::Git(m)) && m@ == reason@),
        step is TruncateJournal || step is WriteMarker || step is WritePre || step is WritePost
            || step is AppendJournal ==> (r matches Some(UndoError::Io(m)) && m@ == reason@),
        step is RemoveMarker ==> (r matches Some(UndoError::Io(m)) && m@
            == "failed to remove undo marker: "@ + reason@),
        recovered is None <==> step is Restore,
        recovered matches Some(m) ==> m@ == reason@,
{
}

/// An engine begins with the least id above all that the journal and the files
/// know, and with 1 where they know none.
pub proof fn law_next_id_is_least(ids: Vec<u64>, files: Vec<String>, r: UndoEngine)
    requires
        call_ensures(UndoEngine::new, (&ids, &files), r),
    ensures
        r.next_id >= 1,
        forall|i: int| 0 <= i < ids@.len() ==> (#[trigger] ids@[i]) < r.next_id,
        forall|i: int|
            0 <= i < files@.len() ==> (file_id((#[trigger] files@[i])@) matches Some(id) ==> id
                < r.next_id),
        r.next_id == 1 || (exists|i: int|
            0 <= i < ids@.len() && (#[trigger] ids@[i]) == r.next_id - 1) || (exists|i: int|
            0 <= i < files@.len() && file_id((#[trigger] files@[i])@) == Some(
                (r.next_id - 1) as nat,
            )),
{
    let names = texts(files@);
    let n = r.next_id;
    assert(is_next_id(n, ids@, names));
    assert forall|i: int| 0 <= i < files@.len() implies (file_id((#[trigger] files@[i])@) matches
        Some(id) ==> id < n) by {
        assert(names[i] == files@[i]@);
    }
    if n > 1 {
        let less = (n - 1) as u64;
        assert(!is_next_id(less, ids@, names));
        if forall|i: int| 0 <= i < ids@.len() ==> (#[trigger] ids@[i]) < less {
            let i = choose|i: int|
                0 <= i < names.len() && !(file_id(#[trigger] names[i]) matches Some(id) ==> id
                    < less);
            assert(names[i] == files@[i]@);
            assert(file_id(names[i])->0 < n);
            assert(file_id(files@[i]@) == Some((n - 1) as nat));
        } else {
            let i = choose|i: int| 0 <= i < ids@.len() && !((#[trigger] ids@[i]) < less);
            assert(ids@[i] == n - 1);
        }
    }
}

/// What is left of a journal is taken from it part by part: a transaction before
/// the given one stays in its place, and any other goes.
pub proof fn law_truncation_keeps_order(
    first: Seq<TransactionView>,
    second: Seq<TransactionView>,
    id: u64,
    t: TransactionView,
)
    ensures
        truncated(first + second, id) == truncated(first, id) + truncated(second, id),
        t.id < id ==> truncated(seq![t], id) == seq![t],
        t.id >= id ==> truncated(seq![t], id).len() == 0,
{
    let keep = |t: TransactionView| t.id < id;
    Seq::filter_distributes_over_add(first, second, keep);
    reveal(Seq::filter);
    let none = Seq::<TransactionView>::empty();
    assert(seq![t].drop_last() =~= none);
    assert(none.filter(keep) =~= none);
    assert(seq![t].filter(keep) =~= if t.id < id {
        seq![t]
    } else {
        none
    });
}

/// Transactions with the same id keep the order of their lines.
pub proof fn law_equal_ids_keep_their_order(parsed: Seq<Option<Transaction>>, id: u64)
    ensures
        journal_of(parsed).filter(|t: TransactionView| t.id == id) == held_by(parsed).filter(
            |t: TransactionView| t.id == id,
        ),
    decreases parsed.len(),
{
    let same = |t: TransactionView| t.id == id;
    if parsed.len() > 0 {
        let fewer = parsed.drop_last();
        law_equal_ids_keep_their_order(fewer, id);
        law_journal_is_sorted(fewer);
        if let Some(t) = parsed.last() {
            lemma_insert_filtered(journal_of(fewer), t@, id);
            held_by(fewer).lemma_filter_push(t@, same);
            if t@.id == id {
                assert(held_by(fewer).push(t@).filter(same) =~= held_by(fewer).filter(same).push(
                    t@,
                ));
            }
        }
    }
}

/// A transaction that is inserted comes last among those with its id.
proof fn lemma_insert_filtered(s: Seq<TransactionView>, t: TransactionView, id: u64)
    requires
        by_id(s),
    ensures
        insert_by_id(s, t).filter(|t: TransactionView| t.id == id) == if t.id == id {
            s.filter(|t: TransactionView| t.id == id).push(t)
        } else {
            s.filter(|t: TransactionView| t.id == id)
        },
    decreases s.len(),
{
    let same = |t: TransactionView| t.id == id;
    s.lemma_filter_push(t, same);
    if !(s.len() == 0 || s.last().id <= t.id) {
        let fewer = s.drop_last();
        let last = s.last();
        assert(by_id(fewer)) by {
            assert forall|i: int, j: int|
                #![trigger fewer[i], fewer[j]]
                0 <= i <= j < fewer.len() implies fewer[i].id <= fewer[j].id by {
                assert(s[i].id <= s[j].id);
            }
        }
        lemma_insert_filtered(fewer, t, id);
        insert_by_id(fewer, t).lemma_filter_push(last, same);
        fewer.lemma_filter_push(last, same);
        assert(fewer.push(last) =~= s);
    }
}

/// The journal, the file it is rewritten through and the note of an undo have fixed
/// names, which belong to no transaction.
pub proof fn law_other_files_belong_to_no_transaction()
    ensures
        JOURNAL@ == "journal.jsonl"@,
        JOURNAL_TMP@ == "journal.jsonl.tmp"@,
        UNDO_MARKER@ == "undo-in-progress.json"@,
        AUDIT_LOG@ == "git-workbench/audit.log"@,
        UNDO_DIR@ == "git-workbench/undo"@,
        file_id(JOURNAL@) is None,
        file_id(UNDO_MARKER@) is None,
{
    reveal_strlit("journal.jsonl");
    reveal_strlit("undo-in-progress.json");
    reveal_strlit("journal");
    reveal_strlit("jsonl");
    reveal_strlit("undo-in-progress");
    reveal_strlit("json");
    assert("journal.jsonl"@ =~= "journal"@ + seq!['.'] + "jsonl"@);
    assert("undo-in-progress.json"@ =~= "undo-in-progress"@ + seq!['.'] + "json"@);
    assert(!"jsonl"@.contains('.')) by {
        assert("jsonl"@ =~= seq!['j', 's', 'o', 'n', 'l']);
    }
    assert(!"json"@.contains('.')) by {
        assert("json"@ =~= seq!['j', 's', 'o', 'n']);
    }
    law_snapshot_files_are_known(0, "journal"@, "jsonl"@);
    law_snapshot_files_are_known(0, "undo-in-progress"@, "json"@);
    assert("journal"@[0] == 'j');
    assert("undo-in-progress"@[0] == 'u');
    lemma_no_number("journal"@, u64::MAX as nat, 1);
    lemma_no_number("undo-in-progress"@, u64::MAX as nat, 1);
    assert("journal"@.take("journal"@.len() as int) =~= "journal"@);
    assert("undo-in-progress"@.take("undo-in-progress"@.len() as int) =~= "undo-in-progress"@);
    lemma_no_number("journal"@, u64::MAX as nat, "journal"@.len() as int);
    lemma_no_number("undo-in-progress"@, u64::MAX as nat, "undo-in-progress"@.len() as int);
}

/// A text that begins with no digit and no plus sign is no number.
proof fn lemma_no_number(s: Seq<char>, max: nat, n: int)
    requires
        1 <= n <= s.len(),
        !is_digit(s[0]),
        s[0] != '+',
    ensures
        digits_value(s.take(n), max) is Err,
        n == s.len() ==> parse_of(s, max) is Err,
    decreases n,
{
    let some = s.take(n);
    if n > 1 {
        lemma_no_number(s, max, n - 1);
        assert(some.drop_last() =~= s.take(n - 1));
    } else {
        assert(some.drop_last() =~= Seq::<char>::empty());
        assert(some.last() == s[0]);
    }
    if n == s.len() {
        assert(some =~= s);
    }
}

} // verus!
