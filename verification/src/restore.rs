//! Bringing a repository back to a snapshot.
//!
//! References are restored by one script for `git update-ref --stdin`, which
//! takes effect as a whole or not at all. Only references that differ from the
//! snapshot are touched. Each command names the value that its reference has
//! now, so that a change from outside in the meantime stops the whole script.
//! The index follows, and `HEAD` comes last, so that the branch it names exists
//! by then.
use crate::names;
use crate::names::{full_ref_fault, is_object_id, sha_fault, NameError, NameFault};
use crate::snapshot::{distinct_names, entry_map, lemma_entry_map, Snapshot};
use crate::text;
use crate::text::{is_hex_digit, is_whitespace, texts, trim_of};
use crate::text_laws::{law_after_prefix, law_trim_keeps};
use crate::undo::UndoEngine;
use vstd::prelude::*;
use vstd::string::*;

verus! {

broadcast use vstd::string::group_string_axioms;

// ---------------------------------------------------------------------------
// Commands on references
// ---------------------------------------------------------------------------
/// A command for `git update-ref --stdin`.
#[derive(Debug, Clone)]
pub enum RefCommand {
    /// Sets `name` from `old`, or creates it where `old` is the zero id.
    Update { name: String, target: String, old: String },
    /// Deletes `name`, which points at `old`.
    Delete { name: String, old: String },
}

/// What a command holds.
pub enum RefCommandView {
    Update { name: Seq<char>, target: Seq<char>, old: Seq<char> },
    Delete { name: Seq<char>, old: Seq<char> },
}

impl View for RefCommand {
    type V = RefCommandView;

    open spec fn view(&self) -> RefCommandView {
        match self {
            RefCommand::Update { name, target, old } => RefCommandView::Update {
                name: name@,
                target: target@,
                old: old@,
            },
            RefCommand::Delete { name, old } => RefCommandView::Delete { name: name@, old: old@ },
        }
    }
}

/// What the commands of a list hold.
pub open spec fn command_views(s: Seq<RefCommand>) -> Seq<RefCommandView> {
    s.map_values(|c: RefCommand| c@)
}

/// The object id that stands for a reference that does not exist.
pub open spec fn zero_id() -> Seq<char> {
    "0000000000000000000000000000000000000000"@
}

/// The value that the reference `name` has: its target, or the zero id where it
/// does not exist.
pub open spec fn value_of(refs: Map<Seq<char>, Seq<char>>, name: Seq<char>) -> Seq<char> {
    if refs.contains_key(name) {
        refs[name]
    } else {
        zero_id()
    }
}

impl RefCommandView {
    /// The line of the script for the command.
    pub open spec fn line(self) -> Seq<char> {
        match self {
            RefCommandView::Update { name, target, old } => "update "@ + name + " "@ + target + " "@
                + old + "\n"@,
            RefCommandView::Delete { name, old } => "delete "@ + name + " "@ + old + "\n"@,
        }
    }

    /// The references after the command, or nothing where the reference has
    /// another value than the command expects.
    pub open spec fn apply(self, refs: Map<Seq<char>, Seq<char>>) -> Option<
        Map<Seq<char>, Seq<char>>,
    > {
        match self {
            RefCommandView::Update { name, target, old } => if value_of(refs, name) == old {
                Some(refs.insert(name, target))
            } else {
                None
            },
            RefCommandView::Delete { name, old } => if refs.contains_key(name) && refs[name]
                == old {
                Some(refs.remove(name))
            } else {
                None
            },
        }
    }
}

/// The script for the commands.
pub open spec fn script_of(commands: Seq<RefCommandView>) -> Seq<char>
    decreases commands.len(),
{
    if commands.len() == 0 {
        Seq::<char>::empty()
    } else {
        script_of(commands.drop_last()) + commands.last().line()
    }
}

/// The references after all of the commands, or nothing where one of them found
/// another value than it expected.
pub open spec fn apply_all(
    commands: Seq<RefCommandView>,
    refs: Map<Seq<char>, Seq<char>>,
) -> Option<Map<Seq<char>, Seq<char>>>
    decreases commands.len(),
{
    if commands.len() == 0 {
        Some(refs)
    } else {
        match apply_all(commands.drop_last(), refs) {
            Some(before) => commands.last().apply(before),
            None => None,
        }
    }
}

impl RefCommand {
    /// The line of the script for the command.
    pub fn line(&self) -> (r: String)
        ensures
            r@ == self@.line(),
    {
        match self {
            RefCommand::Update { name, target, old } => {
                let mut out = "update ".to_owned();
                out.append(name.as_str());
                out.append(" ");
                out.append(target.as_str());
                out.append(" ");
                out.append(old.as_str());
                out.append("\n");
                out
            },
            RefCommand::Delete { name, old } => {
                let mut out = "delete ".to_owned();
                out.append(name.as_str());
                out.append(" ");
                out.append(old.as_str());
                out.append("\n");
                out
            },
        }
    }
}

/// The script for the commands.
pub fn script(commands: &Vec<RefCommand>) -> (r: String)
    ensures
        r@ == script_of(command_views(commands@)),
{
    let ghost all = command_views(commands@);
    let mut out = String::new();
    let mut i: usize = 0;
    assert(all.take(0) =~= Seq::<RefCommandView>::empty());
    while i < commands.len()
        invariant
            i <= commands@.len(),
            all == command_views(commands@),
            out@ == script_of(all.take(i as int)),
        decreases commands.len() - i,
    {
        assert(all.take(i + 1).drop_last() =~= all.take(i as int));
        out.append(commands[i].line().as_str());
        i += 1;
    }
    assert(all.take(i as int) =~= all);
    out
}

// ---------------------------------------------------------------------------
// The commands for a snapshot
// ---------------------------------------------------------------------------
/// The command that brings one reference of a snapshot back.
pub open spec fn update_for(
    entry: (Seq<char>, Seq<char>),
    current: Map<Seq<char>, Seq<char>>,
) -> RefCommandView {
    RefCommandView::Update { name: entry.0, target: entry.1, old: value_of(current, entry.0) }
}

/// Whether a reference of a snapshot is as it was.
pub open spec fn is_unmoved(
    entry: (Seq<char>, Seq<char>),
    current: Map<Seq<char>, Seq<char>>,
) -> bool {
    current.contains_key(entry.0) && current[entry.0] == entry.1
}

/// The commands that bring the references of a snapshot back: one for each that
/// is not as it was.
pub open spec fn updates_for(
    entries: Seq<(Seq<char>, Seq<char>)>,
    current: Map<Seq<char>, Seq<char>>,
) -> Seq<RefCommandView>
    decreases entries.len(),
{
    if entries.len() == 0 {
        Seq::empty()
    } else {
        let before = updates_for(entries.drop_last(), current);
        if is_unmoved(entries.last(), current) {
            before
        } else {
            before.push(update_for(entries.last(), current))
        }
    }
}

/// The commands that delete the references that a snapshot does not have.
pub open spec fn deletes_for(
    entries: Seq<(Seq<char>, Seq<char>)>,
    wanted: Map<Seq<char>, Seq<char>>,
) -> Seq<RefCommandView>
    decreases entries.len(),
{
    if entries.len() == 0 {
        Seq::empty()
    } else {
        let before = deletes_for(entries.drop_last(), wanted);
        let last = entries.last();
        if wanted.contains_key(last.0) {
            before
        } else {
            before.push(RefCommandView::Delete { name: last.0, old: last.1 })
        }
    }
}

/// The commands that turn the references `current` into those of a snapshot.
pub open spec fn commands_for(
    current: Seq<(Seq<char>, Seq<char>)>,
    wanted: Seq<(Seq<char>, Seq<char>)>,
) -> Seq<RefCommandView> {
    updates_for(wanted, entry_map(current)) + deletes_for(current, entry_map(wanted))
}

/// What is wrong with a reference of a snapshot: its name, or else its target.
pub open spec fn entry_fault(entry: (Seq<char>, Seq<char>)) -> Option<(Seq<char>, NameFault)> {
    match full_ref_fault(entry.0) {
        Some(f) => Some((entry.0, f)),
        None => match sha_fault(entry.1) {
            Some(f) => Some((entry.1, f)),
            None => None,
        },
    }
}

/// What is wrong with the first of the references of a snapshot that cannot be
/// restored.
pub open spec fn update_fault(entries: Seq<(Seq<char>, Seq<char>)>) -> Option<
    (Seq<char>, NameFault),
>
    decreases entries.len(),
{
    if entries.len() == 0 {
        None
    } else {
        match update_fault(entries.drop_last()) {
            Some(f) => Some(f),
            None => entry_fault(entries.last()),
        }
    }
}

/// What is wrong with the first of the references that would have to be deleted
/// and cannot be.
pub open spec fn delete_fault(
    entries: Seq<(Seq<char>, Seq<char>)>,
    wanted: Map<Seq<char>, Seq<char>>,
) -> Option<(Seq<char>, NameFault)>
    decreases entries.len(),
{
    if entries.len() == 0 {
        None
    } else {
        match delete_fault(entries.drop_last(), wanted) {
            Some(f) => Some(f),
            None => {
                let name = entries.last().0;
                match full_ref_fault(name) {
                    Some(f) if !wanted.contains_key(name) => Some((name, f)),
                    _ => None,
                }
            },
        }
    }
}

/// What keeps the references `current` from being turned into those of a
/// snapshot.
pub open spec fn commands_fault(
    current: Seq<(Seq<char>, Seq<char>)>,
    wanted: Seq<(Seq<char>, Seq<char>)>,
) -> Option<(Seq<char>, NameFault)> {
    match update_fault(wanted) {
        Some(f) => Some(f),
        None => delete_fault(current, entry_map(wanted)),
    }
}

/// The names that have another target, or none, in one of two maps.
pub open spec fn changed_names(
    a: Map<Seq<char>, Seq<char>>,
    b: Map<Seq<char>, Seq<char>>,
) -> Set<Seq<char>> {
    a.dom().union(b.dom()).filter(
        |name: Seq<char>|
            !(a.contains_key(name) && b.contains_key(name) && a[name] == b[name]),
    )
}

// ---------------------------------------------------------------------------
// The index and HEAD
// ---------------------------------------------------------------------------
/// Why a snapshot cannot be restored.
#[derive(Debug, Clone)]
pub enum RestoreError {
    /// A name or an object id is not acceptable.
    Name(NameError),
    /// The snapshot has no `HEAD`.
    EmptyHead,
}

/// What says why a snapshot cannot be restored.
pub enum RestoreErrorView {
    Name(Seq<char>, NameFault),
    EmptyHead,
}

impl View for RestoreError {
    type V = RestoreErrorView;

    open spec fn view(&self) -> RestoreErrorView {
        match self {
            RestoreError::Name(e) => RestoreErrorView::Name(e.name@, e.fault),
            RestoreError::EmptyHead => RestoreErrorView::EmptyHead,
        }
    }
}

impl RestoreError {
    /// What the error says.
    pub open spec fn text(&self) -> Seq<char> {
        match self {
            RestoreError::Name(e) => e.text(),
            RestoreError::EmptyHead => "snapshot has empty HEAD; refusing to restore"@,
        }
    }

    /// What the error says.
    pub fn message(&self) -> (r: String)
        ensures
            r@ == self.text(),
    {
        match self {
            RestoreError::Name(e) => e.message(),
            RestoreError::EmptyHead => "snapshot has empty HEAD; refusing to restore".to_owned(),
        }
    }
}

/// The arguments of `git` that bring `HEAD` back.
pub open spec fn head_args(head: Seq<char>) -> Result<Seq<Seq<char>>, RestoreErrorView> {
    if "ref: "@.is_prefix_of(head) {
        let name = trim_of(head.skip("ref: "@.len() as int));
        match full_ref_fault(name) {
            Some(f) => Err(RestoreErrorView::Name(name, f)),
            None => Ok(seq!["symbolic-ref"@, "HEAD"@, name]),
        }
    } else if head.len() > 0 {
        let id = trim_of(head);
        match sha_fault(id) {
            Some(f) => Err(RestoreErrorView::Name(id, f)),
            None => Ok(seq!["update-ref"@, "--no-deref"@, "HEAD"@, id]),
        }
    } else {
        Err(RestoreErrorView::EmptyHead)
    }
}

/// What happens to the index.
#[derive(Debug, Clone)]
pub enum IndexStep {
    /// The snapshot has none: it is left as it is.
    Keep,
    /// It is read from this tree. Where that fails, the rest goes on.
    ReadTree(String),
    /// The tree is no object id: restoring stops here.
    Refuse(NameError),
}

/// Whether `step` is what the tree of a snapshot asks for.
pub open spec fn is_index_step(step: IndexStep, tree: Option<Seq<char>>) -> bool {
    match (step, tree) {
        (IndexStep::Keep, None) => true,
        (IndexStep::ReadTree(t), Some(u)) => t@ == u && is_object_id(u),
        (IndexStep::Refuse(e), Some(u)) => e.name@ == u && e.fault == NameFault::InvalidObjectId
            && !is_object_id(u),
        _ => false,
    }
}

/// What the tree of a snapshot asks for.
fn index_step(tree: &Option<String>) -> (r: IndexStep)
    ensures
        is_index_step(r, text::opt_text(*tree)),
{
    match tree {
        None => IndexStep::Keep,
        Some(t) => match names::validate_sha(t.as_str()) {
            Ok(()) => IndexStep::ReadTree(t.clone()),
            Err(e) => IndexStep::Refuse(e),
        },
    }
}

// ---------------------------------------------------------------------------
// Restoring
// ---------------------------------------------------------------------------
/// What has to be done, in this order, to restore a snapshot: run the commands
/// on the references, where there are any; treat the index; set `HEAD`.
pub struct Restoration {
    pub commands: Vec<RefCommand>,
    pub index: IndexStep,
    pub head: Result<Vec<String>, RestoreError>,
    /// How many references change.
    pub restored_refs: usize,
}

impl UndoEngine {
    /// The arguments of `git` that bring `HEAD` back: to the branch it named, or to
    /// the commit it was detached at.
    pub fn restore_head(&self, head: &str) -> (r: Result<Vec<String>, RestoreError>)
        ensures
            match (r, head_args(head@)) {
                (Ok(args), Ok(view)) => texts(args@) == view,
                (Err(e), Err(view)) => e@ == view,
                _ => false,
            },
    {
        let mut args: Vec<String> = Vec::new();
        match text::strip_prefix(head, "ref: ") {
            Some(rest) => {
                let name = text::trim(rest.as_str());
                if let Err(e) = names::validate_full_ref_name(name.as_str()) {
                    return Err(RestoreError::Name(e));
                }
                args.push("symbolic-ref".to_owned());
                args.push("HEAD".to_owned());
                args.push(name);
                assert(texts(args@) =~= seq!["symbolic-ref"@, "HEAD"@, name@]);
                Ok(args)
            },
            None => {
                if head.is_empty() {
                    return Err(RestoreError::EmptyHead);
                }
                let id = text::trim(head);
                if let Err(e) = names::validate_sha(id.as_str()) {
                    return Err(RestoreError::Name(e));
                }
                args.push("update-ref".to_owned());
                args.push("--no-deref".to_owned());
                args.push("HEAD".to_owned());
                args.push(id);
                assert(texts(args@) =~= seq!["update-ref"@, "--no-deref"@, "HEAD"@, id@]);
                Ok(args)
            },
        }
    }

    /// What has to be done to turn the state `current` into that of the snapshot
    /// `pre`: only references that differ are touched. The names and object ids of
    /// the references are all checked before any of them is.
    pub fn restore_snapshot(&self, current: &Snapshot, pre: &Snapshot) -> (r: Result<
        Restoration,
        NameError,
    >)
        ensures
            match r {
                Ok(plan) => {
                    &&& commands_fault(current.refs.listed(), pre.refs.listed()) is None
                    &&& command_views(plan.commands@) == commands_for(
                        current.refs.listed(),
                        pre.refs.listed(),
                    )
                    &&& plan.restored_refs == changed_names(current.refs@, pre.refs@).len()
                    &&& is_index_step(plan.index, text::opt_text(pre.index_tree))
                    &&& match (plan.head, head_args(pre.head@)) {
                        (Ok(args), Ok(view)) => texts(args@) == view,
                        (Err(e), Err(view)) => e@ == view,
                        _ => false,
                    }
                },
                Err(e) => commands_fault(current.refs.listed(), pre.refs.listed()) == Some(
                    (e.name@, e.fault),
                ),
            },
    {
        let ghost have = current.refs.listed();
        let ghost want = pre.refs.listed();
        let ghost changed = Set::<Seq<char>>::empty();
        let mut commands: Vec<RefCommand> = Vec::new();
        let wanted: usize = pre.refs.len();
        let existing: usize = current.refs.len();
        proof {
            lemma_entry_map(have);
            lemma_entry_map(want);
        }
        let mut i: usize = 0;
        assert(want.take(0) =~= Seq::<(Seq<char>, Seq<char>)>::empty());
        assert(command_views(commands@) =~= updates_for(want.take(0), current.refs@));
        while i < wanted
            invariant
                i <= wanted,
                wanted == want.len(),
                have == current.refs.listed(),
                want == pre.refs.listed(),
                distinct_names(want),
                current.refs@ == entry_map(have),
                pre.refs@ == entry_map(want),
                forall|k: int|
                    #![trigger want[k]]
                    0 <= k < want.len() ==> pre.refs@.contains_key(want[k].0) && pre.refs@[want[k].0]
                        == want[k].1,
                update_fault(want.take(i as int)) is None,
                command_views(commands@) == updates_for(want.take(i as int), current.refs@),
                changed.finite(),
                changed.len() == commands@.len(),
                forall|name: Seq<char>| #[trigger]
                    changed.contains(name) <==> exists|k: int|
                        #![trigger want[k]]
                        0 <= k < i && want[k].0 == name && changed_names(
                            current.refs@,
                            pre.refs@,
                        ).contains(name),
            decreases wanted - i,
        {
            let name = pre.refs.name(i);
            let target = pre.refs.target(i);
            let ghost entry = want[i as int];
            proof {
                assert(want.take(i + 1).drop_last() =~= want.take(i as int));
                assert(want.take(i + 1).last() == entry);
            }
            if let Err(e) = names::validate_full_ref_name(name) {
                proof {
                    lemma_first_update_fault(want, i + 1);
                }
                return Err(e);
            }
            if let Err(e) = names::validate_sha(target) {
                proof {
                    lemma_first_update_fault(want, i + 1);
                }
                return Err(e);
            }
            let (old, unmoved) = match current.refs.get(name) {
                Some(t) => (t.to_owned(), text::same(t, target)),
                None => ("0000000000000000000000000000000000000000".to_owned(), false),
            };
            assert(unmoved == is_unmoved(entry, current.refs@));
            let ghost was = changed;
            if !unmoved {
                let ghost before = command_views(commands@);
                commands.push(
                    RefCommand::Update { name: name.to_owned(), target: target.to_owned(), old },
                );
                assert(command_views(commands@) =~= before.push(update_for(entry, current.refs@)));
                proof {
                    assert(!changed.contains(entry.0));
                    changed = changed.insert(entry.0);
                }
                assert(changed_names(current.refs@, pre.refs@).contains(entry.0));
            } else {
                assert(!changed_names(current.refs@, pre.refs@).contains(entry.0));
            }
            assert forall|n: Seq<char>| #[trigger] changed.contains(n) <==> exists|k: int|
                #![trigger want[k]]
                0 <= k < i + 1 && want[k].0 == n && changed_names(
                    current.refs@,
                    pre.refs@,
                ).contains(n) by {
                if changed.contains(n) {
                    if n == entry.0 {
                        assert(want[i as int].0 == n);
                    } else {
                        assert(was.contains(n));
                    }
                }
                if exists|k: int|
                    #![trigger want[k]]
                    0 <= k < i + 1 && want[k].0 == n && changed_names(
                        current.refs@,
                        pre.refs@,
                    ).contains(n) {
                    let k = choose|k: int|
                        #![trigger want[k]]
                        0 <= k < i + 1 && want[k].0 == n && changed_names(
                            current.refs@,
                            pre.refs@,
                        ).contains(n);
                    if k < i {
                        assert(was.contains(n));
                    }
                }
            }
            i += 1;
        }
        assert(want.take(i as int) =~= want);
        let ghost updates = command_views(commands@);
        let ghost updated = changed;
        assert forall|n: Seq<char>| updated.contains(n) implies pre.refs@.contains_key(n) by {
            let k = choose|k: int|
                #![trigger want[k]]
                0 <= k < i && want[k].0 == n && changed_names(current.refs@, pre.refs@).contains(n);
            assert(want[k].0 == n);
        }
        let mut i: usize = 0;
        assert(have.take(0) =~= Seq::<(Seq<char>, Seq<char>)>::empty());
        assert(command_views(commands@) =~= updates + deletes_for(have.take(0), pre.refs@));
        while i < existing
            invariant
                i <= existing,
                existing == have.len(),
                have == current.refs.listed(),
                want == pre.refs.listed(),
                distinct_names(have),
                current.refs@ == entry_map(have),
                pre.refs@ == entry_map(want),
                forall|k: int|
                    #![trigger have[k]]
                    0 <= k < have.len() ==> current.refs@.contains_key(have[k].0)
                        && current.refs@[have[k].0] == have[k].1,
                update_fault(want) is None,
                delete_fault(have.take(i as int), pre.refs@) is None,
                command_views(commands@) == updates + deletes_for(have.take(i as int), pre.refs@),
                changed.finite(),
                changed.len() == commands@.len(),
                forall|n: Seq<char>| #[trigger] updated.contains(n) ==> pre.refs@.contains_key(n),
                forall|name: Seq<char>| #[trigger]
                    changed.contains(name) <==> updated.contains(name) || exists|k: int|
                        #![trigger have[k]]
                        0 <= k < i && have[k].0 == name && !pre.refs@.contains_key(name),
            decreases existing - i,
        {
            let name = current.refs.name(i);
            let ghost entry = have[i as int];
            let ghost was = changed;
            proof {
                assert(have.take(i + 1).drop_last() =~= have.take(i as int));
                assert(have.take(i + 1).last() == entry);
            }
            if !pre.refs.contains(name) {
                if let Err(e) = names::validate_full_ref_name(name) {
                    proof {
                        lemma_first_delete_fault(have, pre.refs@, i + 1);
                    }
                    return Err(e);
                }
                let ghost before = command_views(commands@);
                commands.push(
                    RefCommand::Delete {
                        name: name.to_owned(),
                        old: current.refs.target(i).to_owned(),
                    },
                );
                let ghost command = RefCommandView::Delete { name: entry.0, old: entry.1 };
                assert(command_views(commands@) =~= before.push(command));
                assert(updates + deletes_for(have.take(i as int), pre.refs@).push(command)
                    =~= before.push(command));
                proof {
                    assert(!changed.contains(entry.0));
                    changed = changed.insert(entry.0);
                }
            }
            assert forall|n: Seq<char>| #[trigger] changed.contains(n) <==> updated.contains(n)
                || exists|k: int|
                #![trigger have[k]]
                0 <= k < i + 1 && have[k].0 == n && !pre.refs@.contains_key(n) by {
                if changed.contains(n) {
                    if n == entry.0 {
                        assert(have[i as int].0 == n);
                    } else {
                        assert(was.contains(n));
                    }
                }
                if updated.contains(n) {
                    assert(was.contains(n));
                } else if exists|k: int|
                    #![trigger have[k]]
                    0 <= k < i + 1 && have[k].0 == n && !pre.refs@.contains_key(n) {
                    let k = choose|k: int|
                        #![trigger have[k]]
                        0 <= k < i + 1 && have[k].0 == n && !pre.refs@.contains_key(n);
                    if k < i {
                        assert(was.contains(n));
                    }
                }
            }
            i += 1;
        }
        assert(have.take(i as int) =~= have);
        proof {
            let all = changed_names(current.refs@, pre.refs@);
            assert forall|n: Seq<char>| changed.contains(n) <==> all.contains(n) by {
                if all.contains(n) {
                    if pre.refs@.contains_key(n) {
                        let k = choose|k: int|
                            #![trigger want[k]]
                            0 <= k < want.len() && want[k].0 == n;
                        assert(want[k].0 == n);
                        assert(updated.contains(n));
                    } else {
                        assert(current.refs@.contains_key(n));
                        let k = choose|k: int|
                            #![trigger have[k]]
                            0 <= k < have.len() && have[k].0 == n;
                        assert(have[k].0 == n);
                    }
                }
                if changed.contains(n) && !updated.contains(n) {
                    let k = choose|k: int|
                        #![trigger have[k]]
                        0 <= k < have.len() && have[k].0 == n && !pre.refs@.contains_key(n);
                    assert(have[k].0 == n);
                }
            }
            assert(changed =~= all);
        }
        let restored_refs: usize = commands.len();
        Ok(
            Restoration {
                commands,
                index: index_step(&pre.index_tree),
                head: self.restore_head(pre.head.as_str()),
                restored_refs,
            },
        )
    }
}

/// The first fault among the references of a snapshot is that of them all.
proof fn lemma_first_update_fault(entries: Seq<(Seq<char>, Seq<char>)>, n: int)
    requires
        0 <= n <= entries.len(),
        update_fault(entries.take(n)) is Some,
    ensures
        update_fault(entries) == update_fault(entries.take(n)),
    decreases entries.len() - n,
{
    if n < entries.len() {
        assert(entries.take(n + 1).drop_last() =~= entries.take(n));
        lemma_first_update_fault(entries, n + 1);
    } else {
        assert(entries.take(n) =~= entries);
    }
}

/// The first fault among the references to delete is that of them all.
proof fn lemma_first_delete_fault(
    entries: Seq<(Seq<char>, Seq<char>)>,
    wanted: Map<Seq<char>, Seq<char>>,
    n: int,
)
    requires
        0 <= n <= entries.len(),
        delete_fault(entries.take(n), wanted) is Some,
    ensures
        delete_fault(entries, wanted) == delete_fault(entries.take(n), wanted),
    decreases entries.len() - n,
{
    if n < entries.len() {
        assert(entries.take(n + 1).drop_last() =~= entries.take(n));
        lemma_first_delete_fault(entries, wanted, n + 1);
    } else {
        assert(entries.take(n) =~= entries);
    }
}

// ---------------------------------------------------------------------------
// Laws
// ---------------------------------------------------------------------------
/// One more command at the end of a script.
proof fn lemma_apply_push(
    commands: Seq<RefCommandView>,
    command: RefCommandView,
    refs: Map<Seq<char>, Seq<char>>,
)
    ensures
        apply_all(commands.push(command), refs) == match apply_all(commands, refs) {
            Some(before) => command.apply(before),
            None => None,
        },
{
    assert(commands.push(command).drop_last() =~= commands);
}

/// The updates for the first references of a snapshot set these and leave the
/// others as they are.
proof fn lemma_updates_apply(
    have: Map<Seq<char>, Seq<char>>,
    want: Seq<(Seq<char>, Seq<char>)>,
    n: int,
)
    requires
        distinct_names(want),
        0 <= n <= want.len(),
    ensures
        apply_all(updates_for(want.take(n), have), have) == Some(
            have.union_prefer_right(entry_map(want.take(n))),
        ),
    decreases n,
{
    let some = want.take(n);
    if n == 0 {
        assert(have.union_prefer_right(entry_map(some)) =~= have);
    } else {
        let fewer = want.take(n - 1);
        let entry = want[n - 1];
        lemma_updates_apply(have, want, n - 1);
        assert(some.drop_last() =~= fewer);
        assert(some.last() == entry);
        lemma_entry_map(fewer);
        let before = have.union_prefer_right(entry_map(fewer));
        assert(!entry_map(fewer).contains_key(entry.0)) by {
            if entry_map(fewer).contains_key(entry.0) {
                let k = choose|k: int|
                    #![trigger fewer[k]]
                    0 <= k < fewer.len() && fewer[k].0 == entry.0;
                assert(fewer[k] == want[k]);
                assert(want[k].0 != want[n - 1].0);
            }
        }
        assert(value_of(before, entry.0) == value_of(have, entry.0));
        if !is_unmoved(entry, have) {
            lemma_apply_push(updates_for(fewer, have), update_for(entry, have), have);
        }
        assert(before.insert(entry.0, entry.1) =~= have.union_prefer_right(entry_map(some)));
        if is_unmoved(entry, have) {
            assert(before.insert(entry.0, entry.1) =~= before);
        }
    }
}

/// The deletions for the first references remove those of them that are not
/// wanted.
proof fn lemma_deletes_apply(
    have: Seq<(Seq<char>, Seq<char>)>,
    want: Seq<(Seq<char>, Seq<char>)>,
    n: int,
)
    requires
        distinct_names(have),
        distinct_names(want),
        0 <= n <= have.len(),
    ensures
        apply_all(
            updates_for(want, entry_map(have)) + deletes_for(have.take(n), entry_map(want)),
            entry_map(have),
        ) == Some(
            entry_map(have).union_prefer_right(entry_map(want)).remove_keys(
                entry_map(have.take(n)).dom().difference(entry_map(want).dom()),
            ),
        ),
    decreases n,
{
    let held = entry_map(have);
    let wanted = entry_map(want);
    let updates = updates_for(want, held);
    let merged = held.union_prefer_right(wanted);
    if n == 0 {
        lemma_updates_apply(held, want, want.len() as int);
        assert(want.take(want.len() as int) =~= want);
        assert(updates + deletes_for(have.take(0), wanted) =~= updates);
        assert(merged.remove_keys(
            entry_map(have.take(0)).dom().difference(wanted.dom()),
        ) =~= merged);
    } else {
        let fewer = have.take(n - 1);
        let entry = have[n - 1];
        lemma_deletes_apply(have, want, n - 1);
        assert(have.take(n).drop_last() =~= fewer);
        let before = merged.remove_keys(entry_map(fewer).dom().difference(wanted.dom()));
        let after = merged.remove_keys(entry_map(have.take(n)).dom().difference(wanted.dom()));
        if wanted.contains_key(entry.0) {
            assert(after =~= before);
        } else {
            let command = RefCommandView::Delete { name: entry.0, old: entry.1 };
            assert(updates + deletes_for(have.take(n), wanted) =~= (updates + deletes_for(
                fewer,
                wanted,
            )).push(command));
            lemma_apply_push(updates + deletes_for(fewer, wanted), command, held);
            lemma_entry_map(have);
            lemma_entry_map(fewer);
            assert(held.contains_key(have[n - 1].0) && held[have[n - 1].0] == have[n - 1].1);
            assert(!entry_map(fewer).contains_key(entry.0)) by {
                if entry_map(fewer).contains_key(entry.0) {
                    let k = choose|k: int|
                        #![trigger fewer[k]]
                        0 <= k < fewer.len() && fewer[k].0 == entry.0;
                    assert(fewer[k] == have[k]);
                    assert(have[k].0 != have[n - 1].0);
                }
            }
            assert(before.contains_key(entry.0));
            assert(before.remove(entry.0) =~= after);
        }
    }
}

/// The commands turn the references into exactly those of the snapshot: what
/// has moved is moved back, what is gone is created again, and what is new is
/// deleted.
pub proof fn law_commands_restore_refs(
    have: Seq<(Seq<char>, Seq<char>)>,
    want: Seq<(Seq<char>, Seq<char>)>,
)
    requires
        distinct_names(have),
        distinct_names(want),
    ensures
        apply_all(commands_for(have, want), entry_map(have)) == Some(entry_map(want)),
{
    lemma_deletes_apply(have, want, have.len() as int);
    assert(have.take(have.len() as int) =~= have);
    assert(entry_map(have).union_prefer_right(entry_map(want)).remove_keys(
        entry_map(have).dom().difference(entry_map(want).dom()),
    ) =~= entry_map(want));
}

/// The reference that a command is about.
pub open spec fn command_name(c: RefCommandView) -> Seq<char> {
    match c {
        RefCommandView::Update { name, .. } => name,
        RefCommandView::Delete { name, .. } => name,
    }
}

/// The value that a command expects its reference to have.
pub open spec fn command_old(c: RefCommandView) -> Seq<char> {
    match c {
        RefCommandView::Update { old, .. } => old,
        RefCommandView::Delete { old, .. } => old,
    }
}

/// Commands leave references that they do not name as they are.
proof fn lemma_others_stay(
    commands: Seq<RefCommandView>,
    refs: Map<Seq<char>, Seq<char>>,
    name: Seq<char>,
)
    requires
        forall|k: int| 0 <= k < commands.len() ==> command_name(#[trigger] commands[k]) != name,
    ensures
        apply_all(commands, refs) matches Some(after) ==> value_of(after, name) == value_of(
            refs,
            name,
        ) && after.contains_key(name) == refs.contains_key(name),
    decreases commands.len(),
{
    if commands.len() > 0 {
        let fewer = commands.drop_last();
        assert forall|k: int| 0 <= k < fewer.len() implies command_name(#[trigger] fewer[k])
            != name by {
            assert(fewer[k] == commands[k]);
        }
        lemma_others_stay(fewer, refs, name);
        assert(command_name(commands[commands.len() - 1]) != name);
    }
}

/// A command that meets another value than it expects stops the script.
proof fn lemma_command_stops(
    commands: Seq<RefCommandView>,
    refs: Map<Seq<char>, Seq<char>>,
    at: int,
)
    requires
        0 <= at < commands.len(),
        forall|k: int|
            0 <= k < at ==> command_name(#[trigger] commands[k]) != command_name(commands[at]),
        value_of(refs, command_name(commands[at])) != command_old(commands[at]),
    ensures
        apply_all(commands, refs) is None,
    decreases commands.len(),
{
    let fewer = commands.drop_last();
    if at == commands.len() - 1 {
        assert forall|k: int| 0 <= k < fewer.len() implies command_name(#[trigger] fewer[k])
            != command_name(commands[at]) by {
            assert(fewer[k] == commands[k]);
        }
        lemma_others_stay(fewer, refs, command_name(commands[at]));
    } else {
        assert(fewer[at] == commands[at]);
        assert forall|k: int| 0 <= k < at implies command_name(#[trigger] fewer[k])
            != command_name(fewer[at]) by {
            assert(fewer[k] == commands[k]);
        }
        lemma_command_stops(fewer, refs, at);
    }
}

/// The deletions name references that are there and not wanted, in order.
proof fn lemma_deletes(
    have: Seq<(Seq<char>, Seq<char>)>,
    wanted: Map<Seq<char>, Seq<char>>,
    i: int,
)
    requires
        distinct_names(have),
    ensures
        forall|k: int|
            #![trigger deletes_for(have, wanted)[k]]
            0 <= k < deletes_for(have, wanted).len() ==> {
                let c = deletes_for(have, wanted)[k];
                &&& !wanted.contains_key(command_name(c))
                &&& exists|j: int|
                    #![trigger have[j]]
                    0 <= j < have.len() && have[j] == (command_name(c), command_old(c))
            },
        0 <= i < have.len() && !wanted.contains_key(have[i].0) ==> exists|k: int|
            #![trigger deletes_for(have, wanted)[k]]
            0 <= k < deletes_for(have, wanted).len() && command_name(deletes_for(have, wanted)[k])
                == have[i].0 && command_old(deletes_for(have, wanted)[k]) == have[i].1,
        forall|j: int, k: int|
            #![trigger deletes_for(have, wanted)[j], deletes_for(have, wanted)[k]]
            0 <= j < k < deletes_for(have, wanted).len() ==> command_name(
                deletes_for(have, wanted)[j],
            ) != command_name(deletes_for(have, wanted)[k]),
    decreases have.len(),
{
    if have.len() > 0 {
        let fewer = have.drop_last();
        let last = have.last();
        let all = deletes_for(have, wanted);
        let some = deletes_for(fewer, wanted);
        lemma_deletes(fewer, wanted, i);
        assert(have[have.len() - 1] == last);
        assert forall|k: int| #![trigger all[k]] 0 <= k < all.len() implies {
            let c = all[k];
            &&& !wanted.contains_key(command_name(c))
            &&& exists|j: int|
                #![trigger have[j]]
                0 <= j < have.len() && have[j] == (command_name(c), command_old(c))
        } by {
            if k < some.len() {
                assert(all[k] == some[k]);
                let c = some[k];
                let j = choose|j: int|
                    #![trigger fewer[j]]
                    0 <= j < fewer.len() && fewer[j] == (command_name(c), command_old(c));
                assert(have[j] == fewer[j]);
            } else {
                assert(have[have.len() - 1] == (command_name(all[k]), command_old(all[k])));
            }
        }
        if 0 <= i < have.len() && !wanted.contains_key(have[i].0) {
            if i < fewer.len() {
                assert(fewer[i] == have[i]);
                let k = choose|k: int|
                    #![trigger some[k]]
                    0 <= k < some.len() && command_name(some[k]) == have[i].0 && command_old(
                        some[k],
                    ) == have[i].1;
                assert(all[k] == some[k]);
            } else {
                let k = all.len() - 1;
                assert(command_name(all[k]) == have[i].0);
            }
        }
        assert forall|j: int, k: int|
            #![trigger all[j], all[k]]
            0 <= j < k < all.len() implies command_name(all[j]) != command_name(all[k]) by {
            assert(all[j] == some[j]);
            if k < some.len() {
                assert(all[k] == some[k]);
            } else {
                let c = some[j];
                let m = choose|m: int|
                    #![trigger fewer[m]]
                    0 <= m < fewer.len() && fewer[m] == (command_name(c), command_old(c));
                assert(have[m] == fewer[m]);
                assert(have[m].0 != have[have.len() - 1].0);
            }
        }
    }
}

/// The updates name references of the snapshot that are not as they were, in
/// order, with the values that they have.
proof fn lemma_updates(
    want: Seq<(Seq<char>, Seq<char>)>,
    held: Map<Seq<char>, Seq<char>>,
    i: int,
)
    requires
        distinct_names(want),
    ensures
        forall|k: int|
            #![trigger updates_for(want, held)[k]]
            0 <= k < updates_for(want, held).len() ==> exists|j: int|
                #![trigger want[j]]
                0 <= j < want.len() && !is_unmoved(want[j], held) && updates_for(want, held)[k]
                    == update_for(want[j], held),
        0 <= i < want.len() && !is_unmoved(want[i], held) ==> exists|k: int|
            #![trigger updates_for(want, held)[k]]
            0 <= k < updates_for(want, held).len() && updates_for(want, held)[k] == update_for(
                want[i],
                held,
            ),
        forall|j: int, k: int|
            #![trigger updates_for(want, held)[j], updates_for(want, held)[k]]
            0 <= j < k < updates_for(want, held).len() ==> command_name(
                updates_for(want, held)[j],
            ) != command_name(updates_for(want, held)[k]),
    decreases want.len(),
{
    if want.len() > 0 {
        let fewer = want.drop_last();
        let all = updates_for(want, held);
        let some = updates_for(fewer, held);
        lemma_updates(fewer, held, i);
        assert(want[want.len() - 1] == want.last());
        assert forall|k: int| #![trigger all[k]] 0 <= k < all.len() implies exists|j: int|
            #![trigger want[j]]
            0 <= j < want.len() && !is_unmoved(want[j], held) && all[k] == update_for(
                want[j],
                held,
            ) by {
            if k < some.len() {
                assert(all[k] == some[k]);
                let j = choose|j: int|
                    #![trigger fewer[j]]
                    0 <= j < fewer.len() && !is_unmoved(fewer[j], held) && some[k] == update_for(
                        fewer[j],
                        held,
                    );
                assert(want[j] == fewer[j]);
            } else {
                assert(all[k] == update_for(want[want.len() - 1], held));
            }
        }
        if 0 <= i < want.len() && !is_unmoved(want[i], held) {
            if i < fewer.len() {
                assert(fewer[i] == want[i]);
                let k = choose|k: int|
                    #![trigger some[k]]
                    0 <= k < some.len() && some[k] == update_for(fewer[i], held);
                assert(all[k] == some[k]);
            } else {
                assert(all[all.len() - 1] == update_for(want[i], held));
            }
        }
        assert forall|j: int, k: int|
            #![trigger all[j], all[k]]
            0 <= j < k < all.len() implies command_name(all[j]) != command_name(all[k]) by {
            assert(all[j] == some[j]);
            if k < some.len() {
                assert(all[k] == some[k]);
            } else {
                let m = choose|m: int|
                    #![trigger fewer[m]]
                    0 <= m < fewer.len() && !is_unmoved(fewer[m], held) && some[j] == update_for(
                        fewer[m],
                        held,
                    );
                assert(want[m] == fewer[m]);
                assert(want[m].0 != want[want.len() - 1].0);
            }
        }
    }
}

/// Where any reference that is to be restored or deleted has moved since the
/// commands were made, they have no effect at all.
pub proof fn law_drift_stops_commands(
    have: Seq<(Seq<char>, Seq<char>)>,
    want: Seq<(Seq<char>, Seq<char>)>,
    now: Map<Seq<char>, Seq<char>>,
    name: Seq<char>,
)
    requires
        distinct_names(have),
        distinct_names(want),
        changed_names(entry_map(have), entry_map(want)).contains(name),
        value_of(now, name) != value_of(entry_map(have), name),
    ensures
        apply_all(commands_for(have, want), now) is None,
{
    let held = entry_map(have);
    let wanted = entry_map(want);
    let updates = updates_for(want, held);
    let deletes = deletes_for(have, wanted);
    let commands = commands_for(have, want);
    lemma_entry_map(have);
    lemma_entry_map(want);
    if wanted.contains_key(name) {
        let i = choose|i: int| #![trigger want[i]] 0 <= i < want.len() && want[i].0 == name;
        assert(!is_unmoved(want[i], held));
        lemma_updates(want, held, i);
        let at = choose|k: int|
            #![trigger updates[k]]
            0 <= k < updates.len() && updates[k] == update_for(want[i], held);
        assert(commands[at] == updates[at]);
        assert forall|k: int| 0 <= k < at implies command_name(#[trigger] commands[k])
            != command_name(commands[at]) by {
            assert(commands[k] == updates[k]);
        }
        lemma_command_stops(commands, now, at);
    } else {
        let i = choose|i: int| #![trigger have[i]] 0 <= i < have.len() && have[i].0 == name;
        assert(have[i].0 == name);
        lemma_deletes(have, wanted, i);
        lemma_updates(want, held, 0);
        let d = choose|k: int|
            #![trigger deletes[k]]
            0 <= k < deletes.len() && command_name(deletes[k]) == have[i].0 && command_old(
                deletes[k],
            ) == have[i].1;
        let at = updates.len() + d;
        assert(commands[at] == deletes[d]);
        assert forall|k: int| 0 <= k < at implies command_name(#[trigger] commands[k])
            != command_name(commands[at]) by {
            if k < updates.len() {
                assert(commands[k] == updates[k]);
                let j = choose|j: int|
                    #![trigger want[j]]
                    0 <= j < want.len() && !is_unmoved(want[j], held) && updates[k] == update_for(
                        want[j],
                        held,
                    );
                assert(wanted.contains_key(want[j].0));
            } else {
                assert(commands[k] == deletes[k - updates.len()]);
            }
        }
        lemma_command_stops(commands, now, at);
    }
}

/// Only references that differ are touched: each command is about one of them.
pub proof fn law_only_changed_refs_are_touched(
    have: Seq<(Seq<char>, Seq<char>)>,
    want: Seq<(Seq<char>, Seq<char>)>,
    k: int,
)
    requires
        distinct_names(have),
        distinct_names(want),
        0 <= k < commands_for(have, want).len(),
    ensures
        changed_names(entry_map(have), entry_map(want)).contains(
            command_name(commands_for(have, want)[k]),
        ),
{
    let held = entry_map(have);
    let wanted = entry_map(want);
    let updates = updates_for(want, held);
    let deletes = deletes_for(have, wanted);
    lemma_entry_map(have);
    lemma_entry_map(want);
    lemma_updates(want, held, 0);
    lemma_deletes(have, wanted, 0);
    if k < updates.len() {
        assert(commands_for(have, want)[k] == updates[k]);
        let j = choose|j: int|
            #![trigger want[j]]
            0 <= j < want.len() && !is_unmoved(want[j], held) && updates[k] == update_for(
                want[j],
                held,
            );
        assert(wanted.contains_key(want[j].0));
    } else {
        let c = deletes[k - updates.len()];
        assert(commands_for(have, want)[k] == c);
        let j = choose|j: int|
            #![trigger have[j]]
            0 <= j < have.len() && have[j] == (command_name(c), command_old(c));
        assert(held.contains_key(have[j].0));
    }
}

/// A snapshot that is restored once more touches no reference.
pub proof fn law_restored_refs_stay(
    have: Seq<(Seq<char>, Seq<char>)>,
    want: Seq<(Seq<char>, Seq<char>)>,
)
    requires
        distinct_names(have),
        distinct_names(want),
        entry_map(have) == entry_map(want),
    ensures
        commands_for(have, want).len() == 0,
        changed_names(entry_map(have), entry_map(want)).len() == 0,
{
    let changed = changed_names(entry_map(have), entry_map(want));
    assert(changed =~= Set::<Seq<char>>::empty());
    if commands_for(have, want).len() > 0 {
        law_only_changed_refs_are_touched(have, want, 0);
    }
}

/// The script has one line for each command: what is to be done, the reference,
/// the new value where there is one, and the value that it must have.
pub proof fn law_script_lines(
    first: Seq<RefCommandView>,
    second: Seq<RefCommandView>,
    name: Seq<char>,
    target: Seq<char>,
    held: Seq<char>,
)
    ensures
        script_of(first + second) == script_of(first) + script_of(second),
        script_of(seq![RefCommandView::Update { name, target, old: held }]) == "update "@ + name
            + " "@ + target + " "@ + held + "\n"@,
        script_of(seq![RefCommandView::Delete { name, old: held }]) == "delete "@ + name + " "@
            + held + "\n"@,
    decreases second.len(),
{
    let none = Seq::<RefCommandView>::empty();
    let nothing = Seq::<char>::empty();
    let update = RefCommandView::Update { name, target, old: held };
    let delete = RefCommandView::Delete { name, old: held };
    assert(seq![update].drop_last() =~= none);
    assert(seq![delete].drop_last() =~= none);
    assert(script_of(none) =~= nothing);
    assert(nothing + update.line() =~= update.line());
    assert(nothing + delete.line() =~= delete.line());
    if second.len() == 0 {
        assert(first + second =~= first);
        assert(script_of(first) + nothing =~= script_of(first));
    } else {
        let fewer = second.drop_last();
        law_script_lines(first, fewer, name, target, held);
        assert((first + second).drop_last() =~= first + fewer);
        assert((first + second).last() == second.last());
        assert(script_of(first + second) =~= script_of(first) + script_of(second));
    }
}

/// A reference differs between two states exactly where it is in one of them alone
/// or points elsewhere in the other.
pub proof fn law_changed_names(
    a: Map<Seq<char>, Seq<char>>,
    b: Map<Seq<char>, Seq<char>>,
    name: Seq<char>,
)
    ensures
        changed_names(a, b).contains(name) <==> {
            ||| a.contains_key(name) && !b.contains_key(name)
            ||| b.contains_key(name) && !a.contains_key(name)
            ||| a.contains_key(name) && b.contains_key(name) && a[name] != b[name]
        },
{
}

/// For every reference of a snapshot that is not as it was there is one command
/// that sets it from the value it has, or creates it; for every reference that the
/// snapshot does not have there is one that deletes it.
pub proof fn law_commands_are_complete(
    have: Seq<(Seq<char>, Seq<char>)>,
    want: Seq<(Seq<char>, Seq<char>)>,
    i: int,
    j: int,
)
    requires
        distinct_names(have),
        distinct_names(want),
        0 <= i < want.len(),
        0 <= j < have.len(),
    ensures
        ({
            let held = entry_map(have);
            let wanted = entry_map(want);
            &&& held.contains_key(want[i].0) && held[want[i].0] != want[i].1 ==> commands_for(
                have,
                want,
            ).contains(
                RefCommandView::Update {
                    name: want[i].0,
                    target: want[i].1,
                    old: held[want[i].0],
                },
            )
            &&& !held.contains_key(want[i].0) ==> commands_for(have, want).contains(
                RefCommandView::Update { name: want[i].0, target: want[i].1, old: zero_id() },
            )
            &&& !wanted.contains_key(have[j].0) ==> commands_for(have, want).contains(
                RefCommandView::Delete { name: have[j].0, old: have[j].1 },
            )
        }),
        zero_id().len() == 40,
        forall|k: int| 0 <= k < 40 ==> #[trigger] zero_id()[k] == '0',
{
    reveal_strlit("0000000000000000000000000000000000000000");
    let held = entry_map(have);
    let wanted = entry_map(want);
    let updates = updates_for(want, held);
    let deletes = deletes_for(have, wanted);
    let all = commands_for(have, want);
    lemma_updates(want, held, i);
    lemma_deletes(have, wanted, j);
    if !is_unmoved(want[i], held) {
        let k = choose|k: int|
            #![trigger updates[k]]
            0 <= k < updates.len() && updates[k] == update_for(want[i], held);
        assert(all[k] == updates[k]);
    }
    if !wanted.contains_key(have[j].0) {
        lemma_delete_is_there(have, wanted, j);
        let k = choose|k: int|
            0 <= k < deletes.len() && deletes[k] == (RefCommandView::Delete {
                name: have[j].0,
                old: have[j].1,
            });
        assert(all[updates.len() + k] == deletes[k]);
    }
}

/// A reference that is not wanted is deleted.
proof fn lemma_delete_is_there(
    have: Seq<(Seq<char>, Seq<char>)>,
    wanted: Map<Seq<char>, Seq<char>>,
    j: int,
)
    requires
        0 <= j < have.len(),
        !wanted.contains_key(have[j].0),
    ensures
        deletes_for(have, wanted).contains(
            RefCommandView::Delete { name: have[j].0, old: have[j].1 },
        ),
    decreases have.len(),
{
    let all = deletes_for(have, wanted);
    let fewer = have.drop_last();
    let command = RefCommandView::Delete { name: have[j].0, old: have[j].1 };
    if j < fewer.len() {
        lemma_delete_is_there(fewer, wanted, j);
        let some = deletes_for(fewer, wanted);
        assert(fewer[j] == have[j]);
        let k = choose|k: int| 0 <= k < some.len() && some[k] == command;
        assert(all[k] == command);
    } else {
        assert(all[all.len() - 1] == command);
    }
}

/// A state is restored exactly where every reference of the snapshot has a full
/// name that is accepted and an object id, and every one that is to be deleted has
/// such a name.
pub proof fn law_only_acceptable_refs_are_restored(
    have: Seq<(Seq<char>, Seq<char>)>,
    want: Seq<(Seq<char>, Seq<char>)>,
)
    ensures
        commands_fault(have, want) is None <==> {
            &&& forall|i: int|
                #![trigger want[i]]
                0 <= i < want.len() ==> full_ref_fault(want[i].0) is None && is_object_id(want[i].1)
            &&& forall|j: int|
                #![trigger have[j]]
                0 <= j < have.len() && !entry_map(want).contains_key(have[j].0) ==> full_ref_fault(
                    have[j].0,
                ) is None
        },
{
    lemma_update_fault(want);
    lemma_delete_fault(have, entry_map(want));
}

proof fn lemma_update_fault(want: Seq<(Seq<char>, Seq<char>)>)
    ensures
        update_fault(want) is None <==> forall|i: int|
            #![trigger want[i]]
            0 <= i < want.len() ==> full_ref_fault(want[i].0) is None && is_object_id(want[i].1),
    decreases want.len(),
{
    if want.len() > 0 {
        let fewer = want.drop_last();
        lemma_update_fault(fewer);
        assert(want[want.len() - 1] == want.last());
        assert forall|i: int| 0 <= i < fewer.len() implies #[trigger] want[i] == fewer[i] by {}
        if update_fault(want) is None {
            assert forall|i: int| #![trigger want[i]] 0 <= i < want.len() implies full_ref_fault(
                want[i].0,
            ) is None && is_object_id(want[i].1) by {
                if i < fewer.len() {
                    assert(full_ref_fault(fewer[i].0) is None);
                }
            }
        } else if update_fault(fewer) is Some {
            let i = choose|i: int|
                #![trigger fewer[i]]
                0 <= i < fewer.len() && !(full_ref_fault(fewer[i].0) is None && is_object_id(
                    fewer[i].1,
                ));
            assert(want[i] == fewer[i]);
        }
    }
}

proof fn lemma_delete_fault(
    have: Seq<(Seq<char>, Seq<char>)>,
    wanted: Map<Seq<char>, Seq<char>>,
)
    ensures
        delete_fault(have, wanted) is None <==> forall|j: int|
            #![trigger have[j]]
            0 <= j < have.len() && !wanted.contains_key(have[j].0) ==> full_ref_fault(have[j].0)
                is None,
    decreases have.len(),
{
    if have.len() > 0 {
        let fewer = have.drop_last();
        lemma_delete_fault(fewer, wanted);
        assert(have[have.len() - 1] == have.last());
        assert forall|j: int| 0 <= j < fewer.len() implies #[trigger] have[j] == fewer[j] by {}
        if delete_fault(have, wanted) is None {
            assert forall|j: int|
                #![trigger have[j]]
                0 <= j < have.len() && !wanted.contains_key(have[j].0) implies full_ref_fault(
                have[j].0,
            ) is None by {
                if j < fewer.len() {
                    assert(fewer[j] == have[j]);
                }
            }
        } else if delete_fault(fewer, wanted) is Some {
            let j = choose|j: int|
                #![trigger fewer[j]]
                0 <= j < fewer.len() && !wanted.contains_key(fewer[j].0) && full_ref_fault(
                    fewer[j].0,
                ) is Some;
            assert(have[j] == fewer[j]);
        }
    }
}

/// `HEAD` goes back to the branch that it named, or to the commit that it was
/// detached at, where that can be accepted; and an empty one is refused.
pub proof fn law_head_is_restored(name: Seq<char>, id: Seq<char>)
    ensures
        full_ref_fault(trim_of(name)) is None ==> head_args("ref: "@ + name) == Ok::<
            Seq<Seq<char>>,
            RestoreErrorView,
        >(seq!["symbolic-ref"@, "HEAD"@, trim_of(name)]),
        full_ref_fault(trim_of(name)) matches Some(f) ==> head_args("ref: "@ + name) == Err::<
            Seq<Seq<char>>,
            RestoreErrorView,
        >(RestoreErrorView::Name(trim_of(name), f)),
        is_object_id(id) ==> head_args(id) == Ok::<Seq<Seq<char>>, RestoreErrorView>(
            seq!["update-ref"@, "--no-deref"@, "HEAD"@, id],
        ),
        !"ref: "@.is_prefix_of(id) && id.len() > 0 && !is_object_id(trim_of(id)) ==> head_args(id)
            == Err::<Seq<Seq<char>>, RestoreErrorView>(
            RestoreErrorView::Name(trim_of(id), NameFault::InvalidObjectId),
        ),
        head_args(Seq::<char>::empty()) == Err::<Seq<Seq<char>>, RestoreErrorView>(
            RestoreErrorView::EmptyHead,
        ),
{
    reveal_strlit("ref: ");
    law_after_prefix(id, "ref: "@, name);
    if is_object_id(id) {
        assert(is_hex_digit(id[0]) && is_hex_digit(id[id.len() - 1]));
        lemma_hex_is_visible(id[0]);
        lemma_hex_is_visible(id.last());
        law_trim_keeps(Seq::<char>::empty(), id, Seq::<char>::empty());
        if "ref: "@.is_prefix_of(id) {
            assert("ref: "@[0] == 'r');
            assert(id.subrange(0, 5)[0] == id[0]);
        }
    }
}

proof fn lemma_hex_is_visible(c: char)
    requires
        is_hex_digit(c),
    ensures
        !is_whitespace(c),
        c != 'r',
{
}

/// The index is read from the tree of the snapshot where that has one and it is an
/// object id; it is left alone where there is none.
pub proof fn law_index_is_restored(step: IndexStep, tree: Option<Seq<char>>)
    requires
        is_index_step(step, tree),
    ensures
        tree is None <==> step is Keep,
        tree matches Some(t) ==> is_object_id(t) ==> (step matches IndexStep::ReadTree(u) && u@
            == t),
        tree matches Some(t) ==> !is_object_id(t) ==> step is Refuse,
{
}

/// What is done to restore a snapshot turns the references into exactly those of
/// the snapshot, sets `HEAD` last, and counts the references that change.
pub proof fn law_snapshots_are_restored(
    engine: UndoEngine,
    current: Snapshot,
    pre: Snapshot,
    r: Result<Restoration, NameError>,
    plan: Restoration,
)
    requires
        call_ensures(UndoEngine::restore_snapshot, (&engine, &current, &pre), r),
        r == Ok::<Restoration, NameError>(plan),
        distinct_names(current.refs.listed()),
        distinct_names(pre.refs.listed()),
    ensures
        apply_all(command_views(plan.commands@), current.refs@) == Some(pre.refs@),
        plan.restored_refs == changed_names(current.refs@, pre.refs@).len(),
        pre.index_tree is None <==> plan.index is Keep,
        pre.index_tree matches Some(t) ==> is_object_id(t@) ==> (plan.index matches
            IndexStep::ReadTree(u) && u@ == t@),
        plan.head is Ok <==> head_args(pre.head@) is Ok,
        plan.head matches Ok(args) ==> texts(args@) == head_args(pre.head@)->Ok_0,
{
    law_commands_restore_refs(current.refs.listed(), pre.refs.listed());
}

/// What is told where a state cannot be restored is the name or the object id that
/// is not acceptable, and what is wrong with it.
pub proof fn law_unacceptable_refs_are_told(
    have: Seq<(Seq<char>, Seq<char>)>,
    want: Seq<(Seq<char>, Seq<char>)>,
    told: Seq<char>,
    fault: NameFault,
)
    requires
        commands_fault(have, want) == Some((told, fault)),
    ensures
        full_ref_fault(told) == Some(fault) || sha_fault(told) == Some(fault),
        (exists|i: int|
            #![trigger want[i]]
            0 <= i < want.len() && (want[i].0 == told || want[i].1 == told)) || exists|j: int|
            #![trigger have[j]]
            0 <= j < have.len() && have[j].0 == told && !entry_map(want).contains_key(told),
{
    lemma_update_told(want);
    lemma_delete_told(have, entry_map(want));
}

proof fn lemma_update_told(want: Seq<(Seq<char>, Seq<char>)>)
    ensures
        update_fault(want) matches Some((told, fault)) ==> (full_ref_fault(told) == Some(fault)
            || sha_fault(told) == Some(fault)) && exists|i: int|
            #![trigger want[i]]
            0 <= i < want.len() && (want[i].0 == told || want[i].1 == told),
    decreases want.len(),
{
    if want.len() > 0 {
        let fewer = want.drop_last();
        lemma_update_told(fewer);
        if let Some((told, fault)) = update_fault(fewer) {
            let i = choose|i: int|
                #![trigger fewer[i]]
                0 <= i < fewer.len() && (fewer[i].0 == told || fewer[i].1 == told);
            assert(want[i] == fewer[i]);
        } else {
            assert(want[want.len() - 1] == want.last());
        }
    }
}

proof fn lemma_delete_told(have: Seq<(Seq<char>, Seq<char>)>, wanted: Map<Seq<char>, Seq<char>>)
    ensures
        delete_fault(have, wanted) matches Some((told, fault)) ==> full_ref_fault(told) == Some(
            fault,
        ) && exists|j: int|
            #![trigger have[j]]
            0 <= j < have.len() && have[j].0 == told && !wanted.contains_key(told),
    decreases have.len(),
{
    if have.len() > 0 {
        let fewer = have.drop_last();
        lemma_delete_told(fewer, wanted);
        if let Some((told, fault)) = delete_fault(fewer, wanted) {
            let j = choose|j: int|
                #![trigger fewer[j]]
                0 <= j < fewer.len() && fewer[j].0 == told && !wanted.contains_key(told);
            assert(have[j] == fewer[j]);
        } else {
            assert(have[have.len() - 1] == have.last());
        }
    }
}

} // verus!
