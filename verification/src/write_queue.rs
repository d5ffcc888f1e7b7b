//! Writes to a repository: the commands, the arguments that `git` gets for
//! them, and what is made of the results.
//!
//! Writes are carried out one after another. Each is a transaction of the undo
//! stack: a snapshot is taken before and after the run of `git`.
use crate::git;
use crate::git::{failure_text, printed_by, GitOutput};
use crate::names;
use crate::names::{
    begins_with, path_fault, ref_fault, refspec_fault, NameError, NameFault,
};
use crate::text;
use crate::text::{decimal_of, lossy_of, opt_text, quoted_of, texts, trim_of};
use crate::undo::{UndoError, UndoErrorKind, UndoOutcome, UndoSummary};
use vstd::prelude::*;
use vstd::string::*;

verus! {

broadcast use vstd::string::group_string_axioms;

// ---------------------------------------------------------------------------
// Commands
// ---------------------------------------------------------------------------
/// A write to the repository.
#[derive(Debug, Clone)]
pub enum WriteCommand {
    Stage(Vec<String>),
    Unstage(Vec<String>),
    Commit { message: String, amend: bool },
    CreateBranch { name: String, base: Option<String> },
    DeleteBranch { name: String, force: bool },
    SwitchBranch { name: String, auto_stash: bool },
    Fetch { remote: Option<String> },
    Pull { remote: Option<String>, branch: Option<String> },
    Push { remote: String, branch: String, force: bool },
    /// Takes back a transaction and all later ones. It goes the way of every
    /// other write, so that it can never overlap with one.
    Undo { transaction_id: u64 },
}

/// How a write ended.
#[derive(Debug)]
pub enum WriteResult {
    Done(String),
    Failed(String),
    /// How an undo ended, so that a client can be told why it did not work.
    Undo(Result<UndoSummary, UndoErrorKind>),
}

/// What may be told of a command: its kind, its flags and how many paths it
/// has, but no message, no path and no name.
pub enum Shape {
    Stage(nat),
    Unstage(nat),
    Commit { amend: bool },
    CreateBranch,
    DeleteBranch { force: bool },
    SwitchBranch { auto_stash: bool },
    Fetch,
    Pull,
    Push { force: bool },
    Undo,
}

/// The summary of a command of a shape.
pub open spec fn summary_of(shape: Shape) -> Seq<char> {
    match shape {
        Shape::Stage(n) => "Stage("@ + decimal_of(n) + " paths)"@,
        Shape::Unstage(n) => "Unstage("@ + decimal_of(n) + " paths)"@,
        Shape::Commit { amend } => if amend {
            "Commit(amend)"@
        } else {
            "Commit"@
        },
        Shape::CreateBranch => "CreateBranch"@,
        Shape::DeleteBranch { force } => if force {
            "DeleteBranch(force)"@
        } else {
            "DeleteBranch"@
        },
        Shape::SwitchBranch { auto_stash } => if auto_stash {
            "SwitchBranch(auto-stash)"@
        } else {
            "SwitchBranch"@
        },
        Shape::Fetch => "Fetch"@,
        Shape::Pull => "Pull"@,
        Shape::Push { force } => if force {
            "Push(force)"@
        } else {
            "Push"@
        },
        Shape::Undo => "Undo"@,
    }
}

impl WriteCommand {
    /// What may be told of the command.
    pub open spec fn shape(&self) -> Shape {
        match self {
            WriteCommand::Stage(paths) => Shape::Stage(paths@.len()),
            WriteCommand::Unstage(paths) => Shape::Unstage(paths@.len()),
            WriteCommand::Commit { amend, .. } => Shape::Commit { amend: *amend },
            WriteCommand::CreateBranch { .. } => Shape::CreateBranch,
            WriteCommand::DeleteBranch { force, .. } => Shape::DeleteBranch { force: *force },
            WriteCommand::SwitchBranch { auto_stash, .. } => Shape::SwitchBranch {
                auto_stash: *auto_stash,
            },
            WriteCommand::Fetch { .. } => Shape::Fetch,
            WriteCommand::Pull { .. } => Shape::Pull,
            WriteCommand::Push { force, .. } => Shape::Push { force: *force },
            WriteCommand::Undo { .. } => Shape::Undo,
        }
    }

    /// A summary of the command for the journal and the audit log. It depends on
    /// the shape alone: neither file ever holds a message, a path or a name that
    /// a user has given.
    pub fn op_summary(&self) -> (r: String)
        ensures
            r@ == summary_of(self.shape()),
    {
        match self {
            WriteCommand::Stage(paths) => {
                let mut out = "Stage(".to_owned();
                out.append(text::decimal(paths.len() as u64).as_str());
                out.append(" paths)");
                out
            },
            WriteCommand::Unstage(paths) => {
                let mut out = "Unstage(".to_owned();
                out.append(text::decimal(paths.len() as u64).as_str());
                out.append(" paths)");
                out
            },
            WriteCommand::Commit { amend, .. } => if *amend {
                "Commit(amend)".to_owned()
            } else {
                "Commit".to_owned()
            },
            WriteCommand::CreateBranch { .. } => "CreateBranch".to_owned(),
            WriteCommand::DeleteBranch { force, .. } => if *force {
                "DeleteBranch(force)".to_owned()
            } else {
                "DeleteBranch".to_owned()
            },
            WriteCommand::SwitchBranch { auto_stash, .. } => if *auto_stash {
                "SwitchBranch(auto-stash)".to_owned()
            } else {
                "SwitchBranch".to_owned()
            },
            WriteCommand::Fetch { .. } => "Fetch".to_owned(),
            WriteCommand::Pull { .. } => "Pull".to_owned(),
            WriteCommand::Push { force, .. } => if *force {
                "Push(force)".to_owned()
            } else {
                "Push".to_owned()
            },
            WriteCommand::Undo { .. } => "Undo".to_owned(),
        }
    }
}

// ---------------------------------------------------------------------------
// Arguments
// ---------------------------------------------------------------------------
/// Why `git` is not run for a command.
#[derive(Debug, Clone)]
pub enum CommandError {
    /// A name or a path is not acceptable.
    Name(NameError),
    /// The message of a commit has a NUL character.
    NulInMessage,
}

/// What says why `git` is not run for a command.
pub enum CommandErrorView {
    Name(Seq<char>, NameFault),
    NulInMessage,
}

impl View for CommandError {
    type V = CommandErrorView;

    open spec fn view(&self) -> CommandErrorView {
        match self {
            CommandError::Name(e) => CommandErrorView::Name(e.name@, e.fault),
            CommandError::NulInMessage => CommandErrorView::NulInMessage,
        }
    }
}

impl CommandError {
    /// What the error says.
    pub open spec fn text(&self) -> Seq<char> {
        match self {
            CommandError::Name(e) => e.text(),
            CommandError::NulInMessage => "commit message contains NUL"@,
        }
    }

    /// What the error says.
    pub fn message(&self) -> (r: String)
        ensures
            r@ == self.text(),
    {
        match self {
            CommandError::Name(e) => e.message(),
            CommandError::NulInMessage => "commit message contains NUL".to_owned(),
        }
    }
}

/// What is wrong with the first path that is not acceptable.
pub open spec fn paths_fault(paths: Seq<Seq<char>>) -> Option<CommandErrorView>
    decreases paths.len(),
{
    if paths.len() == 0 {
        None
    } else {
        match paths_fault(paths.drop_last()) {
            Some(e) => Some(e),
            None => named(paths.last(), path_fault(paths.last())),
        }
    }
}

/// The error for a fault in a name.
pub open spec fn named(name: Seq<char>, fault: Option<NameFault>) -> Option<CommandErrorView> {
    match fault {
        Some(f) => Some(CommandErrorView::Name(name, f)),
        None => None,
    }
}

/// The error for the first of two things that may be wrong.
pub open spec fn either(a: Option<CommandErrorView>, b: Option<CommandErrorView>) -> Option<
    CommandErrorView,
> {
    if a is Some {
        a
    } else {
        b
    }
}

/// The error for a fault in a name that may be missing.
pub open spec fn opt_ref_fault(name: Option<Seq<char>>) -> Option<CommandErrorView> {
    match name {
        Some(n) => named(n, ref_fault(n)),
        None => None,
    }
}

/// The texts of an optional one.
pub open spec fn opt_arg(name: Option<Seq<char>>) -> Seq<Seq<char>> {
    match name {
        Some(n) => seq![n],
        None => Seq::empty(),
    }
}

impl WriteCommand {
    /// What is wrong with a command.
    pub open spec fn fault(&self) -> Option<CommandErrorView> {
        match self {
            WriteCommand::Stage(paths) => paths_fault(texts(paths@)),
            WriteCommand::Unstage(paths) => paths_fault(texts(paths@)),
            WriteCommand::Commit { message, .. } => if message@.contains('\0') {
                Some(CommandErrorView::NulInMessage)
            } else {
                None
            },
            WriteCommand::CreateBranch { name, base } => either(
                named(name@, ref_fault(name@)),
                opt_ref_fault(opt_text(*base)),
            ),
            WriteCommand::DeleteBranch { name, .. } => named(name@, ref_fault(name@)),
            WriteCommand::SwitchBranch { name, .. } => named(name@, ref_fault(name@)),
            WriteCommand::Fetch { remote } => opt_ref_fault(opt_text(*remote)),
            WriteCommand::Pull { remote, branch } => match remote {
                Some(r) => either(
                    named(r@, ref_fault(r@)),
                    opt_ref_fault(opt_text(*branch)),
                ),
                None => None,
            },
            WriteCommand::Push { remote, branch, .. } => either(
                named(remote@, ref_fault(remote@)),
                named(branch@, refspec_fault(branch@)),
            ),
            WriteCommand::Undo { .. } => None,
        }
    }

    /// The arguments for a command that are always the same.
    pub open spec fn fixed_args(&self) -> Seq<Seq<char>> {
        match self {
            WriteCommand::Stage(_) => seq!["add"@, "--"@],
            WriteCommand::Unstage(_) => seq!["reset"@, "HEAD"@, "--"@],
            WriteCommand::Commit { amend, .. } => if *amend {
                seq!["commit"@, "--amend"@, "--no-edit"@]
            } else {
                seq!["commit"@, "-m"@]
            },
            WriteCommand::CreateBranch { .. } => seq!["branch"@],
            WriteCommand::DeleteBranch { force, .. } => if *force {
                seq!["branch"@, "-D"@]
            } else {
                seq!["branch"@, "-d"@]
            },
            WriteCommand::SwitchBranch { .. } => seq!["switch"@],
            WriteCommand::Fetch { .. } => seq!["fetch"@],
            WriteCommand::Pull { .. } => seq!["pull"@],
            WriteCommand::Push { force, .. } => if *force {
                seq!["push"@, "--force-with-lease"@]
            } else {
                seq!["push"@]
            },
            WriteCommand::Undo { .. } => Seq::empty(),
        }
    }

    /// The arguments for a command that the user has given.
    pub open spec fn user_args(&self) -> Seq<Seq<char>> {
        match self {
            WriteCommand::Stage(paths) => texts(paths@),
            WriteCommand::Unstage(paths) => texts(paths@),
            WriteCommand::Commit { message, amend } => if *amend {
                Seq::empty()
            } else {
                seq![message@]
            },
            WriteCommand::CreateBranch { name, base } => seq![name@] + opt_arg(opt_text(*base)),
            WriteCommand::DeleteBranch { name, .. } => seq![name@],
            WriteCommand::SwitchBranch { name, .. } => seq![name@],
            WriteCommand::Fetch { remote } => opt_arg(opt_text(*remote)),
            WriteCommand::Pull { remote, branch } => match remote {
                Some(r) => seq![r@] + opt_arg(opt_text(*branch)),
                None => Seq::empty(),
            },
            WriteCommand::Push { remote, branch, .. } => seq![remote@, branch@],
            WriteCommand::Undo { .. } => Seq::empty(),
        }
    }
}

/// Accepts a list of paths.
fn validate_paths(paths: &Vec<String>) -> (r: Result<(), CommandError>)
    ensures
        match r {
            Ok(()) => paths_fault(texts(paths@)) is None,
            Err(e) => paths_fault(texts(paths@)) == Some(e@),
        },
{
    let ghost all = texts(paths@);
    let mut i: usize = 0;
    assert(all.take(0) =~= Seq::<Seq<char>>::empty());
    while i < paths.len()
        invariant
            i <= paths@.len(),
            all == texts(paths@),
            paths_fault(all.take(i as int)) is None,
        decreases paths.len() - i,
    {
        assert(all.take(i + 1).drop_last() =~= all.take(i as int));
        assert(all.take(i + 1).last() == paths@[i as int]@);
        if let Err(e) = names::validate_path_arg(paths[i].as_str()) {
            proof {
                lemma_first_path_fault(all, i + 1);
            }
            return Err(CommandError::Name(e));
        }
        i += 1;
    }
    assert(all.take(i as int) =~= all);
    Ok(())
}

/// The first fault among the paths is that of them all.
proof fn lemma_first_path_fault(paths: Seq<Seq<char>>, n: int)
    requires
        0 <= n <= paths.len(),
        paths_fault(paths.take(n)) is Some,
    ensures
        paths_fault(paths) == paths_fault(paths.take(n)),
    decreases paths.len() - n,
{
    if n < paths.len() {
        assert(paths.take(n + 1).drop_last() =~= paths.take(n));
        lemma_first_path_fault(paths, n + 1);
    } else {
        assert(paths.take(n) =~= paths);
    }
}

/// Accepts the name of a reference for a command.
fn validate_ref(name: &str) -> (r: Result<(), CommandError>)
    ensures
        match r {
            Ok(()) => ref_fault(name@) is None,
            Err(e) => Some(e@) == named(name@, ref_fault(name@)),
        },
{
    match names::validate_ref_arg(name) {
        Ok(()) => Ok(()),
        Err(e) => Err(CommandError::Name(e)),
    }
}

/// A list of arguments with one more behind it.
fn with_arg(args: Vec<String>, arg: &str) -> (r: Vec<String>)
    ensures
        texts(r@) == texts(args@).push(arg@),
{
    let mut args = args;
    let ghost before = texts(args@);
    args.push(arg.to_owned());
    assert(texts(args@) =~= before.push(arg@));
    args
}

/// A list of arguments with the paths behind it.
fn with_paths(args: Vec<String>, paths: &Vec<String>) -> (r: Vec<String>)
    ensures
        texts(r@) == texts(args@) + texts(paths@),
{
    let ghost before = texts(args@);
    let ghost all = texts(paths@);
    let mut args = args;
    let mut i: usize = 0;
    assert(before + all.take(0) =~= before);
    while i < paths.len()
        invariant
            i <= paths@.len(),
            all == texts(paths@),
            texts(args@) == before + all.take(i as int),
        decreases paths.len() - i,
    {
        let ghost so_far = texts(args@);
        args.push(paths[i].clone());
        i += 1;
        assert(texts(args@) =~= so_far.push(all[i - 1]));
        assert(texts(args@) =~= before + all.take(i as int));
    }
    assert(all.take(i as int) =~= all);
    args
}

/// The arguments that `git` gets for a command: nothing that a user has given
/// reaches it unchecked. A branch is switched to, and a transaction undone, in
/// more than one run.
pub fn command_args(cmd: &WriteCommand) -> (r: Result<Vec<String>, CommandError>)
    requires
        !(cmd is SwitchBranch),
        !(cmd is Undo),
    ensures
        match r {
            Ok(args) => cmd.fault() is None && texts(args@) == cmd.fixed_args() + cmd.user_args(),
            Err(e) => cmd.fault() == Some(e@),
        },
{
    let args = match cmd {
        WriteCommand::Stage(paths) => {
            validate_paths(paths)?;
            with_paths(git::args_of(&["add", "--"]), paths)
        },
        WriteCommand::Unstage(paths) => {
            validate_paths(paths)?;
            with_paths(git::args_of(&["reset", "HEAD", "--"]), paths)
        },
        WriteCommand::Commit { message, amend } => {
            if text::contains_char(message.as_str(), '\0') {
                return Err(CommandError::NulInMessage);
            }
            if *amend {
                git::args_of(&["commit", "--amend", "--no-edit"])
            } else {
                with_arg(git::args_of(&["commit", "-m"]), message.as_str())
            }
        },
        WriteCommand::CreateBranch { name, base } => {
            validate_ref(name.as_str())?;
            if let Some(base) = base {
                validate_ref(base.as_str())?;
            }
            let args = with_arg(git::args_of(&["branch"]), name.as_str());
            match base {
                Some(base) => with_arg(args, base.as_str()),
                None => args,
            }
        },
        WriteCommand::DeleteBranch { name, force } => {
            validate_ref(name.as_str())?;
            let args = if *force {
                git::args_of(&["branch", "-D"])
            } else {
                git::args_of(&["branch", "-d"])
            };
            with_arg(args, name.as_str())
        },
        WriteCommand::Fetch { remote } => {
            let args = git::args_of(&["fetch"]);
            match remote {
                Some(remote) => {
                    validate_ref(remote.as_str())?;
                    with_arg(args, remote.as_str())
                },
                None => args,
            }
        },
        WriteCommand::Pull { remote, branch } => {
            let args = git::args_of(&["pull"]);
            match remote {
                Some(remote) => {
                    validate_ref(remote.as_str())?;
                    let args = with_arg(args, remote.as_str());
                    match branch {
                        Some(branch) => {
                            validate_ref(branch.as_str())?;
                            with_arg(args, branch.as_str())
                        },
                        None => args,
                    }
                },
                None => args,
            }
        },
        WriteCommand::Push { remote, branch, force } => {
            validate_ref(remote.as_str())?;
            if let Err(e) = names::validate_pushspec(branch.as_str()) {
                return Err(CommandError::Name(e));
            }
            let args = if *force {
                git::args_of(&["push", "--force-with-lease"])
            } else {
                git::args_of(&["push"])
            };
            with_arg(with_arg(args, remote.as_str()), branch.as_str())
        },
        WriteCommand::SwitchBranch { .. } => Vec::new(),
        WriteCommand::Undo { .. } => Vec::new(),
    };
    assert(texts(args@) =~= cmd.fixed_args() + cmd.user_args());
    Ok(args)
}

/// What the run of `git` for a command gives.
pub fn command_result(out: &GitOutput) -> (r: Result<String, String>)
    ensures
        match r {
            Ok(p) => out.success && p@ == printed_by(*out),
            Err(e) => !out.success && e@ == "git command failed: "@ + lossy_of(out.stderr@),
        },
{
    if out.success {
        Ok(git::printed(out))
    } else {
        Err(
            "git command failed: ".to_owned().concat(
                text::lossy(out.stderr.as_slice()).as_str(),
            ),
        )
    }
}

// ---------------------------------------------------------------------------
// Switching branches
// ---------------------------------------------------------------------------
/// Which run of `git` a command waits for.
#[derive(Debug, Clone)]
pub enum RunPhase {
    /// The only one.
    Only,
    /// The one that says whether there are local changes.
    Status,
    /// The one that puts local changes away.
    Stash,
    /// The switch itself, after local changes were put away or not.
    Switch { stashed: bool },
    /// The one that brings local changes back after the switch has failed with
    /// this error.
    PopBack { error: String },
    /// The one that brings local changes back after the switch, which has
    /// printed this.
    Pop { output: String },
}

/// What a phase is.
pub enum PhaseView {
    Only,
    Status,
    Stash,
    Switch(bool),
    PopBack(Seq<char>),
    Pop(Seq<char>),
}

impl View for RunPhase {
    type V = PhaseView;

    open spec fn view(&self) -> PhaseView {
        match self {
            RunPhase::Only => PhaseView::Only,
            RunPhase::Status => PhaseView::Status,
            RunPhase::Stash => PhaseView::Stash,
            RunPhase::Switch { stashed } => PhaseView::Switch(*stashed),
            RunPhase::PopBack { error } => PhaseView::PopBack(error@),
            RunPhase::Pop { output } => PhaseView::Pop(output@),
        }
    }
}

/// What to do next in order to carry out a command.
#[derive(Debug)]
pub enum RunAction {
    /// Run `git` with these arguments, and go on in this phase.
    Run(Vec<String>, RunPhase),
    /// It is over.
    Finish(Result<String, String>),
}

/// What an action is.
pub enum ActionView {
    Run(Seq<Seq<char>>, PhaseView),
    Finish(Result<Seq<char>, Seq<char>>),
}

impl View for RunAction {
    type V = ActionView;

    open spec fn view(&self) -> ActionView {
        match self {
            RunAction::Run(args, phase) => ActionView::Run(texts(args@), phase@),
            RunAction::Finish(r) => ActionView::Finish(result_text(*r)),
        }
    }
}

/// What the result of a run says.
pub open spec fn result_text(r: Result<String, String>) -> Result<Seq<char>, Seq<char>> {
    match r {
        Ok(t) => Ok(t@),
        Err(e) => Err(e@),
    }
}

/// The arguments that ask for local changes.
pub open spec fn status_args() -> Seq<Seq<char>> {
    seq!["status"@, "--porcelain"@]
}

/// The arguments that put local changes away, those in new files too.
pub open spec fn stash_args() -> Seq<Seq<char>> {
    seq!["stash"@, "push"@, "--include-untracked"@]
}

/// The arguments that bring local changes back.
pub open spec fn pop_args() -> Seq<Seq<char>> {
    seq!["stash"@, "pop"@]
}

/// The arguments that switch to a branch.
pub open spec fn switch_args(name: Seq<char>) -> Seq<Seq<char>> {
    seq!["switch"@, name]
}

/// What comes first in a switch to the branch `name`.
pub open spec fn switch_begins(name: Seq<char>, auto_stash: bool) -> ActionView {
    if auto_stash {
        ActionView::Run(status_args(), PhaseView::Status)
    } else {
        ActionView::Run(switch_args(name), PhaseView::Switch(false))
    }
}

/// What a switch has printed.
pub open spec fn switch_output(stashed: bool, out: Seq<char>) -> Seq<char> {
    if stashed {
        "stashed local changes; "@ + out
    } else {
        out
    }
}

/// What is said where local changes could not be brought back after a switch.
pub open spec fn pop_failure(name: Seq<char>, e: Seq<char>) -> Seq<char> {
    "switch to branch "@ + quoted_of(name)
        + " succeeded, but restoring the stashed changes failed: "@ + e
        + "\nThe changes are retained in the stash; run `git stash pop` manually."@
}

/// What follows in a switch to the branch `name` on the result of a run.
pub open spec fn switch_goes_on(
    name: Seq<char>,
    phase: PhaseView,
    result: Result<Seq<char>, Seq<char>>,
) -> ActionView {
    match (phase, result) {
        (PhaseView::Only, _) => ActionView::Finish(result),
        (PhaseView::Status, Ok(out)) => if trim_of(out).len() > 0 {
            ActionView::Run(stash_args(), PhaseView::Stash)
        } else {
            ActionView::Run(switch_args(name), PhaseView::Switch(false))
        },
        (PhaseView::Status, Err(e)) => ActionView::Finish(Err(e)),
        (PhaseView::Stash, Ok(_)) => ActionView::Run(switch_args(name), PhaseView::Switch(true)),
        (PhaseView::Stash, Err(e)) => ActionView::Finish(
            Err("auto-stash failed; switch aborted: "@ + e),
        ),
        (PhaseView::Switch(stashed), Ok(out)) => if stashed {
            ActionView::Run(pop_args(), PhaseView::Pop(switch_output(stashed, out)))
        } else {
            ActionView::Finish(Ok(trim_of(switch_output(stashed, out))))
        },
        (PhaseView::Switch(stashed), Err(e)) => if stashed {
            ActionView::Run(pop_args(), PhaseView::PopBack(e))
        } else {
            ActionView::Finish(Err(e))
        },
        (PhaseView::PopBack(error), _) => ActionView::Finish(Err(error)),
        (PhaseView::Pop(output), Ok(out)) => ActionView::Finish(
            Ok(
                trim_of(
                    if out.len() > 0 {
                        output + "\n"@ + out
                    } else {
                        output
                    },
                ),
            ),
        ),
        (PhaseView::Pop(_), Err(e)) => ActionView::Finish(Err(pop_failure(name, e))),
    }
}

/// The run that switches to a branch.
fn run_switch(name: &str, stashed: bool) -> (r: RunAction)
    ensures
        r@ == ActionView::Run(switch_args(name@), PhaseView::Switch(stashed)),
{
    let args = with_arg(git::args_of(&["switch"]), name);
    assert(texts(args@) =~= switch_args(name@));
    RunAction::Run(args, RunPhase::Switch { stashed })
}

/// The run that brings local changes back.
fn run_pop(phase: RunPhase) -> (r: RunAction)
    ensures
        r@ == ActionView::Run(pop_args(), phase@),
{
    let args = git::args_of(&["stash", "pop"]);
    assert(texts(args@) =~= pop_args());
    RunAction::Run(args, phase)
}

/// What comes first in a switch to the branch `name`. Where local changes are
/// to be carried over, it is asked whether there are any.
pub fn begin_switch(name: &str, auto_stash: bool) -> (r: Result<RunAction, NameError>)
    ensures
        match r {
            Ok(action) => ref_fault(name@) is None && action@ == switch_begins(name@, auto_stash),
            Err(e) => ref_fault(name@) == Some(e.fault) && e.name@ == name@,
        },
{
    if let Err(e) = names::validate_ref_arg(name) {
        return Err(e);
    }
    if auto_stash {
        let args = git::args_of(&["status", "--porcelain"]);
        assert(texts(args@) =~= status_args());
        Ok(RunAction::Run(args, RunPhase::Status))
    } else {
        Ok(run_switch(name, false))
    }
}

/// What follows in a switch to the branch `name` on the result of the run that
/// it waited for:
/// - local changes are put away only where there are some, and where that fails
///   the switch is not tried;
/// - where the switch fails, they are brought back, as far as that works;
/// - where they cannot be brought back after the switch, they stay in the stash
///   and the error says so, as the switch itself has worked.
pub fn go_on_switch(name: &str, phase: RunPhase, result: Result<String, String>) -> (r:
    RunAction)
    ensures
        r@ == switch_goes_on(name@, phase@, result_text(result)),
{
    match (phase, result) {
        (RunPhase::Only, result) => RunAction::Finish(result),
        (RunPhase::Status, Ok(out)) => {
            if !text::trim(out.as_str()).as_str().is_empty() {
                let args = git::args_of(&["stash", "push", "--include-untracked"]);
                assert(texts(args@) =~= stash_args());
                RunAction::Run(args, RunPhase::Stash)
            } else {
                run_switch(name, false)
            }
        },
        (RunPhase::Status, Err(e)) => RunAction::Finish(Err(e)),
        (RunPhase::Stash, Ok(_)) => run_switch(name, true),
        (RunPhase::Stash, Err(e)) => RunAction::Finish(
            Err("auto-stash failed; switch aborted: ".to_owned().concat(e.as_str())),
        ),
        (RunPhase::Switch { stashed }, Ok(out)) => {
            if stashed {
                let output = "stashed local changes; ".to_owned().concat(out.as_str());
                run_pop(RunPhase::Pop { output })
            } else {
                RunAction::Finish(Ok(text::trim(out.as_str())))
            }
        },
        (RunPhase::Switch { stashed }, Err(e)) => {
            if stashed {
                run_pop(RunPhase::PopBack { error: e })
            } else {
                RunAction::Finish(Err(e))
            }
        },
        (RunPhase::PopBack { error }, _) => RunAction::Finish(Err(error)),
        (RunPhase::Pop { output }, Ok(out)) => {
            let mut all = output;
            if !out.as_str().is_empty() {
                all.append("\n");
                all.append(out.as_str());
            }
            RunAction::Finish(Ok(text::trim(all.as_str())))
        },
        (RunPhase::Pop { .. }, Err(e)) => {
            let mut out = "switch to branch ".to_owned();
            out.append(text::quoted(name).as_str());
            out.append(" succeeded, but restoring the stashed changes failed: ");
            out.append(e.as_str());
            out.append("\nThe changes are retained in the stash; run `git stash pop` manually.");
            RunAction::Finish(Err(out))
        },
    }
}

// ---------------------------------------------------------------------------
// Carrying out a command
// ---------------------------------------------------------------------------
/// What comes first in order to carry out a command.
pub open spec fn command_begins(cmd: WriteCommand) -> Result<ActionView, CommandErrorView> {
    match cmd.fault() {
        Some(e) => Err(e),
        None => Ok(
            match cmd {
                WriteCommand::SwitchBranch { name, auto_stash } => switch_begins(name@, auto_stash),
                _ => ActionView::Run(cmd.fixed_args() + cmd.user_args(), PhaseView::Only),
            },
        ),
    }
}

/// What comes first in order to carry out a command, which is refused where
/// anything that a user has given is not acceptable.
pub fn execute_command(cmd: &WriteCommand) -> (r: Result<RunAction, CommandError>)
    requires
        !(cmd is Undo),
    ensures
        match (r, command_begins(*cmd)) {
            (Ok(action), Ok(view)) => action@ == view,
            (Err(e), Err(view)) => e@ == view,
            _ => false,
        },
{
    match cmd {
        WriteCommand::SwitchBranch { name, auto_stash } => match begin_switch(
            name.as_str(),
            *auto_stash,
        ) {
            Ok(action) => Ok(action),
            Err(e) => Err(CommandError::Name(e)),
        },
        _ => match command_args(cmd) {
            Ok(args) => Ok(RunAction::Run(args, RunPhase::Only)),
            Err(e) => Err(e),
        },
    }
}

/// What a run of `git` in a phase has given, or why it could not be run.
pub open spec fn run_text(
    args: Seq<Seq<char>>,
    phase: PhaseView,
    out: Result<GitOutput, String>,
) -> Result<Seq<char>, Seq<char>> {
    match out {
        Err(e) => Err(e@),
        Ok(out) => if out.success {
            Ok(printed_by(out))
        } else if phase is Only {
            Err("git command failed: "@ + lossy_of(out.stderr@))
        } else {
            Err(failure_text(args, trim_of(lossy_of(out.stderr@))))
        },
    }
}

/// The branch that a command switches to.
pub open spec fn switched_to(cmd: WriteCommand) -> Seq<char> {
    match cmd {
        WriteCommand::SwitchBranch { name, .. } => name@,
        _ => Seq::<char>::empty(),
    }
}

/// What follows in a command on the run with the arguments `args` that it waited
/// for.
pub fn go_on_command(
    cmd: &WriteCommand,
    args: &Vec<String>,
    phase: RunPhase,
    out: Result<GitOutput, String>,
) -> (r: RunAction)
    ensures
        r@ == switch_goes_on(switched_to(*cmd), phase@, run_text(texts(args@), phase@, out)),
{
    let result = match out {
        Err(e) => Err(e),
        Ok(out) => match phase {
            RunPhase::Only => command_result(&out),
            _ => git::run_git_checked(args, &out),
        },
    };
    let none = String::new();
    let name = match cmd {
        WriteCommand::SwitchBranch { name, .. } => name.as_str(),
        _ => none.as_str(),
    };
    go_on_switch(name, phase, result)
}

// ---------------------------------------------------------------------------
// Results
// ---------------------------------------------------------------------------
/// The result of a write whose transaction could not be begun: it is not
/// carried out, and has no transaction.
pub fn begin_failed(reason: &str) -> (r: (WriteResult, u64))
    ensures
        r.0 matches WriteResult::Failed(e) && e@ == "undo snapshot failed: "@ + reason@,
        r.1 == 0,
{
    (WriteResult::Failed("undo snapshot failed: ".to_owned().concat(reason)), 0)
}

/// The result of a write in the transaction `tx_id`, given what came of the run
/// and of the commit of the transaction. A write that cannot be undone is never
/// reported as a plain success.
pub fn run_write(tx_id: u64, executed: Result<String, String>, committed: Result<(), String>) -> (r:
    (WriteResult, u64))
    ensures
        r.1 == tx_id,
        match (executed, committed) {
            (Ok(output), Ok(())) => r.0 matches WriteResult::Done(o) && o@ == output@,
            (Ok(_), Err(e)) => r.0 matches WriteResult::Failed(m) && m@
                == "git operation succeeded but is NOT undoable (journal write failed): "@ + e@,
            (Err(e), _) => r.0 matches WriteResult::Failed(m) && m@ == e@,
        },
{
    match (executed, committed) {
        (Ok(output), Ok(())) => (WriteResult::Done(output), tx_id),
        (Ok(_), Err(e)) => {
            let m = "git operation succeeded but is NOT undoable (journal write failed): ".to_owned();
            (WriteResult::Failed(m.concat(e.as_str())), tx_id)
        },
        (Err(e), _) => (WriteResult::Failed(e), tx_id),
    }
}

/// Whether two reports of a failed undo say the same.
pub open spec fn same_kind(a: UndoErrorKind, e: UndoError) -> bool {
    match e {
        UndoError::NotFound => a is NotFound,
        UndoError::Blocked { reason } => a matches UndoErrorKind::Blocked { reason: told } && told@
            == reason@,
        UndoError::Io(m) => a matches UndoErrorKind::Failure { msg } && msg@ == m@,
        UndoError::Git(m) => a matches UndoErrorKind::Failure { msg } && msg@ == m@,
    }
}

/// The result of an undo.
pub fn run_undo(transaction_id: u64, outcome: Result<UndoOutcome, UndoError>) -> (r: (
    WriteResult,
    u64,
))
    ensures
        r.1 == transaction_id,
        match outcome {
            Ok(UndoOutcome::Restored { restored_refs }) => r.0 matches WriteResult::Undo(
                Ok(s),
            ) && s.restored_refs == restored_refs && !s.noop,
            Ok(UndoOutcome::Noop) => r.0 matches WriteResult::Undo(Ok(s)) && s.restored_refs == 0
                && s.noop,
            Err(e) => r.0 matches WriteResult::Undo(Err(k)) && same_kind(k, e),
        },
{
    let result = match outcome {
        Ok(UndoOutcome::Restored { restored_refs }) => Ok(
            UndoSummary { restored_refs, noop: false },
        ),
        Ok(UndoOutcome::Noop) => Ok(UndoSummary { restored_refs: 0, noop: true }),
        Err(e) => Err(e.kind()),
    };
    (WriteResult::Undo(result), transaction_id)
}

/// What the result of a write says: what it printed, or what went wrong.
pub open spec fn outcome_text(result: WriteResult) -> Result<Seq<char>, Seq<char>> {
    match result {
        WriteResult::Done(t) => Ok(t@),
        WriteResult::Failed(e) => Err(e@),
        WriteResult::Undo(Ok(_)) => Ok(Seq::<char>::empty()),
        WriteResult::Undo(Err(k)) => Err(k.text()),
    }
}

/// Whether a write has changed the repository as it was asked to.
pub open spec fn succeeded(result: WriteResult) -> bool {
    match result {
        WriteResult::Done(_) => true,
        WriteResult::Failed(_) => false,
        WriteResult::Undo(r) => r is Ok,
    }
}

impl WriteResult {
    /// Whether the write has changed the repository as it was asked to.
    pub fn is_success(&self) -> (r: bool)
        ensures
            r == succeeded(*self),
    {
        match self {
            WriteResult::Done(_) => true,
            WriteResult::Failed(_) => false,
            WriteResult::Undo(Ok(_)) => true,
            WriteResult::Undo(Err(_)) => false,
        }
    }
}

// ---------------------------------------------------------------------------
// Laws
// ---------------------------------------------------------------------------
/// Whether two commands differ at most in the texts that a user has given:
/// messages, paths, branches, remotes, bases, and which transaction is undone.
pub open spec fn differ_in_texts_alone(a: WriteCommand, b: WriteCommand) -> bool {
    match (a, b) {
        (WriteCommand::Stage(p), WriteCommand::Stage(q)) => p@.len() == q@.len(),
        (WriteCommand::Unstage(p), WriteCommand::Unstage(q)) => p@.len() == q@.len(),
        (
            WriteCommand::Commit { amend: x, .. },
            WriteCommand::Commit { amend: y, .. },
        ) => x == y,
        (WriteCommand::CreateBranch { .. }, WriteCommand::CreateBranch { .. }) => true,
        (
            WriteCommand::DeleteBranch { force: x, .. },
            WriteCommand::DeleteBranch { force: y, .. },
        ) => x == y,
        (
            WriteCommand::SwitchBranch { auto_stash: x, .. },
            WriteCommand::SwitchBranch { auto_stash: y, .. },
        ) => x == y,
        (WriteCommand::Fetch { .. }, WriteCommand::Fetch { .. }) => true,
        (WriteCommand::Pull { .. }, WriteCommand::Pull { .. }) => true,
        (WriteCommand::Push { force: x, .. }, WriteCommand::Push { force: y, .. }) => x == y,
        (WriteCommand::Undo { .. }, WriteCommand::Undo { .. }) => true,
        _ => false,
    }
}

/// Nothing that a user has written shows in the summary of a command: commands
/// that differ in such texts alone have the same one.
pub proof fn law_summaries_are_redacted(a: WriteCommand, b: WriteCommand)
    requires
        differ_in_texts_alone(a, b),
    ensures
        summary_of(a.shape()) == summary_of(b.shape()),
{
}

/// An accepted path does not begin with a dash.
proof fn lemma_path_no_option(paths: Seq<Seq<char>>, i: int)
    requires
        paths_fault(paths) is None,
        0 <= i < paths.len(),
    ensures
        !begins_with(paths[i], '-'),
    decreases paths.len(),
{
    if i < paths.len() - 1 {
        lemma_path_no_option(paths.drop_last(), i);
    }
}

/// Nothing that a user has given is read as an option by `git`: it is the value
/// of `-m`, or it does not begin with a dash. Paths moreover stand behind `--`.
pub proof fn law_user_args_are_no_options(cmd: WriteCommand, i: int)
    requires
        cmd.fault() is None,
        0 <= i < cmd.user_args().len(),
    ensures
        cmd.fixed_args().last() == "-m"@ || !begins_with(cmd.user_args()[i], '-'),
        cmd is Stage || cmd is Unstage ==> cmd.fixed_args().last() == "--"@,
{
    match cmd {
        WriteCommand::Stage(paths) => lemma_path_no_option(texts(paths@), i),
        WriteCommand::Unstage(paths) => lemma_path_no_option(texts(paths@), i),
        _ => {},
    }
}

/// Wherever local changes have been put away, they are brought back before the
/// switch is over, and the switch is reported as failed where they could not be
/// or where it did fail.
pub proof fn law_stashed_changes_are_brought_back(
    name: Seq<char>,
    switched: Result<Seq<char>, Seq<char>>,
    popped: Result<Seq<char>, Seq<char>>,
)
    ensures
        switch_goes_on(name, PhaseView::Switch(true), switched) matches ActionView::Run(
            args,
            phase,
        ) && {
            &&& args == pop_args()
            &&& switch_goes_on(name, phase, popped) matches ActionView::Finish(r) && {
                &&& r is Ok <==> switched is Ok && popped is Ok
                &&& switched matches Err(e) ==> r == Err::<Seq<char>, Seq<char>>(e)
            }
        },
{
}

/// How many runs may follow on the one that a command waits for.
pub open spec fn runs_left(phase: PhaseView) -> nat {
    match phase {
        PhaseView::Status => 3,
        PhaseView::Stash => 2,
        PhaseView::Switch(_) => 1,
        _ => 0,
    }
}

/// A command comes to an end after four runs of `git` at most, whatever they
/// give.
pub proof fn law_runs_come_to_an_end(
    name: Seq<char>,
    phase: PhaseView,
    result: Result<Seq<char>, Seq<char>>,
)
    ensures
        runs_left(phase) <= 3,
        switch_goes_on(name, phase, result) matches ActionView::Run(_, next) ==> runs_left(next)
            < runs_left(phase),
{
}

/// A switch without local changes, or one that is not to carry them over, never
/// touches the stash.
pub proof fn law_clean_switch_leaves_stash(
    name: Seq<char>,
    status: Seq<char>,
    switched: Result<Seq<char>, Seq<char>>,
)
    requires
        trim_of(status).len() == 0,
    ensures
        switch_begins(name, false) == ActionView::Run(switch_args(name), PhaseView::Switch(false)),
        switch_goes_on(name, PhaseView::Status, Ok(status)) == ActionView::Run(
            switch_args(name),
            PhaseView::Switch(false),
        ),
        switch_goes_on(name, PhaseView::Switch(false), switched) is Finish,
{
}

/// Paths are staged and taken back by one run of `git` each, with all of them, in
/// their order, behind `--`.
pub proof fn law_paths_reach_git(paths: Vec<String>, i: int)
    requires
        0 <= i < paths@.len(),
        forall|j: int| 0 <= j < paths@.len() ==> path_fault((#[trigger] paths@[j])@) is None,
    ensures
        command_begins(WriteCommand::Stage(paths)) matches Ok(ActionView::Run(args, phase)) && {
            &&& phase == PhaseView::Only
            &&& args.len() == paths@.len() + 2
            &&& args[0] == "add"@
            &&& args[1] == "--"@
            &&& args[i + 2] == paths@[i]@
        },
        command_begins(WriteCommand::Unstage(paths)) matches Ok(ActionView::Run(args, phase)) && {
            &&& phase == PhaseView::Only
            &&& args.len() == paths@.len() + 3
            &&& args[0] == "reset"@
            &&& args[1] == "HEAD"@
            &&& args[2] == "--"@
            &&& args[i + 3] == paths@[i]@
        },
{
    lemma_paths_accepted(texts(paths@));
    assert forall|j: int| 0 <= j < texts(paths@).len() implies path_fault(
        #[trigger] texts(paths@)[j],
    ) is None by {
        assert(texts(paths@)[j] == paths@[j]@);
    }
    assert(texts(paths@)[i] == paths@[i]@);
}

/// Paths are accepted where each of them is; else the first that is not is told
/// of.
proof fn lemma_paths_accepted(paths: Seq<Seq<char>>)
    ensures
        paths_fault(paths) is None <==> forall|j: int|
            0 <= j < paths.len() ==> path_fault(#[trigger] paths[j]) is None,
        paths_fault(paths) matches Some(e) ==> exists|j: int|
            0 <= j < paths.len() && named(#[trigger] paths[j], path_fault(paths[j])) == Some(e)
                && forall|k: int| 0 <= k < j ==> path_fault(#[trigger] paths[k]) is None,
    decreases paths.len(),
{
    if paths.len() > 0 {
        let fewer = paths.drop_last();
        let n = paths.len() - 1;
        lemma_paths_accepted(fewer);
        assert(paths[n] == paths.last());
        assert forall|j: int| 0 <= j < n implies #[trigger] paths[j] == fewer[j] by {}
        if paths_fault(fewer) is None {
            assert forall|k: int| 0 <= k < n implies path_fault(#[trigger] paths[k]) is None by {
                assert(path_fault(fewer[k]) is None);
            }
        } else {
            let e = paths_fault(fewer)->0;
            let j = choose|j: int|
                0 <= j < fewer.len() && named(#[trigger] fewer[j], path_fault(fewer[j])) == Some(e)
                    && forall|k: int| 0 <= k < j ==> path_fault(#[trigger] fewer[k]) is None;
            assert(named(paths[j], path_fault(paths[j])) == Some(e));
            assert forall|k: int| 0 <= k < j implies path_fault(#[trigger] paths[k]) is None by {
                assert(path_fault(fewer[k]) is None);
            }
            assert(path_fault(paths[j]) is Some);
        }
    }
}

/// A new commit has the message that was given, and an amended one keeps the old.
pub proof fn law_commits_reach_git(message: String)
    requires
        !message@.contains('\0'),
    ensures
        begins_with_run(
            WriteCommand::Commit { message, amend: false },
            seq!["commit"@, "-m"@, message@],
        ),
        begins_with_run(
            WriteCommand::Commit { message, amend: true },
            seq!["commit"@, "--amend"@, "--no-edit"@],
        ),
{
    lemma_args(
        WriteCommand::Commit { message, amend: false },
        seq!["commit"@, "-m"@, message@],
    );
    lemma_args(
        WriteCommand::Commit { message, amend: true },
        seq!["commit"@, "--amend"@, "--no-edit"@],
    );
}

/// A branch is created under its name, at the base where one is given, and deleted
/// by force only where that was asked for.
pub proof fn law_branches_reach_git(name: String, base: String)
    requires
        ref_fault(name@) is None,
        ref_fault(base@) is None,
    ensures
        begins_with_run(
            WriteCommand::CreateBranch { name, base: None },
            seq!["branch"@, name@],
        ),
        begins_with_run(
            WriteCommand::CreateBranch { name, base: Some(base) },
            seq!["branch"@, name@, base@],
        ),
        begins_with_run(
            WriteCommand::DeleteBranch { name, force: false },
            seq!["branch"@, "-d"@, name@],
        ),
        begins_with_run(
            WriteCommand::DeleteBranch { name, force: true },
            seq!["branch"@, "-D"@, name@],
        ),
{
    lemma_args(
        WriteCommand::CreateBranch { name, base: None },
        seq!["branch"@, name@],
    );
    lemma_args(
        WriteCommand::CreateBranch { name, base: Some(base) },
        seq!["branch"@, name@, base@],
    );
    lemma_args(
        WriteCommand::DeleteBranch { name, force: false },
        seq!["branch"@, "-d"@, name@],
    );
    lemma_args(
        WriteCommand::DeleteBranch { name, force: true },
        seq!["branch"@, "-D"@, name@],
    );
}

/// What is fetched and pulled comes from the remote that is given, or from the one
/// that `git` knows.
pub proof fn law_fetches_reach_git(remote: String, branch: String)
    requires
        ref_fault(remote@) is None,
        ref_fault(branch@) is None,
    ensures
        begins_with_run(
            WriteCommand::Fetch { remote: None },
            seq!["fetch"@],
        ),
        begins_with_run(
            WriteCommand::Fetch { remote: Some(remote) },
            seq!["fetch"@, remote@],
        ),
        begins_with_run(
            WriteCommand::Pull { remote: None, branch: Some(branch) },
            seq!["pull"@],
        ),
        begins_with_run(
            WriteCommand::Pull { remote: Some(remote), branch: None },
            seq!["pull"@, remote@],
        ),
        begins_with_run(
            WriteCommand::Pull { remote: Some(remote), branch: Some(branch) },
            seq!["pull"@, remote@, branch@],
        ),
{
    lemma_args(
        WriteCommand::Fetch { remote: None },
        seq!["fetch"@],
    );
    lemma_args(
        WriteCommand::Fetch { remote: Some(remote) },
        seq!["fetch"@, remote@],
    );
    lemma_args(
        WriteCommand::Pull { remote: None, branch: Some(branch) },
        seq!["pull"@],
    );
    lemma_args(
        WriteCommand::Pull { remote: Some(remote), branch: None },
        seq!["pull"@, remote@],
    );
    lemma_args(
        WriteCommand::Pull { remote: Some(remote), branch: Some(branch) },
        seq!["pull"@, remote@, branch@],
    );
}

/// What is pushed goes to the remote that is given, by force only where that was
/// asked for, and then with a lease.
pub proof fn law_pushes_reach_git(remote: String, branch: String)
    requires
        ref_fault(remote@) is None,
        refspec_fault(branch@) is None,
    ensures
        begins_with_run(
            WriteCommand::Push { remote, branch, force: false },
            seq!["push"@, remote@, branch@],
        ),
        begins_with_run(
            WriteCommand::Push { remote, branch, force: true },
            seq!["push"@, "--force-with-lease"@, remote@, branch@],
        ),
{
    lemma_args(
        WriteCommand::Push { remote, branch, force: false },
        seq!["push"@, remote@, branch@],
    );
    lemma_args(
        WriteCommand::Push { remote, branch, force: true },
        seq!["push"@, "--force-with-lease"@, remote@, branch@],
    );
}

/// Whether a command begins with a run of `git` with these arguments, and that is
/// its only one.
pub open spec fn begins_with_run(cmd: WriteCommand, args: Seq<Seq<char>>) -> bool {
    command_begins(cmd) == Ok::<ActionView, CommandErrorView>(
        ActionView::Run(args, PhaseView::Only),
    )
}

proof fn lemma_args(cmd: WriteCommand, args: Seq<Seq<char>>)
    requires
        cmd.fault() is None,
        !(cmd is SwitchBranch),
        cmd.fixed_args() + cmd.user_args() =~= args,
    ensures
        begins_with_run(cmd, args),
{
}

/// A switch asks for local changes first where they are to be carried over, and
/// else goes ahead.
pub proof fn law_switches_begin(name: String)
    requires
        ref_fault(name@) is None,
    ensures
        command_begins(WriteCommand::SwitchBranch { name, auto_stash: true }) == Ok::<
            ActionView,
            CommandErrorView,
        >(ActionView::Run(seq!["status"@, "--porcelain"@], PhaseView::Status)),
        command_begins(WriteCommand::SwitchBranch { name, auto_stash: false }) == Ok::<
            ActionView,
            CommandErrorView,
        >(ActionView::Run(seq!["switch"@, name@], PhaseView::Switch(false))),
{
}

/// No write is carried out with a name, a path or a message that is not
/// acceptable, and every one whose names, paths and message are is.
pub proof fn law_unacceptable_writes_are_refused(cmd: WriteCommand)
    ensures
        command_begins(cmd) is Ok <==> match cmd {
            WriteCommand::Stage(paths) => forall|i: int|
                0 <= i < paths@.len() ==> path_fault((#[trigger] paths@[i])@) is None,
            WriteCommand::Unstage(paths) => forall|i: int|
                0 <= i < paths@.len() ==> path_fault((#[trigger] paths@[i])@) is None,
            WriteCommand::Commit { message, .. } => !message@.contains('\0'),
            WriteCommand::CreateBranch { name, base } => ref_fault(name@) is None && (base matches
                Some(b) ==> ref_fault(b@) is None),
            WriteCommand::DeleteBranch { name, .. } => ref_fault(name@) is None,
            WriteCommand::SwitchBranch { name, .. } => ref_fault(name@) is None,
            WriteCommand::Fetch { remote } => remote matches Some(r) ==> ref_fault(r@) is None,
            WriteCommand::Pull { remote, branch } => remote matches Some(r) ==> ref_fault(r@)
                is None && (branch matches Some(b) ==> ref_fault(b@) is None),
            WriteCommand::Push { remote, branch, .. } => ref_fault(remote@) is None
                && refspec_fault(branch@) is None,
            WriteCommand::Undo { .. } => true,
        },
        command_begins(cmd) matches Err(CommandErrorView::NulInMessage) ==> cmd is Commit,
        command_begins(cmd) matches Err(CommandErrorView::Name(name, fault)) ==> {
            path_fault(name) == Some(fault) || ref_fault(name) == Some(fault) || refspec_fault(name)
                == Some(fault)
        },
{
    match cmd {
        WriteCommand::Stage(paths) => {
            lemma_path_texts(paths);
        },
        WriteCommand::Unstage(paths) => {
            lemma_path_texts(paths);
        },
        _ => {},
    }
}

proof fn lemma_path_texts(paths: Vec<String>)
    ensures
        paths_fault(texts(paths@)) is None <==> forall|i: int|
            0 <= i < paths@.len() ==> path_fault((#[trigger] paths@[i])@) is None,
        paths_fault(texts(paths@)) matches Some(e) ==> e matches CommandErrorView::Name(n, f)
            && path_fault(n) == Some(f),
{
    let all = texts(paths@);
    lemma_paths_accepted(all);
    assert forall|i: int| 0 <= i < paths@.len() implies (#[trigger] paths@[i])@ == all[i] by {}
    if paths_fault(all) is None {
        assert forall|i: int| 0 <= i < paths@.len() implies path_fault((#[trigger] paths@[i])@)
            is None by {
            assert(path_fault(all[i]) is None);
        }
    } else if forall|i: int| 0 <= i < paths@.len() ==> path_fault((#[trigger] paths@[i])@) is None {
        assert forall|j: int| 0 <= j < all.len() implies path_fault(#[trigger] all[j]) is None by {
            assert(path_fault(paths@[j]@) is None);
        }
    }
}

/// How a switch goes on, run by run: local changes are put away with new files
/// too, where there are any; the switch follows; and what was put away is brought
/// back, whether the switch has worked or not.
pub proof fn law_switch_course(
    name: Seq<char>,
    out: Seq<char>,
    popped: Seq<char>,
    e: Seq<char>,
    error: Seq<char>,
)
    ensures
        trim_of(out).len() > 0 ==> switch_goes_on(name, PhaseView::Status, Ok(out))
            == ActionView::Run(seq!["stash"@, "push"@, "--include-untracked"@], PhaseView::Stash),
        trim_of(out).len() == 0 ==> switch_goes_on(name, PhaseView::Status, Ok(out))
            == ActionView::Run(seq!["switch"@, name], PhaseView::Switch(false)),
        switch_goes_on(name, PhaseView::Status, Err(e)) == ActionView::Finish(Err(e)),
        switch_goes_on(name, PhaseView::Stash, Ok(out)) == ActionView::Run(
            seq!["switch"@, name],
            PhaseView::Switch(true),
        ),
        switch_goes_on(name, PhaseView::Stash, Err(e)) == ActionView::Finish(
            Err("auto-stash failed; switch aborted: "@ + e),
        ),
        switch_goes_on(name, PhaseView::Switch(false), Ok(out)) == ActionView::Finish(
            Ok(trim_of(out)),
        ),
        switch_goes_on(name, PhaseView::Switch(false), Err(e)) == ActionView::Finish(Err(e)),
        switch_goes_on(name, PhaseView::Switch(true), Ok(out)) matches ActionView::Run(args, phase)
            && {
            &&& args == seq!["stash"@, "pop"@]
            &&& switch_goes_on(name, phase, Ok(popped)) == ActionView::Finish(
                Ok(
                    trim_of(
                        if popped.len() > 0 {
                            "stashed local changes; "@ + out + "\n"@ + popped
                        } else {
                            "stashed local changes; "@ + out
                        },
                    ),
                ),
            )
            &&& switch_goes_on(name, phase, Err(e)) == ActionView::Finish(
                Err(
                    "switch to branch "@ + quoted_of(name)
                        + " succeeded, but restoring the stashed changes failed: "@ + e
                        + "\nThe changes are retained in the stash; run `git stash pop` manually."@,
                ),
            )
        },
        switch_goes_on(name, PhaseView::Switch(true), Err(e)) matches ActionView::Run(args, phase)
            && {
            &&& args == seq!["stash"@, "pop"@]
            &&& switch_goes_on(name, phase, Ok(popped)) == ActionView::Finish(Err(e))
            &&& switch_goes_on(name, phase, Err(error)) == ActionView::Finish(Err(e))
        },
        switch_goes_on(name, PhaseView::Only, Ok(out)) == ActionView::Finish(Ok(out)),
        switch_goes_on(name, PhaseView::Only, Err(e)) == ActionView::Finish(Err(e)),
{
}

/// What a run of `git` gives is all that it printed, without the blanks around it,
/// where it succeeded, and else what it printed as its error.
pub proof fn law_run_results(args: Seq<Seq<char>>, phase: PhaseView, out: GitOutput, e: String)
    ensures
        out.success ==> run_text(args, phase, Ok(out)) == Ok::<Seq<char>, Seq<char>>(
            trim_of(lossy_of(out.stdout@) + lossy_of(out.stderr@)),
        ),
        !out.success ==> run_text(args, phase, Ok(out)) is Err,
        !out.success ==> run_text(args, PhaseView::Only, Ok(out)) == Err::<Seq<char>, Seq<char>>(
            "git command failed: "@ + lossy_of(out.stderr@),
        ),
        run_text(args, phase, Err(e)) == Err::<Seq<char>, Seq<char>>(e@),
{
}

/// The summary of a write names its kind, how many paths it has and the flags that
/// change what it does.
pub proof fn law_summaries_name_the_write(cmd: WriteCommand)
    ensures
        match cmd {
            WriteCommand::Stage(p) => summary_of(cmd.shape()) == "Stage("@ + decimal_of(p@.len())
                + " paths)"@,
            WriteCommand::Unstage(p) => summary_of(cmd.shape()) == "Unstage("@ + decimal_of(
                p@.len(),
            ) + " paths)"@,
            WriteCommand::Commit { amend, .. } => summary_of(cmd.shape()) == if amend {
                "Commit(amend)"@
            } else {
                "Commit"@
            },
            WriteCommand::CreateBranch { .. } => summary_of(cmd.shape()) == "CreateBranch"@,
            WriteCommand::DeleteBranch { force, .. } => summary_of(cmd.shape()) == if force {
                "DeleteBranch(force)"@
            } else {
                "DeleteBranch"@
            },
            WriteCommand::SwitchBranch { auto_stash, .. } => summary_of(cmd.shape())
                == if auto_stash {
                "SwitchBranch(auto-stash)"@
            } else {
                "SwitchBranch"@
            },
            WriteCommand::Fetch { .. } => summary_of(cmd.shape()) == "Fetch"@,
            WriteCommand::Pull { .. } => summary_of(cmd.shape()) == "Pull"@,
            WriteCommand::Push { force, .. } => summary_of(cmd.shape()) == if force {
                "Push(force)"@
            } else {
                "Push"@
            },
            WriteCommand::Undo { .. } => summary_of(cmd.shape()) == "Undo"@,
        },
{
}

/// A write is reported as done exactly where `git` has worked and its transaction
/// was committed, and then with what `git` printed.
pub proof fn law_done_writes_can_be_undone(
    tx_id: u64,
    executed: Result<String, String>,
    committed: Result<(), String>,
    r: (WriteResult, u64),
)
    requires
        call_ensures(run_write, (tx_id, executed, committed), r),
    ensures
        r.1 == tx_id,
        succeeded(r.0) <==> executed is Ok && committed is Ok,
        executed matches Ok(t) ==> committed is Ok ==> (r.0 matches WriteResult::Done(o) && o@
            == t@),
        executed matches Err(e) ==> (r.0 matches WriteResult::Failed(m) && m@ == e@),
{
}

/// An undo is reported as a success exactly where it was one, with the number of
/// references that it has changed.
pub proof fn law_undo_results_are_reported(
    id: u64,
    outcome: Result<UndoOutcome, UndoError>,
    r: (WriteResult, u64),
)
    requires
        call_ensures(run_undo, (id, outcome), r),
    ensures
        r.1 == id,
        succeeded(r.0) <==> outcome is Ok,
        outcome matches Ok(UndoOutcome::Restored { restored_refs }) ==> (r.0 matches
            WriteResult::Undo(Ok(s)) && s.restored_refs == restored_refs && !s.noop),
        outcome matches Ok(UndoOutcome::Noop) ==> (r.0 matches WriteResult::Undo(Ok(s))
            && s.restored_refs == 0 && s.noop),
        outcome matches Err(UndoError::NotFound) ==> (r.0 matches WriteResult::Undo(Err(k))
            && k is NotFound),
        outcome matches Err(UndoError::Blocked { reason }) ==> (r.0 matches WriteResult::Undo(
            Err(UndoErrorKind::Blocked { reason: told }),
        ) && told@ == reason@),
{
}

/// What the result of a write says is what it printed, or what went wrong; it has
/// succeeded exactly where nothing did.
pub proof fn law_outcomes_tell_success(result: WriteResult)
    ensures
        outcome_text(result) is Ok <==> succeeded(result),
        result matches WriteResult::Done(t) ==> outcome_text(result) == Ok::<Seq<char>, Seq<char>>(
            t@,
        ),
        result matches WriteResult::Failed(e) ==> outcome_text(result) == Err::<
            Seq<char>,
            Seq<char>,
        >(e@),
{
}

} // verus!
