//! What runs of the `git` command gave, and the questions that are put to it.
use crate::text;
use crate::text::{join_of, lossy_of, quoted_of, texts, trim_of};
use vstd::prelude::*;
use vstd::string::*;

verus! {

broadcast use vstd::string::group_string_axioms;

/// What a run of `git` gave.
#[derive(Debug, Clone)]
pub struct GitOutput {
    pub success: bool,
    pub stdout: Vec<u8>,
    pub stderr: Vec<u8>,
}

// ---------------------------------------------------------------------------
// Arguments
// ---------------------------------------------------------------------------
/// A list of arguments in quotes, for a message.
pub open spec fn quoted_list(args: Seq<Seq<char>>) -> Seq<char> {
    "["@ + join_of(args.map_values(|a: Seq<char>| quoted_of(a)), ", "@) + "]"@
}

/// A list of arguments in quotes, for a message.
fn quote_list(args: &Vec<String>) -> (r: String)
    ensures
        r@ == quoted_list(texts(args@)),
{
    let ghost all = texts(args@).map_values(|a: Seq<char>| quoted_of(a));
    let mut parts: Vec<String> = Vec::new();
    let mut i: usize = 0;
    while i < args.len()
        invariant
            i <= args@.len(),
            all == texts(args@).map_values(|a: Seq<char>| quoted_of(a)),
            texts(parts@) == all.take(i as int),
        decreases args.len() - i,
    {
        let ghost before = texts(parts@);
        parts.push(text::quoted(args[i].as_str()));
        i += 1;
        assert(texts(parts@) =~= before.push(all[i - 1]));
        assert(texts(parts@) =~= all.take(i as int));
    }
    assert(all.take(i as int) =~= all);
    let mut out = "[".to_owned();
    out.append(text::join(&parts, ", ").as_str());
    out.append("]");
    out
}

/// The list of arguments that the literals write.
pub fn args_of(items: &[&str]) -> (r: Vec<String>)
    ensures
        texts(r@) == items@.map_values(|s: &str| s@),
{
    let mut out: Vec<String> = Vec::new();
    let ghost all = items@.map_values(|s: &str| s@);
    let mut i: usize = 0;
    while i < items.len()
        invariant
            i <= items@.len(),
            all == items@.map_values(|s: &str| s@),
            texts(out@) == all.take(i as int),
        decreases items.len() - i,
    {
        let ghost before = texts(out@);
        out.push(items[i].to_owned());
        i += 1;
        assert(texts(out@) =~= before.push(all[i - 1]));
        assert(texts(out@) =~= all.take(i as int));
    }
    assert(all.take(i as int) =~= all);
    out
}

// ---------------------------------------------------------------------------
// Results of a run
// ---------------------------------------------------------------------------
/// What is said of a run that failed.
pub open spec fn failure_text(args: Seq<Seq<char>>, reason: Seq<char>) -> Seq<char> {
    "git "@ + quoted_list(args) + " failed: "@ + reason
}

/// What is said of a run that failed.
fn failure(args: &Vec<String>, reason: &str) -> (r: String)
    ensures
        r@ == failure_text(texts(args@), reason@),
{
    let mut out = "git ".to_owned();
    out.append(quote_list(args).as_str());
    out.append(" failed: ");
    out.append(reason);
    out
}

/// Whether a run succeeded, and what is said of it where it did not.
pub fn run_git(args: &Vec<String>, out: &GitOutput) -> (r: Result<(), String>)
    ensures
        match r {
            Ok(()) => out.success,
            Err(e) => !out.success && e@ == failure_text(texts(args@), lossy_of(out.stderr@)),
        },
{
    if out.success {
        Ok(())
    } else {
        Err(failure(args, text::lossy(out.stderr.as_slice()).as_str()))
    }
}

/// What a run printed, where it succeeded, and what is said of it where it did
/// not.
pub fn run_git_capture(args: &Vec<String>, out: &GitOutput) -> (r: Result<String, String>)
    ensures
        match r {
            Ok(printed) => out.success && printed@ == lossy_of(out.stdout@),
            Err(e) => !out.success && e@ == failure_text(texts(args@), lossy_of(out.stderr@)),
        },
{
    if out.success {
        Ok(text::lossy(out.stdout.as_slice()))
    } else {
        Err(failure(args, text::lossy(out.stderr.as_slice()).as_str()))
    }
}

/// All that a run printed.
pub open spec fn printed_by(out: GitOutput) -> Seq<char> {
    trim_of(lossy_of(out.stdout@) + lossy_of(out.stderr@))
}

/// All that a run printed.
pub(crate) fn printed(out: &GitOutput) -> (r: String)
    ensures
        r@ == printed_by(*out),
{
    let mut all = text::lossy(out.stdout.as_slice());
    all.append(text::lossy(out.stderr.as_slice()).as_str());
    text::trim(all.as_str())
}

/// All that a run printed, where it succeeded, and what is said of it where it
/// did not.
pub fn run_git_checked(args: &Vec<String>, out: &GitOutput) -> (r: Result<String, String>)
    ensures
        match r {
            Ok(p) => out.success && p@ == printed_by(*out),
            Err(e) => !out.success && e@ == failure_text(
                texts(args@),
                trim_of(lossy_of(out.stderr@)),
            ),
        },
{
    if out.success {
        Ok(printed(out))
    } else {
        let reason = text::trim(text::lossy(out.stderr.as_slice()).as_str());
        Err(failure(args, reason.as_str()))
    }
}

// ---------------------------------------------------------------------------
// The git directory
// ---------------------------------------------------------------------------
/// The arguments that ask for the git directory.
pub fn git_dir_args() -> (r: Vec<String>)
    ensures
        texts(r@) == seq!["rev-parse"@, "--absolute-git-dir"@],
{
    let r = args_of(&["rev-parse", "--absolute-git-dir"]);
    assert(texts(r@) =~= seq!["rev-parse"@, "--absolute-git-dir"@]);
    r
}

/// The directory that `git` reports.
pub open spec fn reported_dir(out: Option<GitOutput>) -> Option<Seq<char>> {
    match out {
        Some(o) => {
            let dir = trim_of(lossy_of(o.stdout@));
            if o.success && dir.len() > 0 {
                Some(dir)
            } else {
                None
            }
        },
        None => None,
    }
}

/// The directory that `git` reports: `.git` is a file in a linked worktree, so
/// that only `git` knows where the git directory is. Where it reports none, or
/// one that is no directory, `.git` below the worktree is used.
pub fn resolve_git_dir(out: &Option<GitOutput>) -> (r: Option<String>)
    ensures
        text::opt_text(r) == reported_dir(*out),
{
    match out {
        Some(o) => {
            let dir = text::trim(text::lossy(o.stdout.as_slice()).as_str());
            if o.success && !dir.as_str().is_empty() {
                Some(dir)
            } else {
                None
            }
        },
        None => None,
    }
}

/// What a run printed for the fingerprint: nothing where it failed.
pub open spec fn fingerprint_part(out: Option<GitOutput>) -> Seq<char> {
    match out {
        Some(o) => if o.success {
            trim_of(lossy_of(o.stdout@))
        } else {
            Seq::<char>::empty()
        },
        None => Seq::<char>::empty(),
    }
}

/// What a run printed for the fingerprint.
fn read_fingerprint_part(out: &Option<GitOutput>) -> (r: String)
    ensures
        r@ == fingerprint_part(*out),
{
    match out {
        Some(o) => if o.success {
            text::trim(text::lossy(o.stdout.as_slice()).as_str())
        } else {
            String::new()
        },
        None => String::new(),
    }
}

/// The arguments that ask for what `HEAD` points at.
pub fn head_args() -> (r: Vec<String>)
    ensures
        texts(r@) == seq!["rev-parse"@, "HEAD"@],
{
    let r = args_of(&["rev-parse", "HEAD"]);
    assert(texts(r@) =~= seq!["rev-parse"@, "HEAD"@]);
    r
}

/// The arguments that ask for the local branches, sorted by name.
pub fn heads_args() -> (r: Vec<String>)
    ensures
        texts(r@) == seq![
            "for-each-ref"@,
            "refs/heads"@,
            "--format=%(refname) %(objectname)"@,
        ],
{
    let r = args_of(&["for-each-ref", "refs/heads", "--format=%(refname) %(objectname)"]);
    assert(texts(r@) =~= seq![
        "for-each-ref"@,
        "refs/heads"@,
        "--format=%(refname) %(objectname)"@,
    ]);
    r
}

/// A fingerprint of the references: what `HEAD` points at and the sorted list of
/// local branches. Where it changes between two runs of the engine, references
/// have moved.
pub fn repo_fingerprint(head: &Option<GitOutput>, heads: &Option<GitOutput>) -> (r: String)
    ensures
        r@ == fingerprint_part(*head) + "\n"@ + fingerprint_part(*heads),
{
    let mut out = read_fingerprint_part(head);
    out.append("\n");
    out.append(read_fingerprint_part(heads).as_str());
    out
}

/// Runs of `git` are reported as they ended: with what they printed where they
/// succeeded, and else with their arguments and what they printed as their error.
pub proof fn law_runs_are_reported(
    args: Vec<String>,
    out: GitOutput,
    r: Result<(), String>,
    captured: Result<String, String>,
    checked: Result<String, String>,
)
    requires
        call_ensures(run_git, (&args, &out), r),
        call_ensures(run_git_capture, (&args, &out), captured),
        call_ensures(run_git_checked, (&args, &out), checked),
    ensures
        r is Ok <==> out.success,
        captured is Ok <==> out.success,
        checked is Ok <==> out.success,
        captured matches Ok(t) ==> t@ == lossy_of(out.stdout@),
        checked matches Ok(t) ==> t@ == trim_of(lossy_of(out.stdout@) + lossy_of(out.stderr@)),
        r matches Err(e) ==> e@ == "git "@ + quoted_list(texts(args@)) + " failed: "@ + lossy_of(
            out.stderr@,
        ),
        captured matches Err(e) ==> e@ == "git "@ + quoted_list(texts(args@)) + " failed: "@
            + lossy_of(out.stderr@),
        checked matches Err(e) ==> e@ == "git "@ + quoted_list(texts(args@)) + " failed: "@
            + trim_of(lossy_of(out.stderr@)),
{
}

/// Arguments are listed in brackets, each in quotes, with commas between them.
pub proof fn law_quoted_lists(first: Seq<Seq<char>>, arg: Seq<char>)
    ensures
        quoted_list(Seq::<Seq<char>>::empty()) == "[]"@,
        quoted_list(seq![arg]) == "["@ + quoted_of(arg) + "]"@,
        first.len() > 0 ==> quoted_list(first.push(arg)) == quoted_list(first).drop_last() + ", "@
            + quoted_of(arg) + "]"@,
{
    reveal_strlit("[");
    reveal_strlit("]");
    reveal_strlit("[]");
    let quote = |a: Seq<char>| quoted_of(a);
    let none = Seq::<Seq<char>>::empty();
    assert(none.map_values(quote) =~= none);
    assert(quoted_list(none) =~= "[]"@);
    assert(seq![arg].map_values(quote) =~= seq![quoted_of(arg)]);
    if first.len() > 0 {
        let some = first.map_values(quote);
        assert(first.push(arg).map_values(quote) =~= some.push(quoted_of(arg)));
        assert(some.push(quoted_of(arg)).drop_last() =~= some);
        assert(quoted_list(first).drop_last() =~= "["@ + join_of(some, ", "@));
        assert(quoted_list(first.push(arg)) =~= quoted_list(first).drop_last() + ", "@ + quoted_of(
            arg,
        ) + "]"@);
    }
}

/// The git directory is the one that `git` has printed, without the blanks around
/// it, and none where it has failed or printed nothing.
pub proof fn law_reported_directories(out: GitOutput)
    ensures
        reported_dir(Some(out)) is Some <==> out.success && trim_of(lossy_of(out.stdout@)).len()
            > 0,
        reported_dir(Some(out)) matches Some(dir) ==> dir == trim_of(lossy_of(out.stdout@)),
        reported_dir(None) is None,
{
}

/// The fingerprint tells states apart by what `HEAD` points at and by the list of
/// branches: it changes with either, as long as the other stays.
pub proof fn law_fingerprints_tell_apart(
    head: Option<GitOutput>,
    heads: Option<GitOutput>,
    other: Option<GitOutput>,
    r: String,
    moved: String,
    branched: String,
)
    requires
        call_ensures(repo_fingerprint, (&head, &heads), r),
        call_ensures(repo_fingerprint, (&other, &heads), moved),
        call_ensures(repo_fingerprint, (&head, &other), branched),
    ensures
        fingerprint_part(other) != fingerprint_part(head) ==> moved@ != r@,
        fingerprint_part(other) != fingerprint_part(heads) ==> branched@ != r@,
        other matches Some(o) ==> o.success ==> fingerprint_part(other) == trim_of(
            lossy_of(o.stdout@),
        ),
        other matches Some(o) ==> !o.success ==> fingerprint_part(other).len() == 0,
        other is None ==> fingerprint_part(other).len() == 0,
{
    reveal_strlit("\n");
    let h = fingerprint_part(head);
    let b = fingerprint_part(heads);
    let x = fingerprint_part(other);
    if moved@ == r@ {
        let tail = "\n"@ + b;
        assert((x + tail).len() == (h + tail).len());
        assert(x + "\n"@ + b =~= x + tail);
        assert(h + "\n"@ + b =~= h + tail);
        assert((x + tail).take(x.len() as int) =~= x);
        assert((h + tail).take(h.len() as int) =~= h);
    }
    if branched@ == r@ {
        let front = h + "\n"@;
        assert((front + x).skip(front.len() as int) =~= x);
        assert((front + b).skip(front.len() as int) =~= b);
    }
}

/// The questions that `git` is asked: where its directory is, what `HEAD` points
/// at, and which local branches there are.
pub proof fn law_questions_to_git(dir: Vec<String>, head: Vec<String>, heads: Vec<String>)
    requires
        call_ensures(git_dir_args, (), dir),
        call_ensures(head_args, (), head),
        call_ensures(heads_args, (), heads),
    ensures
        texts(dir@) == seq!["rev-parse"@, "--absolute-git-dir"@],
        texts(head@) == seq!["rev-parse"@, "HEAD"@],
        texts(heads@) == seq![
            "for-each-ref"@,
            "refs/heads"@,
            "--format=%(refname) %(objectname)"@,
        ],
{
}

} // verus!
