//! The arguments of the program.
use crate::framing::{int_error_message, int_error_text};
use crate::text;
use crate::text::{parse_of, quoted_of, texts, IntError};
use vstd::prelude::*;
use vstd::string::*;

verus! {

broadcast use vstd::string::group_string_axioms;

/// What is wrong with the arguments.
#[derive(Debug, Clone)]
pub enum ArgError {
    /// `--parent-pid` is the last argument.
    MissingValue,
    /// The value of `--parent-pid` is no process id.
    InvalidValue { value: String, cause: IntError },
}

/// What says what is wrong with the arguments.
pub enum ArgErrorView {
    MissingValue,
    InvalidValue(Seq<char>, IntError),
}

impl View for ArgError {
    type V = ArgErrorView;

    open spec fn view(&self) -> ArgErrorView {
        match self {
            ArgError::MissingValue => ArgErrorView::MissingValue,
            ArgError::InvalidValue { value, cause } => ArgErrorView::InvalidValue(value@, *cause),
        }
    }
}

impl ArgError {
    /// What the error says.
    pub open spec fn text(&self) -> Seq<char> {
        match self {
            ArgError::MissingValue => "--parent-pid requires a value"@,
            ArgError::InvalidValue { value, cause } => "invalid --parent-pid "@ + quoted_of(value@)
                + ": "@ + int_error_text(*cause),
        }
    }

    /// What the error says.
    pub fn message(&self) -> (r: String)
        ensures
            r@ == self.text(),
    {
        match self {
            ArgError::MissingValue => "--parent-pid requires a value".to_owned(),
            ArgError::InvalidValue { value, cause } => {
                let mut out = "invalid --parent-pid ".to_owned();
                out.append(text::quoted(value.as_str()).as_str());
                out.append(": ");
                out.append(int_error_message(cause));
                out
            },
        }
    }
}

/// The process id that the arguments from the first on name, where `found` is
/// what those before them do: the last one counts.
pub open spec fn pid_of(args: Seq<Seq<char>>, found: Option<nat>) -> Result<
    Option<nat>,
    ArgErrorView,
>
    decreases args.len(),
{
    if args.len() == 0 {
        Ok(found)
    } else if args[0] != "--parent-pid"@ {
        pid_of(args.skip(1), found)
    } else if args.len() == 1 {
        Err(ArgErrorView::MissingValue)
    } else {
        match parse_of(args[1], u32::MAX as nat) {
            Ok(pid) => pid_of(args.skip(2), Some(pid)),
            Err(cause) => Err(ArgErrorView::InvalidValue(args[1], cause)),
        }
    }
}

/// The process that `--parent-pid` names: the engine ends when it is gone. The
/// value is taken from the next argument; all other arguments are passed over.
pub fn parent_pid(args: &Vec<String>) -> (r: Result<Option<u32>, ArgError>)
    ensures
        match (r, pid_of(texts(args@), None)) {
            (Ok(Some(a)), Ok(Some(b))) => a == b,
            (Ok(None), Ok(None)) => true,
            (Err(e), Err(view)) => e@ == view,
            _ => false,
        },
{
    let ghost all = texts(args@);
    let len: usize = args.len();
    let mut pid: Option<u32> = None;
    let ghost mut found: Option<nat> = None;
    let mut i: usize = 0;
    assert(all.skip(0) =~= all);
    while i < len
        invariant
            i <= len,
            len == args@.len(),
            all == texts(args@),
            pid_of(all.skip(i as int), found) == pid_of(all, None),
            match (pid, found) {
                (Some(a), Some(b)) => a == b,
                (None, None) => true,
                _ => false,
            },
        decreases len - i,
    {
        proof {
            assert(all.skip(i as int)[0] == args@[i as int]@);
            assert(all.skip(i as int).skip(1) =~= all.skip(i + 1));
        }
        if text::same(args[i].as_str(), "--parent-pid") {
            if len - i == 1 {
                return Err(ArgError::MissingValue);
            }
            proof {
                assert(all.skip(i as int)[1] == args@[i + 1]@);
                assert(all.skip(i as int).skip(2) =~= all.skip(i + 2));
            }
            match text::parse_decimal(args[i + 1].as_str(), u32::MAX as u64) {
                Ok(value) => {
                    pid = Some(value as u32);
                    proof {
                        found = Some(value as nat);
                    }
                },
                Err(cause) => {
                    return Err(ArgError::InvalidValue { value: args[i + 1].clone(), cause });
                },
            }
            i += 2;
        } else {
            i += 1;
        }
    }
    assert(all.skip(i as int) =~= Seq::<Seq<char>>::empty());
    Ok(pid)
}

/// How long to wait before the parent process is looked for again, in seconds.
pub const PARENT_POLL_SECS: u64 = 2;

/// The value of `--parent-pid` is taken from the argument behind it, and the last
/// one counts; all other arguments are passed over.
pub proof fn law_last_parent_pid_counts(
    args: Seq<Seq<char>>,
    other: Seq<char>,
    value: Seq<char>,
    found: Option<nat>,
)
    ensures
        pid_of(Seq::<Seq<char>>::empty(), found) == Ok::<Option<nat>, ArgErrorView>(found),
        other != "--parent-pid"@ ==> pid_of(seq![other] + args, found) == pid_of(args, found),
        parse_of(value, u32::MAX as nat) matches Ok(pid) ==> pid_of(
            seq!["--parent-pid"@, value] + args,
            found,
        ) == pid_of(args, Some(pid)),
        parse_of(value, u32::MAX as nat) matches Err(cause) ==> pid_of(
            seq!["--parent-pid"@, value] + args,
            found,
        ) == Err::<Option<nat>, ArgErrorView>(ArgErrorView::InvalidValue(value, cause)),
        pid_of(seq!["--parent-pid"@], found) == Err::<Option<nat>, ArgErrorView>(
            ArgErrorView::MissingValue,
        ),
{
    assert((seq![other] + args).skip(1) =~= args);
    assert((seq!["--parent-pid"@, value] + args).skip(2) =~= args);
}

} // verus!
