//! What errors say: each message is a fixed text, with the name, the number or the
//! reason that it is about.
use crate::adapt::gix_error;
use crate::args::ArgError;
use crate::framing::{int_error_message, FrameError};
use crate::names::{NameError, NameFault};
use crate::restore::RestoreError;
use crate::snapshot::SnapshotError;
use crate::text::{quoted_char_of, quoted_of, IntError};
use crate::undo::{UndoError, UndoErrorKind};
use crate::write_queue::CommandError;
use vstd::prelude::*;

verus! {

/// What is said of a path, a refspec, an object id or something to look up that is
/// not acceptable.
pub proof fn law_other_name_errors_say(e: NameError, r: String)
    requires
        call_ensures(NameError::message, (&e,), r),
    ensures
        e.fault == NameFault::EmptyPath ==> r@ == "path argument must not be empty"@,
        e.fault == NameFault::OptionPath ==> r@ == "path argument may not begin with '-': "@
            + quoted_of(e.name@),
        e.fault == NameFault::ControlInPath ==> r@ == "path argument contains control characters"@,
        e.fault == NameFault::InvalidRefspec ==> r@ == "invalid push refspec: "@ + quoted_of(
            e.name@,
        ),
        e.fault == NameFault::InvalidObjectId ==> r@ == "invalid object id: "@ + quoted_of(e.name@),
        e.fault == NameFault::InvalidRevision ==> r@ == "invalid revision: "@ + quoted_of(e.name@),
        e.fault == NameFault::InvalidTreePath ==> r@ == "invalid path: "@ + quoted_of(e.name@),
{
}

/// What is said of the name of a reference that is not acceptable.
pub proof fn law_ref_errors_say(e: NameError, r: String)
    requires
        call_ensures(NameError::message, (&e,), r),
    ensures
        e.fault == NameFault::EmptyRef ==> r@ == "ref name must not be empty"@,
        e.fault == NameFault::NotFullRef ==> r@ == "ref name must start with 'refs/': "@
            + quoted_of(e.name@),
        e.fault == NameFault::InvalidRef ==> r@ == "invalid ref name: "@ + quoted_of(e.name@),
        e.fault matches NameFault::InvalidChar(c) ==> r@ == "invalid character "@
            + quoted_char_of(c) + " in ref name "@ + quoted_of(e.name@),
        e.fault == NameFault::InvalidComponent ==> r@ == "invalid ref component in "@ + quoted_of(
            e.name@,
        ),
{
}

/// A write or a restore that is refused for a name says what the name's own error
/// says.
pub proof fn law_refusals_say(
    e: NameError,
    said: String,
    write: String,
    restore: String,
    nul: String,
    write_head: String,
    snapshot: String,
)
    requires
        call_ensures(NameError::message, (&e,), said),
        call_ensures(CommandError::message, (&CommandError::Name(e),), write),
        call_ensures(RestoreError::message, (&RestoreError::Name(e),), restore),
        call_ensures(CommandError::message, (&CommandError::NulInMessage,), nul),
        call_ensures(RestoreError::message, (&RestoreError::EmptyHead,), write_head),
        call_ensures(SnapshotError::message, (&SnapshotError::EmptyHead,), snapshot),
    ensures
        write@ == said@,
        restore@ == said@,
        nul@ == "commit message contains NUL"@,
        write_head@ == "snapshot has empty HEAD; refusing to restore"@,
        snapshot@ == "HEAD is empty; refusing to take a snapshot"@,
{
}

/// An undo that fails says the same to those who asked for it as to the engine: that
/// there is no such transaction, what stands in its way, or what has failed.
pub proof fn law_undo_errors_say(e: UndoError, r: String, kind: UndoErrorKind, said: String)
    requires
        call_ensures(UndoError::message, (&e,), r),
        call_ensures(UndoError::kind, (&e,), kind),
        call_ensures(UndoErrorKind::message, (&kind,), said),
    ensures
        said@ == r@,
        match e {
            UndoError::NotFound => r@ == "transaction not found"@ && kind is NotFound,
            UndoError::Blocked { reason } => r@ == "undo blocked: "@ + reason@ && kind is Blocked,
            UndoError::Io(msg) => r@ == msg@ && kind is Failure,
            UndoError::Git(msg) => r@ == msg@ && kind is Failure,
        },
{
}

/// What is said of a number that cannot be read, and of the arguments and headers
/// that hold it.
pub proof fn law_number_errors_say(
    value: String,
    cause: IntError,
    said: &'static str,
    arg: String,
    header: String,
    missing: String,
)
    requires
        call_ensures(int_error_message, (&cause,), said),
        call_ensures(ArgError::message, (&ArgError::InvalidValue { value, cause },), arg),
        call_ensures(
            FrameError::message,
            (&FrameError::InvalidContentLength { text: value, cause },),
            header,
        ),
        call_ensures(ArgError::message, (&ArgError::MissingValue,), missing),
    ensures
        match cause {
            IntError::Empty => said@ == "cannot parse integer from empty string"@,
            IntError::InvalidDigit => said@ == "invalid digit found in string"@,
            IntError::TooLarge => said@ == "number too large to fit in target type"@,
        },
        arg@ == "invalid --parent-pid "@ + quoted_of(value@) + ": "@ + said@,
        header@ == "invalid Content-Length "@ + quoted_of(value@) + ": "@ + said@,
        missing@ == "--parent-pid requires a value"@,
{
}

/// What is said of a stream that breaks the framing otherwise than by a limit.
pub proof fn law_frame_errors_say(e: FrameError, r: String)
    requires
        call_ensures(FrameError::message, (&e,), r),
    ensures
        match e {
            FrameError::HeaderNotUtf8 => r@ == "stream did not contain valid UTF-8"@,
            FrameError::MissingContentLength => r@ == "missing Content-Length header"@,
            FrameError::Truncated => r@ == "failed to fill whole buffer"@,
            FrameError::Unreadable { message } => r@ == message@,
            FrameError::InvalidJson { message } => r@ == message@,
            FrameError::MissingMethod => r@ == "message missing method"@,
            _ => true,
        },
{
}

/// A repository that could not be opened is told of with the reason.
pub proof fn law_repository_errors_say(reason: &str, r: String)
    requires
        call_ensures(gix_error, (reason,), r),
    ensures
        r@ == "gix error: "@ + reason@,
{
}

} // verus!
