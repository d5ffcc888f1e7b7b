//! What is taken from `gix`, the library that reads repositories: the texts of
//! names and paths, the content of commit objects, and its errors.
use crate::cache::{CachedCommit, MetaView};
use crate::text;
use crate::text::{lossy_of, texts};
use vstd::prelude::*;
use vstd::string::*;
use vstd::utf8::*;

verus! {

/// `gix::open::Error`, the reason why a repository could not be opened.
#[verifier::external_type_specification]
#[verifier::external_body]
pub struct ExOpenError(gix::open::Error);

/// Prints a `gix::open::Error` by its `std::fmt::Display`. Its text holds what
/// the operating system says of a file, so nothing is said of it.
#[verifier::external_body]
fn open_error_text(e: &gix::open::Error) -> (r: String) {
    e.to_string()
}

/// Why a repository could not be read.
pub enum AdaptError {
    /// It could not be opened.
    Gix(gix::open::Error),
}

impl From<gix::open::Error> for AdaptError {
    fn from(e: gix::open::Error) -> (r: AdaptError) {
        AdaptError::Gix(e)
    }
}

impl vstd::std_specs::convert::FromSpecImpl<gix::open::Error> for AdaptError {
    open spec fn obeys_from_spec() -> bool {
        true
    }

    open spec fn from_spec(e: gix::open::Error) -> AdaptError {
        AdaptError::Gix(e)
    }
}

/// What is said of a repository that could not be opened for `reason`.
pub open spec fn gix_error_text(reason: Seq<char>) -> Seq<char> {
    "gix error: "@ + reason
}

/// What is said of a repository that could not be opened for `reason`.
pub fn gix_error(reason: &str) -> (r: String)
    ensures
        r@ == gix_error_text(reason@),
{
    "gix error: ".to_owned().concat(reason)
}

/// Whether printing the error `e` can give `reason`.
pub closed spec fn is_printed_as(e: &gix::open::Error, reason: String) -> bool {
    call_ensures(open_error_text, (e,), reason)
}

impl AdaptError {
    /// What the error says: for what reason, in the words of the error itself,
    /// the repository could not be opened.
    pub fn message(&self) -> (r: String)
        ensures
            match self {
                AdaptError::Gix(e) => exists|reason: String| #[trigger]
                    is_printed_as(e, reason) && r@ == gix_error_text(reason@),
            },
    {
        match self {
            AdaptError::Gix(e) => {
                let reason = open_error_text(e);
                assert(is_printed_as(e, reason));
                gix_error(reason.as_str())
            },
        }
    }
}

// ---------------------------------------------------------------------------
// Names and paths
// ---------------------------------------------------------------------------
/// What the `std::fmt::Display` of `gix::bstr::BStr` writes for `bytes`.
pub uninterp spec fn bstr_text_of(bytes: Seq<u8>) -> Seq<char>;

/// Prints a `gix::bstr::BStr` by its `std::fmt::Display`. The result depends on
/// the bytes alone; bytes that are valid UTF-8 give the text that they encode.
#[verifier::external_body]
pub(crate) fn bstr_text(bytes: &[u8]) -> (r: String)
    ensures
        r@ == bstr_text_of(bytes@),
        valid_utf8(bytes@) ==> r@ == decode_utf8(bytes@),
{
    gix::bstr::BStr::new(bytes).to_string()
}

// ---------------------------------------------------------------------------
// Commit objects
// ---------------------------------------------------------------------------
/// What is read from a commit object: texts may be in any encoding, and the
/// time may be missing.
#[derive(Debug, Clone)]
pub struct RawCommit {
    pub summary: Vec<u8>,
    pub author_name: Vec<u8>,
    pub author_email: Vec<u8>,
    pub author_time: Option<i64>,
    pub parent_ids: Vec<String>,
}

/// What is read from a commit object.
#[verifier::ext_equal]
pub struct RawView {
    pub summary: Seq<u8>,
    pub author_name: Seq<u8>,
    pub author_email: Seq<u8>,
    pub author_time: Option<i64>,
    pub parent_ids: Seq<Seq<char>>,
}

impl View for RawCommit {
    type V = RawView;

    open spec fn view(&self) -> RawView {
        RawView {
            summary: self.summary@,
            author_name: self.author_name@,
            author_email: self.author_email@,
            author_time: self.author_time,
            parent_ids: texts(self.parent_ids@),
        }
    }
}

/// `gix::objs::decode::Error`, the error of a malformed object.
#[verifier::external_type_specification]
#[verifier::external_body]
pub struct ExDecodeError(gix::objs::decode::Error);

/// Prints a `gix::objs::decode::Error` by its `std::fmt::Display`: it has one
/// text only.
#[verifier::external_body]
fn decode_error_text(e: &gix::objs::decode::Error) -> (r: String)
    ensures
        r@ == "object parsing failed"@,
{
    e.to_string()
}

/// What `gix::objs::CommitRef` decodes the bytes of a commit object with SHA-1
/// ids to: the summary of its message, its author with the time where that can
/// be read, and its parents. There is nothing for bytes that are malformed.
pub uninterp spec fn commit_of(data: Seq<u8>) -> Option<RawView>;

/// Decodes the bytes of a commit object by `gix::objs::CommitRef::from_bytes`,
/// and takes from the result what its methods `author`, `message_summary` and
/// `parents` give. All of that depends on the bytes alone, and fails only where
/// they are malformed.
#[verifier::external_body]
fn parse_commit(data: &[u8]) -> (r: Result<RawCommit, gix::objs::decode::Error>)
    ensures
        match r {
            Ok(c) => commit_of(data@) == Some(c@),
            Err(_) => commit_of(data@) is None,
        },
{
    let commit = gix::objs::CommitRef::from_bytes(data, gix::hash::Kind::Sha1)?;
    let author = commit.author()?;
    Ok(RawCommit {
        summary: commit.message_summary().to_vec(),
        author_name: author.name.to_vec(),
        author_email: author.email.to_vec(),
        author_time: author.time().ok().map(|t| t.seconds),
        parent_ids: commit.parents().map(|id| id.to_string()).collect(),
    })
}

impl RawView {
    /// The metadata of the commit.
    pub open spec fn meta(self) -> MetaView {
        MetaView {
            message: lossy_of(self.summary),
            author_name: lossy_of(self.author_name),
            author_email: lossy_of(self.author_email),
            author_time: match self.author_time {
                Some(t) => t,
                None => 0,
            },
            parent_ids: self.parent_ids,
        }
    }
}

impl RawCommit {
    /// The metadata of the commit: what is not valid text is replaced, and a
    /// missing time is the start of 1970.
    pub fn decode(self) -> (r: CachedCommit)
        ensures
            r@ == self@.meta(),
    {
        CachedCommit {
            message: text::lossy(self.summary.as_slice()),
            author_name: text::lossy(self.author_name.as_slice()),
            author_email: text::lossy(self.author_email.as_slice()),
            author_time: match self.author_time {
                Some(t) => t,
                None => 0,
            },
            parent_ids: self.parent_ids,
        }
    }
}

/// The metadata of the commit with the bytes `data`.
pub open spec fn meta_of(data: Seq<u8>) -> Option<MetaView> {
    match commit_of(data) {
        Some(raw) => Some(raw.meta()),
        None => None,
    }
}

/// The metadata of the commit with the bytes `data`, or what is said of bytes
/// that are no commit.
pub fn decode_commit(data: &[u8]) -> (r: Result<CachedCommit, String>)
    ensures
        match r {
            Ok(c) => meta_of(data@) == Some(c@),
            Err(m) => meta_of(data@) is None && m@ == "object parsing failed"@,
        },
{
    match parse_commit(data) {
        Ok(raw) => Ok(raw.decode()),
        Err(e) => Err(decode_error_text(&e)),
    }
}

} // verus!
