//! Names that reach `git` as arguments, and the rules that they are held to.
//!
//! Arguments are passed without a shell, but `git` parses options itself: a
//! path such as `-A` would be read as one. Names that come from a client or
//! from files on disk are checked before they are passed on.
use crate::text;
use crate::text::{
    has_substring, is_ascii_control, is_hex_digit, is_whitespace, quoted_char_of, quoted_of,
    split_of, texts,
};
use crate::text_laws::{law_split, law_split_once_rejoins};
use vstd::prelude::*;
use vstd::string::*;
use vstd::utf8::encode_utf8;

verus! {

broadcast use vstd::string::group_string_axioms;

/// The longest accepted name of a reference, in bytes.
pub const MAX_NAME_BYTES: usize = 512;

/// What is wrong with a name.
#[derive(Debug, Clone, Copy, PartialEq, Eq)]
pub enum NameFault {
    /// A path that is empty.
    EmptyPath,
    /// A path that `git` would read as an option.
    OptionPath,
    /// A path with a control character.
    ControlInPath,
    /// The name of a reference that is empty.
    EmptyRef,
    /// The full name of a reference that does not begin with `refs/`.
    NotFullRef,
    /// The name of a reference that is malformed as a whole.
    InvalidRef,
    /// The name of a reference with a character that none may have.
    InvalidChar(char),
    /// The name of a reference with a malformed component.
    InvalidComponent,
    /// A refspec that cannot be pushed.
    InvalidRefspec,
    /// A text that is no object id.
    InvalidObjectId,
    /// A revision that cannot be looked up.
    InvalidRevision,
    /// A path that cannot be looked up in a tree.
    InvalidTreePath,
}

/// A name that was not accepted.
#[derive(Debug, Clone)]
pub struct NameError {
    pub fault: NameFault,
    pub name: String,
}

impl NameError {
    /// What the error says.
    pub open spec fn text(&self) -> Seq<char> {
        match self.fault {
            NameFault::EmptyPath => "path argument must not be empty"@,
            NameFault::OptionPath => "path argument may not begin with '-': "@ + quoted_of(
                self.name@,
            ),
            NameFault::ControlInPath => "path argument contains control characters"@,
            NameFault::EmptyRef => "ref name must not be empty"@,
            NameFault::NotFullRef => "ref name must start with 'refs/': "@ + quoted_of(self.name@),
            NameFault::InvalidRef => "invalid ref name: "@ + quoted_of(self.name@),
            NameFault::InvalidChar(c) => "invalid character "@ + quoted_char_of(c)
                + " in ref name "@ + quoted_of(self.name@),
            NameFault::InvalidComponent => "invalid ref component in "@ + quoted_of(self.name@),
            NameFault::InvalidRefspec => "invalid push refspec: "@ + quoted_of(self.name@),
            NameFault::InvalidObjectId => "invalid object id: "@ + quoted_of(self.name@),
            NameFault::InvalidRevision => "invalid revision: "@ + quoted_of(self.name@),
            NameFault::InvalidTreePath => "invalid path: "@ + quoted_of(self.name@),
        }
    }

    /// What the error says.
    pub fn message(&self) -> (r: String)
        ensures
            r@ == self.text(),
    {
        let name = text::quoted(self.name.as_str());
        match self.fault {
            NameFault::EmptyPath => "path argument must not be empty".to_owned(),
            NameFault::OptionPath => "path argument may not begin with '-': ".to_owned().concat(
                name.as_str(),
            ),
            NameFault::ControlInPath => "path argument contains control characters".to_owned(),
            NameFault::EmptyRef => "ref name must not be empty".to_owned(),
            NameFault::NotFullRef => "ref name must start with 'refs/': ".to_owned().concat(
                name.as_str(),
            ),
            NameFault::InvalidRef => "invalid ref name: ".to_owned().concat(name.as_str()),
            NameFault::InvalidChar(c) => {
                let mut out = "invalid character ".to_owned();
                out.append(text::quoted_char(c).as_str());
                out.append(" in ref name ");
                out.append(name.as_str());
                out
            },
            NameFault::InvalidComponent => "invalid ref component in ".to_owned().concat(
                name.as_str(),
            ),
            NameFault::InvalidRefspec => "invalid push refspec: ".to_owned().concat(name.as_str()),
            NameFault::InvalidObjectId => "invalid object id: ".to_owned().concat(name.as_str()),
            NameFault::InvalidRevision => "invalid revision: ".to_owned().concat(name.as_str()),
            NameFault::InvalidTreePath => "invalid path: ".to_owned().concat(name.as_str()),
        }
    }
}

/// Whether `r` is what the rule that finds `fault` in `name` gives.
pub open spec fn judged(r: Result<(), NameError>, name: Seq<char>, fault: Option<NameFault>) -> bool {
    match r {
        Ok(()) => fault is None,
        Err(e) => fault == Some(e.fault) && e.name@ == name,
    }
}

/// What the rule that finds `fault` in `name` gives.
fn judge(name: &str, fault: Option<NameFault>) -> (r: Result<(), NameError>)
    ensures
        judged(r, name@, fault),
{
    match fault {
        None => Ok(()),
        Some(fault) => Err(NameError { fault, name: name.to_owned() }),
    }
}

// ---------------------------------------------------------------------------
// Characters
// ---------------------------------------------------------------------------
/// Whether `s` has a control character of ASCII.
pub open spec fn has_control(s: Seq<char>) -> bool {
    exists|i: int| 0 <= i < s.len() && is_ascii_control(#[trigger] s[i])
}

/// Whether `s` has a control character of ASCII.
fn contains_control(s: &str) -> (r: bool)
    ensures
        r == has_control(s@),
{
    let chars = text::to_chars(s);
    let mut i: usize = 0;
    while i < chars.len()
        invariant
            i <= chars@.len(),
            chars@ == s@,
            forall|k: int| 0 <= k < i ==> !is_ascii_control(#[trigger] s@[k]),
        decreases chars.len() - i,
    {
        if text::char_is_ascii_control(chars[i]) {
            assert(is_ascii_control(s@[i as int]));
            return true;
        }
        i += 1;
    }
    false
}

/// The characters that no name of a reference may have.
pub open spec fn forbidden_in_ref(c: char) -> bool {
    is_ascii_control(c) || " ~^:?*[\\"@.contains(c)
}

/// The first character of `s` that no name of a reference may have.
pub open spec fn first_forbidden(s: Seq<char>) -> Option<char>
    decreases s.len(),
{
    if s.len() == 0 {
        None
    } else if forbidden_in_ref(s[0]) {
        Some(s[0])
    } else {
        first_forbidden(s.skip(1))
    }
}

/// The first character of `s` that no name of a reference may have.
fn find_forbidden(s: &str) -> (r: Option<char>)
    ensures
        r == first_forbidden(s@),
{
    let chars = text::to_chars(s);
    let mut i: usize = 0;
    assert(s@.skip(0) =~= s@);
    while i < chars.len()
        invariant
            i <= chars@.len(),
            chars@ == s@,
            first_forbidden(s@.skip(i as int)) == first_forbidden(s@),
        decreases chars.len() - i,
    {
        let c = chars[i];
        assert(s@.skip(i as int).skip(1) =~= s@.skip(i + 1));
        if text::char_is_ascii_control(c) || text::contains_char(" ~^:?*[\\", c) {
            return Some(c);
        }
        i += 1;
    }
    None
}

/// Whether a component of a name is empty, or begins or ends with a dot.
pub open spec fn bad_component(c: Seq<char>) -> bool {
    c.len() == 0 || c[0] == '.' || c.last() == '.'
}

/// Whether any of the components of a name is malformed.
pub open spec fn has_bad_component(name: Seq<char>) -> bool {
    let components = split_of(name, '/');
    exists|i: int| 0 <= i < components.len() && bad_component(#[trigger] components[i])
}

/// Whether any of the components of a name is malformed.
fn contains_bad_component(name: &str) -> (r: bool)
    ensures
        r == has_bad_component(name@),
{
    let components = text::split(name, '/');
    let ghost pieces = split_of(name@, '/');
    let mut i: usize = 0;
    while i < components.len()
        invariant
            i <= components@.len(),
            pieces == split_of(name@, '/'),
            texts(components@) == pieces,
            forall|k: int| 0 <= k < i ==> !bad_component(#[trigger] pieces[k]),
        decreases components.len() - i,
    {
        let chars = text::to_chars(components[i].as_str());
        assert(chars@ == pieces[i as int]);
        if chars.len() == 0 || chars[0] == '.' || chars[chars.len() - 1] == '.' {
            assert(bad_component(pieces[i as int]));
            return true;
        }
        i += 1;
    }
    false
}

/// Whether `s` begins with the character `c`.
pub open spec fn begins_with(s: Seq<char>, c: char) -> bool {
    s.len() > 0 && s[0] == c
}

/// Whether `s` begins with the character `c`.
fn begins(s: &str, c: char) -> (r: bool)
    ensures
        r == begins_with(s@, c),
{
    let chars = text::to_chars(s);
    chars.len() > 0 && chars[0] == c
}

/// Whether `s` ends with the character `c`.
pub open spec fn finishes_with(s: Seq<char>, c: char) -> bool {
    s.len() > 0 && s.last() == c
}

/// Whether `s` ends with the character `c`.
fn finishes(s: &str, c: char) -> (r: bool)
    ensures
        r == finishes_with(s@, c),
{
    let chars = text::to_chars(s);
    chars.len() > 0 && chars[chars.len() - 1] == c
}

// ---------------------------------------------------------------------------
// Paths
// ---------------------------------------------------------------------------
/// What is wrong with a path that is to be an argument.
pub open spec fn path_fault(p: Seq<char>) -> Option<NameFault> {
    if p.len() == 0 {
        Some(NameFault::EmptyPath)
    } else if begins_with(p, '-') {
        Some(NameFault::OptionPath)
    } else if has_control(p) {
        Some(NameFault::ControlInPath)
    } else {
        None
    }
}

/// Accepts a path as a positional argument: one that is not empty, does not
/// begin with a dash and has no control characters.
pub fn validate_path_arg(p: &str) -> (r: Result<(), NameError>)
    ensures
        judged(r, p@, path_fault(p@)),
{
    let fault = if p.is_empty() {
        Some(NameFault::EmptyPath)
    } else if begins(p, '-') {
        Some(NameFault::OptionPath)
    } else if contains_control(p) {
        Some(NameFault::ControlInPath)
    } else {
        None
    };
    judge(p, fault)
}

/// Whether a text is empty, looks like an option or has control characters, so
/// that nothing is looked up under it.
pub open spec fn unfit_for_lookup(s: Seq<char>) -> bool {
    s.len() == 0 || begins_with(s, '-') || has_control(s)
}

/// Accepts a revision and a path for a lookup in the repository.
pub fn validate_lookup(revision: &str, path: &str) -> (r: Result<(), NameError>)
    ensures
        if unfit_for_lookup(revision@) {
            judged(r, revision@, Some(NameFault::InvalidRevision))
        } else if unfit_for_lookup(path@) {
            judged(r, path@, Some(NameFault::InvalidTreePath))
        } else {
            r is Ok
        },
{
    if revision.is_empty() || begins(revision, '-') || contains_control(revision) {
        judge(revision, Some(NameFault::InvalidRevision))
    } else if path.is_empty() || begins(path, '-') || contains_control(path) {
        judge(path, Some(NameFault::InvalidTreePath))
    } else {
        Ok(())
    }
}

// ---------------------------------------------------------------------------
// References
// ---------------------------------------------------------------------------
/// What the name of a reference may not be as a whole.
pub open spec fn malformed_ref(name: Seq<char>) -> bool {
    ||| encode_utf8(name).len() > MAX_NAME_BYTES
    ||| has_substring(name, ".."@)
    ||| has_substring(name, "//"@)
    ||| name.contains('@')
    ||| ".lock"@.is_suffix_of(name)
    ||| finishes_with(name, '.')
}

/// What the name of a reference may not be as a whole.
fn is_malformed_ref(name: &str) -> (r: bool)
    ensures
        r == malformed_ref(name@),
{
    name.as_bytes().len() > MAX_NAME_BYTES || text::contains(name, "..") || text::contains(
        name,
        "//",
    ) || text::contains_char(name, '@') || text::ends_with(name, ".lock") || finishes(name, '.')
}

/// What is wrong with the characters or the components of a name.
pub open spec fn part_fault(name: Seq<char>) -> Option<NameFault> {
    match first_forbidden(name) {
        Some(c) => Some(NameFault::InvalidChar(c)),
        None => if has_bad_component(name) {
            Some(NameFault::InvalidComponent)
        } else {
            None
        },
    }
}

/// What is wrong with the characters or the components of a name.
fn find_part_fault(name: &str) -> (r: Option<NameFault>)
    ensures
        r == part_fault(name@),
{
    match find_forbidden(name) {
        Some(c) => Some(NameFault::InvalidChar(c)),
        None => if contains_bad_component(name) {
            Some(NameFault::InvalidComponent)
        } else {
            None
        },
    }
}

/// What is wrong with the name of a branch, a reference or a remote.
pub open spec fn ref_fault(name: Seq<char>) -> Option<NameFault> {
    if name.len() == 0 {
        Some(NameFault::EmptyRef)
    } else if begins_with(name, '-') || begins_with(name, '/') || finishes_with(name, '/') {
        Some(NameFault::InvalidRef)
    } else if malformed_ref(name) {
        Some(NameFault::InvalidRef)
    } else {
        part_fault(name)
    }
}

/// Accepts the name of a branch, a reference or a remote. The rules are the
/// essentials of those by which `git` itself checks names.
pub fn validate_ref_arg(name: &str) -> (r: Result<(), NameError>)
    ensures
        judged(r, name@, ref_fault(name@)),
{
    let fault = if name.is_empty() {
        Some(NameFault::EmptyRef)
    } else if begins(name, '-') || begins(name, '/') || finishes(name, '/') {
        Some(NameFault::InvalidRef)
    } else if is_malformed_ref(name) {
        Some(NameFault::InvalidRef)
    } else {
        find_part_fault(name)
    };
    judge(name, fault)
}

/// What is wrong with the full name of a reference.
pub open spec fn full_ref_fault(name: Seq<char>) -> Option<NameFault> {
    if !"refs/"@.is_prefix_of(name) {
        Some(NameFault::NotFullRef)
    } else if malformed_ref(name) || finishes_with(name, '/') {
        Some(NameFault::InvalidRef)
    } else {
        part_fault(name)
    }
}

/// Accepts the full name of a reference. Those that an undo restores come from
/// files on disk.
pub fn validate_full_ref_name(name: &str) -> (r: Result<(), NameError>)
    ensures
        judged(r, name@, full_ref_fault(name@)),
{
    let fault = if !text::starts_with(name, "refs/") {
        Some(NameFault::NotFullRef)
    } else if is_malformed_ref(name) || finishes(name, '/') {
        Some(NameFault::InvalidRef)
    } else {
        find_part_fault(name)
    };
    judge(name, fault)
}

/// Whether every character of `s` is a hexadecimal digit.
pub open spec fn all_hex(s: Seq<char>) -> bool {
    forall|i: int| 0 <= i < s.len() ==> is_hex_digit(#[trigger] s[i])
}

/// Whether `s` is an object id: 40 or 64 hexadecimal digits.
pub open spec fn is_object_id(s: Seq<char>) -> bool {
    (s.len() == 40 || s.len() == 64) && all_hex(s)
}

/// What is wrong with an object id.
pub open spec fn sha_fault(s: Seq<char>) -> Option<NameFault> {
    if is_object_id(s) {
        None
    } else {
        Some(NameFault::InvalidObjectId)
    }
}

/// Accepts an object id.
pub fn validate_sha(sha: &str) -> (r: Result<(), NameError>)
    ensures
        judged(r, sha@, sha_fault(sha@)),
{
    let chars = text::to_chars(sha);
    let mut hex = true;
    let mut i: usize = 0;
    while i < chars.len()
        invariant
            i <= chars@.len(),
            chars@ == sha@,
            hex == forall|k: int| 0 <= k < i ==> is_hex_digit(#[trigger] sha@[k]),
        decreases chars.len() - i,
    {
        if !text::char_is_hex_digit(chars[i]) {
            assert(!is_hex_digit(sha@[i as int]));
            hex = false;
        }
        i += 1;
    }
    let fault = if (chars.len() == 40 || chars.len() == 64) && hex {
        None
    } else {
        Some(NameFault::InvalidObjectId)
    };
    judge(sha, fault)
}

/// Whether `s` has a control character of ASCII or whitespace.
pub open spec fn has_control_or_space(s: Seq<char>) -> bool {
    exists|i: int| 0 <= i < s.len() && (is_ascii_control(#[trigger] s[i]) || is_whitespace(s[i]))
}

/// What is wrong with a refspec.
pub open spec fn refspec_fault(spec_text: Seq<char>) -> Option<NameFault> {
    if spec_text.len() == 0 || begins_with(spec_text, '-') || begins_with(spec_text, '+')
        || has_control_or_space(spec_text) {
        Some(NameFault::InvalidRefspec)
    } else {
        None
    }
}

/// Accepts a refspec to push. It may have a colon (`src:dst`), so only what
/// could change the meaning of the command is ruled out.
pub fn validate_pushspec(refspec: &str) -> (r: Result<(), NameError>)
    ensures
        judged(r, refspec@, refspec_fault(refspec@)),
{
    let chars = text::to_chars(refspec);
    let mut bad = refspec.is_empty() || begins(refspec, '-') || begins(refspec, '+');
    let ghost begun = bad;
    let mut i: usize = 0;
    while i < chars.len()
        invariant
            i <= chars@.len(),
            chars@ == refspec@,
            bad == (begun || exists|k: int|
                0 <= k < i && (is_ascii_control(#[trigger] refspec@[k]) || is_whitespace(
                    refspec@[k],
                ))),
        decreases chars.len() - i,
    {
        if text::char_is_ascii_control(chars[i]) || text::char_is_whitespace(chars[i]) {
            assert(is_ascii_control(refspec@[i as int]) || is_whitespace(refspec@[i as int]));
            bad = true;
        }
        i += 1;
    }
    let fault = if bad {
        Some(NameFault::InvalidRefspec)
    } else {
        None
    };
    judge(refspec, fault)
}

// ---------------------------------------------------------------------------
// Laws
// ---------------------------------------------------------------------------
/// No accepted path, name, object id or refspec can be read as an option.
pub proof fn law_accepted_names_are_no_options(s: Seq<char>)
    requires
        path_fault(s) is None || ref_fault(s) is None || full_ref_fault(s) is None || sha_fault(s)
            is None || refspec_fault(s) is None,
    ensures
        s.len() > 0,
        s[0] != '-',
{
    reveal_strlit("refs/");
    if sha_fault(s) is None {
        assert(is_hex_digit(s[0]));
    }
    if full_ref_fault(s) is None {
        assert(s[0] == "refs/"@[0]);
    }
}

/// A full name is accepted exactly where it begins with `refs/` and is accepted
/// as the name of a reference.
pub proof fn law_full_names_are_ref_names(name: Seq<char>)
    ensures
        full_ref_fault(name) is None <==> "refs/"@.is_prefix_of(name) && ref_fault(name) is None,
{
    reveal_strlit("refs/");
    if "refs/"@.is_prefix_of(name) {
        assert(name[0] == "refs/"@[0]);
    }
}

/// An accepted name of a reference has no whitespace that `git` would take for
/// the end of a field: no space, no tab, no line feed.
pub proof fn law_accepted_refs_have_no_blanks(name: Seq<char>, i: int)
    requires
        ref_fault(name) is None || full_ref_fault(name) is None,
        0 <= i < name.len(),
    ensures
        name[i] != ' ',
        name[i] != '\t',
        name[i] != '\n',
        name[i] != '\r',
{
    lemma_not_forbidden(name, i);
    reveal_strlit(" ~^:?*[\\");
    assert(" ~^:?*[\\"@[0] == ' ');
}

/// A name without forbidden characters has none anywhere.
proof fn lemma_not_forbidden(name: Seq<char>, i: int)
    requires
        first_forbidden(name) is None,
        0 <= i < name.len(),
    ensures
        !forbidden_in_ref(name[i]),
    decreases name.len(),
{
    if i > 0 {
        lemma_not_forbidden(name.skip(1), i - 1);
    }
}

/// Whether a character is a control character of ASCII, by its number.
pub open spec fn is_control_number(c: char) -> bool {
    (c as nat) < 32 || (c as nat) == 127
}

/// A path is accepted exactly where it is not empty, does not begin with a dash
/// and has no control characters; else the first of these that fails is what is
/// wrong with it. Lookups go by the same rule.
pub proof fn law_accepted_paths(p: Seq<char>)
    ensures
        p.len() == 0 <==> path_fault(p) == Some(NameFault::EmptyPath),
        p.len() > 0 && p[0] == '-' <==> path_fault(p) == Some(NameFault::OptionPath),
        (p.len() > 0 && p[0] != '-' && exists|i: int|
            0 <= i < p.len() && is_control_number(#[trigger] p[i])) <==> path_fault(p) == Some(
            NameFault::ControlInPath,
        ),
        path_fault(p) is None <==> p.len() > 0 && p[0] != '-' && forall|i: int|
            0 <= i < p.len() ==> !is_control_number(#[trigger] p[i]),
        unfit_for_lookup(p) <==> path_fault(p) is Some,
{
    lemma_numbers(p);
    if has_control(p) {
        let i = choose|i: int| 0 <= i < p.len() && is_ascii_control(#[trigger] p[i]);
        assert(is_control_number(p[i]));
    }
}

/// The classes of characters are those of their numbers.
proof fn lemma_numbers(s: Seq<char>)
    ensures
        forall|i: int|
            0 <= i < s.len() ==> is_control_number(#[trigger] s[i]) == is_ascii_control(s[i])
                && is_hex_number(s[i]) == is_hex_digit(s[i]),
{
    assert forall|i: int| 0 <= i < s.len() implies is_control_number(#[trigger] s[i])
        == is_ascii_control(s[i]) && is_hex_number(s[i]) == is_hex_digit(s[i]) by {
        lemma_number(s[i]);
    }
}

proof fn lemma_number(c: char)
    ensures
        is_control_number(c) == is_ascii_control(c),
        is_hex_number(c) == is_hex_digit(c),
{
}

/// Whether a character is a hexadecimal digit, by its number.
pub open spec fn is_hex_number(c: char) -> bool {
    48 <= (c as nat) <= 57 || 65 <= (c as nat) <= 70 || 97 <= (c as nat) <= 102
}

/// An object id is accepted exactly where it is 40 or 64 hexadecimal digits.
pub proof fn law_accepted_object_ids(s: Seq<char>)
    ensures
        sha_fault(s) is None <==> (s.len() == 40 || s.len() == 64) && forall|i: int|
            0 <= i < s.len() ==> is_hex_number(#[trigger] s[i]),
        sha_fault(s) is Some ==> sha_fault(s) == Some(NameFault::InvalidObjectId),
{
    lemma_numbers(s);
}

/// A refspec is accepted exactly where it is not empty, begins with neither a dash
/// nor a plus sign, and has neither control characters nor whitespace.
pub proof fn law_accepted_refspecs(s: Seq<char>)
    ensures
        refspec_fault(s) is None <==> s.len() > 0 && s[0] != '-' && s[0] != '+' && forall|i: int|
            0 <= i < s.len() ==> !is_control_number(#[trigger] s[i]) && !is_whitespace(s[i]),
        refspec_fault(s) is Some ==> refspec_fault(s) == Some(NameFault::InvalidRefspec),
{
    lemma_numbers(s);
}

/// Whether `a` stands right before `b` anywhere in `s`.
pub open spec fn has_pair(s: Seq<char>, a: char, b: char) -> bool {
    exists|i: int| 0 <= i < s.len() - 1 && #[trigger] s[i] == a && s[i + 1] == b
}

/// A text of two characters is found where they stand side by side.
proof fn lemma_pair(s: Seq<char>, p: Seq<char>)
    requires
        p.len() == 2,
    ensures
        has_substring(s, p) <==> has_pair(s, p[0], p[1]),
{
    if has_substring(s, p) {
        let at = choose|at: int| text::stands_at(s, p, at);
        assert(s.subrange(at, at + 2)[0] == s[at]);
        assert(s.subrange(at, at + 2)[1] == s[at + 1]);
    }
    if has_pair(s, p[0], p[1]) {
        let at = choose|i: int| 0 <= i < s.len() - 1 && #[trigger] s[i] == p[0] && s[i + 1] == p[1];
        assert(s.subrange(at, at + 2) =~= p);
        assert(text::stands_at(s, p, at));
    }
}

/// Whether a slash or a dot stands where it makes a component of a name empty, or
/// begin or end with a dot.
pub open spec fn has_bad_border(name: Seq<char>) -> bool {
    ||| name.len() == 0
    ||| name[0] == '.'
    ||| name[0] == '/'
    ||| name.last() == '.'
    ||| name.last() == '/'
    ||| has_pair(name, '/', '/')
    ||| has_pair(name, '/', '.')
    ||| has_pair(name, '.', '/')
}

/// A name has a malformed component exactly where it has such a place.
proof fn lemma_bad_border(name: Seq<char>)
    ensures
        has_bad_component(name) <==> has_bad_border(name),
    decreases name.len(),
{
    let parts = split_of(name, '/');
    if name.contains('/') {
        law_split_once_rejoins(name, '/');
        let (a, b) = text::split_once_of(name, '/')->0;
        assert(name == a + seq!['/'] + b);
        law_split(a, '/', b);
        let rest = split_of(b, '/');
        assert(parts == seq![a] + rest);
        lemma_bad_border(b);
        let n = a.len() as int;
        assert(name[n] == '/');
        assert forall|i: int| 0 <= i < b.len() implies name[n + 1 + i] == #[trigger] b[i] by {}
        assert(has_bad_component(name) <==> bad_component(a) || has_bad_component(b)) by {
            if has_bad_component(name) {
                let i = choose|i: int| 0 <= i < parts.len() && bad_component(#[trigger] parts[i]);
                if i > 0 {
                    assert(rest[i - 1] == parts[i]);
                }
            }
            if bad_component(a) {
                assert(parts[0] == a);
            }
            if has_bad_component(b) {
                let i = choose|i: int| 0 <= i < rest.len() && bad_component(#[trigger] rest[i]);
                assert(parts[i + 1] == rest[i]);
            }
        }
        lemma_pairs_split(name, a, b, '/', '/');
        lemma_pairs_split(name, a, b, '/', '.');
        lemma_pairs_split(name, a, b, '.', '/');
        assert(!has_pair(a, '/', '/') && !has_pair(a, '/', '.') && !has_pair(a, '.', '/')) by {
            assert forall|i: int| 0 <= i < a.len() implies #[trigger] a[i] != '/' by {
                assert(a.contains(a[i]));
            }
        }
        if a.len() > 0 {
            assert(a.contains(a[0]));
        }
    } else {
        law_split(name, '/', name);
        assert(parts == seq![name]);
        assert forall|i: int| 0 <= i < name.len() implies #[trigger] name[i] != '/' by {
            assert(name.contains(name[i]));
        }
        assert(has_bad_component(name) <==> bad_component(name)) by {
            assert(parts[0] == name);
        }
    }
}

/// The pairs of a name are those of what stands before and behind a slash, and the
/// two that the slash makes.
proof fn lemma_pairs_split(name: Seq<char>, a: Seq<char>, b: Seq<char>, x: char, y: char)
    requires
        name == a + seq!['/'] + b,
    ensures
        has_pair(name, x, y) <==> has_pair(a, x, y) || has_pair(b, x, y) || (a.len() > 0 && a.last()
            == x && y == '/') || (b.len() > 0 && x == '/' && b[0] == y),
{
    let n = a.len() as int;
    if has_pair(name, x, y) {
        let i = choose|i: int| 0 <= i < name.len() - 1 && #[trigger] name[i] == x && name[i + 1]
            == y;
        if i < n - 1 {
            assert(a[i] == x && a[i + 1] == y);
        } else if i > n {
            assert(b[i - n - 1] == x && b[i - n] == y);
        }
    }
    if has_pair(a, x, y) {
        let i = choose|i: int| 0 <= i < a.len() - 1 && #[trigger] a[i] == x && a[i + 1] == y;
        assert(name[i] == x && name[i + 1] == y);
    }
    if has_pair(b, x, y) {
        let i = choose|i: int| 0 <= i < b.len() - 1 && #[trigger] b[i] == x && b[i + 1] == y;
        assert(name[n + 1 + i] == x && name[n + 1 + i + 1] == y);
    }
    if a.len() > 0 && a.last() == x && y == '/' {
        assert(name[n - 1] == x && name[n - 1 + 1] == y);
    }
    if b.len() > 0 && x == '/' && b[0] == y {
        assert(name[n] == x && name[n + 1] == y);
    }
}

/// Whether a character may stand in the name of a reference.
pub open spec fn may_stand_in_ref(c: char) -> bool {
    (c as nat) > 32 && (c as nat) != 127 && c != '~' && c != '^' && c != ':' && c != '?' && c != '*'
        && c != '[' && c != '\\'
}

/// The characters that may stand in a name are those that are not forbidden.
proof fn lemma_may_stand(c: char)
    ensures
        forbidden_in_ref(c) <==> !may_stand_in_ref(c),
{
    reveal_strlit(" ~^:?*[\\");
    let listed = " ~^:?*[\\"@;
    assert(listed.len() == 8);
    assert(listed[0] == ' ' && listed[1] == '~' && listed[2] == '^' && listed[3] == ':' && listed[4]
        == '?' && listed[5] == '*' && listed[6] == '[' && listed[7] == '\\');
}

/// The name of a branch, a reference or a remote is accepted exactly where it is
/// not empty and not longer than 512 bytes, does not begin with a dash, has no
/// character that is not allowed and no `@`, no two dots in a row, does not end
/// with `.lock`, and has no component that is empty or begins or ends with a dot.
pub proof fn law_accepted_refs(name: Seq<char>)
    ensures
        ref_fault(name) is None <==> {
            &&& name.len() > 0
            &&& name[0] != '-'
            &&& encode_utf8(name).len() <= 512
            &&& forall|i: int|
                0 <= i < name.len() ==> may_stand_in_ref(#[trigger] name[i]) && name[i] != '@'
            &&& !has_pair(name, '.', '.')
            &&& !(name.len() >= 5 && name.skip(name.len() - 5) == seq!['.', 'l', 'o', 'c', 'k'])
            &&& !has_bad_border(name)
        },
{
    reveal_strlit("..");
    reveal_strlit("//");
    reveal_strlit(".lock");
    lemma_pair(name, ".."@);
    lemma_pair(name, "//"@);
    lemma_bad_border(name);
    assert(".lock"@ =~= seq!['.', 'l', 'o', 'c', 'k']);
    if name.len() >= 5 {
        assert(name.skip(name.len() - 5) =~= name.subrange(name.len() - 5, name.len() as int));
    }
    assert(name.contains('@') <==> exists|i: int| 0 <= i < name.len() && #[trigger] name[i] == '@');
    assert(first_forbidden(name) is None <==> forall|i: int|
        0 <= i < name.len() ==> may_stand_in_ref(#[trigger] name[i])) by {
        if first_forbidden(name) is None {
            assert forall|i: int| 0 <= i < name.len() implies may_stand_in_ref(
                #[trigger] name[i],
            ) by {
                lemma_not_forbidden(name, i);
                lemma_may_stand(name[i]);
            }
        } else {
            lemma_first_forbidden(name);
            let c = first_forbidden(name)->0;
            lemma_may_stand(c);
            let i = choose|i: int| 0 <= i < name.len() && name[i] == c;
            assert(!may_stand_in_ref(name[i]));
        }
    }
}

/// The forbidden character that is found is one of the name, and the first.
proof fn lemma_first_forbidden(name: Seq<char>)
    ensures
        first_forbidden(name) matches Some(c) ==> forbidden_in_ref(c) && exists|i: int|
            0 <= i < name.len() && #[trigger] name[i] == c && forall|j: int|
                0 <= j < i ==> !forbidden_in_ref(#[trigger] name[j]),
    decreases name.len(),
{
    if name.len() > 0 {
        if forbidden_in_ref(name[0]) {
            assert(name[0] == name[0]);
        } else {
            let rest = name.skip(1);
            lemma_first_forbidden(rest);
            if first_forbidden(rest) is Some {
                let c = first_forbidden(rest)->0;
                let i = choose|i: int|
                    0 <= i < rest.len() && #[trigger] rest[i] == c && forall|j: int|
                        0 <= j < i ==> !forbidden_in_ref(#[trigger] rest[j]);
                assert(name[i + 1] == c);
                assert forall|j: int| 0 <= j < i + 1 implies !forbidden_in_ref(
                    #[trigger] name[j],
                ) by {
                    if j > 0 {
                        assert(rest[j - 1] == name[j]);
                    }
                }
            }
        }
    }
}

/// Whether a name is malformed as a whole: it begins like an option, begins or
/// finishes with a slash, finishes with a dot or as a lock does, has two dots or two
/// slashes next to each other or an at sign, or is too long.
pub open spec fn is_odd_as_a_whole(name: Seq<char>) -> bool {
    ||| name[0] == '-'
    ||| name[0] == '/'
    ||| name.last() == '/'
    ||| name.last() == '.'
    ||| name.len() >= 5 && name.skip(name.len() - 5) == seq!['.', 'l', 'o', 'c', 'k']
    ||| has_pair(name, '.', '.')
    ||| has_pair(name, '/', '/')
    ||| exists|i: int| 0 <= i < name.len() && #[trigger] name[i] == '@'
    ||| encode_utf8(name).len() > 512
}

/// What is wrong with a name is told in this order: that it is empty; that it is
/// malformed as a whole; the first character that is not allowed; and that a
/// component is malformed.
pub proof fn law_ref_faults_are_told(name: Seq<char>)
    ensures
        ref_fault(name) == Some(NameFault::EmptyRef) <==> name.len() == 0,
        ref_fault(name) == Some(NameFault::InvalidRef) <==> name.len() > 0 && is_odd_as_a_whole(
            name,
        ),
        full_ref_fault(name) == Some(NameFault::InvalidRef) <==> "refs/"@.is_prefix_of(name)
            && is_odd_as_a_whole(name),
        "refs/"@.is_prefix_of(name) ==> full_ref_fault(name) == ref_fault(name),
        ref_fault(name) matches Some(NameFault::InvalidChar(c)) ==> !may_stand_in_ref(c)
            && exists|i: int|
            0 <= i < name.len() && #[trigger] name[i] == c && forall|j: int|
                0 <= j < i ==> may_stand_in_ref(#[trigger] name[j]),
        ref_fault(name) == Some(NameFault::InvalidComponent) ==> has_bad_border(name),
        ref_fault(name) matches Some(f) ==> f == NameFault::EmptyRef || f == NameFault::InvalidRef
            || f is InvalidChar || f == NameFault::InvalidComponent,
        !"refs/"@.is_prefix_of(name) <==> full_ref_fault(name) == Some(NameFault::NotFullRef),
{
    reveal_strlit("..");
    reveal_strlit("//");
    reveal_strlit(".lock");
    reveal_strlit("refs/");
    lemma_pair(name, ".."@);
    lemma_pair(name, "//"@);
    assert(".lock"@ =~= seq!['.', 'l', 'o', 'c', 'k']);
    if name.len() >= 5 {
        assert(name.skip(name.len() - 5) =~= name.subrange(name.len() - 5, name.len() as int));
    }
    assert(name.contains('@') <==> exists|i: int| 0 <= i < name.len() && #[trigger] name[i] == '@');
    if "refs/"@.is_prefix_of(name) {
        assert(name[0] == "refs/"@[0]);
    }
    lemma_first_forbidden(name);
    lemma_bad_border(name);
    if let Some(NameFault::InvalidChar(c)) = ref_fault(name) {
        lemma_may_stand(c);
        let i = choose|i: int|
            0 <= i < name.len() && #[trigger] name[i] == c && forall|j: int|
                0 <= j < i ==> !forbidden_in_ref(#[trigger] name[j]);
        assert forall|j: int| 0 <= j < i implies may_stand_in_ref(#[trigger] name[j]) by {
            lemma_may_stand(name[j]);
        }
    }
}

/// A name that is checked is accepted exactly where nothing is wrong with it, and
/// the error is about that name and what is wrong with it.
pub proof fn law_names_are_judged(
    name: &str,
    path: Result<(), NameError>,
    plain: Result<(), NameError>,
    full: Result<(), NameError>,
    sha: Result<(), NameError>,
    refspec: Result<(), NameError>,
)
    requires
        call_ensures(validate_path_arg, (name,), path),
        call_ensures(validate_ref_arg, (name,), plain),
        call_ensures(validate_full_ref_name, (name,), full),
        call_ensures(validate_sha, (name,), sha),
        call_ensures(validate_pushspec, (name,), refspec),
    ensures
        path is Ok <==> path_fault(name@) is None,
        path matches Err(e) ==> e.name@ == name@ && path_fault(name@) == Some(e.fault),
        plain is Ok <==> ref_fault(name@) is None,
        plain matches Err(e) ==> e.name@ == name@ && ref_fault(name@) == Some(e.fault),
        full is Ok <==> full_ref_fault(name@) is None,
        full matches Err(e) ==> e.name@ == name@ && full_ref_fault(name@) == Some(e.fault),
        sha is Ok <==> sha_fault(name@) is None,
        sha matches Err(e) ==> e.name@ == name@ && e.fault == NameFault::InvalidObjectId,
        refspec is Ok <==> refspec_fault(name@) is None,
        refspec matches Err(e) ==> e.name@ == name@ && e.fault == NameFault::InvalidRefspec,
{
}

/// A lookup is refused for the revision before the path, and exactly where one of
/// them is empty, looks like an option or has control characters.
pub proof fn law_lookups_are_judged(revision: &str, path: &str, r: Result<(), NameError>)
    requires
        call_ensures(validate_lookup, (revision, path), r),
    ensures
        r is Ok <==> path_fault(revision@) is None && path_fault(path@) is None,
        r matches Err(e) ==> if path_fault(revision@) is Some {
            e.fault == NameFault::InvalidRevision && e.name@ == revision@
        } else {
            e.fault == NameFault::InvalidTreePath && e.name@ == path@
        },
{
}

} // verus!
