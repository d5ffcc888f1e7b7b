//! JSON values: what `serde_json::Value` holds, and the calls that read and
//! build one.
use crate::text;
use crate::text::{is_whitespace, join_of, opt_text, texts};
use serde_json::Value;
use vstd::prelude::*;
use vstd::string::*;

verus! {

/// `serde_json::Value`, which the crate carries through unopened.
#[verifier::external_type_specification]
#[verifier::external_body]
pub struct ExValue(serde_json::Value);

/// `serde_json::Error`, the reason why bytes are no JSON.
#[verifier::external_type_specification]
#[verifier::external_body]
pub struct ExError(serde_json::Error);

/// What a JSON value holds.
pub enum JsonView {
    Null,
    Bool(bool),
    /// A number that is kept as an integer.
    Int(int),
    /// Any other number, as it is printed.
    Float(Seq<char>),
    Text(Seq<char>),
    Array(Seq<JsonView>),
    Object(Map<Seq<char>, JsonView>),
}

impl JsonView {
    /// The member of an object under `key`; other values have no members.
    pub open spec fn member(self, key: Seq<char>) -> Option<JsonView> {
        match self {
            JsonView::Object(m) => if m.contains_key(key) {
                Some(m[key])
            } else {
                None
            },
            _ => None,
        }
    }
}

/// What the value `v` holds.
pub uninterp spec fn json_view(v: serde_json::Value) -> JsonView;

/// What a list of values holds.
pub open spec fn json_views(s: Seq<serde_json::Value>) -> Seq<JsonView> {
    s.map_values(|v: serde_json::Value| json_view(v))
}

/// What an optional value holds.
pub open spec fn opt_json(v: Option<serde_json::Value>) -> Option<JsonView> {
    match v {
        Some(v) => Some(json_view(v)),
        None => None,
    }
}

/// The value that `bytes` write in JSON, or the message that says why they
/// write none.
pub uninterp spec fn json_parse(bytes: Seq<u8>) -> Result<JsonView, Seq<char>>;

/// The compact JSON text of a value.
pub uninterp spec fn json_text(v: JsonView) -> Seq<char>;

/// The message of an error.
pub uninterp spec fn json_error_text(e: serde_json::Error) -> Seq<char>;

/// Calls `serde_json::from_slice` for a `serde_json::Value`. Whether it
/// succeeds, what the value holds and what the error says depend on the bytes
/// alone.
#[verifier::external_body]
pub(crate) fn parse(bytes: &[u8]) -> (r: Result<Value, serde_json::Error>)
    ensures
        match r {
            Ok(v) => json_parse(bytes@) == Ok::<JsonView, Seq<char>>(json_view(v)),
            Err(e) => json_parse(bytes@) == Err::<JsonView, Seq<char>>(json_error_text(e)),
        },
{
    serde_json::from_slice(bytes)
}

/// Prints a `serde_json::Error` by its `std::fmt::Display`.
#[verifier::external_body]
pub(crate) fn error_text(e: &serde_json::Error) -> (r: String)
    ensures
        r@ == json_error_text(*e),
{
    e.to_string()
}

/// Calls `serde_json::Value::get` with a key: the member of an object under
/// that key, and nothing for any other value.
#[verifier::external_body]
pub(crate) fn get<'a>(v: &'a Value, key: &str) -> (r: Option<&'a Value>)
    ensures
        match r {
            Some(m) => json_view(*v).member(key@) == Some(json_view(*m)),
            None => json_view(*v).member(key@) is None,
        },
{
    v.get(key)
}

/// Calls `serde_json::Value::as_str`: the text of a string, and nothing for
/// any other value.
#[verifier::external_body]
pub(crate) fn as_str(v: &Value) -> (r: Option<&str>)
    ensures
        match r {
            Some(s) => json_view(*v) == JsonView::Text(s@),
            None => !(json_view(*v) is Text),
        },
{
    v.as_str()
}

/// Calls `serde_json::Value::is_null`.
#[verifier::external_body]
pub(crate) fn is_null(v: &Value) -> (r: bool)
    ensures
        r == (json_view(*v) is Null),
{
    v.is_null()
}

/// Calls `serde_json::Value::clone`: the copy holds what the value holds.
#[verifier::external_body]
pub(crate) fn copy(v: &Value) -> (r: Value)
    ensures
        json_view(r) == json_view(*v),
{
    v.clone()
}

/// Builds a `serde_json::Value::Null`.
#[verifier::external_body]
pub(crate) fn null() -> (r: Value)
    ensures
        json_view(r) == JsonView::Null,
{
    Value::Null
}

/// Builds a `serde_json::Value::Object` from an empty `serde_json::Map`.
#[verifier::external_body]
pub(crate) fn object() -> (r: Value)
    ensures
        json_view(r) == JsonView::Object(Map::empty()),
{
    Value::Object(serde_json::Map::new())
}

/// Assigns through the `std::ops::IndexMut` of `serde_json::Value` for a key,
/// which inserts or replaces the member of an object under that key.
#[verifier::external_body]
pub(crate) fn put(v: &mut Value, key: &str, member: Value)
    requires
        json_view(*old(v)) is Object,
    ensures
        json_view(*final(v)) == JsonView::Object(
            json_view(*old(v))->Object_0.insert(key@, json_view(member)),
        ),
{
    v[key] = member;
}

/// Builds a `serde_json::Value::String`.
#[verifier::external_body]
pub(crate) fn text(s: String) -> (r: Value)
    ensures
        json_view(r) == JsonView::Text(s@),
{
    Value::String(s)
}

/// Builds a `serde_json::Value::Bool`.
#[verifier::external_body]
pub(crate) fn boolean(b: bool) -> (r: Value)
    ensures
        json_view(r) == JsonView::Bool(b),
{
    Value::Bool(b)
}

/// Calls the `std::convert::From<u64>` of `serde_json::Value`, which keeps the
/// number as an integer.
#[verifier::external_body]
pub(crate) fn unsigned(n: u64) -> (r: Value)
    ensures
        json_view(r) == JsonView::Int(n as int),
{
    Value::from(n)
}

/// Calls the `std::convert::From<i64>` of `serde_json::Value`, which keeps the
/// number as an integer.
#[verifier::external_body]
pub(crate) fn signed(n: i64) -> (r: Value)
    ensures
        json_view(r) == JsonView::Int(n as int),
{
    Value::from(n)
}

/// Builds a `serde_json::Value::Array`.
#[verifier::external_body]
pub(crate) fn array(items: Vec<Value>) -> (r: Value)
    ensures
        json_view(r) == JsonView::Array(json_views(items@)),
{
    Value::Array(items)
}

/// Calls `serde_json::to_string` on a `serde_json::Value`. The text depends on
/// what the value holds alone; it is not empty and begins with no whitespace, and
/// as control characters below the space are escaped in strings and stand nowhere
/// else, it has none. Printing a value never fails, so the empty text that stands
/// for a failure is not reached.
#[verifier::external_body]
pub(crate) fn print(v: &Value) -> (r: String)
    ensures
        r@ == json_text(json_view(*v)),
        r@.len() > 0,
        !is_whitespace(r@[0]),
        forall|i: int| 0 <= i < r@.len() ==> #[trigger] r@[i] >= ' ',
{
    serde_json::to_string(v).unwrap_or_default()
}

// ---------------------------------------------------------------------------
// Objects with their members in a given order
// ---------------------------------------------------------------------------
/// The JSON text of a string.
pub open spec fn string_of(s: Seq<char>) -> Seq<char> {
    json_text(JsonView::Text(s))
}

/// The JSON text of a string that may be missing.
pub open spec fn opt_string_of(s: Option<Seq<char>>) -> Seq<char> {
    match s {
        Some(s) => string_of(s),
        None => "null"@,
    }
}

/// The JSON text of a truth value.
pub open spec fn bool_of(b: bool) -> Seq<char> {
    if b {
        "true"@
    } else {
        "false"@
    }
}

/// Whether a text has no control characters below the space.
pub open spec fn is_printable(s: Seq<char>) -> bool {
    forall|i: int| 0 <= i < s.len() ==> #[trigger] s[i] >= ' '
}

/// A member of an object that is being printed: the JSON texts of its name and
/// of its value.
pub struct Member {
    pub name: String,
    pub value: String,
}

impl View for Member {
    type V = (Seq<char>, Seq<char>);

    open spec fn view(&self) -> (Seq<char>, Seq<char>) {
        (self.name@, self.value@)
    }
}

/// What a list of members holds.
pub open spec fn members_of(s: Seq<Member>) -> Seq<(Seq<char>, Seq<char>)> {
    s.map_values(|m: Member| m@)
}

/// The members as they are printed, with `colon` between name and value.
pub open spec fn member_texts(members: Seq<(Seq<char>, Seq<char>)>, colon: Seq<char>) -> Seq<
    Seq<char>,
> {
    members.map_values(|m: (Seq<char>, Seq<char>)| m.0 + colon + m.1)
}

/// The compact text of an object with these members, in this order.
pub open spec fn object_text(members: Seq<(Seq<char>, Seq<char>)>) -> Seq<char> {
    "{"@ + join_of(member_texts(members, ":"@), ","@) + "}"@
}

/// The text of an object with these members, in this order, one on each line:
/// the object stands in lines that begin with `indent`, and its members are set
/// in by two spaces more.
pub open spec fn pretty_object(members: Seq<(Seq<char>, Seq<char>)>, indent: Seq<char>) -> Seq<
    char,
> {
    if members.len() == 0 {
        "{}"@
    } else {
        let line = "\n"@ + indent + "  "@;
        "{"@ + line + join_of(member_texts(members, ": "@), ","@ + line) + "\n"@ + indent + "}"@
    }
}

/// The JSON text of a string.
pub(crate) fn string(s: &str) -> (r: String)
    ensures
        r@ == string_of(s@),
        is_printable(r@),
{
    print(&text(s.to_owned()))
}

/// The JSON text of a string that may be missing.
pub(crate) fn opt_string(s: &Option<String>) -> (r: String)
    ensures
        r@ == opt_string_of(opt_text(*s)),
{
    match s {
        Some(s) => string(s.as_str()),
        None => "null".to_owned(),
    }
}

/// A member of an object that is being printed.
pub(crate) fn member(name: &str, value: String) -> (r: Member)
    ensures
        r@ == (name@, value@),
{
    Member { name: name.to_owned(), value }
}

/// The members as they are printed, with `colon` between name and value.
fn printed_members(members: &Vec<Member>, colon: &str) -> (r: Vec<String>)
    ensures
        texts(r@) == member_texts(members_of(members@), colon@),
{
    let mut out: Vec<String> = Vec::new();
    let mut i: usize = 0;
    while i < members.len()
        invariant
            i <= members@.len(),
            out@.len() == i,
            forall|k: int|
                #![trigger out@[k]]
                0 <= k < i ==> out@[k]@ == members@[k]@.0 + colon@ + members@[k]@.1,
        decreases members.len() - i,
    {
        let mut one = members[i].name.clone();
        one.append(colon);
        one.append(members[i].value.as_str());
        out.push(one);
        i += 1;
    }
    assert(texts(out@) =~= member_texts(members_of(members@), colon@));
    out
}

/// The compact text of an object with these members, in this order.
pub(crate) fn print_object(members: &Vec<Member>) -> (r: String)
    ensures
        r@ == object_text(members_of(members@)),
{
    let mut out = "{".to_owned();
    out.append(text::join(&printed_members(members, ":"), ",").as_str());
    out.append("}");
    out
}

/// The text of an object with these members, in this order, one on each line.
pub(crate) fn print_pretty_object(members: &Vec<Member>, indent: &str) -> (r: String)
    ensures
        r@ == pretty_object(members_of(members@), indent@),
{
    if members.len() == 0 {
        return "{}".to_owned();
    }
    let mut line = "\n".to_owned();
    line.append(indent);
    line.append("  ");
    let between = ",".to_owned().concat(line.as_str());
    let mut out = "{".to_owned();
    out.append(line.as_str());
    out.append(text::join(&printed_members(members, ": "), between.as_str()).as_str());
    out.append("\n");
    out.append(indent);
    out.append("}");
    out
}

/// Printable texts join to one.
proof fn lemma_join_printable(parts: Seq<Seq<char>>, sep: Seq<char>)
    requires
        forall|i: int| 0 <= i < parts.len() ==> is_printable(#[trigger] parts[i]),
        is_printable(sep),
    ensures
        is_printable(join_of(parts, sep)),
    decreases parts.len(),
{
    if parts.len() == 1 {
        assert(is_printable(parts[0]));
    } else if parts.len() > 1 {
        let fewer = parts.drop_last();
        assert forall|i: int| 0 <= i < fewer.len() implies is_printable(#[trigger] fewer[i]) by {
            assert(fewer[i] == parts[i]);
        }
        lemma_join_printable(fewer, sep);
        assert(is_printable(parts[parts.len() - 1]));
    }
}

/// The compact text of an object with printable members is printable, and begins
/// with a brace.
pub proof fn lemma_object_printable(members: Seq<(Seq<char>, Seq<char>)>)
    requires
        forall|i: int|
            #![trigger members[i]]
            0 <= i < members.len() ==> is_printable(members[i].0) && is_printable(members[i].1),
    ensures
        is_printable(object_text(members)),
        object_text(members).len() > 0,
        object_text(members)[0] == '{',
{
    reveal_strlit("{");
    reveal_strlit("}");
    reveal_strlit(":");
    reveal_strlit(",");
    let parts = member_texts(members, ":"@);
    assert forall|i: int| 0 <= i < parts.len() implies is_printable(#[trigger] parts[i]) by {
        assert(parts[i] == members[i].0 + ":"@ + members[i].1);
    }
    lemma_join_printable(parts, ","@);
}

/// An object is written as its members in braces, each as its name, a colon and
/// its value, with commas between them.
pub proof fn law_object_text(
    first: Seq<(Seq<char>, Seq<char>)>,
    name: Seq<char>,
    value: Seq<char>,
)
    ensures
        object_text(Seq::<(Seq<char>, Seq<char>)>::empty()) == "{}"@,
        object_text(seq![(name, value)]) == "{"@ + name + ":"@ + value + "}"@,
        first.len() > 0 ==> object_text(first.push((name, value))) == object_text(
            first,
        ).drop_last() + ","@ + name + ":"@ + value + "}"@,
{
    reveal_strlit("{");
    reveal_strlit("}");
    reveal_strlit("{}");
    let none = Seq::<(Seq<char>, Seq<char>)>::empty();
    assert(member_texts(none, ":"@) =~= Seq::<Seq<char>>::empty());
    assert(object_text(none) =~= "{}"@);
    let one = name + ":"@ + value;
    assert(member_texts(seq![(name, value)], ":"@) =~= seq![one]);
    assert(object_text(seq![(name, value)]) =~= "{"@ + name + ":"@ + value + "}"@);
    if first.len() > 0 {
        let some = member_texts(first, ":"@);
        assert(member_texts(first.push((name, value)), ":"@) =~= some.push(one));
        assert(some.push(one).drop_last() =~= some);
        assert(object_text(first).drop_last() =~= "{"@ + join_of(some, ","@));
        assert(object_text(first.push((name, value))) =~= object_text(first).drop_last() + ","@
            + name + ":"@ + value + "}"@);
    }
}

/// An object that is written over several lines has each member on a line of its
/// own, set in by two spaces, and ends on a line of its own.
pub proof fn law_pretty_object(
    first: Seq<(Seq<char>, Seq<char>)>,
    indent: Seq<char>,
    name: Seq<char>,
    value: Seq<char>,
)
    ensures
        pretty_object(Seq::<(Seq<char>, Seq<char>)>::empty(), indent) == "{}"@,
        pretty_object(seq![(name, value)], indent) == "{\n"@ + indent + "  "@ + name + ": "@ + value
            + "\n"@ + indent + "}"@,
        first.len() > 0 ==> pretty_object(first.push((name, value)), indent) == pretty_object(
            first,
            indent,
        ).take(pretty_object(first, indent).len() - indent.len() - 2) + ",\n"@ + indent + "  "@
            + name + ": "@ + value + "\n"@ + indent + "}"@,
{
    reveal_strlit("{");
    reveal_strlit("}");
    reveal_strlit("\n");
    reveal_strlit("{\n");
    reveal_strlit(",");
    reveal_strlit(",\n");
    let line = "\n"@ + indent + "  "@;
    let one = name + ": "@ + value;
    assert(member_texts(seq![(name, value)], ": "@) =~= seq![one]);
    assert(pretty_object(seq![(name, value)], indent) =~= "{\n"@ + indent + "  "@ + name + ": "@
        + value + "\n"@ + indent + "}"@);
    if first.len() > 0 {
        let some = member_texts(first, ": "@);
        let all = first.push((name, value));
        assert(member_texts(all, ": "@) =~= some.push(one));
        assert(some.push(one).drop_last() =~= some);
        let text = pretty_object(first, indent);
        assert(text.take(text.len() - indent.len() - 2) =~= "{"@ + line + join_of(
            some,
            ","@ + line,
        ));
        assert(pretty_object(all, indent) =~= text.take(text.len() - indent.len() - 2) + ",\n"@
            + indent + "  "@ + name + ": "@ + value + "\n"@ + indent + "}"@);
    }
}

/// What is written for a string that may be missing and for a truth value.
pub proof fn law_plain_values(s: Seq<char>)
    ensures
        opt_string_of(Some(s)) == json_text(JsonView::Text(s)),
        opt_string_of(None) == "null"@,
        bool_of(true) == "true"@,
        bool_of(false) == "false"@,
        string_of(s) == json_text(JsonView::Text(s)),
{
}

} // verus!
