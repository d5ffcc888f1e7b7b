//! The frames that carry JSON-RPC messages over a byte stream: a block of
//! header lines, an empty line, and a body of `Content-Length` bytes.
use crate::json;
use crate::json::{json_parse, json_view, opt_json, JsonView};
use crate::text;
use crate::text::{
    after_prefix, decimal_of, parse_of, quoted_of, trim_end_of, trim_of, IntError,
};
use crate::text_laws::law_after_prefix;
use serde_json::Value;
use vstd::prelude::*;
use vstd::string::*;
use vstd::utf8::{decode_utf8, encode_utf8, valid_utf8};

verus! {

/// Maximum accepted `Content-Length` (16 MiB).
pub const MAX_CONTENT_LENGTH: usize = 16 * 1024 * 1024;

/// Maximum accepted total header block size (64 KiB).
pub const MAX_HEADER_BYTES: usize = 64 * 1024;

/// Maximum accepted single header line length (8 KiB).
pub const MAX_HEADER_LINE: usize = 8 * 1024;

/// One parsed incoming JSON-RPC message. `id: None` marks a notification (no
/// response is expected).
pub struct IncomingMessage {
    pub id: Option<Value>,
    pub method: String,
    pub params: Value,
}

/// What a message holds.
pub struct MessageView {
    pub id: Option<JsonView>,
    pub method: Seq<char>,
    pub params: JsonView,
}

impl View for IncomingMessage {
    type V = MessageView;

    open spec fn view(&self) -> MessageView {
        MessageView {
            id: opt_json(self.id),
            method: self.method@,
            params: json_view(self.params),
        }
    }
}

/// A violation of the framing. The stream can no longer be trusted after one.
#[derive(Debug, Clone)]
pub enum FrameError {
    /// A header line is not valid UTF-8.
    HeaderNotUtf8,
    /// The header block is longer than `MAX_HEADER_BYTES`.
    HeaderBlockTooLarge,
    /// A header line is longer than `MAX_HEADER_LINE`.
    HeaderLineTooLong,
    /// The value of `Content-Length` is no number.
    InvalidContentLength { text: String, cause: IntError },
    /// The header block names no `Content-Length`.
    MissingContentLength,
    /// The value of `Content-Length` is larger than `MAX_CONTENT_LENGTH`.
    ContentTooLarge { length: usize },
    /// The stream ends within the body.
    Truncated,
    /// The stream cannot be read.
    Unreadable { message: String },
    /// The body is no JSON.
    InvalidJson { message: String },
    /// The body names no method.
    MissingMethod,
}

/// What a framing violation says.
pub enum FrameErrorView {
    HeaderNotUtf8,
    HeaderBlockTooLarge,
    HeaderLineTooLong,
    InvalidContentLength { text: Seq<char>, cause: IntError },
    MissingContentLength,
    ContentTooLarge { length: nat },
    Truncated,
    Unreadable { message: Seq<char> },
    InvalidJson { message: Seq<char> },
    MissingMethod,
}

impl View for FrameError {
    type V = FrameErrorView;

    open spec fn view(&self) -> FrameErrorView {
        match *self {
            FrameError::HeaderNotUtf8 => FrameErrorView::HeaderNotUtf8,
            FrameError::HeaderBlockTooLarge => FrameErrorView::HeaderBlockTooLarge,
            FrameError::HeaderLineTooLong => FrameErrorView::HeaderLineTooLong,
            FrameError::InvalidContentLength { text, cause } => {
                FrameErrorView::InvalidContentLength { text: text@, cause }
            },
            FrameError::MissingContentLength => FrameErrorView::MissingContentLength,
            FrameError::ContentTooLarge { length } => FrameErrorView::ContentTooLarge {
                length: length as nat,
            },
            FrameError::Truncated => FrameErrorView::Truncated,
            FrameError::Unreadable { message } => FrameErrorView::Unreadable { message: message@ },
            FrameError::InvalidJson { message } => FrameErrorView::InvalidJson {
                message: message@,
            },
            FrameError::MissingMethod => FrameErrorView::MissingMethod,
        }
    }
}

/// What a number that cannot be read is reported as.
pub open spec fn int_error_text(e: IntError) -> Seq<char> {
    match e {
        IntError::Empty => "cannot parse integer from empty string"@,
        IntError::InvalidDigit => "invalid digit found in string"@,
        IntError::TooLarge => "number too large to fit in target type"@,
    }
}

/// What a number that cannot be read is reported as.
pub fn int_error_message(e: &IntError) -> (r: &'static str)
    ensures
        r@ == int_error_text(*e),
{
    match e {
        IntError::Empty => "cannot parse integer from empty string",
        IntError::InvalidDigit => "invalid digit found in string",
        IntError::TooLarge => "number too large to fit in target type",
    }
}

impl FrameErrorView {
    /// What the violation is reported as.
    pub open spec fn text(self) -> Seq<char> {
        match self {
            FrameErrorView::HeaderNotUtf8 => "stream did not contain valid UTF-8"@,
            FrameErrorView::HeaderBlockTooLarge => "header block exceeds "@ + decimal_of(
                MAX_HEADER_BYTES as nat,
            ) + " bytes"@,
            FrameErrorView::HeaderLineTooLong => "header line exceeds "@ + decimal_of(
                MAX_HEADER_LINE as nat,
            ) + " bytes"@,
            FrameErrorView::InvalidContentLength { text, cause } => "invalid Content-Length "@
                + quoted_of(text) + ": "@ + int_error_text(cause),
            FrameErrorView::MissingContentLength => "missing Content-Length header"@,
            FrameErrorView::ContentTooLarge { length } => "Content-Length "@ + decimal_of(length)
                + " exceeds the maximum of "@ + decimal_of(MAX_CONTENT_LENGTH as nat),
            FrameErrorView::Truncated => "failed to fill whole buffer"@,
            FrameErrorView::Unreadable { message } => message,
            FrameErrorView::InvalidJson { message } => message,
            FrameErrorView::MissingMethod => "message missing method"@,
        }
    }
}

impl FrameError {
    /// What the violation is reported as.
    pub fn message(&self) -> (r: String)
        ensures
            r@ == self@.text(),
    {
        match self {
            FrameError::HeaderNotUtf8 => "stream did not contain valid UTF-8".to_owned(),
            FrameError::HeaderBlockTooLarge => {
                let mut out = "header block exceeds ".to_owned();
                out.append(text::decimal(MAX_HEADER_BYTES as u64).as_str());
                out.append(" bytes");
                out
            },
            FrameError::HeaderLineTooLong => {
                let mut out = "header line exceeds ".to_owned();
                out.append(text::decimal(MAX_HEADER_LINE as u64).as_str());
                out.append(" bytes");
                out
            },
            FrameError::InvalidContentLength { text: value, cause } => {
                let mut out = "invalid Content-Length ".to_owned();
                out.append(text::quoted(value.as_str()).as_str());
                out.append(": ");
                out.append(int_error_message(cause));
                out
            },
            FrameError::MissingContentLength => "missing Content-Length header".to_owned(),
            FrameError::ContentTooLarge { length } => {
                let mut out = "Content-Length ".to_owned();
                out.append(text::decimal(*length as u64).as_str());
                out.append(" exceeds the maximum of ");
                out.append(text::decimal(MAX_CONTENT_LENGTH as u64).as_str());
                out
            },
            FrameError::Truncated => "failed to fill whole buffer".to_owned(),
            FrameError::Unreadable { message } => message.clone(),
            FrameError::InvalidJson { message } => message.clone(),
            FrameError::MissingMethod => "message missing method".to_owned(),
        }
    }
}

// ---------------------------------------------------------------------------
// Header lines
// ---------------------------------------------------------------------------
/// What is known of a header block after some of its lines.
pub struct HeaderBlock {
    /// The last `Content-Length` that was named.
    pub content_length: Option<usize>,
    /// The bytes of the lines so far.
    pub header_bytes: usize,
}

/// What a header line leads to.
pub enum HeaderStep {
    /// The block goes on.
    More(HeaderBlock),
    /// The block ends: the body has this many bytes.
    Body(usize),
    /// The stream has ended.
    Eof,
}

/// What a header line leads to, over numbers.
pub enum HeaderStepView {
    More { content_length: Option<nat>, header_bytes: nat },
    Body(nat),
    Eof,
}

impl View for HeaderStep {
    type V = HeaderStepView;

    open spec fn view(&self) -> HeaderStepView {
        match *self {
            HeaderStep::More(b) => HeaderStepView::More {
                content_length: opt_nat(b.content_length),
                header_bytes: b.header_bytes as nat,
            },
            HeaderStep::Body(n) => HeaderStepView::Body(n as nat),
            HeaderStep::Eof => HeaderStepView::Eof,
        }
    }
}

/// A number that may be missing.
pub open spec fn opt_nat(n: Option<usize>) -> Option<nat> {
    match n {
        Some(n) => Some(n as nat),
        None => None,
    }
}

/// The length of the body, once the block has ended.
pub open spec fn body_length(content_length: Option<nat>) -> Result<HeaderStepView, FrameErrorView> {
    match content_length {
        None => Err(FrameErrorView::MissingContentLength),
        Some(n) => if n > MAX_CONTENT_LENGTH {
            Err(FrameErrorView::ContentTooLarge { length: n })
        } else {
            Ok(HeaderStepView::Body(n))
        },
    }
}

/// What the header line `line`, with its line ending, leads to in a block
/// that has had `header_bytes` bytes and named `content_length`. An empty line
/// without a line ending stands for the end of the stream.
pub open spec fn header_step(
    content_length: Option<nat>,
    header_bytes: nat,
    line: Seq<u8>,
) -> Result<HeaderStepView, FrameErrorView> {
    let total = header_bytes + line.len();
    let header = trim_end_of(decode_utf8(line));
    if !valid_utf8(line) {
        Err(FrameErrorView::HeaderNotUtf8)
    } else if line.len() == 0 {
        Ok(HeaderStepView::Eof)
    } else if total > MAX_HEADER_BYTES {
        Err(FrameErrorView::HeaderBlockTooLarge)
    } else if line.len() > MAX_HEADER_LINE {
        Err(FrameErrorView::HeaderLineTooLong)
    } else if header.len() == 0 {
        body_length(content_length)
    } else {
        match after_prefix(header, "Content-Length:"@) {
            None => Ok(HeaderStepView::More { content_length, header_bytes: total }),
            Some(value) => match parse_of(trim_of(value), usize::MAX as nat) {
                Ok(n) => Ok(
                    HeaderStepView::More { content_length: Some(n), header_bytes: total },
                ),
                Err(cause) => Err(
                    FrameErrorView::InvalidContentLength { text: trim_of(value), cause },
                ),
            },
        }
    }
}

/// What a result holds.
pub open spec fn step_view<T: View, E: View>(r: Result<T, E>) -> Result<T::V, E::V> {
    match r {
        Ok(t) => Ok(t@),
        Err(e) => Err(e@),
    }
}

impl HeaderBlock {
    /// A block before its first line.
    pub fn new() -> (r: HeaderBlock)
        ensures
            r.content_length is None,
            r.header_bytes == 0,
    {
        HeaderBlock { content_length: None, header_bytes: 0 }
    }

    /// Takes in one header line with its line ending, as a read that stops
    /// after a line feed or after `MAX_HEADER_LINE + 1` bytes gives it. A read
    /// that gives no bytes at all is the end of the stream, which is clean
    /// whether or not headers have started.
    pub fn line(&self, line: &[u8]) -> (r: Result<HeaderStep, FrameError>)
        requires
            self.header_bytes <= MAX_HEADER_BYTES,
        ensures
            step_view(r) == header_step(
                opt_nat(self.content_length),
                self.header_bytes as nat,
                line@,
            ),
            r matches Ok(HeaderStep::More(b)) ==> b.header_bytes <= MAX_HEADER_BYTES,
    {
        let line_text = match text::utf8_text(line) {
            Some(t) => t,
            None => {
                return Err(FrameError::HeaderNotUtf8);
            },
        };
        let n: usize = line.len();
        if n == 0 {
            return Ok(HeaderStep::Eof);
        }
        if n > MAX_HEADER_BYTES - self.header_bytes {
            return Err(FrameError::HeaderBlockTooLarge);
        }
        if n > MAX_HEADER_LINE {
            return Err(FrameError::HeaderLineTooLong);
        }
        let total: usize = self.header_bytes + n;
        let header = text::trim_end(line_text);
        if header.as_str().is_empty() {
            return match self.content_length {
                None => Err(FrameError::MissingContentLength),
                Some(length) => {
                    if length > MAX_CONTENT_LENGTH {
                        Err(FrameError::ContentTooLarge { length })
                    } else {
                        Ok(HeaderStep::Body(length))
                    }
                },
            };
        }
        match text::strip_prefix(header.as_str(), "Content-Length:") {
            None => Ok(
                HeaderStep::More(
                    HeaderBlock { content_length: self.content_length, header_bytes: total },
                ),
            ),
            Some(value) => {
                let value = text::trim(value.as_str());
                match text::parse_decimal(value.as_str(), usize::MAX as u64) {
                    Ok(length) => Ok(
                        HeaderStep::More(
                            HeaderBlock {
                                content_length: Some(length as usize),
                                header_bytes: total,
                            },
                        ),
                    ),
                    Err(cause) => Err(FrameError::InvalidContentLength { text: value, cause }),
                }
            },
        }
    }
}

// ---------------------------------------------------------------------------
// Bodies
// ---------------------------------------------------------------------------
/// The message that a JSON value stands for. An absent `params` behaves like
/// `{}`, and so does a `null` one; an absent `id` marks a notification.
pub open spec fn message_of(v: JsonView) -> Result<MessageView, FrameErrorView> {
    match v.member("method"@) {
        Some(JsonView::Text(method)) => Ok(
            MessageView {
                id: v.member("id"@),
                method,
                params: match v.member("params"@) {
                    Some(p) => if p is Null {
                        JsonView::Object(Map::empty())
                    } else {
                        p
                    },
                    None => JsonView::Object(Map::empty()),
                },
            },
        ),
        _ => Err(FrameErrorView::MissingMethod),
    }
}

/// The message that the bytes of a body stand for.
pub open spec fn body_message(body: Seq<u8>) -> Result<MessageView, FrameErrorView> {
    match json_parse(body) {
        Err(message) => Err(FrameErrorView::InvalidJson { message }),
        Ok(v) => message_of(v),
    }
}

/// The message that a parsed body stands for.
pub fn message_from_value(value: &Value) -> (r: Result<IncomingMessage, FrameError>)
    ensures
        step_view(r) == message_of(json_view(*value)),
{
    let method = match json::get(value, "method") {
        None => {
            return Err(FrameError::MissingMethod);
        },
        Some(m) => match json::as_str(m) {
            None => {
                return Err(FrameError::MissingMethod);
            },
            Some(s) => s.to_owned(),
        },
    };
    let params = match json::get(value, "params") {
        Some(p) => {
            if json::is_null(p) {
                json::object()
            } else {
                json::copy(p)
            }
        },
        None => json::object(),
    };
    let id = match json::get(value, "id") {
        Some(i) => Some(json::copy(i)),
        None => None,
    };
    Ok(IncomingMessage { id, method, params })
}

/// The message that the bytes of a body stand for.
pub fn parse_message(body: &[u8]) -> (r: Result<IncomingMessage, FrameError>)
    ensures
        step_view(r) == body_message(body@),
{
    match json::parse(body) {
        Err(e) => Err(FrameError::InvalidJson { message: json::error_text(&e) }),
        Ok(v) => message_from_value(&v),
    }
}

// ---------------------------------------------------------------------------
// Whole frames
// ---------------------------------------------------------------------------
/// How many bytes a read takes that stops after a line feed, after `cap`
/// bytes, or at the end of the stream.
pub open spec fn line_length(data: Seq<u8>, cap: nat) -> nat
    decreases cap,
{
    if data.len() == 0 || cap == 0 {
        0
    } else if data[0] == 10 {
        1
    } else {
        1 + line_length(data.skip(1), (cap - 1) as nat)
    }
}

/// What a stream begins with.
pub enum ReadView {
    /// The stream ends before a body begins.
    Eof,
    /// A message, and the bytes that follow it.
    Message { message: MessageView, rest: Seq<u8> },
    /// A violation of the framing.
    Failed(FrameErrorView),
}

/// What a stream begins with whose next body has `length` bytes.
pub open spec fn read_body(data: Seq<u8>, length: nat) -> ReadView {
    if data.len() < length {
        ReadView::Failed(FrameErrorView::Truncated)
    } else {
        match body_message(data.take(length as int)) {
            Ok(message) => ReadView::Message { message, rest: data.skip(length as int) },
            Err(e) => ReadView::Failed(e),
        }
    }
}

/// What a stream begins with within a header block that has had
/// `header_bytes` bytes and named `content_length`.
pub open spec fn read_headers(
    data: Seq<u8>,
    content_length: Option<nat>,
    header_bytes: nat,
) -> ReadView
    decreases data.len(),
{
    let n = line_length(data, (MAX_HEADER_LINE + 1) as nat) as int;
    match header_step(content_length, header_bytes, data.take(n)) {
        Err(e) => ReadView::Failed(e),
        Ok(HeaderStepView::Body(length)) => read_body(data.skip(n), length),
        Ok(HeaderStepView::More { content_length, header_bytes }) => if 0 < n <= data.len() {
            read_headers(data.skip(n), content_length, header_bytes)
        } else {
            ReadView::Eof
        },
        Ok(HeaderStepView::Eof) => ReadView::Eof,
    }
}

/// What a stream begins with.
pub open spec fn read_stream(data: Seq<u8>) -> ReadView {
    read_headers(data, None, 0)
}

/// Where a header block ends, and how many bytes it has taken by then.
pub enum HeaderEnd {
    /// With the stream.
    Eof { taken: nat },
    /// With a blank line: a body of `length` bytes follows.
    Body { length: nat, taken: nat },
    /// With a violation of the framing.
    Failed { error: FrameErrorView, taken: nat },
}

/// Where a header block ends that has had `header_bytes` bytes and named
/// `content_length`.
pub open spec fn header_end(
    data: Seq<u8>,
    content_length: Option<nat>,
    header_bytes: nat,
) -> HeaderEnd
    decreases data.len(),
{
    let n = line_length(data, (MAX_HEADER_LINE + 1) as nat);
    let taken = header_bytes + n;
    match header_step(content_length, header_bytes, data.take(n as int)) {
        Err(error) => HeaderEnd::Failed { error, taken },
        Ok(HeaderStepView::Body(length)) => HeaderEnd::Body { length, taken },
        Ok(HeaderStepView::More { content_length, header_bytes }) => if 0 < n <= data.len() {
            header_end(data.skip(n as int), content_length, header_bytes)
        } else {
            HeaderEnd::Eof { taken }
        },
        Ok(HeaderStepView::Eof) => HeaderEnd::Eof { taken },
    }
}

/// What is read is what the header block and, where it has one, the body give.
proof fn lemma_header_end(data: Seq<u8>, content_length: Option<nat>, header_bytes: nat)
    requires
        header_bytes <= MAX_HEADER_BYTES,
    ensures
        match header_end(data, content_length, header_bytes) {
            HeaderEnd::Eof { taken } => {
                &&& read_headers(data, content_length, header_bytes) == ReadView::Eof
                &&& header_bytes <= taken <= header_bytes + data.len()
                &&& taken <= MAX_HEADER_BYTES + MAX_HEADER_LINE + 1
            },
            HeaderEnd::Body { length, taken } => {
                &&& read_headers(data, content_length, header_bytes) == read_body(
                    data.skip(taken - header_bytes),
                    length,
                )
                &&& header_bytes < taken <= header_bytes + data.len()
                &&& taken <= MAX_HEADER_BYTES
                &&& length <= MAX_CONTENT_LENGTH
            },
            HeaderEnd::Failed { error, taken } => {
                &&& read_headers(data, content_length, header_bytes) == ReadView::Failed(error)
                &&& header_bytes <= taken <= header_bytes + data.len()
                &&& taken <= MAX_HEADER_BYTES + MAX_HEADER_LINE + 1
            },
        },
    decreases data.len(),
{
    let n = line_length(data, (MAX_HEADER_LINE + 1) as nat) as int;
    lemma_line_length(data, (MAX_HEADER_LINE + 1) as nat);
    match header_step(content_length, header_bytes, data.take(n)) {
        Ok(HeaderStepView::More { content_length, header_bytes: total }) => {
            if 0 < n <= data.len() {
                lemma_header_end(data.skip(n), content_length, total);
                if let HeaderEnd::Body { length, taken } = header_end(
                    data.skip(n),
                    content_length,
                    total,
                ) {
                    assert(data.skip(n).skip(taken - total) =~= data.skip(taken - header_bytes));
                }
            }
        },
        _ => {},
    }
}

/// A line is no longer than the stream and the cap.
proof fn lemma_line_length(data: Seq<u8>, cap: nat)
    ensures
        line_length(data, cap) <= data.len(),
        line_length(data, cap) <= cap,
        data.len() > 0 && cap > 0 ==> line_length(data, cap) > 0,
    decreases cap,
{
    if data.len() > 0 && cap > 0 && data[0] != 10 {
        lemma_line_length(data.skip(1), (cap - 1) as nat);
    }
}

/// Where the line that begins at `from` ends.
fn line_end(data: &[u8], from: usize) -> (r: usize)
    requires
        from <= data@.len(),
    ensures
        from <= r <= data@.len(),
        r - from == line_length(data@.skip(from as int), (MAX_HEADER_LINE + 1) as nat),
{
    let cap: usize = MAX_HEADER_LINE + 1;
    let mut i: usize = from;
    while i < data.len() && i - from < cap
        invariant_except_break
            line_length(data@.skip(from as int), cap as nat) == (i - from) + line_length(
                data@.skip(i as int),
                (cap - (i - from)) as nat,
            ),
        invariant
            from <= i <= data@.len(),
            i - from <= cap,
            cap == MAX_HEADER_LINE + 1,
        ensures
            from <= i <= data@.len(),
            i - from == line_length(data@.skip(from as int), cap as nat),
        decreases data.len() - i,
    {
        if data[i] == 10 {
            i += 1;
            break;
        }
        assert(data@.skip(i as int).skip(1) =~= data@.skip(i + 1));
        i += 1;
    }
    i
}

/// How the read of a header block ended.
pub enum HeaderRead {
    /// The stream ends with it.
    Eof,
    /// A body of `length` bytes begins at `at`.
    Body { length: usize, at: usize },
    /// It violates the framing, which showed after `taken` bytes.
    Failed { error: FrameError, taken: usize },
}

/// Reads the header block at the start of `data`, all that a stream still gives.
pub fn read_header_block(data: &[u8]) -> (r: HeaderRead)
    ensures
        match (r, header_end(data@, None, 0)) {
            (HeaderRead::Eof, HeaderEnd::Eof { .. }) => true,
            (HeaderRead::Body { length, at }, HeaderEnd::Body { length: n, taken }) => length == n
                && at == taken && at <= data@.len() && length <= MAX_CONTENT_LENGTH,
            (HeaderRead::Failed { error, taken }, HeaderEnd::Failed { error: e, taken: n }) =>
                error@ == e && taken == n,
            _ => false,
        },
{
    let mut block = HeaderBlock::new();
    let mut at: usize = 0;
    assert(data@.skip(0) =~= data@);
    loop
        invariant
            at <= data@.len(),
            at == block.header_bytes,
            block.header_bytes <= MAX_HEADER_BYTES,
            header_end(data@, None, 0) == header_end(
                data@.skip(at as int),
                opt_nat(block.content_length),
                block.header_bytes as nat,
            ),
        decreases data.len() - at,
    {
        proof {
            lemma_line_length(data@.skip(at as int), (MAX_HEADER_LINE + 1) as nat);
        }
        let end: usize = line_end(data, at);
        let line = vstd::slice::slice_subrange(data, at, end);
        assert(line@ =~= data@.skip(at as int).take(end - at));
        assert(data@.skip(at as int).skip(end - at) =~= data@.skip(end as int));
        match block.line(line) {
            Err(error) => {
                return HeaderRead::Failed { error, taken: end };
            },
            Ok(HeaderStep::Eof) => {
                return HeaderRead::Eof;
            },
            Ok(HeaderStep::More(next)) => {
                block = next;
                at = end;
            },
            Ok(HeaderStep::Body(length)) => {
                return HeaderRead::Body { length, at: end };
            },
        }
    }
}

/// Reads one message from the start of `data`, all that a stream still gives.
/// Gives the message and how many bytes it took, and nothing where the stream
/// ends before a body begins (a clean end, also within the headers). Any
/// framing violation is an error: the caller must answer with an error
/// response and close the connection.
///
/// Caps: total header block 64 KiB, single header line 8 KiB, `Content-Length`
/// 16 MiB.
pub fn read_message(data: &[u8]) -> (r: Result<Option<(IncomingMessage, usize)>, FrameError>)
    ensures
        match r {
            Ok(None) => read_stream(data@) == ReadView::Eof,
            Ok(Some((message, used))) => used <= data@.len() && read_stream(data@)
                == (ReadView::Message { message: message@, rest: data@.skip(used as int) }),
            Err(e) => read_stream(data@) == ReadView::Failed(e@),
        },
{
    proof {
        lemma_header_end(data@, None, 0);
    }
    match read_header_block(data) {
        HeaderRead::Failed { error, taken: _ } => Err(error),
        HeaderRead::Eof => Ok(None),
        HeaderRead::Body { length, at } => {
            if data.len() - at < length {
                return Err(FrameError::Truncated);
            }
            let used: usize = at + length;
            let body = vstd::slice::slice_subrange(data, at, used);
            assert(body@ =~= data@.skip(at as int).take(length as int));
            assert(data@.skip(at as int).skip(length as int) =~= data@.skip(used as int));
            match parse_message(body) {
                Ok(message) => Ok(Some((message, used))),
                Err(e) => Err(e),
            }
        },
    }
}

/// The header of a frame whose body has `length` bytes.
pub open spec fn frame_header(length: nat) -> Seq<char> {
    "Content-Length: "@ + decimal_of(length) + "\r\n\r\n"@
}

/// The bytes of a frame with the body `body`.
pub open spec fn frame_of(body: Seq<char>) -> Seq<u8> {
    encode_utf8(frame_header(encode_utf8(body).len())) + encode_utf8(body)
}

/// Writes a frame with the body `body` behind what `out` holds.
pub fn write_frame(out: &mut Vec<u8>, body: &str)
    ensures
        final(out)@ == old(out)@ + frame_of(body@),
{
    let bytes = body.as_bytes();
    let mut header = "Content-Length: ".to_owned();
    header.append(text::decimal(bytes.len() as u64).as_str());
    header.append("\r\n\r\n");
    let head = header.as_str().as_bytes();
    push_bytes(out, head);
    push_bytes(out, bytes);
    assert(out@ =~= old(out)@ + frame_of(body@));
}

/// Appends bytes.
fn push_bytes(out: &mut Vec<u8>, bytes: &[u8])
    ensures
        final(out)@ == old(out)@ + bytes@,
{
    let mut i: usize = 0;
    while i < bytes.len()
        invariant
            i <= bytes@.len(),
            out@ == old(out)@ + bytes@.take(i as int),
        decreases bytes.len() - i,
    {
        out.push(bytes[i]);
        i += 1;
        assert(out@ =~= old(out)@ + bytes@.take(i as int));
    }
    assert(bytes@.take(i as int) =~= bytes@);
}

// ---------------------------------------------------------------------------
// Laws
// ---------------------------------------------------------------------------
/// A frame that was written reads back as its body: whatever follows it in the
/// stream, the message is the one that the body stands for, and reading goes
/// on right behind the frame. A body that stands for no message is a framing
/// violation for the reason that the body itself gives.
pub proof fn law_written_frame_reads_back(body: Seq<char>, rest: Seq<u8>)
    requires
        encode_utf8(body).len() <= MAX_CONTENT_LENGTH,
    ensures
        read_stream(frame_of(body) + rest) == (match body_message(encode_utf8(body)) {
            Ok(message) => ReadView::Message { message, rest },
            Err(e) => ReadView::Failed(e),
        }),
{
    let bytes = encode_utf8(body);
    let n = bytes.len();
    let data = frame_of(body) + rest;
    let first_text = "Content-Length: "@ + decimal_of(n) + "\r\n"@;
    let blank_text = "\r\n"@;
    lemma_header_text(n);
    let first = encode_utf8(first_text);
    let blank = encode_utf8(blank_text);
    let after_first = blank + bytes + rest;
    let after_blank = bytes + rest;
    assert(data =~= first + after_first);
    // The first line names the length.
    lemma_line_of_prefix(data, first, (MAX_HEADER_LINE + 1) as nat);
    assert(data.take(first.len() as int) =~= first);
    assert(data.skip(first.len() as int) =~= after_first);
    // The second line is blank.
    lemma_line_of_prefix(after_first, blank, (MAX_HEADER_LINE + 1) as nat);
    assert(after_first.take(blank.len() as int) =~= blank);
    assert(after_first.skip(blank.len() as int) =~= after_blank);
    assert(after_blank.take(n as int) =~= bytes);
    assert(after_blank.skip(n as int) =~= rest);
    assert(read_headers(after_first, Some(n), first.len() as nat) == read_body(after_blank, n));
}

/// What the two header lines of a frame are taken for.
proof fn lemma_header_text(n: nat)
    requires
        n <= MAX_CONTENT_LENGTH,
    ensures
        ({
            let first = encode_utf8("Content-Length: "@ + decimal_of(n) + "\r\n"@);
            let blank = encode_utf8("\r\n"@);
            &&& encode_utf8(frame_header(n)) == first + blank
            &&& 2 <= first.len() <= 100
            &&& blank.len() == 2
            &&& is_line(first)
            &&& is_line(blank)
            &&& header_step(None, 0, first) == Ok::<HeaderStepView, FrameErrorView>(
                HeaderStepView::More { content_length: Some(n), header_bytes: first.len() },
            )
            &&& header_step(Some(n), first.len(), blank) == Ok::<HeaderStepView, FrameErrorView>(
                HeaderStepView::Body(n),
            )
        }),
{
    broadcast use vstd::utf8::group_utf8_lib;

    reveal_strlit("Content-Length: ");
    reveal_strlit("Content-Length:");
    reveal_strlit("\r\n");
    reveal_strlit("\r\n\r\n");
    let digits = decimal_of(n);
    text::lemma_decimal_is_digits(n);
    assert(n < power_of_ten(9)) by {
        reveal_with_fuel(power_of_ten, 10);
    }
    lemma_decimal_short(n, 9);
    text::lemma_decimal_round_trip(n, usize::MAX as nat);
    let first_text = "Content-Length: "@ + digits + "\r\n"@;
    let blank_text = "\r\n"@;
    assert(vstd::utf8::is_ascii_chars(first_text));
    assert(vstd::utf8::is_ascii_chars(blank_text));
    let first = encode_utf8(first_text);
    let blank = encode_utf8(blank_text);
    vstd::utf8::is_ascii_chars_encode_utf8(first_text);
    vstd::utf8::is_ascii_chars_encode_utf8(blank_text);
    assert(frame_header(n) =~= first_text + blank_text);
    assert(vstd::utf8::is_ascii_chars(frame_header(n)));
    vstd::utf8::is_ascii_chars_encode_utf8(frame_header(n));
    assert(encode_utf8(frame_header(n)) =~= first + blank);
    assert(is_line(first)) by {
        assert forall|i: int| 0 <= i < first.len() - 1 implies first[i] != 10 by {
            assert(first[i] == first_text[i] as u8);
        }
    }
    assert(is_line(blank));
    // The first line without its end.
    let header = "Content-Length: "@ + digits;
    assert(decode_utf8(first) == first_text);
    assert(first_text.drop_last() =~= header.push('\r'));
    assert(header.push('\r').drop_last() =~= header);
    assert(header.last() == digits.last());
    assert(trim_end_of(header) == header);
    assert(trim_end_of(header.push('\r')) == header);
    assert(trim_end_of(first_text) == header);
    assert("Content-Length:"@.is_prefix_of(header)) by {
        assert(header.subrange(0, "Content-Length:"@.len() as int) =~= "Content-Length:"@);
    }
    let value = header.skip("Content-Length:"@.len() as int);
    assert(value =~= seq![' '] + digits);
    assert(value.skip(1) =~= digits);
    assert(text::trim_start_of(digits) == digits);
    assert(text::trim_start_of(value) == digits);
    assert(trim_end_of(digits) == digits);
    // The second line is blank.
    assert(decode_utf8(blank) == blank_text);
    assert(blank_text.drop_last() =~= seq!['\r']);
    assert(seq!['\r'].drop_last() =~= Seq::<char>::empty());
    assert(trim_end_of(Seq::<char>::empty()) == Seq::<char>::empty());
    assert(trim_end_of(seq!['\r']) == Seq::<char>::empty());
    assert(trim_end_of(blank_text) == Seq::<char>::empty());
}

/// Whether the bytes are one line with a line feed at its end.
spec fn is_line(line: Seq<u8>) -> bool {
    &&& line.len() > 0
    &&& line.last() == 10
    &&& forall|i: int| 0 <= i < line.len() - 1 ==> line[i] != 10
}

/// A stream that begins with a line gives that line.
proof fn lemma_line_of_prefix(data: Seq<u8>, line: Seq<u8>, cap: nat)
    requires
        is_line(line),
        line.is_prefix_of(data),
        line.len() <= cap,
    ensures
        line_length(data, cap) == line.len(),
    decreases line.len(),
{
    assert(data[0] == line[0]);
    if line.len() > 1 {
        assert(line[0] != 10);
        let shorter = line.skip(1);
        assert(shorter.is_prefix_of(data.skip(1))) by {
            assert forall|i: int| 0 <= i < shorter.len() implies shorter[i] == data.skip(1)[i] by {
                assert(line[i + 1] == data[i + 1]);
            }
            assert(shorter =~= data.skip(1).subrange(0, shorter.len() as int));
        }
        assert forall|i: int| 0 <= i < shorter.len() - 1 implies shorter[i] != 10 by {
            assert(line[i + 1] != 10);
        }
        lemma_line_of_prefix(data.skip(1), shorter, (cap - 1) as nat);
    }
}

/// Ten to the power of `k`.
spec fn power_of_ten(k: nat) -> nat
    decreases k,
{
    if k == 0 {
        1
    } else {
        10 * power_of_ten((k - 1) as nat)
    }
}

/// A number below a power of ten has no more digits than that power says.
proof fn lemma_decimal_short(n: nat, k: nat)
    requires
        k > 0,
        n < power_of_ten(k),
    ensures
        decimal_of(n).len() <= k,
    decreases n,
{
    if n >= 10 {
        assert(k > 1) by {
            reveal_with_fuel(power_of_ten, 2);
        }
        lemma_decimal_short(n / 10, (k - 1) as nat);
    }
}

/// A read never takes more from the stream than the caps allow, whatever comes of
/// it: a header block that is in order has at most `MAX_HEADER_BYTES` bytes and
/// names a body of at most `MAX_CONTENT_LENGTH`, and one that violates the
/// framing is given up after one line more at most, before any body.
pub proof fn law_read_is_bounded(data: Seq<u8>)
    ensures
        match header_end(data, None, 0) {
            HeaderEnd::Eof { taken } => {
                &&& read_stream(data) == ReadView::Eof
                &&& taken <= data.len()
                &&& taken <= MAX_HEADER_BYTES + MAX_HEADER_LINE + 1
            },
            HeaderEnd::Body { length, taken } => {
                &&& read_stream(data) == read_body(data.skip(taken as int), length)
                &&& taken <= data.len()
                &&& taken <= MAX_HEADER_BYTES
                &&& length <= MAX_CONTENT_LENGTH
            },
            HeaderEnd::Failed { error, taken } => {
                &&& read_stream(data) == ReadView::Failed(error)
                &&& taken <= data.len()
                &&& taken <= MAX_HEADER_BYTES + MAX_HEADER_LINE + 1
            },
        },
        read_stream(data) matches ReadView::Message { rest, .. } ==> 0 < data.len() - rest.len()
            <= MAX_HEADER_BYTES + MAX_CONTENT_LENGTH,
{
    lemma_header_end(data, None, 0);
}

/// A line of a header ends behind its line feed, or where the cap or the stream
/// does.
pub proof fn law_header_lines_end(line: Seq<u8>, rest: Seq<u8>, cap: nat)
    requires
        !line.contains('\n' as u8),
    ensures
        line.len() < cap ==> line_length(line + seq!['\n' as u8] + rest, cap) == line.len() + 1,
        line.len() >= cap ==> line_length(line + rest, cap) == cap,
        line.len() < cap ==> line_length(line, cap) == line.len(),
    decreases line.len(),
{
    let all = line + seq!['\n' as u8] + rest;
    if line.len() == 0 {
        assert(all[0] == 10);
    } else if cap > 0 {
        let less = line.skip(1);
        assert(line.contains(line[0]));
        assert(!less.contains('\n' as u8)) by {
            if less.contains('\n' as u8) {
                let k = choose|k: int| 0 <= k < less.len() && less[k] == '\n' as u8;
                assert(line[k + 1] == less[k]);
            }
        }
        law_header_lines_end(less, rest, (cap - 1) as nat);
        assert(all.skip(1) =~= less + seq!['\n' as u8] + rest);
        assert((line + rest).skip(1) =~= less + rest);
        assert(all[0] == line[0]);
        assert((line + rest)[0] == line[0]);
    }
}

/// What a header line within the caps leads to: a blank one ends the block, one
/// that names the length sets it, and any other is passed over.
pub proof fn law_header_lines_are_read(
    named_before: Option<nat>,
    bytes: nat,
    line: Seq<u8>,
    value: Seq<char>,
)
    requires
        valid_utf8(line),
        0 < line.len() <= 8192,
        bytes + line.len() <= 65536,
    ensures
        ({
            let header = trim_end_of(decode_utf8(line));
            let step = header_step(named_before, bytes, line);
            &&& header.len() == 0 ==> match named_before {
                None => step == Err::<HeaderStepView, FrameErrorView>(
                    FrameErrorView::MissingContentLength,
                ),
                Some(n) => if n <= 16777216 {
                    step == Ok::<HeaderStepView, FrameErrorView>(HeaderStepView::Body(n))
                } else {
                    step == Err::<HeaderStepView, FrameErrorView>(
                        FrameErrorView::ContentTooLarge { length: n },
                    )
                },
            }
            &&& header.len() > 0 && !"Content-Length:"@.is_prefix_of(header) ==> step == Ok::<
                HeaderStepView,
                FrameErrorView,
            >(
                HeaderStepView::More {
                    content_length: named_before,
                    header_bytes: bytes + line.len(),
                },
            )
            &&& header == "Content-Length:"@ + value ==> match parse_of(
                trim_of(value),
                usize::MAX as nat,
            ) {
                Ok(n) => step == Ok::<HeaderStepView, FrameErrorView>(
                    HeaderStepView::More {
                        content_length: Some(n),
                        header_bytes: bytes + line.len(),
                    },
                ),
                Err(cause) => step == Err::<HeaderStepView, FrameErrorView>(
                    FrameErrorView::InvalidContentLength { text: trim_of(value), cause },
                ),
            }
        }),
{
    let header = trim_end_of(decode_utf8(line));
    law_after_prefix(header, "Content-Length:"@, value);
    reveal_strlit("Content-Length:");
}

/// What is beyond the caps is refused: a block of more than 64 KiB, a line of more
/// than 8 KiB; and so are lines that are no text. No bytes are the end of the
/// stream.
pub proof fn law_headers_are_capped(named_before: Option<nat>, bytes: nat, line: Seq<u8>)
    ensures
        !valid_utf8(line) ==> header_step(named_before, bytes, line) == Err::<
            HeaderStepView,
            FrameErrorView,
        >(FrameErrorView::HeaderNotUtf8),
        valid_utf8(line) && line.len() > 0 && bytes + line.len() > 65536 ==> header_step(
            named_before,
            bytes,
            line,
        ) == Err::<HeaderStepView, FrameErrorView>(FrameErrorView::HeaderBlockTooLarge),
        valid_utf8(line) && bytes + line.len() <= 65536 && line.len() > 8192 ==> header_step(
            named_before,
            bytes,
            line,
        ) == Err::<HeaderStepView, FrameErrorView>(FrameErrorView::HeaderLineTooLong),
        valid_utf8(line) && line.len() == 0 ==> header_step(named_before, bytes, line) == Ok::<
            HeaderStepView,
            FrameErrorView,
        >(HeaderStepView::Eof),
{
}

/// A body is as long as its header says: what follows it is left for the next
/// read, and a stream that ends before is a violation.
pub proof fn law_bodies_are_read(body: Seq<u8>, rest: Seq<u8>, length: nat)
    ensures
        body.len() == length ==> match body_message(body) {
            Ok(message) => read_body(body + rest, length) == (ReadView::Message { message, rest }),
            Err(e) => read_body(body + rest, length) == ReadView::Failed(e),
        },
        body.len() < length ==> read_body(body, length) == ReadView::Failed(
            FrameErrorView::Truncated,
        ),
{
    if body.len() == length {
        assert((body + rest).take(length as int) =~= body);
        assert((body + rest).skip(length as int) =~= rest);
    }
}

/// A message has the method, the id and the parameters that its body names;
/// without an id it is a notification, and without parameters, or with `null`, it
/// has an empty object for them. A body that names no method is no message, and
/// neither is one that is no JSON.
pub proof fn law_messages_are_read(v: JsonView, body: Seq<u8>)
    ensures
        message_of(v) is Ok <==> (v.member("method"@) matches Some(m) && m is Text),
        message_of(v) matches Ok(m) ==> {
            &&& v.member("method"@) == Some(JsonView::Text(m.method))
            &&& m.id == v.member("id"@)
            &&& match v.member("params"@) {
                None => m.params == JsonView::Object(Map::empty()),
                Some(p) => m.params == if p is Null {
                    JsonView::Object(Map::empty())
                } else {
                    p
                },
            }
        },
        message_of(v) matches Err(e) ==> e == FrameErrorView::MissingMethod,
        json_parse(body) matches Ok(w) ==> body_message(body) == message_of(w),
        json_parse(body) matches Err(m) ==> body_message(body) == Err::<
            MessageView,
            FrameErrorView,
        >(FrameErrorView::InvalidJson { message: m }),
{
}

/// The caps are those of the protocol, and a violation of them names them.
pub proof fn law_violations_name_the_caps(n: nat)
    ensures
        FrameErrorView::HeaderBlockTooLarge.text() == "header block exceeds "@ + decimal_of(65536)
            + " bytes"@,
        FrameErrorView::HeaderLineTooLong.text() == "header line exceeds "@ + decimal_of(8192)
            + " bytes"@,
        (FrameErrorView::ContentTooLarge { length: n }).text() == "Content-Length "@ + decimal_of(n)
            + " exceeds the maximum of "@ + decimal_of(16777216),
        FrameErrorView::MissingContentLength.text() == "missing Content-Length header"@,
        FrameErrorView::MissingMethod.text() == "message missing method"@,
{
}

/// A frame is its header, with the length of the body in bytes, an empty line, and
/// the body.
pub proof fn law_frames(body: Seq<char>)
    ensures
        frame_of(body) == encode_utf8(
            "Content-Length: "@ + decimal_of(encode_utf8(body).len()) + "\r\n\r\n"@,
        ) + encode_utf8(body),
{
}

/// A stream is read line by line: a line of a header is taken off it, and what the
/// line leads to goes on with the rest.
pub proof fn law_streams_are_read_by_lines(
    line: Seq<u8>,
    rest: Seq<u8>,
    named_before: Option<nat>,
    bytes: nat,
)
    requires
        !line.contains('\n' as u8),
        line.len() <= 8192,
    ensures
        ({
            let whole = line + seq!['\n' as u8];
            let end = read_headers(whole + rest, named_before, bytes);
            match header_step(named_before, bytes, whole) {
                Err(e) => end == ReadView::Failed(e),
                Ok(HeaderStepView::Body(n)) => end == read_body(rest, n),
                Ok(HeaderStepView::More { content_length, header_bytes }) => end == read_headers(
                    rest,
                    content_length,
                    header_bytes,
                ),
                Ok(HeaderStepView::Eof) => end == ReadView::Eof,
            }
        }),
        read_headers(Seq::<u8>::empty(), named_before, bytes) == ReadView::Eof,
        read_stream(rest) == read_headers(rest, None, 0),
{
    broadcast use vstd::utf8::group_utf8_lib;

    let whole = line + seq!['\n' as u8];
    let data = whole + rest;
    law_header_lines_end(line, rest, 8193);
    assert(data =~= line + seq!['\n' as u8] + rest);
    assert(data.take(whole.len() as int) =~= whole);
    assert(data.skip(whole.len() as int) =~= rest);
    let none = Seq::<u8>::empty();
    assert(none.take(0) =~= none);
    vstd::utf8::encode_utf8_valid_utf8(Seq::<char>::empty());
    assert(encode_utf8(Seq::<char>::empty()) =~= none);
}

} // verus!
