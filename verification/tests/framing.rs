//! Reading and writing frames.
use git_workbench::framing::{
    parse_message, read_header_block, read_message, write_frame, FrameError, HeaderBlock, HeaderRead,
    HeaderStep, IncomingMessage, MAX_CONTENT_LENGTH, MAX_HEADER_BYTES, MAX_HEADER_LINE,
};
use serde_json::Value;

fn frame(body: &str) -> Vec<u8> {
    format!("Content-Length: {}\r\n\r\n{}", body.len(), body).into_bytes()
}

fn read(data: Vec<u8>) -> Result<Option<IncomingMessage>, FrameError> {
    Ok(read_message(&data)?.map(|(message, _)| message))
}

fn failure(data: Vec<u8>) -> FrameError {
    match read(data) {
        Err(e) => e,
        Ok(_) => panic!("the frame was accepted"),
    }
}

#[test]
fn framing_parses_valid_message() {
    let msg = read(frame(r#"{"jsonrpc":"2.0","id":1,"method":"getRefs"}"#)).unwrap().unwrap();
    assert_eq!(msg.method, "getRefs");
    assert_eq!(msg.id, Some(Value::from(1)));

    // Notifications (no id) parse with id = None.
    let msg = read(frame(r#"{"jsonrpc":"2.0","method":"ping"}"#)).unwrap().unwrap();
    assert_eq!(msg.id, None);
}

#[test]
fn framing_rejects_oversized_content_length() {
    let data = format!("Content-Length: {}\r\n\r\n{{}}", 17 * 1024 * 1024);
    assert!(read(data.into_bytes()).is_err());
}

#[test]
fn framing_rejects_oversized_header_block() {
    // Many small headers: total block far exceeds 64 KiB.
    let mut data = Vec::new();
    for i in 0..3000 {
        data.extend_from_slice(format!("X-Header-{i}: aaaaaaaaaaaaaaaaaaaaaaaaaa\r\n").as_bytes());
    }
    data.extend_from_slice(b"Content-Length: 2\r\n\r\n{}");
    assert!(read(data).is_err());
}

#[test]
fn framing_rejects_overlong_header_line() {
    let long = "X-Big: ".to_string() + &"a".repeat(9 * 1024) + "\r\n";
    let data = format!("{long}Content-Length: 2\r\n\r\n{{}}");
    assert!(read(data.into_bytes()).is_err());
}

#[test]
fn framing_eof_mid_header_returns_none() {
    // Clean EOF: no error, no message.
    assert!(read(b"Content-Length: 5\r\n".to_vec()).unwrap().is_none());
    assert!(read(Vec::new()).unwrap().is_none());
}

#[test]
fn framing_eof_mid_body_is_error() {
    assert!(read(b"Content-Length: 50\r\n\r\n{}".to_vec()).is_err());
}

#[test]
fn framing_rejects_missing_content_length() {
    assert!(read(b"Content-Type: application/json\r\n\r\n{}".to_vec()).is_err());
}

#[test]
fn violations_say_what_they_are() {
    let e = failure(format!("Content-Length: {}\r\n\r\n", 17 * 1024 * 1024).into_bytes());
    assert_eq!(e.message(), "Content-Length 17825792 exceeds the maximum of 16777216");
    let e = failure(b"Content-Length: 1x\r\n\r\n{}".to_vec());
    assert_eq!(e.message(), "invalid Content-Length \"1x\": invalid digit found in string");
    let e = failure(b"Content-Length:\r\n\r\n{}".to_vec());
    assert_eq!(e.message(), "invalid Content-Length \"\": cannot parse integer from empty string");
    let e = failure(b"Content-Length: 99999999999999999999999\r\n\r\n{}".to_vec());
    assert_eq!(
        e.message(),
        "invalid Content-Length \"99999999999999999999999\": number too large to fit in target type"
    );
    let e = failure(b"\r\n{}".to_vec());
    assert_eq!(e.message(), "missing Content-Length header");
    let e = failure(("a".repeat(9000)).into_bytes());
    assert_eq!(e.message(), "header line exceeds 8192 bytes");
    let mut block = Vec::new();
    for _ in 0..70 {
        block.extend_from_slice(("a".repeat(1000) + "\n").as_bytes());
    }
    assert_eq!(failure(block).message(), "header block exceeds 65536 bytes");
    let e = failure(b"Content-Length: 50\r\n\r\n{}".to_vec());
    assert_eq!(e.message(), "failed to fill whole buffer");
    assert_eq!(failure(frame(r#"{"id":1}"#)).message(), "message missing method");
    assert!(matches!(failure(vec![0xff, 10]), FrameError::HeaderNotUtf8));
}

#[test]
fn invalid_json_is_reported_in_the_words_of_the_parser() {
    let body = "{\"method\":";
    let expected = serde_json::from_slice::<Value>(body.as_bytes()).unwrap_err().to_string();
    assert_eq!(failure(frame(body)).message(), expected);
}

#[test]
fn absent_params_are_an_empty_object() {
    let empty = Value::Object(serde_json::Map::new());
    assert_eq!(read(frame(r#"{"method":"m"}"#)).unwrap().unwrap().params, empty);
    assert_eq!(read(frame(r#"{"method":"m","params":null}"#)).unwrap().unwrap().params, empty);
    let msg = read(frame(r#"{"method":"m","params":[1]}"#)).unwrap().unwrap();
    assert_eq!(msg.params, Value::Array(vec![Value::from(1)]));
    // A null id is an id.
    let msg = read(frame(r#"{"method":"m","id":null}"#)).unwrap().unwrap();
    assert_eq!(msg.id, Some(Value::Null));
}

#[test]
fn the_last_content_length_counts_and_other_headers_are_ignored() {
    let body = r#"{"method":"m"}"#;
    let data = format!("Content-Length: 3\nX: y\nContent-Length: +{}\n \n{body}", body.len());
    assert_eq!(read(data.into_bytes()).unwrap().unwrap().method, "m");
}

#[test]
fn a_written_frame_reads_back_and_leaves_the_rest() {
    let body = r#"{"method":"grüße","id":"x"}"#;
    let mut out = Vec::new();
    write_frame(&mut out, body);
    assert_eq!(out, frame(body));
    let length = out.len();
    out.extend_from_slice(b"rest");
    let (message, used) = read_message(&out).unwrap().unwrap();
    assert_eq!(used, length);
    assert_eq!(message.method, "grüße");
    assert_eq!(message.id, Some(Value::from("x")));
    assert!(used <= MAX_HEADER_BYTES + MAX_CONTENT_LENGTH);
}

#[test]
fn lines_can_be_fed_one_by_one() {
    let block = HeaderBlock::new();
    let block = match block.line(b"Content-Length: 14\r\n") {
        Ok(HeaderStep::More(b)) => b,
        _ => panic!("the block goes on"),
    };
    assert_eq!(block.content_length, Some(14));
    assert_eq!(block.header_bytes, 20);
    assert!(matches!(block.line(b"\r\n"), Ok(HeaderStep::Body(14))));
    assert!(matches!(block.line(b""), Ok(HeaderStep::Eof)));
    assert!(matches!(
        block.line(&vec![97u8; MAX_HEADER_LINE + 1]),
        Err(FrameError::HeaderLineTooLong)
    ));
    assert_eq!(parse_message(br#"{"method":"m"}"#).unwrap().method, "m");
}

#[test]
fn a_header_block_is_given_up_within_its_caps() {
    let taken = |data: &[u8]| match read_header_block(data) {
        HeaderRead::Failed { taken, .. } => taken,
        _ => panic!("the block was accepted"),
    };
    assert_eq!(taken(&vec![97u8; 100_000]), MAX_HEADER_LINE + 1);
    let lines = b"X: y\n".repeat(20_000);
    assert!(taken(&lines) <= MAX_HEADER_BYTES + MAX_HEADER_LINE + 1);
    assert!(taken(&lines) > MAX_HEADER_BYTES);
    // A length that is too large is refused before any of the body is read.
    let header = format!("Content-Length: {}\n\n", MAX_CONTENT_LENGTH + 1);
    assert_eq!(taken(format!("{header}body").as_bytes()), header.len());
    assert!(matches!(
        read_header_block(b"Content-Length: 4\n\nbody"),
        HeaderRead::Body { length: 4, at: 19 }
    ));
    assert!(matches!(read_header_block(b""), HeaderRead::Eof));
}
