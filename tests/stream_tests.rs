use commit_writer::stream::{is_success_status, read_line, Output, StreamError, StreamParser};

fn shown(outs: &[Output]) -> String {
    let mut s = String::new();
    for o in outs {
        match o {
            Output::Fragment(f) => s.push_str(f),
            Output::Newline => s.push('\n'),
        }
    }
    s
}

#[test]
fn two_frames_then_done() {
    let mut p = StreamParser::new(200);
    let mut printed = String::new();
    for line in [
        "data: {\"choices\":[{\"delta\":{\"content\":\"ab\"}}]}",
        "data: {\"choices\":[{\"delta\":{\"content\":\"cd\"}}]}",
        "data: [DONE]",
    ] {
        let outs = p.feed_text(line).unwrap();
        printed.push_str(&shown(&outs));
    }
    assert_eq!(p.message(), "abcd");
    assert_eq!(printed, "abcd\n");
}

#[test]
fn one_chunk_with_many_lines() {
    let mut p = StreamParser::new(200);
    let chunk = b"data: {\"choices\":[{\"delta\":{\"content\":\"ab\"}}]}\n\ndata: {\"choices\":[{\"delta\":{\"content\":\"cd\"}}]}\n\ndata: [DONE]\n\n";
    let outs = p.feed_chunk(chunk).unwrap();
    assert_eq!(outs.len(), 3);
    assert!(matches!(&outs[2], Output::Newline));
    assert_eq!(shown(&outs), "abcd\n");
    assert_eq!(p.message(), "abcd");
}

#[test]
fn lines_without_data_prefix_are_ignored() {
    let mut p = StreamParser::new(200);
    let outs = p
        .feed_text(": keep-alive\n\nevent: message\nid: 7\n  \ndata: {\"choices\":[{\"delta\":{\"content\":\"x\"}}]}")
        .unwrap();
    assert_eq!(shown(&outs), "x");
    assert_eq!(p.message(), "x");
    assert!(p.feed_text("").unwrap().is_empty());
    assert!(p.feed_text("   \n  ").unwrap().is_empty());
    assert_eq!(p.message(), "x");
}

#[test]
fn delta_without_content_or_with_empty_content_gives_nothing() {
    assert!(matches!(read_line("data: {\"choices\":[{\"delta\":{\"role\":\"assistant\"}}]}"), Ok(None)));
    assert!(matches!(read_line("data: {\"choices\":[{\"delta\":{\"content\":\"\"}}]}"), Ok(None)));
    assert!(matches!(read_line("data: {\"choices\":[{\"delta\":{}}]}"), Ok(None)));
    assert!(matches!(read_line("data: {\"choices\":[]}"), Ok(None)));
    assert!(matches!(read_line("data: {\"other\":1}"), Ok(None)));
    assert!(matches!(read_line("data: {\"choices\":[{\"delta\":{\"content\":5}}]}"), Ok(None)));
}

#[test]
fn first_contributing_choice_only() {
    match read_line("data:{\"choices\":[{\"delta\":{}},{\"delta\":{\"content\":\"one\"}},{\"delta\":{\"content\":\"two\"}}]}") {
        Ok(Some(Output::Fragment(s))) => assert_eq!(s, "one"),
        _ => panic!("expected a fragment"),
    }
}

#[test]
fn done_marker_gives_a_line_break() {
    assert!(matches!(read_line("  data:   [DONE]  "), Ok(Some(Output::Newline))));
    assert!(matches!(read_line("data: [DONE] x"), Err(StreamError::MalformedPayload)));
}

#[test]
fn malformed_payload_is_an_error() {
    let mut p = StreamParser::new(200);
    let r = p.feed_text("data: {\"choices\":[{\"delta\":{\"content\":\"a\"}}]}\ndata: {\"choi");
    assert_eq!(r.unwrap_err(), StreamError::MalformedPayload);
    assert_eq!(p.message(), "a");
}

#[test]
fn failed_status_yields_empty_message() {
    assert!(!is_success_status(404));
    assert!(!is_success_status(199));
    assert!(!is_success_status(300));
    assert!(is_success_status(200));
    assert!(is_success_status(299));
    let mut p = StreamParser::new(500);
    let outs = p.feed_text("data: {\"choices\":[{\"delta\":{\"content\":\"ab\"}}]}").unwrap();
    assert!(outs.is_empty());
    assert_eq!(p.message(), "");
}

#[test]
fn invalid_utf8_is_replaced() {
    let mut p = StreamParser::new(200);
    let mut chunk = b"data: {\"choices\":[{\"delta\":{\"content\":\"a".to_vec();
    chunk.push(0xff);
    chunk.extend_from_slice(b"b\"}}]}");
    p.feed_chunk(&chunk).unwrap();
    assert_eq!(p.message(), "a\u{fffd}b");
}

use commit_writer::json::Json;
use commit_writer::stream::frame_fragment;

fn object(fields: Vec<(&str, Json)>) -> Json {
    Json::Object(fields.into_iter().map(|(k, v)| (k.to_string(), v)).collect())
}

#[test]
fn fragment_of_a_built_frame() {
    let delta = |c: Json| object(vec![("delta", object(vec![("content", c)]))]);
    let frame = object(vec![(
        "choices",
        Json::Array(vec![
            delta(Json::Str(String::new())),
            object(vec![("delta", Json::Null)]),
            delta(Json::Number(serde_json::Number::from(3))),
            delta(Json::Str("yes".to_string())),
            delta(Json::Str("no".to_string())),
        ]),
    )]);
    assert_eq!(frame_fragment(&frame), Some("yes".to_string()));
    assert_eq!(frame_fragment(&Json::Array(vec![])), None);
    assert_eq!(frame_fragment(&object(vec![("choices", Json::Bool(true))])), None);
}
