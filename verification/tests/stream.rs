use kibitz::json::Json;
use kibitz::stream::{sse_event, SseParser, StreamJsonParser, StreamPiece};

fn to_json(v: &serde_json::Value) -> Json {
    match v {
        serde_json::Value::Null => Json::Null,
        serde_json::Value::Bool(b) => Json::Bool(*b),
        serde_json::Value::Number(n) => Json::Number(n.to_string()),
        serde_json::Value::String(s) => Json::Str(s.clone()),
        serde_json::Value::Array(items) => Json::Array(items.iter().map(to_json).collect()),
        serde_json::Value::Object(members) => {
            Json::Object(members.iter().map(|(k, v)| (k.clone(), to_json(v))).collect())
        }
    }
}

fn parse(text: &str) -> Option<Json> {
    serde_json::from_str::<serde_json::Value>(text).ok().map(|v| to_json(&v))
}

fn collect(pieces: Vec<StreamPiece>, text: &mut String, failures: &mut Vec<String>) {
    for piece in pieces {
        match piece {
            StreamPiece::Text(chunk) => text.push_str(&chunk),
            StreamPiece::Failure(message) => failures.push(message),
        }
    }
}

/// The wire format of a streamed messages response.
fn sse_sample() -> String {
    [
        "event: message_start\n",
        r#"data: {"type":"message_start","message":{"id":"msg_01","type":"message","role":"assistant","content":[],"model":"model-x","usage":{"input_tokens":812,"output_tokens":1}}}"#,
        "\n\n",
        "event: content_block_start\n",
        r#"data: {"type":"content_block_start","index":0,"content_block":{"type":"text","text":""}}"#,
        "\n\n",
        "event: ping\n",
        r#"data: {"type":"ping"}"#,
        "\n\n",
        "event: content_block_delta\n",
        r#"data: {"type":"content_block_delta","index":0,"delta":{"type":"text_delta","text":"Nxe4 loses a knight — "}}"#,
        "\n\n",
        "event: content_block_delta\n",
        r#"data: {"type":"content_block_delta","index":0,"delta":{"type":"text_delta","text":"エンジンの読み筋では Qa4+ がフォークになります。"}}"#,
        "\n\n",
        "event: content_block_stop\n",
        r#"data: {"type":"content_block_stop","index":0}"#,
        "\n\n",
        "event: message_delta\n",
        r#"data: {"type":"message_delta","delta":{"stop_reason":"end_turn"},"usage":{"output_tokens":57}}"#,
        "\n\n",
        "event: message_stop\n",
        r#"data: {"type":"message_stop"}"#,
        "\n\n",
    ]
    .concat()
}

const EXPECTED: &str = "Nxe4 loses a knight — エンジンの読み筋では Qa4+ がフォークになります。";

fn run_sse(input: &str, size: usize) -> (String, Vec<String>) {
    let bytes = input.as_bytes();
    let mut parser = SseParser::new();
    let mut text = String::new();
    let mut failures = Vec::new();
    let mut events = Vec::new();
    let mut offset = 0;
    while offset < bytes.len() {
        let end = (offset + size).min(bytes.len());
        events.extend(parser.push(&bytes[offset..end]));
        offset = end;
    }
    events.extend(parser.finish());
    for event in events {
        if let Some(value) = parse(&event) {
            collect(sse_event(&value).into_iter().collect(), &mut text, &mut failures);
        }
    }
    (text, failures)
}

#[test]
fn sse_parses_the_whole_payload_in_one_chunk() {
    let (text, failures) = run_sse(&sse_sample(), sse_sample().len());
    assert_eq!(text, EXPECTED);
    assert!(failures.is_empty());
}

/// A chunk boundary landing in the middle of an event, and in the middle of a
/// multi-byte character.
#[test]
fn sse_survives_chunks_split_mid_event() {
    for size in [1, 2, 3, 5, 17, 64, 128, 333, 1024] {
        let (text, failures) = run_sse(&sse_sample(), size);
        assert_eq!(text, EXPECTED, "chunk size {size}");
        assert!(failures.is_empty(), "chunk size {size}");
    }
}

#[test]
fn handles_crlf_line_endings_and_a_missing_final_newline() {
    let crlf = sse_sample().replace('\n', "\r\n");
    let trimmed = crlf.trim_end_matches(['\r', '\n']);
    let (text, failures) = run_sse(trimmed, 11);
    assert_eq!(text, EXPECTED);
    assert!(failures.is_empty());
}

#[test]
fn a_mid_stream_error_event_becomes_a_failure() {
    let input = [
        "event: content_block_delta\n",
        r#"data: {"type":"content_block_delta","index":0,"delta":{"type":"text_delta","text":"partial"}}"#,
        "\n\n",
        "event: error\n",
        r#"data: {"type":"error","error":{"type":"overloaded_error","message":"Overloaded"}}"#,
        "\n\n",
    ]
    .concat();
    let (text, failures) = run_sse(&input, 7);
    assert_eq!(text, "partial");
    assert_eq!(failures.len(), 1);
    assert!(failures[0].contains("Overloaded"));
}

#[test]
fn thinking_deltas_and_done_markers_are_ignored() {
    let input = [
        r#"data: {"type":"content_block_delta","index":0,"delta":{"type":"thinking_delta","thinking":"hmm"}}"#,
        "\n\n",
        r#"data: {"type":"content_block_delta","index":1,"delta":{"type":"input_json_delta","partial_json":"{\"a\":"}}"#,
        "\n\n",
        r#"data: {"type":"content_block_delta","index":2,"delta":{"type":"text_delta","text":"real"}}"#,
        "\n\n",
        "data: [DONE]\n\n",
    ]
    .concat();
    let (text, failures) = run_sse(&input, 5);
    assert_eq!(text, "real");
    assert!(failures.is_empty());
}

#[test]
fn sse_lines_other_than_data_carry_no_event() {
    let mut parser = SseParser::new();
    let events = parser.push(b"event: ping\n: a comment\n\ndata:   {\"x\":1}  \r\ndata:\n");
    assert_eq!(events, vec!["{\"x\":1}".to_string()]);
    // An error without a message still fails, with a stand-in.
    let value = parse(r#"{"type":"error"}"#).unwrap();
    assert_eq!(sse_event(&value), Some(StreamPiece::Failure("anthropic api: unknown error".to_string())));
    let empty = parse(r#"{"type":"content_block_delta","delta":{"type":"text_delta","text":""}}"#).unwrap();
    assert_eq!(sse_event(&empty), None);
}

#[test]
fn invalid_utf8_is_replaced_not_fatal() {
    let mut parser = SseParser::new();
    let mut line = b"data: {\"type\":\"content_block_delta\",\"delta\":{\"type\":\"text_delta\",\"text\":\"a".to_vec();
    line.push(0xff);
    line.extend_from_slice(b"b\"}}\n");
    let events = parser.push(&line);
    assert_eq!(events.len(), 1);
    let value = parse(&events[0]).unwrap();
    assert_eq!(sse_event(&value), Some(StreamPiece::Text("a\u{fffd}b".to_string())));
}

/// A JSON Lines stream with partial messages.
fn jsonl_sample() -> String {
    [
        r#"{"type":"system","subtype":"init","session_id":"7702112f","model":"model-x"}"#,
        "\n",
        r#"{"type":"rate_limit_event","rate_limit_info":{"status":"allowed"},"session_id":"7702112f"}"#,
        "\n",
        r#"{"type":"stream_event","event":{"type":"message_start","message":{"id":"msg_01","role":"assistant","content":[]}},"session_id":"7702112f","parent_tool_use_id":null}"#,
        "\n",
        r#"{"type":"stream_event","event":{"type":"content_block_start","index":0,"content_block":{"type":"thinking","thinking":""}},"session_id":"7702112f","parent_tool_use_id":null}"#,
        "\n",
        r#"{"type":"stream_event","event":{"type":"content_block_delta","index":0,"delta":{"type":"thinking_delta","thinking":"The user wants"}},"session_id":"7702112f","parent_tool_use_id":null}"#,
        "\n",
        r#"{"type":"stream_event","event":{"type":"content_block_stop","index":0},"session_id":"7702112f","parent_tool_use_id":null}"#,
        "\n",
        r#"{"type":"stream_event","event":{"type":"content_block_start","index":1,"content_block":{"type":"text","text":""}},"session_id":"7702112f","parent_tool_use_id":null}"#,
        "\n",
        r#"{"type":"stream_event","event":{"type":"content_block_delta","index":1,"delta":{"type":"text_delta","text":"Nxe4 loses a knight — "}},"session_id":"7702112f","parent_tool_use_id":null}"#,
        "\n",
        r#"{"type":"stream_event","event":{"type":"content_block_delta","index":1,"delta":{"type":"text_delta","text":"エンジンの読み筋では Qa4+ がフォークになります。"}},"session_id":"7702112f","parent_tool_use_id":null}"#,
        "\n",
        r#"{"type":"assistant","message":{"id":"msg_01","role":"assistant","content":[{"type":"text","text":"Nxe4 loses a knight — エンジンの読み筋では Qa4+ がフォークになります。"}]},"session_id":"7702112f","parent_tool_use_id":null}"#,
        "\n",
        r#"{"type":"stream_event","event":{"type":"content_block_stop","index":1},"session_id":"7702112f","parent_tool_use_id":null}"#,
        "\n",
        r#"{"type":"stream_event","event":{"type":"message_stop"},"session_id":"7702112f","parent_tool_use_id":null}"#,
        "\n",
        r#"{"is_error":false,"num_turns":1,"stop_reason":"end_turn","session_id":"7702112f","subtype":"success","result":"Nxe4 loses a knight — エンジンの読み筋では Qa4+ がフォークになります。","type":"result","duration_ms":3928}"#,
        "\n",
    ]
    .concat()
}

fn run_jsonl(input: &str, size: usize) -> (String, Vec<String>) {
    let bytes = input.as_bytes();
    let mut parser = StreamJsonParser::new();
    let mut text = String::new();
    let mut failures = Vec::new();
    let mut lines = Vec::new();
    let mut offset = 0;
    while offset < bytes.len() {
        let end = (offset + size).min(bytes.len());
        lines.extend(parser.push(&bytes[offset..end]));
        offset = end;
    }
    lines.extend(parser.finish());
    for line in lines {
        if let Some(value) = parse(&line) {
            collect(parser.event(&value), &mut text, &mut failures);
        }
    }
    (text, failures)
}

#[test]
fn json_lines_parse_the_whole_payload_in_one_chunk() {
    let (text, failures) = run_jsonl(&jsonl_sample(), jsonl_sample().len());
    assert_eq!(text, EXPECTED);
    assert!(failures.is_empty());
}

#[test]
fn thinking_deltas_are_not_emitted() {
    let (text, _) = run_jsonl(&jsonl_sample(), jsonl_sample().len());
    assert!(!text.contains("The user wants"));
}

#[test]
fn json_lines_survive_chunks_split_mid_event() {
    for size in [1, 2, 3, 7, 16, 63, 64, 100, 511, 1024] {
        let (text, failures) = run_jsonl(&jsonl_sample(), size);
        assert_eq!(text, EXPECTED, "chunk size {size}");
        assert!(failures.is_empty(), "chunk size {size}");
    }
}

#[test]
fn a_line_without_a_trailing_newline_is_flushed_by_finish() {
    let sample = jsonl_sample();
    let trimmed = sample.trim_end_matches('\n');
    let (text, failures) = run_jsonl(trimmed, 13);
    assert_eq!(text, EXPECTED);
    assert!(failures.is_empty());
}

#[test]
fn falls_back_to_assistant_messages_without_partial_deltas() {
    let input = [
        r#"{"type":"system","subtype":"init"}"#,
        "\n",
        r#"{"type":"assistant","message":{"content":[{"type":"thinking","thinking":"hmm"},{"type":"text","text":"Nxe4 is a blunder."}]},"parent_tool_use_id":null}"#,
        "\n",
        r#"{"type":"result","is_error":false,"subtype":"success"}"#,
        "\n",
    ]
    .concat();
    let (text, failures) = run_jsonl(&input, 5);
    assert_eq!(text, "Nxe4 is a blunder.");
    assert!(failures.is_empty());
}

#[test]
fn subagent_output_is_ignored() {
    let input = [
        r#"{"type":"assistant","message":{"content":[{"type":"text","text":"from a subagent"}]},"parent_tool_use_id":"toolu_01"}"#,
        "\n",
        r#"{"type":"assistant","message":{"content":[{"type":"text","text":"the answer"}]},"parent_tool_use_id":null}"#,
        "\n",
    ]
    .concat();
    let (text, _) = run_jsonl(&input, 9);
    assert_eq!(text, "the answer");
}

#[test]
fn an_error_result_becomes_a_failure() {
    let input = [
        r#"{"type":"result","is_error":true,"subtype":"error_during_execution","result":"model overloaded"}"#,
        "\n",
    ]
    .concat();
    let (text, failures) = run_jsonl(&input, 4);
    assert!(text.is_empty());
    assert_eq!(failures.len(), 1);
    assert!(failures[0].contains("model overloaded"));
}

#[test]
fn an_error_result_without_a_message_falls_back_to_its_subtype() {
    let mut parser = StreamJsonParser::new();
    let value = parse(r#"{"type":"result","is_error":true,"subtype":"error_max_turns"}"#).unwrap();
    assert_eq!(parser.event(&value), vec![StreamPiece::Failure("error_max_turns".to_string())]);
    let bare = parse(r#"{"type":"result","is_error":true}"#).unwrap();
    assert_eq!(parser.event(&bare), vec![StreamPiece::Failure("unknown error".to_string())]);
}

#[test]
fn unparseable_lines_are_skipped() {
    let input = [
        "not json at all\n",
        r#"{"type":"stream_event","event":{"type":"content_block_delta","delta":{"type":"text_delta","text":"ok"}}}"#,
        "\n",
        "{ still not json\n",
    ]
    .concat();
    let (text, failures) = run_jsonl(&input, 6);
    assert_eq!(text, "ok");
    assert!(failures.is_empty());
}

#[test]
fn blank_lines_carry_no_event() {
    let mut parser = StreamJsonParser::new();
    let lines = parser.push(b"  \n\n{\"a\":1}\n  {\"b\":2}  ");
    assert_eq!(lines, vec!["{\"a\":1}".to_string()]);
    assert_eq!(parser.finish(), Some("{\"b\":2}".to_string()));
    assert_eq!(parser.finish(), None);
}
