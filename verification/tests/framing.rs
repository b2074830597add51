use cursor_mcp_subagents::framing::{
    encode_error_response, encode_frame, encode_response, read_framed_message_buf, FrameRead,
};

#[test]
fn framed_write_and_read_roundtrip() {
    let mut result = serde_json::Map::new();
    result.insert("ok".to_string(), serde_json::Value::Bool(true));
    let mut obj = serde_json::Map::new();
    obj.insert(
        "jsonrpc".to_string(),
        serde_json::Value::String("2.0".to_string()),
    );
    obj.insert("id".to_string(), serde_json::Value::from(1));
    obj.insert("result".to_string(), serde_json::Value::Object(result));
    let v = serde_json::Value::Object(obj);

    let body = serde_json::to_vec(&v).expect("write");
    let out = encode_frame(&body, false);
    match read_framed_message_buf(&out) {
        FrameRead::Frame {
            body: read_back,
            consumed,
            raw_json,
        } => {
            assert_eq!(read_back, body);
            assert_eq!(consumed, out.len());
            assert!(!raw_json);
            let parsed: serde_json::Value = serde_json::from_slice(&read_back).expect("read");
            assert_eq!(parsed, v);
        }
        _ => panic!("expected one complete frame"),
    }
}

#[test]
fn header_mode_reads_exact_body() {
    let input = b"Content-Length: 5\r\n\r\nhello";
    match read_framed_message_buf(input) {
        FrameRead::Frame {
            body,
            consumed,
            raw_json,
        } => {
            assert_eq!(body, b"hello");
            assert_eq!(consumed, input.len());
            assert!(!raw_json);
        }
        _ => panic!("expected one complete frame"),
    }
}

#[test]
fn header_name_is_case_insensitive_and_others_are_ignored() {
    let input = b"Content-Type: application/json\r\ncontent-length: 2\r\n\r\nok";
    match read_framed_message_buf(input) {
        FrameRead::Frame { body, .. } => assert_eq!(body, b"ok"),
        _ => panic!("expected one complete frame"),
    }
}

#[test]
fn raw_json_first_line_is_a_whole_frame() {
    let input = b"{\"jsonrpc\":\"2.0\",\"method\":\"initialize\"}\nmore bytes";
    match read_framed_message_buf(input) {
        FrameRead::Frame {
            body,
            consumed,
            raw_json,
        } => {
            assert_eq!(body, b"{\"jsonrpc\":\"2.0\",\"method\":\"initialize\"}");
            assert_eq!(consumed, 40);
            assert!(raw_json);
        }
        _ => panic!("expected one raw frame"),
    }
}

#[test]
fn incomplete_input_asks_for_more() {
    assert!(matches!(
        read_framed_message_buf(b"Content-Length: 10\r\n"),
        FrameRead::NeedMore
    ));
    assert!(matches!(
        read_framed_message_buf(b"Content-Length: 10\r\n\r\nshort"),
        FrameRead::NeedMore
    ));
    assert!(matches!(read_framed_message_buf(b""), FrameRead::NeedMore));
}

#[test]
fn blank_header_block_without_length_is_rejected() {
    assert!(matches!(
        read_framed_message_buf(b"\r\n"),
        FrameRead::MissingLength
    ));
    assert!(matches!(
        read_framed_message_buf(b"Content-Type: x\r\n\r\n"),
        FrameRead::MissingLength
    ));
}

#[test]
fn unparsable_length_is_rejected() {
    assert!(matches!(
        read_framed_message_buf(b"Content-Length: abc\r\n\r\n"),
        FrameRead::BadHeader
    ));
    assert!(matches!(
        read_framed_message_buf(b"Content-Length: 99999999999999999999999\r\n\r\n"),
        FrameRead::BadHeader
    ));
}

#[test]
fn raw_mode_encoding_appends_one_newline() {
    let body = b"{\"jsonrpc\":\"2.0\"}".to_vec();
    let out = encode_frame(&body, true);
    let mut expected = body.clone();
    expected.push(b'\n');
    assert_eq!(out, expected);
}

#[test]
fn header_mode_encoding_counts_bytes_exactly() {
    let body = b"0123456789".to_vec();
    let out = encode_frame(&body, false);
    assert_eq!(out, b"Content-Length: 10\r\n\r\n0123456789");
}

#[test]
fn consumed_count_separates_back_to_back_frames() {
    let first = encode_frame(&b"one".to_vec(), false);
    let second = encode_frame(&b"two!".to_vec(), false);
    let mut stream = first.clone();
    stream.extend_from_slice(&second);
    match read_framed_message_buf(&stream) {
        FrameRead::Frame { body, consumed, .. } => {
            assert_eq!(body, b"one");
            assert_eq!(consumed, first.len());
            match read_framed_message_buf(&stream[consumed..]) {
                FrameRead::Frame { body, consumed, .. } => {
                    assert_eq!(body, b"two!");
                    assert_eq!(consumed, second.len());
                }
                _ => panic!("expected the second frame"),
            }
        }
        _ => panic!("expected the first frame"),
    }
}

#[test]
fn response_envelope_is_parsable_json() {
    let id = serde_json::to_vec(&serde_json::Value::from(7)).expect("id");
    let result = b"{\"ok\":true}".to_vec();
    let body = encode_response(&id, &result);
    let v: serde_json::Value = serde_json::from_slice(&body).expect("parse");
    assert_eq!(v.get("jsonrpc").and_then(|x| x.as_str()), Some("2.0"));
    assert_eq!(v.get("id").and_then(|x| x.as_i64()), Some(7));
    assert_eq!(
        v.get("result")
            .and_then(|r| r.get("ok"))
            .and_then(|x| x.as_bool()),
        Some(true)
    );
}

#[test]
fn error_envelope_carries_code_and_message() {
    let id = serde_json::to_vec(&serde_json::Value::from(3)).expect("id");
    let msg =
        serde_json::to_vec(&serde_json::Value::String("method not found".into())).expect("msg");
    let body = encode_error_response(&id, -32601, &msg);
    let v: serde_json::Value = serde_json::from_slice(&body).expect("parse");
    assert_eq!(v.get("id").and_then(|x| x.as_i64()), Some(3));
    let err = v.get("error").expect("error object");
    assert_eq!(err.get("code").and_then(|x| x.as_i64()), Some(-32601));
    assert_eq!(
        err.get("message").and_then(|x| x.as_str()),
        Some("method not found")
    );
}
