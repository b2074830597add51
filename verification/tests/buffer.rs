use cursor_mcp_subagents::model::AgentOutputBuffer;

#[test]
fn push_line_trims_when_over_capacity() {
    let mut buf = AgentOutputBuffer::new(10);
    buf.push_line("12345".to_string());
    buf.push_line("6789".to_string());
    let s = buf.concat();
    assert!(s.contains("12345"));
    assert!(s.contains("6789"));

    buf.push_line("ABCDEFGHIJ".to_string());
    let s = buf.concat();
    assert!(s.contains("ABCDEFGHIJ"));
    assert!(s.len() >= "ABCDEFGHIJ\n".len());
}

#[test]
fn concat_preserves_order_and_trailing_newlines() {
    let mut buf = AgentOutputBuffer::new(100);
    buf.push_line("first".to_string());
    buf.push_line("second".to_string());
    let s = buf.concat();
    assert!(s.starts_with("first\nsecond\n"));
    assert!(s.ends_with('\n'));
}

#[test]
fn push_line_total_stays_within_capacity() {
    let mut buf = AgentOutputBuffer::new(10);
    buf.push_line("12345".to_string());
    assert!(buf.current_bytes <= 10);
    buf.push_line("6789".to_string());
    assert!(buf.current_bytes <= 10);
    assert_eq!(buf.concat(), "12345\n6789\n");
    buf.push_line("abcde".to_string());
    assert!(buf.current_bytes <= 10);
    assert_eq!(buf.concat(), "6789\nabcde\n");
}

#[test]
fn push_line_keeps_single_line_longer_than_capacity() {
    let mut buf = AgentOutputBuffer::new(10);
    buf.push_line("12345".to_string());
    buf.push_line("this line is far longer than ten bytes".to_string());
    let s = buf.concat();
    assert_eq!(s, "this line is far longer than ten bytes\n");
    assert!(buf.current_bytes > 10);
    // The oversized line leaves as soon as a fitting line arrives.
    buf.push_line("ok".to_string());
    assert_eq!(buf.concat(), "ok\n");
    assert!(buf.current_bytes <= 10);
}

#[test]
fn concat_of_empty_buffer_is_empty() {
    let buf = AgentOutputBuffer::new(16);
    assert_eq!(buf.concat(), "");
    assert_eq!(buf.current_bytes, 0);
}
