use poe_copilot::diagnostics::{format_line, should_rotate, tail_text, tail_text_from_bytes, MAX_LOG_BYTES};

#[test]
fn should_rotate_false_at_and_below_the_cap() {
    assert!(!should_rotate(0));
    assert!(!should_rotate(MAX_LOG_BYTES));
}

#[test]
fn should_rotate_true_above_the_cap() {
    assert!(should_rotate(MAX_LOG_BYTES + 1));
}

#[test]
fn format_line_has_timestamp_message_and_trailing_newline() {
    assert_eq!(format_line(12_345, "hello world"), "12345 hello world\n");
}

#[test]
fn format_line_handles_an_empty_message() {
    assert_eq!(format_line(0, ""), "0 \n");
}

#[test]
fn tail_text_of_a_whole_file_is_trimmed() {
    assert_eq!(tail_text("1 a\n2 b\n", false), Some("1 a\n2 b".to_string()));
    assert_eq!(tail_text("  \n\n", false), None);
    assert_eq!(tail_text("", false), None);
}

#[test]
fn tail_text_of_a_cut_read_drops_the_torn_first_line() {
    assert_eq!(tail_text("rn line\n2 b\n3 c\n", true), Some("2 b\n3 c".to_string()));
    assert_eq!(tail_text("only a torn line", true), None);
}

#[test]
fn tail_text_from_bytes_decodes_lossily() {
    assert_eq!(tail_text_from_bytes(b"rn line\n2 b\n3 c\n", true), Some("2 b\n3 c".to_string()));
    assert_eq!(tail_text_from_bytes(b"1 \xffa\n", false), Some("1 \u{FFFD}a".to_string()));
    assert_eq!(tail_text_from_bytes(b"", false), None);
}
