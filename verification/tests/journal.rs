use poe_copilot::journal::{compact_start, compact_text, is_significant, journal_lines, journal_lines_from_bytes};

const GEN_STRAND: &str = r#"2026/07/21 19:00:01 1000 1186a0e0 [DEBUG Client 900] Generating level 1 area "1_1_1" with seed 101"#;
const ENTER_STRAND: &str = "2026/07/21 19:00:03 3000 f22b6b26 [INFO Client 900] : You have entered The Twilight Strand.";
const LEVEL_UP: &str = "2026/07/21 19:02:10 130000 f22b6b26 [INFO Client 900] : Wanderer (Ranger) is now level 2";

#[test]
fn is_significant_recognizes_session_events_only() {
    assert!(is_significant(GEN_STRAND));
    assert!(is_significant(ENTER_STRAND));
    assert!(is_significant(LEVEL_UP));
    assert!(!is_significant("total garbage"));
    assert!(!is_significant("2026/07/21 19:05:00 300000 abc [INFO Client 900] #global chat noise"));
    assert!(!is_significant(""));
}

#[test]
fn journal_lines_keep_non_blank_lines_in_order() {
    let text = format!("{GEN_STRAND}\n\n{ENTER_STRAND}\r\n   \n");
    assert_eq!(journal_lines(&text, false), vec![GEN_STRAND.to_string(), ENTER_STRAND.to_string()]);
}

#[test]
fn journal_lines_of_a_cut_read_drop_the_torn_first_line() {
    let text = format!("torn{GEN_STRAND}\n{ENTER_STRAND}\n");
    assert_eq!(journal_lines(&text, true), vec![ENTER_STRAND.to_string()]);
    assert!(journal_lines("one long torn line without newline", true).is_empty());
}

#[test]
fn compaction_keeps_the_newest_lines_that_fit() {
    let lines: Vec<String> = vec!["aaaa".into(), "bb".into(), "c".into()];
    // "bb\n" + "c\n" is 5 bytes; adding "aaaa\n" would make 10.
    assert_eq!(compact_start(&lines, 5), 1);
    assert_eq!(compact_start(&lines, 9), 1);
    assert_eq!(compact_start(&lines, 10), 0);
    assert_eq!(compact_start(&lines, 1), 3);
    assert_eq!(compact_text(&lines, 1), "bb\nc\n");
    assert_eq!(compact_text(&lines, 3), "");
}

#[test]
fn compaction_counts_bytes_not_characters() {
    let lines: Vec<String> = vec!["é".into()];
    assert_eq!(compact_start(&lines, 2), 1);
    assert_eq!(compact_start(&lines, 3), 0);
}

#[test]
fn journal_lines_from_bytes_decode_lossily() {
    let mut bytes = format!("torn\n{ENTER_STRAND}\n").into_bytes();
    assert_eq!(journal_lines_from_bytes(&bytes, true), vec![ENTER_STRAND.to_string()]);
    bytes.extend_from_slice(b"bad \xff byte\n");
    assert_eq!(
        journal_lines_from_bytes(&bytes, false),
        vec!["torn".to_string(), ENTER_STRAND.to_string(), "bad \u{FFFD} byte".to_string()]
    );
}
