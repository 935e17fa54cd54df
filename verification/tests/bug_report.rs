use poe_copilot::bug_report::{bug_report_url, details_text, percent_encode, select_tail_lines, REPORT_BUG_BASE_URL};

#[test]
fn no_log_opens_the_plain_form() {
    assert_eq!(bug_report_url("0.1.10", None), REPORT_BUG_BASE_URL);
    assert_eq!(bug_report_url("0.1.10", Some("")), REPORT_BUG_BASE_URL);
    assert_eq!(bug_report_url("0.1.10", Some("  \n \n")), REPORT_BUG_BASE_URL);
}

#[test]
fn prefilled_url_extends_the_base_with_a_details_param() {
    let url = bug_report_url("0.1.10", Some("1753305600 something broke"));
    assert!(url.starts_with(REPORT_BUG_BASE_URL));
    assert!(url.contains("&details="));
}

#[test]
fn percent_encode_escapes_reserved_and_multibyte_chars() {
    assert_eq!(percent_encode("a b&c=d\n"), "a%20b%26c%3Dd%0A");
    assert_eq!(percent_encode("safe-chars_.~AZ09"), "safe-chars_.~AZ09");
    assert_eq!(percent_encode("é"), "%C3%A9");
}

#[test]
fn details_value_contains_no_raw_reserved_chars() {
    let url = bug_report_url("0.1.10", Some("path C:\\Users\\someone & log=x?\n"));
    let details = url.split("&details=").nth(1).expect("details param");
    for forbidden in ['&', '=', '?', '#', ' ', '\n'] {
        assert!(!details.contains(forbidden), "raw {forbidden:?} in encoded details");
    }
}

#[test]
fn prefill_carries_version_marker_and_fenced_log() {
    let details = details_text("0.1.10", "1 hello\n2 world", false);
    assert!(details.contains("App version: 0.1.10"));
    assert!(details.contains("```text\n1 hello\n2 world\n```"));
    assert!(details.contains("Review before posting"));
    assert!(!details.contains("older lines omitted"));

    let truncated = details_text("0.1.10", "2 world", true);
    assert!(truncated.contains("… (older lines omitted)\n2 world"));
}

#[test]
fn selection_keeps_the_newest_lines_when_over_budget() {
    let log: String = (0..500).map(|i| format!("line-{i:04} something happened here\n")).collect();
    let (selected, omitted) = select_tail_lines(&log, 1_000);
    assert!(omitted, "500 lines cannot fit a 1000-byte budget");
    assert!(selected.ends_with("line-0499 something happened here"));
    assert!(!selected.contains("line-0000"));
    let kept: Vec<&str> = selected.lines().collect();
    assert!(kept.len() > 1, "budget fits more than one line");
    assert!(kept[0] < kept[kept.len() - 1]);
}

#[test]
fn selection_keeps_everything_when_under_budget() {
    let (selected, omitted) = select_tail_lines("1 a\n\n2 b\n", 1_000);
    assert!(!omitted);
    assert_eq!(selected, "1 a\n2 b");
}

#[test]
fn url_length_stays_bounded_for_a_huge_log() {
    let log: String = (0..5_000)
        .map(|i| format!("1753305600 line {i} with some typical diagnostic text\n"))
        .collect();
    let url = bug_report_url("0.1.10", Some(&log));
    assert!(url.len() <= 7_000, "URL must stay under practical browser limits, got {}", url.len());
    assert!(url.contains(&percent_encode("line 4999")));
}

#[test]
fn exact_prefill_for_a_one_line_log() {
    let url = bug_report_url("1.2", Some("x"));
    let expected_details = "<!-- Review before posting: remove anything you don't want public. Log lines can include file paths with your username. -->\n\nApp version: 1.2\n\nRecent log (newest last):\n```text\nx\n```";
    assert_eq!(details_text("1.2", "x", false), expected_details);
    assert_eq!(url, format!("{}&details={}", REPORT_BUG_BASE_URL, percent_encode(expected_details)));
}

#[test]
fn selection_with_a_zero_budget_keeps_nothing() {
    assert_eq!(select_tail_lines("a\nb\n", 0), (String::new(), true));
    assert_eq!(select_tail_lines("", 0), (String::new(), false));
}
