use poe_copilot::event::{fingerprint, parse_line, RawEvent};

const GEN: &str = r#"2023/12/09 20:15:19 76512546 1186a0e0 [DEBUG Client 22384] Generating level 1 area "1_1_1" with seed 1780194933"#;
const ENTER: &str = "2023/12/09 20:15:22 76515625 f22b6b26 [INFO Client 22384] : You have entered The Twilight Strand.";
const LEVEL: &str = "2023/12/09 20:18:40 76713640 f22b6b26 [INFO Client 22384] : Wanderer (Ranger) is now level 2";
const SLAIN: &str =
    "2023/12/09 20:20:01 76794001 f22b6b26 [INFO Client 22384] : Wanderer has been slain.";

#[test]
fn parses_area_generated() {
    assert_eq!(
        parse_line(GEN),
        RawEvent::AreaGenerated {
            area_id: "1_1_1".into(),
            area_level: 1,
            seed: 1780194933,
            at: "2023/12/09 20:15:19".into(),
        }
    );
}

#[test]
fn parses_area_entered_name() {
    assert_eq!(
        parse_line(ENTER),
        RawEvent::AreaEnteredName {
            display_name: "The Twilight Strand".into(),
            at: "2023/12/09 20:15:22".into(),
        }
    );
}

#[test]
fn parses_level_up_including_multiword_names() {
    assert_eq!(
        parse_line(LEVEL),
        RawEvent::LevelUp {
            character: "Wanderer".into(),
            class: "Ranger".into(),
            level: 2,
            at: "2023/12/09 20:18:40".into(),
        }
    );
}

#[test]
fn parses_slain() {
    assert_eq!(
        parse_line(SLAIN),
        RawEvent::Slain {
            character: "Wanderer".into(),
            at: "2023/12/09 20:20:01".into(),
        }
    );
}

#[test]
fn unknown_lines_are_fingerprinted_with_digits_masked() {
    let line = "2023/12/09 20:21:00 76800000 f22b6b26 [INFO Client 22384] : Trade accepted.";
    match parse_line(line) {
        RawEvent::Unknown { fingerprint: f, at } => {
            assert_eq!(at, "2023/12/09 20:21:00");
            assert!(f.contains("Trade accepted."));
            assert!(!f.chars().any(|c| c.is_ascii_digit()));
        }
        other => panic!("expected Unknown, got {other:?}"),
    }
}

#[test]
fn garbage_and_short_lines_never_panic() {
    for junk in ["", "x", ": ", "]] ", "no brackets here", "2023/12/09"] {
        let _ = parse_line(junk);
    }
}

#[test]
fn area_names_with_apostrophes_survive() {
    let line = "2023/12/09 21:00:00 77000000 f22b6b26 [INFO Client 22384] : You have entered The Slaver's Pits.";
    assert_eq!(
        parse_line(line),
        RawEvent::AreaEnteredName {
            display_name: "The Slaver's Pits".into(),
            at: "2023/12/09 21:00:00".into(),
        }
    );
}

#[test]
fn fingerprint_masks_every_ascii_digit_and_keeps_the_rest() {
    assert_eq!(fingerprint("a1b22 é9"), "a#b## é#");
    assert_eq!(fingerprint(""), "");
}

#[test]
fn level_up_requires_a_nonempty_class_in_trailing_parentheses() {
    let line = "2023/12/09 20:18:40 1 x [INFO Client 1] : Wanderer () is now level 2";
    assert!(matches!(parse_line(line), RawEvent::Unknown { .. }));
    let line = "2023/12/09 20:18:40 1 x [INFO Client 1] : Wanderer (Ranger) is now level 70000";
    assert!(matches!(parse_line(line), RawEvent::Unknown { .. }));
    let line = "2023/12/09 20:18:40 1 x [INFO Client 1] : Two Words (Witch) is now level  +7 ";
    assert_eq!(
        parse_line(line),
        RawEvent::LevelUp {
            character: "Two Words".into(),
            class: "Witch".into(),
            level: 7,
            at: "2023/12/09 20:18:40".into(),
        }
    );
}

#[test]
fn generated_line_with_out_of_range_level_is_unknown() {
    let line = r#"2023/12/09 20:15:19 1 x [DEBUG Client 1] Generating level 300 area "1_1_1" with seed 5"#;
    assert!(matches!(parse_line(line), RawEvent::Unknown { .. }));
}

#[test]
fn timestamp_is_the_first_nineteen_bytes_or_empty() {
    match parse_line("] : You have entered X.") {
        RawEvent::AreaEnteredName { display_name, at } => {
            assert_eq!(display_name, "X");
            assert_eq!(at, "] : You have entere");
        }
        other => panic!("unexpected {other:?}"),
    }
    match parse_line("short line") {
        RawEvent::Unknown { fingerprint, at } => {
            assert_eq!(fingerprint, "short line");
            assert_eq!(at, "");
        }
        other => panic!("unexpected {other:?}"),
    }
}
