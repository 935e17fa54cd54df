use poe_copilot::fragment::Fragment;
use poe_copilot::route_parser::{parse_route_file, ParseError};

fn defines(names: &[&str]) -> Vec<String> {
    names.iter().map(|s| s.to_string()).collect()
}

const SAMPLE: &str = "\
#section Act 1
Find and kill {kill|Hillock}
➞ {enter|1_1_town} #Lioneye's Watch
#ifdef LEAGUE_START
    Get {waypoint_get}
#endif
#ifndef LEAGUE_START
    {waypoint|1_1_town}
#endif
Find bridge, place {portal|set}
    #sub Go {dir|270}
    #sub Recommended Level: 4
";

#[test]
fn splits_sections_and_steps() {
    let sections = parse_route_file(SAMPLE, &defines(&["LEAGUE_START"])).unwrap();
    assert_eq!(sections.len(), 1);
    assert_eq!(sections[0].name, "Act 1");
    // steps: Hillock, enter town, waypoint_get (ifdef active), portal set
    assert_eq!(sections[0].steps.len(), 4);
    assert_eq!(
        sections[0].steps[2].fragments,
        vec![Fragment::Text { value: "Get ".into() }, Fragment::WaypointGet]
    );
}

#[test]
fn ifndef_branch_taken_without_define() {
    let sections = parse_route_file(SAMPLE, &defines(&[])).unwrap();
    assert_eq!(sections[0].steps.len(), 4);
    assert_eq!(
        sections[0].steps[2].fragments,
        vec![Fragment::WaypointUse { area_id: "1_1_town".into() }]
    );
}

#[test]
fn subs_attach_to_previous_step() {
    let sections = parse_route_file(SAMPLE, &defines(&["LEAGUE_START"])).unwrap();
    let last = sections[0].steps.last().unwrap();
    assert_eq!(last.sub_steps.len(), 2);
    assert_eq!(
        last.sub_steps[0],
        vec![Fragment::Text { value: "Go ".into() }, Fragment::Dir { dir_index: 6 }]
    );
    assert_eq!(
        last.sub_steps[1],
        vec![Fragment::Text { value: "Recommended Level: 4".into() }]
    );
}

#[test]
fn implicit_default_section_when_no_header() {
    let sections = parse_route_file("{logout}\n", &defines(&[])).unwrap();
    assert_eq!(sections[0].name, "Default");
    assert_eq!(sections[0].steps.len(), 1);
}

#[test]
fn errors() {
    assert!(matches!(
        parse_route_file("#endif\n", &defines(&[])),
        Err(ParseError::UnexpectedEndif { line: 1 })
    ));
    assert!(matches!(
        parse_route_file("#section X\n    #sub {dir|90}\n", &defines(&[])),
        Err(ParseError::OrphanSub { line: 2 })
    ));
    assert!(matches!(
        parse_route_file("#ifdef LEAGUE_START\n{logout}\n", &defines(&[])),
        Err(ParseError::UnterminatedConditional)
    ));
}

#[test]
fn inactive_sub_lines_are_skipped() {
    let src = "#section S\n{logout}\n#ifdef X\n    step {generic|inner}\n    #sub hint\n#endif\n";
    let sections = parse_route_file(src, &defines(&[])).unwrap();
    assert_eq!(sections[0].steps.len(), 1); // only logout
    assert!(sections[0].steps[0].sub_steps.is_empty());
}

#[test]
fn nested_conditionals_all_must_be_true() {
    let src = "#ifdef A\n#ifdef B\n{logout}\n#endif\n#endif\n";
    let sections = parse_route_file(src, &defines(&["A", "B"])).unwrap();
    assert_eq!(sections.len(), 1);
    assert_eq!(sections[0].steps.len(), 1);
    let sections = parse_route_file(src, &defines(&["A"])).unwrap();
    assert_eq!(sections.len(), 0);
    let sections = parse_route_file(src, &defines(&["B"])).unwrap();
    assert_eq!(sections.len(), 0);
}

#[test]
fn section_in_open_conditional_errors() {
    let src = "#ifdef X\n#section Y\n";
    assert!(matches!(
        parse_route_file(src, &defines(&[])),
        Err(ParseError::UnterminatedConditional)
    ));
}

#[test]
fn fragment_errors_carry_their_line_and_crlf_lines_are_trimmed() {
    assert_eq!(
        parse_route_file("#section A\r\n{logout}\r\n{bogus}\r\n", &defines(&[])),
        Err(ParseError::Fragment(poe_copilot::fragment::FragmentError::UnknownKind {
            line: 3,
            kind: "bogus".into()
        }))
    );
    let sections = parse_route_file("#section   \r\n  {trial}  \r\n# note\n\n", &defines(&[])).unwrap();
    assert_eq!(sections.len(), 1);
    assert_eq!(sections[0].name, "Default");
    assert_eq!(sections[0].steps[0].line, 2);
    assert_eq!(sections[0].steps[0].fragments, vec![Fragment::Trial]);
}
