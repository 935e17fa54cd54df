use poe_copilot::fragment::{parse_fragments, Fragment, FragmentError};

#[test]
fn parses_enter_line_with_arrow_text_and_comment() {
    let frags = parse_fragments("➞ {enter|1_1_2} #The Coast", 1).unwrap();
    assert_eq!(
        frags,
        vec![
            Fragment::Text { value: "➞ ".into() },
            Fragment::Enter { area_id: "1_1_2".into() },
        ]
    );
}

#[test]
fn parses_mixed_text_and_multiple_fragments() {
    let frags = parse_fragments(
        "Find and kill {kill|Hailrake}, take {quest_text|Medicine Chest}",
        3,
    )
    .unwrap();
    assert_eq!(
        frags,
        vec![
            Fragment::Text { value: "Find and kill ".into() },
            Fragment::Kill { name: "Hailrake".into() },
            Fragment::Text { value: ", take ".into() },
            Fragment::QuestText { text: "Medicine Chest".into() },
        ]
    );
}

#[test]
fn waypoint_arity_selects_variant() {
    assert_eq!(parse_fragments("{waypoint}", 1).unwrap(), vec![Fragment::Waypoint]);
    assert_eq!(
        parse_fragments("{waypoint|1_1_2}", 1).unwrap(),
        vec![Fragment::WaypointUse { area_id: "1_1_2".into() }]
    );
}

#[test]
fn quest_collects_reward_offer_ids() {
    assert_eq!(
        parse_fragments("{quest|a4q2|a4q2b}", 1).unwrap(),
        vec![Fragment::Quest {
            quest_id: "a4q2".into(),
            reward_offer_ids: vec!["a4q2b".into()],
        }]
    );
    assert_eq!(
        parse_fragments("{quest|a1q1}", 1).unwrap(),
        vec![Fragment::Quest { quest_id: "a1q1".into(), reward_offer_ids: vec![] }]
    );
}

#[test]
fn dir_converts_degrees_to_index() {
    assert_eq!(parse_fragments("{dir|270}", 1).unwrap(), vec![Fragment::Dir { dir_index: 6 }]);
    assert_eq!(parse_fragments("{dir|45}", 1).unwrap(), vec![Fragment::Dir { dir_index: 1 }]);
    // -45 normalizes to 315 -> index 7
    assert_eq!(parse_fragments("{dir|-45}", 1).unwrap(), vec![Fragment::Dir { dir_index: 7 }]);
    assert!(matches!(
        parse_fragments("{dir|50}", 9),
        Err(FragmentError::InvalidDir { line: 9, .. })
    ));
}

#[test]
fn portal_and_zero_arity_fragments() {
    assert_eq!(parse_fragments("{portal|set}", 1).unwrap(), vec![Fragment::PortalSet]);
    assert_eq!(parse_fragments("{portal|use}", 1).unwrap(), vec![Fragment::PortalUse]);
    assert_eq!(parse_fragments("{logout}", 1).unwrap(), vec![Fragment::Logout]);
    assert_eq!(parse_fragments("{waypoint_get}", 1).unwrap(), vec![Fragment::WaypointGet]);
    assert_eq!(parse_fragments("{trial}", 1).unwrap(), vec![Fragment::Trial]);
}

#[test]
fn reward_vendor_optional_cost() {
    assert_eq!(
        parse_fragments("{reward_vendor|Frostblink|wisdom}", 1).unwrap(),
        vec![Fragment::RewardVendor { item: "Frostblink".into(), cost: Some("wisdom".into()) }]
    );
    assert_eq!(
        parse_fragments("{reward_vendor|Frostblink}", 1).unwrap(),
        vec![Fragment::RewardVendor { item: "Frostblink".into(), cost: None }]
    );
}

#[test]
fn crafting_optional_area() {
    assert_eq!(
        parse_fragments("{crafting}", 1).unwrap(),
        vec![Fragment::Crafting { area_id: None }]
    );
    assert_eq!(
        parse_fragments("{crafting|1_2_5}", 1).unwrap(),
        vec![Fragment::Crafting { area_id: Some("1_2_5".into()) }]
    );
}

#[test]
fn errors_on_unknown_kind_and_unterminated() {
    assert!(matches!(
        parse_fragments("{bogus|x}", 7),
        Err(FragmentError::UnknownKind { line: 7, .. })
    ));
    assert!(matches!(
        parse_fragments("{enter|1_1_2", 8),
        Err(FragmentError::Unterminated { line: 8 })
    ));
    assert!(matches!(
        parse_fragments("{logout|extra}", 2),
        Err(FragmentError::InvalidArity { line: 2, .. })
    ));
}

#[test]
fn comment_only_and_empty_lines_yield_nothing() {
    assert_eq!(parse_fragments("#just a comment", 1).unwrap(), vec![]);
    assert_eq!(parse_fragments("   ", 1).unwrap(), vec![]);
    assert_eq!(parse_fragments("", 1).unwrap(), vec![]);
}

#[test]
fn dir_accepts_signs_and_zero_fractions() {
    assert_eq!(parse_fragments("{dir|+90}", 1).unwrap(), vec![Fragment::Dir { dir_index: 2 }]);
    assert_eq!(parse_fragments("{dir|90.00}", 1).unwrap(), vec![Fragment::Dir { dir_index: 2 }]);
    assert_eq!(parse_fragments("{dir|720}", 1).unwrap(), vec![Fragment::Dir { dir_index: 0 }]);
    assert_eq!(parse_fragments("{dir|-360}", 1).unwrap(), vec![Fragment::Dir { dir_index: 0 }]);
    assert_eq!(parse_fragments("{dir|-405}", 1).unwrap(), vec![Fragment::Dir { dir_index: 7 }]);
    assert_eq!(
        parse_fragments("{dir|east}", 4),
        Err(FragmentError::InvalidDir { line: 4, value: "east".into() })
    );
    assert_eq!(
        parse_fragments("{dir|90.5}", 4),
        Err(FragmentError::InvalidDir { line: 4, value: "90.5".into() })
    );
    assert_eq!(
        parse_fragments("{dir|}", 4),
        Err(FragmentError::InvalidDir { line: 4, value: "".into() })
    );
}

#[test]
fn dir_accepts_exponent_forms() {
    assert_eq!(parse_fragments("{dir|90e0}", 1).unwrap(), vec![Fragment::Dir { dir_index: 2 }]);
    assert_eq!(parse_fragments("{dir|4.5e1}", 1).unwrap(), vec![Fragment::Dir { dir_index: 1 }]);
    assert_eq!(parse_fragments("{dir|450E-1}", 1).unwrap(), vec![Fragment::Dir { dir_index: 1 }]);
    assert_eq!(parse_fragments("{dir|-1.8e+2}", 1).unwrap(), vec![Fragment::Dir { dir_index: 4 }]);
    assert_eq!(parse_fragments("{dir|0e-9}", 1).unwrap(), vec![Fragment::Dir { dir_index: 0 }]);
    assert_eq!(parse_fragments("{dir|.0}", 1).unwrap(), vec![Fragment::Dir { dir_index: 0 }]);
    assert_eq!(parse_fragments("{dir|36e1}", 1).unwrap(), vec![Fragment::Dir { dir_index: 0 }]);
    assert_eq!(
        parse_fragments("{dir|45e-1}", 2),
        Err(FragmentError::InvalidDir { line: 2, value: "45e-1".into() })
    );
    assert_eq!(
        parse_fragments("{dir|1e}", 2),
        Err(FragmentError::InvalidDir { line: 2, value: "1e".into() })
    );
    assert_eq!(
        parse_fragments("{dir|e5}", 2),
        Err(FragmentError::InvalidDir { line: 2, value: "e5".into() })
    );
    assert_eq!(
        parse_fragments("{dir|1e400}", 2),
        Err(FragmentError::InvalidDir { line: 2, value: "1e400".into() })
    );
}

#[test]
fn copy_joins_every_argument_and_errors_carry_the_kind() {
    assert_eq!(
        parse_fragments("{copy|a|b|c}", 1).unwrap(),
        vec![Fragment::Copy { text: "abc".into() }]
    );
    assert_eq!(
        parse_fragments("{kill}", 5),
        Err(FragmentError::InvalidArity { line: 5, kind: "kill".into() })
    );
    assert_eq!(
        parse_fragments("{portal|open}", 5),
        Err(FragmentError::InvalidArity { line: 5, kind: "portal".into() })
    );
    assert_eq!(
        parse_fragments("x {nope} y", 6),
        Err(FragmentError::UnknownKind { line: 6, kind: "nope".into() })
    );
}

#[test]
fn text_stops_at_a_hash_and_blank_runs_vanish() {
    assert_eq!(
        parse_fragments("go {area|1_1_3}   {trial} # rest {kill|x}", 1).unwrap(),
        vec![
            Fragment::Text { value: "go ".into() },
            Fragment::Area { area_id: "1_1_3".into() },
            Fragment::Trial,
        ]
    );
    assert_eq!(
        parse_fragments("{quest|q1|o1|o2} done", 1).unwrap(),
        vec![
            Fragment::Quest { quest_id: "q1".into(), reward_offer_ids: vec!["o1".into(), "o2".into()] },
            Fragment::Text { value: " done".into() },
        ]
    );
}
