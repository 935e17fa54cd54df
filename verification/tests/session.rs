use poe_copilot::event::RawEvent;
use poe_copilot::game_data::{Area, AreaMap};
use poe_copilot::map::StrMap;
use poe_copilot::session::{area_ids_are_keys, SessionEvent, SessionTracker};

fn area(id: &str, name: &str, act: u8, level: u8, town: bool) -> Area {
    Area {
        id: id.into(),
        name: name.into(),
        act,
        level: Some(level),
        has_waypoint: false,
        is_town_area: town,
        parent_town_area_id: None,
        connection_ids: vec![],
        crafting_recipes: vec![],
    }
}

/// A slice of the campaign's area table.
fn campaign_areas() -> AreaMap {
    let mut m = StrMap::new();
    for a in [
        area("1_1_1", "The Twilight Strand", 1, 1, false),
        area("1_1_town", "Lioneye's Watch", 1, 1, true),
        area("1_1_2", "The Coast", 1, 2, false),
        area("2_6_town", "Lioneye's Watch", 6, 45, true),
        area("2_6_2", "The Coast", 6, 45, false),
    ] {
        m.insert(a.id.clone(), a);
    }
    m
}

fn track(events: &[RawEvent]) -> (SessionTracker, Vec<SessionEvent>) {
    let mut t = SessionTracker::new(campaign_areas());
    let mut out = Vec::new();
    for e in events {
        out.extend(t.on_raw(e));
    }
    (t, out)
}

fn gen_event(area_id: &str, level: u8, seed: u64) -> RawEvent {
    RawEvent::AreaGenerated { area_id: area_id.into(), area_level: level, seed, at: "t".into() }
}

fn entered(name: &str) -> RawEvent {
    RawEvent::AreaEnteredName { display_name: name.into(), at: "t".into() }
}

#[test]
fn pairs_generated_and_entered_into_area_entered() {
    let (t, out) = track(&[gen_event("1_1_1", 1, 42), entered("The Twilight Strand")]);
    assert_eq!(out[0], SessionEvent::SessionStarted { at: "t".into() });
    assert_eq!(
        out[1],
        SessionEvent::AreaEntered {
            area_id: "1_1_1".into(),
            display_name: "The Twilight Strand".into(),
            act: 1,
            area_level: 1,
            is_town: false,
            new_instance: true,
            at: "t".into(),
        }
    );
    assert_eq!(t.current_area_id(), Some("1_1_1"));
    assert_eq!(t.current_act(), Some(1));
}

fn entries(out: &[SessionEvent]) -> Vec<(String, bool, bool)> {
    out.iter()
        .filter_map(|e| match e {
            SessionEvent::AreaEntered { area_id, is_town, new_instance, .. } => {
                Some((area_id.clone(), *is_town, *new_instance))
            }
            _ => None,
        })
        .collect()
}

#[test]
fn town_flag_and_same_seed_revisit() {
    let (_, out) = track(&[
        gen_event("1_1_town", 1, 7),
        entered("Lioneye's Watch"),
        gen_event("1_1_2", 2, 500),
        entered("The Coast"),
        gen_event("1_1_town", 1, 7),
        entered("Lioneye's Watch"),
    ]);
    assert_eq!(
        entries(&out),
        vec![
            ("1_1_town".to_string(), true, true),
            ("1_1_2".to_string(), false, true),
            ("1_1_town".to_string(), true, false),
        ]
    );
}

#[test]
fn new_seed_means_new_instance() {
    let (_, out) = track(&[
        gen_event("1_1_2", 2, 500),
        entered("The Coast"),
        gen_event("1_1_2", 2, 501),
        entered("The Coast"),
    ]);
    let flags: Vec<bool> = entries(&out).into_iter().map(|e| e.2).collect();
    assert_eq!(flags, vec![true, true]);
}

#[test]
fn name_only_fallback_prefers_current_act() {
    let (_, out) = track(&[gen_event("2_6_town", 40, 1), entered("Lioneye's Watch"), entered("The Coast")]);
    match out.last().unwrap() {
        SessionEvent::AreaEntered { area_id, act, area_level, .. } => {
            assert_eq!(area_id, "2_6_2");
            assert_eq!(*act, 6);
            assert_eq!(*area_level, 45);
        }
        other => panic!("expected AreaEntered, got {other:?}"),
    }
}

#[test]
fn unknown_display_name_yields_unresolved() {
    let (_, out) = track(&[entered("Some Future League Zone")]);
    assert_eq!(
        out.last().unwrap(),
        &SessionEvent::UnresolvedArea { display_name: "Some Future League Zone".into(), at: "t".into() }
    );
}

#[test]
fn levelup_and_slain_pass_through() {
    let (_, out) = track(&[
        RawEvent::LevelUp { character: "W".into(), class: "Ranger".into(), level: 5, at: "t".into() },
        RawEvent::Slain { character: "W".into(), at: "t".into() },
    ]);
    assert!(matches!(out[1], SessionEvent::LevelUp { level: 5, .. }));
    assert!(matches!(out[2], SessionEvent::Slain { .. }));
}

#[test]
fn unknown_raw_events_produce_nothing() {
    let (_, out) = track(&[RawEvent::Unknown { fingerprint: "x".into(), at: "t".into() }]);
    assert_eq!(out.len(), 1);
    assert!(matches!(out[0], SessionEvent::SessionStarted { .. }));
}

#[test]
fn stale_pending_survives_mismatch_and_resurrects() {
    let (_, out) = track(&[gen_event("1_1_2", 99, 900), entered("Lioneye's Watch"), entered("The Coast")]);
    let e: Vec<(String, u8, bool)> = out
        .iter()
        .filter_map(|e| match e {
            SessionEvent::AreaEntered { area_id, area_level, new_instance, .. } => {
                Some((area_id.clone(), *area_level, *new_instance))
            }
            _ => None,
        })
        .collect();
    assert_eq!(e.len(), 2);
    assert_eq!(e[1], ("1_1_2".to_string(), 99, true));
}

#[test]
fn act_tiebreak_prefers_lower_act() {
    fn zone(id: &str, act: u8, level: u8) -> Area {
        area(id, "Test Zone", act, level, false)
    }
    let mut areas = AreaMap::new();
    areas.insert("a_zone4".into(), zone("a_zone4", 4, 40));
    areas.insert("z_zone2".into(), zone("z_zone2", 2, 10));
    areas.insert("m_anchor".into(), area("m_anchor", "Anchor", 3, 30, false));
    let mut t = SessionTracker::new(areas);
    let mut out = Vec::new();
    out.extend(t.on_raw(&gen_event("m_anchor", 30, 1)));
    out.extend(t.on_raw(&entered("Anchor")));
    out.extend(t.on_raw(&entered("Test Zone")));
    match out.last().unwrap() {
        SessionEvent::AreaEntered { area_id, act, .. } => {
            assert_eq!(area_id, "z_zone2");
            assert_eq!(*act, 2);
        }
        other => panic!("expected AreaEntered, got {other:?}"),
    }
}

#[test]
fn fallback_revisit_is_not_new_instance_and_unknown_generated_id_degrades() {
    let (mut t, out) = track(&[gen_event("1_1_2", 2, 500), entered("The Coast"), entered("The Coast")]);
    assert_eq!(out.len(), 3);
    match &out[2] {
        SessionEvent::AreaEntered { area_id, new_instance, .. } => {
            assert_eq!(area_id, "1_1_2");
            assert!(!new_instance);
        }
        other => panic!("expected AreaEntered, got {other:?}"),
    }
    let more = t.on_raw(&gen_event("bogus_area_id", 1, 1));
    assert!(more.is_empty());
    let more = t.on_raw(&entered("The Coast"));
    assert_eq!(more.len(), 1);
    assert!(matches!(more[0], SessionEvent::AreaEntered { .. }));
}

#[test]
fn session_starts_once_with_the_first_timestamp() {
    let (_, out) = track(&[
        RawEvent::Unknown { fingerprint: "x".into(), at: "first".into() },
        RawEvent::Unknown { fingerprint: "y".into(), at: "second".into() },
    ]);
    assert_eq!(out, vec![SessionEvent::SessionStarted { at: "first".into() }]);
}

#[test]
fn session_starts_exactly_once_at_the_first_event() {
    let mut t = SessionTracker::new(campaign_areas());
    let mut out = Vec::new();
    for (i, e) in [
        RawEvent::Unknown { fingerprint: "x".into(), at: "t1".into() },
        gen_event("1_1_1", 1, 7),
        entered("The Twilight Strand"),
        RawEvent::Slain { character: "W".into(), at: "t4".into() },
    ]
    .iter()
    .enumerate()
    {
        let evs = t.on_raw(e);
        if i == 0 {
            assert_eq!(evs, vec![SessionEvent::SessionStarted { at: "t1".into() }]);
        }
        out.extend(evs);
    }
    assert_eq!(out[0], SessionEvent::SessionStarted { at: "t1".into() });
    assert_eq!(out.iter().filter(|e| matches!(e, SessionEvent::SessionStarted { .. })).count(), 1);
    assert_eq!(out.len(), 3);
}

#[test]
fn a_table_needs_every_area_id_as_a_key_not_each_under_its_own() {
    assert!(area_ids_are_keys(&campaign_areas()));
    // Stored under another key, but its id is a key too: accepted.
    let mut m = campaign_areas();
    m.insert("alias".to_string(), area("1_1_1", "The Twilight Strand", 1, 1, false));
    assert!(area_ids_are_keys(&m));
    let mut t = SessionTracker::new(m);
    let out = t.on_raw(&entered("The Coast"));
    assert!(matches!(&out[1], SessionEvent::AreaEntered { area_id, .. } if area_id == "1_1_2"));
    // An area whose id is no key: refused.
    let mut bad = campaign_areas();
    bad.insert("x".to_string(), area("nowhere", "Nowhere", 1, 1, false));
    assert!(!area_ids_are_keys(&bad));
}
