use poe_copilot::compile::{compile_layout_pack, compile_route_pack, Variant};
use poe_copilot::fragment::Fragment;
use poe_copilot::game_data::{gems_by_name, Area, AreaMap, Gem, GemMap, Quest, QuestGemReward, QuestMap, RewardOffer, VendorGemReward};
use poe_copilot::gem_availability::{act_entry_levels, availability_for_class, AvailabilitySource};
use poe_copilot::layouts::{Audit, AuditStatus, LayoutEntry, LayoutImage, LayoutItem, LayoutSource};
use poe_copilot::map::StrMap;
use poe_copilot::render::{display_name, render_fragments};
use poe_copilot::replay::replay_lines;
use poe_copilot::route_parser::parse_route_file;
use poe_copilot::session::SessionEvent;
use poe_copilot::walk::{step_id, walk_act, WalkError, WalkState};

fn area(id: &str, name: &str, act: u8, level: Option<u8>, town: bool) -> Area {
    Area {
        id: id.into(),
        name: name.into(),
        act,
        level,
        has_waypoint: town,
        is_town_area: town,
        parent_town_area_id: None,
        connection_ids: vec![],
        crafting_recipes: vec![],
    }
}

fn areas() -> AreaMap {
    let mut m = StrMap::new();
    for a in [
        area("1_1_1", "The Twilight Strand", 1, Some(1), false),
        area("1_1_town", "Lioneye's Watch", 1, Some(1), true),
        area("1_1_2", "The Coast", 1, Some(2), false),
        area("1_2_town", "The Forest Encampment", 2, Some(13), true),
        area("1_3_town", "The Sarn Encampment", 3, Some(23), true),
    ] {
        m.insert(a.id.clone(), a);
    }
    m
}

const FP: &str = "Metadata/Items/Gems/SkillGemFreezingPulse";
const TR: &str = "Metadata/Items/Gems/SkillGemToxicRain";

fn quest(id: &str, act: u8, offers: Vec<(&str, RewardOffer)>) -> Quest {
    let mut m = StrMap::new();
    for (k, o) in offers {
        m.insert(k.to_string(), o);
    }
    Quest { id: id.into(), name: format!("quest {id}"), act, reward_offers: m }
}

fn offer(npc: &str, rewards: &[(&str, &[&str])], vendor: &[(&str, &[&str], Option<&str>)]) -> RewardOffer {
    let mut q = StrMap::new();
    for (gem, classes) in rewards {
        q.insert(gem.to_string(), QuestGemReward { classes: classes.iter().map(|c| c.to_string()).collect() });
    }
    let mut v = StrMap::new();
    for (gem, classes, npc) in vendor {
        v.insert(
            gem.to_string(),
            VendorGemReward { classes: classes.iter().map(|c| c.to_string()).collect(), npc: npc.map(|n| n.to_string()) },
        );
    }
    RewardOffer { quest_npc: Some(npc.into()), quest: q, vendor: v }
}

fn quests() -> QuestMap {
    let mut m = StrMap::new();
    for q in [
        quest(
            "a1q1",
            1,
            vec![
                ("a1q1", offer("Tarkleigh", &[(FP, &["Witch"])], &[(TR, &[], Some("Nessa"))])),
                ("a1q1b", offer("Nessa", &[(TR, &["Ranger"])], &[])),
            ],
        ),
        quest("a3q1", 3, vec![("a3q1", offer("Siosa", &[], &[(FP, &[], Some("Siosa"))]))]),
        quest("a1q4", 1, vec![("a1q4", offer("Tarkleigh", &[], &[])), ("a1q4b", offer("Tarkleigh", &[], &[]))]),
        quest("a1q2", 1, vec![("a1q2", offer("Tarkleigh", &[], &[])), ("a1q2b", offer("Tarkleigh", &[], &[]))]),
    ] {
        m.insert(q.id.clone(), q);
    }
    m
}

#[test]
fn renders_enter_with_area_name_and_dir_glyph() {
    let s = render_fragments(
        &[
            Fragment::Text { value: "➞ ".into() },
            Fragment::Enter { area_id: "1_1_2".into() },
            Fragment::Text { value: " then ".into() },
            Fragment::Dir { dir_index: 1 },
        ],
        &areas(),
    );
    assert_eq!(s, "➞ The Coast then ↗");
}

#[test]
fn renders_actions_and_unknown_area_fallback() {
    let s = render_fragments(
        &[
            Fragment::Kill { name: "Hillock".into() },
            Fragment::Text { value: ", ".into() },
            Fragment::PortalSet,
            Fragment::Text { value: ", ".into() },
            Fragment::Enter { area_id: "bogus".into() },
        ],
        &areas(),
    );
    assert_eq!(s, "Hillock, place a portal, bogus");
    assert_eq!(display_name(&areas(), "1_1_town"), "Lioneye's Watch");
    assert_eq!(display_name(&areas(), "nowhere"), "nowhere");
}

const ROUTE: &str = "\
#section Act 1
Find and kill {kill|Hillock}
➞ {enter|1_1_town}
Hand in {quest|a1q1}
Take {quest|a1q1|a1q1b}
➞ {enter|1_1_2}
";

#[test]
fn walk_records_the_area_each_step_starts_in() {
    let sections = parse_route_file(ROUTE, &vec!["LEAGUE_START".to_string()]).unwrap();
    let mut state = WalkState::campaign_start();
    let steps = walk_act(1, &sections, &areas(), &quests(), &mut state).unwrap();
    let contexts: Vec<&str> = steps.iter().map(|s| s.area_context.as_str()).collect();
    assert_eq!(contexts, vec!["1_1_1", "1_1_1", "1_1_town", "1_1_town", "1_1_town"]);
    assert_eq!(steps[0].id, "a1-s001");
    assert_eq!(steps[4].id, "a1-s005");
    assert_eq!(steps[0].act, 1);
    assert_eq!(steps[0].section, "Act 1");
    assert_eq!(state.current_area_id, "1_1_2");
    assert_eq!(state.last_town_area_id, "1_1_town");
}

const QUEST_ROUTE: &str = "\
#section Act 1
➞ {enter|1_1_town}
Hand in {quest|a1q4}
Take {quest|a1q2|a1q2b}
Hand in {quest|a1q4}
";

#[test]
fn quest_without_explicit_offers_expands_to_all_reward_offers() {
    let sections = parse_route_file(QUEST_ROUTE, &vec!["LEAGUE_START".to_string()]).unwrap();
    let mut state = WalkState::campaign_start();
    let steps = walk_act(1, &sections, &areas(), &quests(), &mut state).unwrap();
    let offers_for = |quest_id: &str| -> Vec<Vec<String>> {
        steps
            .iter()
            .flat_map(|s| &s.fragments)
            .filter_map(|f| match f {
                Fragment::Quest { quest_id: id, reward_offer_ids } if id == quest_id => Some(reward_offer_ids.clone()),
                _ => None,
            })
            .collect()
    };
    // a1q4 is handed in without explicit offers; its quest lists two
    // reward offers (a1q4, a1q4b).
    for offers in offers_for("a1q4") {
        assert_eq!(offers, vec!["a1q4".to_string(), "a1q4b".to_string()]);
    }
    assert!(!offers_for("a1q4").is_empty());
    // a1q2 names an explicit offer; it is kept as written.
    let a1q2 = offers_for("a1q2");
    assert!(a1q2.iter().all(|o| o.len() == 1));
    assert!(a1q2.contains(&vec!["a1q2b".to_string()]));
}

#[test]
fn walk_validates_area_and_quest_ids() {
    let sections = parse_route_file("➞ {enter|not_a_real_area}\n", &vec![]).unwrap();
    let mut state = WalkState::campaign_start();
    let err = walk_act(1, &sections, &areas(), &quests(), &mut state).unwrap_err();
    assert!(matches!(err, WalkError::UnknownArea { .. }));
    let sections = parse_route_file("Hand in {quest|a9q9}\n", &vec![]).unwrap();
    let mut state = WalkState::campaign_start();
    let err = walk_act(1, &sections, &areas(), &quests(), &mut state).unwrap_err();
    assert!(matches!(err, WalkError::UnknownQuest { .. }));
}

#[test]
fn step_ids_are_act_and_zero_padded_index() {
    assert_eq!(step_id(1, 1), "a1-s001");
    assert_eq!(step_id(10, 123), "a10-s123");
    assert_eq!(step_id(2, 1234), "a2-s1234");
}

#[test]
fn compiles_a_route_pack_across_ten_acts() {
    let mut sources = vec![ROUTE.to_string()];
    for _ in 2..=10 {
        sources.push(String::new());
    }
    let pack = compile_route_pack(Variant::LeagueStart, &sources, &areas(), &quests()).unwrap();
    assert_eq!(pack.format_version, 1);
    assert_eq!(pack.acts.len(), 10);
    assert_eq!(pack.acts[0].steps.len(), 5);
    assert_eq!(pack.acts[0].act, 1);
    assert!(pack.acts[1..].iter().all(|a| a.steps.is_empty()));
}

fn layout_entry(area_id: &str) -> LayoutEntry {
    let audit = Audit { status: AuditStatus::Unaudited, verified_patch: None, correction: None };
    LayoutEntry {
        area_id: area_id.into(),
        act: 1,
        display_name: area_id.into(),
        docx_headings: vec![area_id.into()],
        descriptions: vec![],
        notes: vec![LayoutItem { text: "follow the road".into(), audit: audit.clone() }],
        images: vec![LayoutImage { file: format!("act-1/{area_id}.png"), audit: audit.clone() }],
        source: LayoutSource { document: "poelayouts.docx".into(), images_author: "a".into(), notes_author: "b".into() },
        audit,
    }
}

#[test]
fn compiles_layout_pack() {
    let entries = vec![layout_entry("1_1_1"), layout_entry("1_1_2"), layout_entry("1_1_town")];
    let pack = compile_layout_pack(entries.clone(), "0123456789abcdef");
    assert_eq!(pack.format_version, 1);
    assert_eq!(pack.entries.len(), entries.len());
    assert!(pack.source.reference.starts_with("poelayouts.docx sha256:"), "unexpected reference: {}", pack.source.reference);
    assert_eq!(pack.source.reference, "poelayouts.docx sha256:0123456789ab");
    assert!(pack.entries.iter().all(|e| e.audit.verified_patch.is_none()));
    assert!(pack.entries.iter().all(|e| e.audit.status == AuditStatus::Unaudited));
    assert_eq!(pack.entries, entries);
}

#[test]
fn witch_gets_freezing_pulse_as_an_act_1_quest_reward() {
    let av = availability_for_class(&quests(), "Witch");
    let fp = av.get(FP).unwrap();
    assert_eq!(fp.act, 1);
    assert_eq!(fp.source, AvailabilitySource::QuestReward);
    assert_eq!(fp.npc.as_deref(), Some("Tarkleigh"));
}

#[test]
fn marauder_cannot_get_freezing_pulse_before_act_3() {
    let av = availability_for_class(&quests(), "Marauder");
    let fp = av.get(FP).unwrap();
    assert_eq!(fp.act, 3);
    assert_eq!(fp.source, AvailabilitySource::Vendor);
    assert_eq!(fp.npc.as_deref(), Some("Siosa"));
}

#[test]
fn quest_reward_beats_vendor_offer_within_the_same_act() {
    let av = availability_for_class(&quests(), "Ranger");
    let tr = av.get(TR).unwrap();
    assert_eq!(tr.source, AvailabilitySource::QuestReward);
    assert_eq!(tr.quest_id, "a1q1");
    let duelist = availability_for_class(&quests(), "Duelist");
    assert_eq!(duelist.get(TR).unwrap().source, AvailabilitySource::Vendor);
    assert_eq!(duelist.get(TR).unwrap().npc.as_deref(), Some("Nessa"));
}

#[test]
fn act_entry_levels_come_from_the_previous_acts_town() {
    let levels = act_entry_levels(&areas());
    assert_eq!(levels.get(&1), Some(&1));
    assert_eq!(levels.get(&2), Some(&1));
    assert_eq!(levels.get(&3), Some(&13));
    assert_eq!(levels.get(&4), Some(&23));
    assert_eq!(levels.get(&5), None);
}

#[test]
fn gems_by_name_keeps_the_lowest_required_level() {
    let mut gems: GemMap = StrMap::new();
    for g in [
        Gem { id: "a".into(), name: "Arc".into(), required_level: 12, is_support: false },
        Gem { id: "b".into(), name: "Arc".into(), required_level: 8, is_support: false },
        Gem { id: "c".into(), name: "Arc".into(), required_level: 8, is_support: false },
    ] {
        gems.insert(g.id.clone(), g);
    }
    let by_name = gems_by_name(&gems);
    assert_eq!(by_name.len(), 1);
    assert_eq!(by_name.get("Arc").unwrap().id, "b");
}

#[test]
fn replay_feeds_lines_through_a_fresh_session() {
    let lines = [
        r#"2026/07/21 19:00:01 1000 1186a0e0 [DEBUG Client 900] Generating level 1 area "1_1_1" with seed 101"#,
        "2026/07/21 19:00:03 3000 f22b6b26 [INFO Client 900] : You have entered The Twilight Strand.",
        "garbage",
    ];
    let evs = replay_lines(&lines, areas());
    assert!(matches!(evs[0], SessionEvent::SessionStarted { .. }));
    assert!(evs.iter().any(|e| matches!(e, SessionEvent::AreaEntered { area_id, .. } if area_id == "1_1_1")));
}
