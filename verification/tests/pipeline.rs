use poe_copilot::compile::{ActRoute, ContentPack, SourceInfo, Variant};
use poe_copilot::fragment::Fragment;
use poe_copilot::game_data::{Area, AreaMap, QuestMap};
use poe_copilot::layouts::{Audit, AuditStatus, LayoutEntry, LayoutImage, LayoutSource};
use poe_copilot::map::StrMap;
use poe_copilot::pipeline::{is_safe_asset_name, Pipeline, PipelineError};
use poe_copilot::pob::{LevelingBuildPlan, Milestone, Reliability};
use poe_copilot::walk::CompiledStep;

const GEN_STRAND: &str = r#"2026/07/21 19:00:01 1000 1186a0e0 [DEBUG Client 900] Generating level 1 area "1_1_1" with seed 101"#;
const ENTER_STRAND: &str = "2026/07/21 19:00:03 3000 f22b6b26 [INFO Client 900] : You have entered The Twilight Strand.";
const GEN_COAST: &str = r#"2026/07/21 19:04:00 240000 1186a0e0 [DEBUG Client 900] Generating level 2 area "1_1_2" with seed 8801"#;
const ENTER_COAST: &str = "2026/07/21 19:04:02 242000 f22b6b26 [INFO Client 900] : You have entered The Coast.";
const GEN_TOWN: &str = r#"2026/07/21 19:03:20 200000 1186a0e0 [DEBUG Client 900] Generating level 1 area "1_1_town" with seed 555"#;
const ENTER_TOWN: &str = "2026/07/21 19:03:22 202000 f22b6b26 [INFO Client 900] : You have entered Lioneye's Watch.";

fn area(id: &str, name: &str, level: u8, town: bool) -> Area {
    Area {
        id: id.into(),
        name: name.into(),
        act: 1,
        level: Some(level),
        has_waypoint: false,
        is_town_area: town,
        parent_town_area_id: None,
        connection_ids: vec![],
        crafting_recipes: vec![],
    }
}

fn areas() -> AreaMap {
    let mut m = StrMap::new();
    for a in [
        area("1_1_1", "The Twilight Strand", 1, false),
        area("1_1_town", "Lioneye's Watch", 1, true),
        area("1_1_2", "The Coast", 2, false),
        area("1_1_3", "The Mud Flats", 3, false),
    ] {
        m.insert(a.id.clone(), a);
    }
    m
}

fn step(n: usize, ctx: &str, text: &str) -> CompiledStep {
    CompiledStep {
        id: format!("a1-s{n:03}"),
        act: 1,
        section: "Act 1".into(),
        area_context: ctx.into(),
        fragments: vec![Fragment::Text { value: text.into() }],
        sub_steps: vec![],
    }
}

fn pack() -> ContentPack {
    ContentPack {
        format_version: 1,
        source: SourceInfo { project: "p".into(), reference: "r".into(), license: "l".into() },
        variant: "standard-fast.league-start".into(),
        acts: vec![ActRoute {
            act: 1,
            steps: vec![
                step(1, "1_1_1", "kill Hillock"),
                step(2, "1_1_town", "talk to Tarkleigh"),
                step(3, "1_1_2", "find the waypoint"),
                step(4, "1_1_3", "find the glyphs"),
            ],
        }],
    }
}

fn unaudited() -> Audit {
    Audit { status: AuditStatus::Unaudited, verified_patch: None, correction: None }
}

fn layouts() -> Vec<LayoutEntry> {
    vec![LayoutEntry {
        area_id: "1_1_2".into(),
        act: 1,
        display_name: "The Coast".into(),
        docx_headings: vec![],
        descriptions: vec![],
        notes: vec![],
        images: vec![LayoutImage { file: "coast.png".into(), audit: unaudited() }],
        source: LayoutSource { document: "d".into(), images_author: "i".into(), notes_author: "n".into() },
        audit: unaudited(),
    }]
}

fn pipeline(build: Option<LevelingBuildPlan>) -> Pipeline {
    Pipeline::from_pack(areas(), &pack(), layouts(), build)
}

fn fetched_for(p: &Pipeline, files: &[&str]) -> Vec<(String, Option<Vec<u8>>)> {
    files
        .iter()
        .filter(|f| p.needs_image(f))
        .map(|f| (f.to_string(), Some(vec![0x89u8, b'P', b'N', b'G'])))
        .collect()
}

#[test]
fn initial_model_is_waiting() {
    let mut p = pipeline(None);
    let m = p.current_model(&Vec::new());
    assert!(m.waiting_for_log);
}

#[test]
fn area_entry_produces_model_with_images() {
    let mut p = pipeline(None);
    assert!(p.on_line(GEN_STRAND).is_none(), "generating alone changes nothing");
    let o = p.on_line(ENTER_STRAND).expect("entered -> model");
    assert!(!p.waiting_for_log());
    assert_eq!(o.zone_name, "The Twilight Strand");

    p.on_line(GEN_TOWN);
    p.on_line(ENTER_TOWN);
    p.on_line(GEN_COAST);
    let o = p.on_line(ENTER_COAST).unwrap();
    assert_eq!(o.zone_name, "The Coast");
    let fetched = fetched_for(&p, &["coast.png"]);
    let m = p.current_model(&fetched);
    assert!(!m.waiting_for_log);
    assert!(!m.images.is_empty(), "The Coast has layout images");
    assert_eq!(m.images[0].data_url, "data:image/png;base64,iVBORw==");
}

#[test]
fn non_area_lines_produce_none() {
    let mut p = pipeline(None);
    assert!(p.on_line("garbage").is_none());
    assert!(p
        .on_line("2026/07/21 19:02:10 130000 f22b6b26 [INFO Client 900] : Wanderer (Ranger) is now level 2")
        .is_none());
}

#[test]
fn data_urls_are_memoized() {
    let mut p = pipeline(None);
    p.on_line(GEN_COAST);
    p.on_line(ENTER_COAST).unwrap();
    let fetched = fetched_for(&p, &["coast.png"]);
    let m1 = p.current_model(&fetched);
    assert!(!p.needs_image("coast.png"), "cached after the first model");
    p.on_line(GEN_COAST);
    p.on_line(ENTER_COAST).unwrap();
    // Nothing fetched this time: the cached URL is served.
    let m2 = p.current_model(&Vec::new());
    assert_eq!(m1.images[0].data_url, m2.images[0].data_url);
    assert_eq!(m1.images.len(), 1);
}

fn hand_built_plan() -> LevelingBuildPlan {
    LevelingBuildPlan {
        class_name: "Ranger".into(),
        ascend_name: Some("Deadeye".into()),
        skill_sets: vec![],
        passive_spec_titles: vec![],
        notes: None,
        milestones: vec![Milestone {
            level: 2,
            label: "Gem available: Frostblink".into(),
            reliability: Reliability::Structured,
        }],
        reliability: Reliability::Structured,
    }
}

#[test]
fn pipeline_with_build_surfaces_summary_and_town_reminders() {
    let mut p = pipeline(Some(hand_built_plan()));
    let m = p.current_model(&Vec::new());
    assert!(m.waiting_for_log);
    assert_eq!(m.build_summary.as_deref(), Some("Ranger (Deadeye) — 1 milestones"));

    assert!(p
        .on_line("2026/07/21 19:02:10 130000 f22b6b26 [INFO Client 900] : Wanderer (Ranger) is now level 2")
        .is_none());

    p.on_line(GEN_TOWN);
    p.on_line(ENTER_TOWN).expect("entered town -> model");
    let m = p.current_model(&Vec::new());
    assert_eq!(m.build_summary.as_deref(), Some("Ranger (Deadeye) — 1 milestones"));
    assert_eq!(m.overlay.build_reminders, vec!["Gem available: Frostblink".to_string()]);
}

#[test]
fn pipeline_without_build_has_no_summary() {
    let mut p = pipeline(None);
    let m = p.current_model(&Vec::new());
    assert_eq!(m.build_summary, None);
}

#[test]
fn is_safe_asset_name_rejects_path_traversal_and_absolute_paths() {
    assert!(!is_safe_asset_name("../../etc/passwd"));
    assert!(!is_safe_asset_name("/etc/passwd"));
    assert!(!is_safe_asset_name("a/b.png"));
    assert!(!is_safe_asset_name("\\\\host\\share"));
    assert!(!is_safe_asset_name(""));
}

#[test]
fn is_safe_asset_name_accepts_a_plain_filename() {
    assert!(is_safe_asset_name("image10.png"));
}

#[test]
fn data_url_for_rejects_traversal_and_yields_empty_string() {
    let mut p = pipeline(None);
    for unsafe_name in ["../../etc/passwd", "/etc/passwd", "a/b.png", ""] {
        assert_eq!(p.data_url_for(unsafe_name, Some(vec![1, 2, 3])), String::new());
    }
}

#[test]
fn a_failed_read_yields_an_empty_url() {
    let mut p = pipeline(None);
    assert_eq!(p.data_url_for("missing.png", None), String::new());
    assert!(!p.needs_image("missing.png"));
}

#[test]
fn reset_returns_to_a_fresh_waiting_state() {
    let mut p = pipeline(None);
    p.on_line(GEN_STRAND);
    p.on_line(ENTER_STRAND).unwrap();
    assert!(!p.waiting_for_log());
    p.reset();
    assert!(p.waiting_for_log());
    assert_eq!(p.current_overlay().zone_name, "The Twilight Strand");
}

#[test]
fn a_route_that_does_not_compile_is_refused() {
    let sources: Vec<String> = (0..10).map(|_| "{enter|no_such_area}\n".to_string()).collect();
    let quests: QuestMap = StrMap::new();
    let r = Pipeline::new(Variant::LeagueStart, &sources, areas(), &quests, layouts(), None);
    assert!(matches!(r, Err(PipelineError::Compile(_))));
}

fn plan_with(levels: &[u16]) -> LevelingBuildPlan {
    LevelingBuildPlan {
        milestones: levels
            .iter()
            .map(|l| Milestone { level: *l, label: format!("m{l}"), reliability: Reliability::Structured })
            .collect(),
        ..hand_built_plan()
    }
}

#[test]
fn build_reminders_show_in_town_only_and_at_most_four() {
    let mut p = pipeline(Some(plan_with(&[4, 1, 2, 3, 5, 6, 60])));
    p.on_line("2026/07/21 19:02:10 130000 f22b6b26 [INFO Client 900] : Wanderer (Ranger) is now level 3");
    p.on_line(GEN_STRAND);
    let o = p.on_line(ENTER_STRAND).unwrap();
    assert!(!o.is_town);
    assert!(o.build_reminders.is_empty());
    assert!(o.town_reminders.is_empty());
    p.on_line(GEN_TOWN);
    let o = p.on_line(ENTER_TOWN).unwrap();
    assert!(o.is_town);
    // Due at level 3: levels up to 5; sorted by level, the last four kept.
    assert_eq!(o.build_reminders, vec!["m2", "m3", "m4", "m5"]);
}

#[test]
fn replaying_only_significant_lines_restores_route_position() {
    let log = [
        GEN_STRAND,
        ENTER_STRAND,
        "2026/07/21 19:03:00 180000 abc [INFO Client 900] #global chat noise",
        GEN_TOWN,
        "garbage",
        ENTER_TOWN,
        GEN_COAST,
        ENTER_COAST,
    ];
    let mut live = pipeline(None);
    for l in log {
        live.on_line(l);
    }
    let mut restored = pipeline(None);
    for l in log.iter().filter(|l| poe_copilot::journal::is_significant(l)) {
        restored.on_line(l);
    }
    assert_eq!(live.current_overlay(), restored.current_overlay());
    assert_eq!(restored.current_overlay().zone_name, "The Coast");
}
