use std::collections::BTreeMap;

use poe_copilot::build_xml::{build_milestones, gem_milestone, import_pob, parse_build, parse_pob_code, MilestoneCtx};
use poe_copilot::game_data::{AreaMap, Gem, GemMap, Quest, QuestGemReward, QuestMap, RewardOffer};
use poe_copilot::gem_availability::{AvailabilitySource, GemAvailability};
use poe_copilot::map::StrMap;
use poe_copilot::pob::{GemPlan, Milestone, PobError, Reliability, SkillSetPlan};

fn gem(id: &str, name: &str, level: u8, support: bool) -> Gem {
    Gem { id: id.into(), name: name.into(), required_level: level, is_support: support }
}

fn gems() -> GemMap {
    let mut m = StrMap::new();
    for g in [
        gem("Frostblink", "Frostblink", 4, false),
        gem("SupportPierce", "Pierce Support", 4, true),
        gem("Metadata/Items/Gems/ToxicRain", "Toxic Rain", 12, false),
        gem("MirageArcher", "Mirage Archer Support", 4, true),
    ] {
        m.insert(g.id.clone(), g);
    }
    m
}

fn quests() -> QuestMap {
    let mut rewards = StrMap::new();
    rewards.insert("Metadata/Items/Gems/ToxicRain".to_string(), QuestGemReward { classes: vec!["Ranger".to_string()] });
    let mut offers = StrMap::new();
    offers.insert(
        "offer".to_string(),
        RewardOffer { quest_npc: Some("Nessa".to_string()), quest: rewards, vendor: StrMap::new() },
    );
    let mut m = StrMap::new();
    m.insert(
        "a1q1".to_string(),
        Quest { id: "a1q1".into(), name: "Mercy Mission".into(), act: 1, reward_offers: offers },
    );
    m
}

const XML: &str = r#"<?xml version="1.0" encoding="UTF-8"?>
<PathOfBuilding>
  <Build className="Ranger" ascendClassName="Deadeye" level="1"/>
  <Skills activeSkillSet="1">
    <SkillSet id="1" title="1-12">
      <Skill enabled="true">
        <Gem nameSpec="Toxic Rain" enabled="true"/>
        <Gem nameSpec="Pierce" enabled="true"/>
        <Gem nameSpec="Frostblink" enabled="true"/>
      </Skill>
    </SkillSet>
    <SkillSet id="2" title="13-32">
      <Skill enabled="true">
        <Gem nameSpec="Toxic Rain" enabled="true"/>
        <Gem nameSpec="Mirage Archer" enabled="true"/>
        <Gem nameSpec="Unknown Gem" enabled="false"/>
      </Skill>
    </SkillSet>
  </Skills>
  <Tree>
    <Spec title="Level 20"/>
    <Spec title="Level 45"/>
  </Tree>
  <Notes>
    Use Toxic Rain &amp; Mirage Archer.
  </Notes>
</PathOfBuilding>
"#;

#[test]
fn parses_a_build_into_a_plan() {
    let plan = parse_build(XML, &gems(), &quests(), &StrMap::new()).unwrap();
    assert_eq!(plan.class_name, "Ranger");
    assert_eq!(plan.ascend_name.as_deref(), Some("Deadeye"));
    assert_eq!(plan.skill_sets.len(), 2);
    assert_eq!(plan.skill_sets[0].title, "1-12");
    assert_eq!(plan.skill_sets[0].level_range, Some((1, 12)));
    assert_eq!(plan.skill_sets[1].level_range, Some((13, 32)));
    assert_eq!(plan.passive_spec_titles, vec!["Level 20", "Level 45"]);
    assert_eq!(plan.notes.as_deref(), Some("Use Toxic Rain & Mirage Archer."));
    assert_eq!(plan.reliability, Reliability::Structured);
    let pierce = &plan.skill_sets[0].gems[1];
    assert_eq!(pierce.name, "Pierce");
    assert_eq!(pierce.is_support, Some(true));
    assert_eq!(pierce.required_level, Some(4));
    let unknown = &plan.skill_sets[1].gems[2];
    assert_eq!(unknown.required_level, None);
    assert!(!unknown.enabled);
    let labels: Vec<(u16, &str)> = plan.milestones.iter().map(|m| (m.level, m.label.as_str())).collect();
    assert_eq!(
        labels,
        vec![
            (4, "Gem available: Frostblink"),
            (12, "Gem available: Toxic Rain (quest reward, A1)"),
            (13, "Switch to skill set '13-32'"),
        ]
    );
}

#[test]
fn unparseable_build_is_unsupported_not_error() {
    let plan = parse_build(
        "<PathOfBuilding><Build className=\"Witch\"/></PathOfBuilding>",
        &gems(),
        &StrMap::new(),
        &StrMap::new(),
    )
    .unwrap();
    assert_eq!(plan.reliability, Reliability::Unsupported);
    assert!(plan.milestones.is_empty());
    assert_eq!(plan.class_name, "Witch");
    assert_eq!(plan.ascend_name, None);
}

#[test]
fn gems_outside_a_skill_set_and_ascendancy_none_are_ignored() {
    let xml = r#"<PathOfBuilding><Build className="Witch" ascendClassName="None"/><Gem nameSpec="Frostblink" enabled="true"/><Skills><Skill><Gem nameSpec="Frostblink" enabled="true"/></Skill></Skills></PathOfBuilding>"#;
    let plan = parse_build(xml, &gems(), &StrMap::new(), &StrMap::new()).unwrap();
    assert_eq!(plan.ascend_name, None);
    assert_eq!(plan.skill_sets.len(), 1);
    assert_eq!(plan.skill_sets[0].title, "Default");
    assert_eq!(plan.skill_sets[0].gems.len(), 1);
}

#[test]
fn malformed_xml_is_an_xml_error() {
    let r = parse_build("<PathOfBuilding><Build></Wrong></PathOfBuilding>", &gems(), &StrMap::new(), &StrMap::new());
    assert!(matches!(r, Err(PobError::Xml(_))));
}

#[test]
fn gem_milestone_uses_the_later_of_required_level_and_act_entry() {
    let mut availability = StrMap::new();
    availability.insert(
        "Frostblink".to_string(),
        GemAvailability {
            act: 2,
            quest_id: "a2q1".into(),
            quest_name: "Q".into(),
            npc: Some("Yeena".into()),
            source: AvailabilitySource::Vendor,
        },
    );
    let mut act_entry = BTreeMap::new();
    act_entry.insert(1u8, 1u16);
    act_entry.insert(2u8, 13u16);
    let ctx = MilestoneCtx { by_name: poe_copilot::game_data::gems_by_name(&gems()), availability, act_entry };
    assert_eq!(gem_milestone("Frostblink", 4, &ctx), (13, "Gem available: Frostblink (buy from Yeena, A2)".to_string()));
    assert_eq!(gem_milestone("Frostblink", 20, &ctx), (20, "Gem available: Frostblink (buy from Yeena, A2)".to_string()));
    assert_eq!(gem_milestone("Toxic Rain", 12, &ctx), (12, "Gem available: Toxic Rain".to_string()));
}

#[test]
fn milestones_skip_low_levels_duplicates_and_sort_by_level_then_label() {
    let ctx = MilestoneCtx { by_name: StrMap::new(), availability: StrMap::new(), act_entry: BTreeMap::new() };
    let g = |name: &str, level: u8| GemPlan { name: name.into(), required_level: Some(level), is_support: Some(false), enabled: true };
    let sets = vec![
        SkillSetPlan { title: "b".into(), level_range: Some((5, 9)), gems: vec![g("Zap", 5), g("Arc", 5), g("Low", 1)] },
        SkillSetPlan { title: "a".into(), level_range: Some((1, 4)), gems: vec![g("Zap", 30), g("Low", 9)] },
    ];
    let ms = build_milestones(&sets, &ctx);
    let got: Vec<(u16, String)> = ms.iter().map(|m: &Milestone| (m.level, m.label.clone())).collect();
    assert_eq!(
        got,
        vec![
            (5, "Gem available: Arc".to_string()),
            (5, "Gem available: Zap".to_string()),
            (5, "Switch to skill set 'b'".to_string()),
        ]
    );
}

#[test]
fn a_pasted_code_is_previewed_or_refused_with_a_message() {
    let areas: AreaMap = StrMap::new();
    let summary = import_pob(XML, &gems(), &quests(), &areas).unwrap();
    assert_eq!(summary.class_name, "Ranger");
    assert_eq!(summary.milestone_count, 3);
    assert_eq!(summary.reliability, "structured");
    assert_eq!(
        parse_pob_code("https://pobb.in/x", &gems(), &quests(), &areas).unwrap_err(),
        "URLs are not supported; paste the raw PoB share code or XML instead"
    );
}

#[test]
fn notes_collect_text_and_cdata_and_are_trimmed() {
    let xml = "<PathOfBuilding><Build className=\"Duelist\"/><Notes>  Use &lt;b&gt; <![CDATA[<raw & kept>]]>  </Notes></PathOfBuilding>";
    let plan = parse_build(xml, &gems(), &StrMap::new(), &StrMap::new()).unwrap();
    assert_eq!(plan.notes.as_deref(), Some("Use <b><raw & kept>"));
    let empty = parse_build("<PathOfBuilding><Notes/></PathOfBuilding>", &gems(), &StrMap::new(), &StrMap::new()).unwrap();
    assert_eq!(empty.notes, None);
    let blank = parse_build("<PathOfBuilding><Notes>   </Notes></PathOfBuilding>", &gems(), &StrMap::new(), &StrMap::new()).unwrap();
    assert_eq!(blank.notes, None);
}
