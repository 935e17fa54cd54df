use poe_copilot::fragment::Fragment;
use poe_copilot::route_engine::StepStatus;
use poe_copilot::task_engine::{PendingKind, TaskEngine};
use poe_copilot::walk::CompiledStep;

fn step(id: &str, ctx: &str, frags: Vec<Fragment>) -> CompiledStep {
    CompiledStep {
        id: id.into(),
        act: 1,
        section: "Act 1".into(),
        area_context: ctx.into(),
        fragments: frags,
        sub_steps: vec![],
    }
}

#[test]
fn portal_set_pends_and_portal_use_clears() {
    let mut t = TaskEngine::new();
    t.on_step_passed(&step("a1-s001", "1_1_4_1", vec![Fragment::PortalSet]), StepStatus::Done);
    assert_eq!(t.pending_count(), 1);
    assert_eq!(t.pending()[0].kind, PendingKind::Portal);
    assert!(t.pending()[0].label.contains("1_1_4_1"));
    t.on_step_passed(&step("a1-s005", "1_1_town", vec![Fragment::PortalUse]), StepStatus::Done);
    assert_eq!(t.pending_count(), 0);
}

#[test]
fn rewards_pend_only_when_skipped() {
    let mut t = TaskEngine::new();
    let s = step(
        "a1-s010",
        "1_1_town",
        vec![
            Fragment::RewardQuest { item: "Quicksilver Flask".into() },
            Fragment::RewardVendor { item: "Frostblink".into(), cost: None },
        ],
    );
    t.on_step_passed(&s, StepStatus::Done);
    assert_eq!(t.pending_count(), 0);
    t.on_step_passed(&s, StepStatus::Skipped);
    assert_eq!(t.pending_count(), 2);
    assert_eq!(t.town_reminders().len(), 2);
    assert!(t.pending()[0].label.contains("Quicksilver Flask"));
}

#[test]
fn trial_pends_regardless_of_status_and_ids_are_unique() {
    let mut t = TaskEngine::new();
    let s = step("a2-s020", "1_2_4", vec![Fragment::Trial, Fragment::PortalSet]);
    t.on_step_passed(&s, StepStatus::Done);
    assert_eq!(t.pending_count(), 2);
    let ids: std::collections::BTreeSet<_> = t.pending().iter().map(|p| p.id.clone()).collect();
    assert_eq!(ids.len(), 2);
    assert!(t.town_reminders().is_empty());
}

#[test]
fn sub_step_fragments_are_scanned_too() {
    let mut t = TaskEngine::new();
    let mut s = step("a1-s030", "1_1_7_1", vec![]);
    s.sub_steps = vec![vec![Fragment::Trial]];
    t.on_step_passed(&s, StepStatus::Done);
    assert_eq!(t.pending_count(), 1);
}

#[test]
fn crafting_pends_only_when_skipped() {
    let mut t = TaskEngine::new();
    let s = step("a2-s040", "1_2_5", vec![Fragment::Crafting { area_id: None }]);
    t.on_step_passed(&s, StepStatus::Done);
    assert_eq!(t.pending_count(), 0);
    t.on_step_passed(&s, StepStatus::Skipped);
    assert_eq!(t.pending_count(), 1);
    assert_eq!(t.town_reminders().len(), 1);
}

#[test]
fn task_ids_labels_and_zone_are_exact() {
    let mut t = TaskEngine::new();
    let mut s = step(
        "a3-s007",
        "1_3_2",
        vec![Fragment::PortalSet, Fragment::RewardVendor { item: "Flame Dash".into(), cost: None }],
    );
    s.sub_steps = vec![vec![Fragment::Trial], vec![Fragment::Crafting { area_id: None }]];
    t.on_step_passed(&s, StepStatus::Skipped);
    let p = t.pending();
    assert_eq!(p.len(), 4);
    assert_eq!(p[0].id, "a3-s007:portal:0");
    assert_eq!(p[0].label, "Portal placed in 1_3_2");
    assert_eq!(p[1].id, "a3-s007:vendorreward:1");
    assert_eq!(p[1].label, "Buy from vendor: Flame Dash");
    assert_eq!(p[2].id, "a3-s007:trial:2");
    assert_eq!(p[2].label, "Trial of Ascendancy in 1_3_2");
    assert_eq!(p[3].id, "a3-s007:crafting:3");
    assert_eq!(p[3].kind, PendingKind::Crafting);
    assert_eq!(p[3].zone_area_id, "1_3_2");
    assert_eq!(p[3].step_id, "a3-s007");
    // A later portal use closes the open portal but keeps the rest.
    t.on_step_passed(&step("a3-s008", "1_3_town", vec![Fragment::PortalUse]), StepStatus::Done);
    assert_eq!(t.pending_count(), 3);
    assert!(t.pending().iter().all(|p| p.kind != PendingKind::Portal));
    assert_eq!(t.town_reminders().len(), 2);
}

#[test]
fn a_portal_use_closes_only_portals() {
    let mut t = TaskEngine::new();
    t.on_step_passed(&step("a1-s001", "1_1_3", vec![Fragment::Trial, Fragment::PortalSet]), StepStatus::Done);
    t.on_step_passed(
        &step("a1-s002", "1_1_town", vec![Fragment::RewardQuest { item: "Flask".into() }]),
        StepStatus::Skipped,
    );
    t.on_step_passed(&step("a1-s003", "1_1_town", vec![Fragment::PortalUse]), StepStatus::Done);
    let kinds: Vec<PendingKind> = t.pending().iter().map(|p| p.kind).collect();
    assert_eq!(kinds, vec![PendingKind::Trial, PendingKind::QuestReward]);
    assert_eq!(t.pending()[0].id, "a1-s001:trial:0");
    assert_eq!(t.pending()[1].id, "a1-s002:questreward:0");
    assert_eq!(t.pending()[1].label, "Claim quest reward: Flask");
}
