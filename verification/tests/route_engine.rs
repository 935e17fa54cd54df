use poe_copilot::composer::compose;
use poe_copilot::game_data::{Area, AreaMap};
use poe_copilot::task_engine::TaskEngine;
use poe_copilot::map::StrMap;
use poe_copilot::route_engine::{AdvanceKind, LocationStatus, RouteEngine, StepStatus, LOOKAHEAD_GROUPS};
use poe_copilot::walk::CompiledStep;

/// Group contexts of a compact act-1-like route, with step counts.
const ROUTE: &[(&str, usize)] = &[
    ("1_1_1", 2),
    ("1_1_town", 2),
    ("1_1_2", 2),
    ("1_1_3", 1),
    ("1_1_4_1", 1),
    ("1_1_4_2", 1),
    ("1_1_2", 1),
    ("1_1_5", 2),
    ("1_1_6", 1),
    ("1_2_town", 1),
    ("1_2_1", 1),
];

fn area(id: &str, town: bool) -> Area {
    Area {
        id: id.into(),
        name: id.into(),
        act: 1,
        level: Some(1),
        has_waypoint: false,
        is_town_area: town,
        parent_town_area_id: None,
        connection_ids: vec![],
        crafting_recipes: vec![],
    }
}

fn engine() -> RouteEngine {
    let mut steps = Vec::new();
    for (ctx, n) in ROUTE {
        for _ in 0..*n {
            steps.push(CompiledStep {
                id: format!("a1-s{:03}", steps.len() + 1),
                act: 1,
                section: "Act 1".into(),
                area_context: ctx.to_string(),
                fragments: vec![],
                sub_steps: vec![],
            });
        }
    }
    let mut areas: AreaMap = StrMap::new();
    for (ctx, _) in ROUTE {
        areas.insert(ctx.to_string(), area(ctx, ctx.ends_with("town")));
    }
    RouteEngine::new(steps, areas)
}

fn group_starts(e: &RouteEngine) -> Vec<(usize, String)> {
    let mut v: Vec<(usize, String)> = Vec::new();
    for (i, s) in e.steps().iter().enumerate() {
        if v.last().map(|l| &l.1) != Some(&s.area_context) {
            v.push((i, s.area_context.clone()));
        }
    }
    v
}

fn is_town(ctx: &str) -> bool {
    ctx.ends_with("town")
}

/// A non-town context that occurs at two groups `gi` and `gj` far enough
/// apart that, once group `gi + 1` is active, `gj` lies beyond lookahead.
fn repeated_far_context(groups: &[(usize, String)]) -> (usize, usize, String) {
    for gi in 0..groups.len() {
        if is_town(&groups[gi].1) {
            continue;
        }
        let min_gj = gi + LOOKAHEAD_GROUPS + 2;
        for gj in min_gj..groups.len() {
            if groups[gi].1 == groups[gj].1 {
                return (gi, gj, groups[gi].1.clone());
            }
        }
    }
    panic!("expected at least one non-town context to repeat far enough apart in the route");
}

#[test]
fn starts_at_first_group_twilight_strand() {
    let e = engine();
    assert_eq!(e.active_area(), Some("1_1_1"));
    assert_eq!(e.focus_area(), Some("1_1_1"));
    assert_eq!(e.act(), Some(1));
    assert_eq!(e.focus_act(), Some(1));
    assert!(!e.active_steps().is_empty());
    assert!(!e.focus_steps().is_empty());
    assert!(!e.is_complete());
    assert_eq!(e.location_status(), LocationStatus::OnTrack);
    assert_eq!(e.groups_behind(), 0);
    assert_eq!(e.active_steps().len(), 2);
    assert_eq!(e.focus_steps().len(), 2);
}

#[test]
fn advances_through_expected_lookahead() {
    let mut e = engine();
    let a = e.on_area_entered("1_1_town", true);
    assert_eq!(a.kind, AdvanceKind::Advanced);
    assert_eq!(e.active_area(), Some("1_1_town"));
    assert_eq!(e.focus_area(), Some("1_1_town"));
    assert_eq!(e.location_status(), LocationStatus::OnTrack);
    assert_eq!(e.groups_behind(), 0);
    // The bypassed 1_1_1 group is Done (it was the active group).
    assert!(a.newly_done.iter().all(|&i| e.steps()[i].area_context == "1_1_1"));
    assert!(a.newly_skipped.is_empty());
    assert_eq!(a.newly_done, vec![0, 1]);

    let a = e.on_area_entered("1_1_2", true);
    assert_eq!(a.kind, AdvanceKind::Advanced);
    assert_eq!(e.active_area(), Some("1_1_2"));
    assert_eq!(e.focus_area(), Some("1_1_2"));
    assert_eq!(e.location_status(), LocationStatus::OnTrack);
}

#[test]
fn duplicate_event_is_idempotent_in_place() {
    let mut e = engine();
    e.on_area_entered("1_1_town", true);
    let a = e.on_area_entered("1_1_town", false);
    assert_eq!(a.kind, AdvanceKind::InPlace);
    assert!(a.newly_done.is_empty() && a.newly_skipped.is_empty());
}

#[test]
fn unexpected_non_route_area_is_off_route_and_resumable() {
    let mut e = engine();
    e.on_area_entered("1_1_town", true);
    e.on_area_entered("1_1_2", true);
    let cursor_before = e.cursor();
    let a = e.on_area_entered("totally_bogus_hideout", true);
    assert_eq!(a.kind, AdvanceKind::OffRoute { area_id: "totally_bogus_hideout".into() });
    assert_eq!(e.cursor(), cursor_before);
    assert_eq!(e.off_route(), Some("totally_bogus_hideout"));
    assert_eq!(e.active_area(), Some("1_1_2"));
    assert_eq!(e.focus_area(), Some("1_1_2"));
    let a = e.on_area_entered("1_1_2", false);
    assert_eq!(a.kind, AdvanceKind::Resumed);
    assert_eq!(e.off_route(), None);
}

#[test]
fn distant_never_visited_town_same_instance_is_off_route() {
    let mut e = engine();
    assert!(is_town("1_2_town") && area("1_2_town", true).is_town_area);
    let a = e.on_area_entered("1_2_town", false);
    assert_eq!(a.kind, AdvanceKind::OffRoute { area_id: "1_2_town".into() });
    assert_eq!(e.active_area(), Some("1_1_1"));
    assert_eq!(e.focus_area(), Some("1_1_1"));
    assert_eq!(e.cursor(), 0);
}

#[test]
fn distant_forward_field_zone_jumps_with_skips() {
    let mut e = engine();
    e.on_area_entered("1_1_town", true);
    e.on_area_entered("1_1_2", true);
    let a = e.on_area_entered("1_1_5", true);
    assert_eq!(a.kind, AdvanceKind::Advanced);
    assert_eq!(e.active_area(), Some("1_1_5"));
    assert_eq!(e.focus_area(), Some("1_1_5"));
    assert_eq!(e.location_status(), LocationStatus::OnTrack);
    assert!(!a.newly_skipped.is_empty(), "bypassed groups must be Skipped");
    // The formerly active Coast group counts as Done, not Skipped.
    assert!(a.newly_done.iter().any(|&i| e.steps()[i].area_context == "1_1_2"));
    assert_eq!(a.newly_done, vec![4, 5]);
    assert_eq!(a.newly_skipped, vec![6, 7, 8, 9]);
}

#[test]
fn fresh_distant_field_zone_still_jumps() {
    let mut e = engine();
    e.on_area_entered("1_1_town", true);
    e.on_area_entered("1_1_2", true);
    let a = e.on_area_entered("1_1_5", true);
    assert_eq!(a.kind, AdvanceKind::Advanced);
    assert_eq!(e.active_area(), Some("1_1_5"));
}

#[test]
fn revisited_field_zone_beyond_lookahead_becomes_a_behind_detour_not_a_forward_jump() {
    let groups = group_starts(&engine());
    let (gi, gj, ctx) = repeated_far_context(&groups);
    let mut e = engine();
    for (_, c) in &groups[0..=gi + 1] {
        e.on_area_entered(c, true);
    }
    assert_eq!(e.cursor(), groups[gi + 1].0, "test setup: cursor mismatch");
    let group_offset = gj - (gi + 1);
    assert!(group_offset > LOOKAHEAD_GROUPS, "test setup: target must be beyond lookahead, got offset {group_offset}");
    let frontier_before = e.cursor();
    let a = e.on_area_entered(&ctx, false);
    assert_eq!(a.kind, AdvanceKind::Detour { catching_up: false });
    assert_eq!(e.cursor(), frontier_before, "frontier must not move");
    assert_ne!(e.cursor(), groups[gj].0, "must not have jumped to the later occurrence");
    assert_eq!(e.focus_area(), Some(ctx.as_str()));
    assert_eq!(e.location_status(), LocationStatus::Revisiting);
    assert_eq!(e.groups_behind(), 0);
}

#[test]
fn repeated_off_route_event_is_ignored() {
    let mut e = engine();
    e.on_area_entered("1_1_town", true);
    e.on_area_entered("1_1_2", true);
    let first = e.on_area_entered("totally_bogus_repeat", true);
    assert_eq!(first.kind, AdvanceKind::OffRoute { area_id: "totally_bogus_repeat".into() });
    let cursor_before = e.cursor();
    let second = e.on_area_entered("totally_bogus_repeat", false);
    assert_eq!(second.kind, AdvanceKind::Ignored);
    assert!(second.newly_done.is_empty() && second.newly_skipped.is_empty());
    assert_eq!(e.cursor(), cursor_before);
    assert_eq!(e.off_route(), Some("totally_bogus_repeat"));
    assert_eq!(e.active_area(), Some("1_1_2"));
    assert_eq!(e.focus_area(), Some("1_1_2"));
}

#[test]
fn unknown_area_id_is_off_route_not_panic() {
    let mut e = engine();
    let a = e.on_area_entered("totally_bogus", true);
    assert_eq!(a.kind, AdvanceKind::OffRoute { area_id: "totally_bogus".into() });
    assert_eq!(e.focus_area(), Some("1_1_1"));
}

#[test]
fn cursor_is_monotonic_across_full_route_replay() {
    let mut e = engine();
    let contexts: Vec<String> = {
        let mut cs: Vec<String> = Vec::new();
        for s in e.steps() {
            if cs.last() != Some(&s.area_context) {
                cs.push(s.area_context.clone());
            }
        }
        cs
    };
    let mut last_cursor = 0;
    for c in &contexts {
        e.on_area_entered(c, true);
        assert!(e.cursor() >= last_cursor, "cursor moved backward at {c}");
        last_cursor = e.cursor();
    }
    assert!(e.is_complete());
    assert_eq!(e.act(), None);
    assert!(e.active_steps().is_empty());
    assert!(e.statuses().iter().all(|s| *s == StepStatus::Done));
    let first_ctx = e.steps()[0].area_context.clone();
    let a = e.on_area_entered(&first_ctx, true);
    assert!(matches!(a.kind, AdvanceKind::Detour { .. }));
    assert!(e.is_complete(), "frontier stays complete after a detour");
    assert_eq!(e.focus_area(), Some(first_ctx.as_str()));
    assert_eq!(e.on_area_entered("totally_bogus_after_complete", true).kind, AdvanceKind::Ignored);
}

#[test]
fn next_transition_area_names_the_following_group() {
    let mut e = engine();
    assert_eq!(e.next_transition_area(), Some("1_1_town"));
    e.on_area_entered("1_1_town", true);
    assert_eq!(e.next_transition_area(), Some("1_1_2"));
}

#[test]
fn restart_returns_a_completed_route_to_the_start() {
    let mut e = engine();
    let contexts: Vec<String> = {
        let mut cs: Vec<String> = Vec::new();
        for s in e.steps() {
            if cs.last() != Some(&s.area_context) {
                cs.push(s.area_context.clone());
            }
        }
        cs
    };
    for c in &contexts {
        e.on_area_entered(c, true);
    }
    assert!(e.is_complete());
    e.restart();
    assert!(!e.is_complete());
    assert_eq!(e.cursor(), 0);
    let first = e.steps()[0].area_context.clone();
    assert_eq!(e.active_area(), Some(first.as_str()));
    assert_eq!(e.focus_area(), Some(first.as_str()));
    assert!(e.off_route().is_none());
    assert!(e.statuses().iter().all(|&s| s == StepStatus::Pending), "all steps return to Pending after restart");
}

#[test]
fn new_instance_of_a_repeated_forward_zone_advances() {
    let groups = group_starts(&engine());
    let (gi, gj, ctx) = repeated_far_context(&groups);

    let mut e_same = engine();
    for (_, c) in &groups[0..=gi + 1] {
        e_same.on_area_entered(c, true);
    }
    let cursor_before = e_same.cursor();
    let a_same = e_same.on_area_entered(&ctx, false);
    assert_eq!(a_same.kind, AdvanceKind::Detour { catching_up: false });
    assert_eq!(e_same.cursor(), cursor_before);
    assert_eq!(e_same.focus_area(), Some(ctx.as_str()));

    let mut e_new = engine();
    for (_, c) in &groups[0..=gi + 1] {
        e_new.on_area_entered(c, true);
    }
    let a_new = e_new.on_area_entered(&ctx, true);
    assert_eq!(a_new.kind, AdvanceKind::Advanced);
    assert_eq!(e_new.active_area(), Some(ctx.as_str()));
    assert_eq!(e_new.focus_area(), Some(ctx.as_str()));
    assert_eq!(e_new.location_status(), LocationStatus::OnTrack);
    assert_eq!(e_new.cursor(), groups[gj].0);
    assert!(
        !a_new.newly_skipped.is_empty() || !a_new.newly_done.is_empty(),
        "intervening steps must be marked done/skipped"
    );
}

#[test]
fn behind_skipped_zone_is_catching_up_then_revisiting_on_second_entry() {
    let mut e = engine();
    e.on_area_entered("1_1_town", true);
    e.on_area_entered("1_1_2", true);
    let jump = e.on_area_entered("1_1_5", true);
    assert_eq!(jump.kind, AdvanceKind::Advanced);
    let skipped_idx = *jump.newly_skipped.first().expect("jump should skip at least one group");
    let skipped_ctx = e.steps()[skipped_idx].area_context.clone();
    assert_eq!(e.statuses()[skipped_idx], StepStatus::Skipped);

    let frontier_before = e.cursor();
    let a = e.on_area_entered(&skipped_ctx, false);
    assert_eq!(a.kind, AdvanceKind::Detour { catching_up: true });
    assert_eq!(e.cursor(), frontier_before, "frontier must stay put");
    assert_eq!(e.focus_area(), Some(skipped_ctx.as_str()));
    assert_eq!(e.location_status(), LocationStatus::CatchingUp);
    assert!(e.groups_behind() > 0);
    assert_eq!(e.groups_behind(), 3);
    assert_eq!(e.off_route(), None);

    let rejoin = e.on_area_entered("1_1_5", false);
    assert_eq!(rejoin.kind, AdvanceKind::Advanced);
    assert_eq!(e.cursor(), frontier_before, "frontier unchanged by the rejoin");
    assert_eq!(e.focus_area(), Some("1_1_5"));
    assert_eq!(e.location_status(), LocationStatus::OnTrack);
    assert_eq!(e.groups_behind(), 0);

    let a2 = e.on_area_entered(&skipped_ctx, false);
    assert_eq!(a2.kind, AdvanceKind::Detour { catching_up: false });
    assert_eq!(e.location_status(), LocationStatus::Revisiting);
    assert_eq!(e.cursor(), frontier_before, "frontier still unchanged");
}

#[test]
fn new_instance_forward_advance_after_detour_rejoins_focus_on_track() {
    let mut e = engine();
    e.on_area_entered("1_1_town", true);
    e.on_area_entered("1_1_2", true);
    let jump = e.on_area_entered("1_1_5", true);
    let skipped_idx = *jump.newly_skipped.first().expect("jump should skip at least one group");
    let skipped_ctx = e.steps()[skipped_idx].area_context.clone();

    e.on_area_entered(&skipped_ctx, false);
    assert_eq!(e.location_status(), LocationStatus::CatchingUp);
    assert!(e.groups_behind() > 0);

    let frontier_before = e.cursor();
    let groups = group_starts(&e);
    let next_start = groups.iter().map(|g| g.0).find(|&s| s > frontier_before).expect("a following group");
    let next_ctx = e.steps()[next_start].area_context.clone();
    let a = e.on_area_entered(&next_ctx, true);
    assert_eq!(a.kind, AdvanceKind::Advanced);
    assert!(e.cursor() > frontier_before, "frontier must advance forward");
    assert_eq!(e.focus_area(), Some(next_ctx.as_str()));
    assert_eq!(e.location_status(), LocationStatus::OnTrack);
    assert_eq!(e.groups_behind(), 0);
    assert_eq!(e.off_route(), None);
}

#[test]
fn repeated_entry_of_a_group_changes_nothing() {
    let mut e = engine();
    e.on_area_entered("1_1_town", true);
    let before: Vec<StepStatus> = e.statuses().to_vec();
    let again = e.on_area_entered("1_1_town", true);
    assert_eq!(again.kind, AdvanceKind::InPlace);
    assert_eq!(e.statuses(), &before[..]);
    assert_eq!(e.cursor(), 2);
}

#[test]
fn overlay_follows_the_focus_during_a_detour() {
    let mut e = engine();
    let groups = group_starts(&e);
    for (_, c) in &groups[0..=3] {
        e.on_area_entered(c, true);
    }
    let a = e.on_area_entered("1_1_2", false);
    assert_eq!(a.kind, AdvanceKind::Detour { catching_up: false });
    assert_ne!(e.focus_area(), e.active_area());
    let mut areas: AreaMap = StrMap::new();
    for (ctx, _) in ROUTE {
        areas.insert(ctx.to_string(), area(ctx, ctx.ends_with("town")));
    }
    let m = compose(&e, &TaskEngine::new(), &StrMap::new(), &areas, None);
    assert_eq!(m.area_id, "1_1_2");
    assert_eq!(m.zone_name, "1_1_2");
    assert!(!m.route_complete);
}

#[test]
fn newly_marked_steps_are_exactly_those_that_changed() {
    let mut e = engine();
    for ctx in ["1_1_town", "1_1_2", "1_1_5", "1_1_3", "1_2_town"] {
        let before: Vec<StepStatus> = e.statuses().to_vec();
        let a = e.on_area_entered(ctx, true);
        for (i, (b, n)) in before.iter().zip(e.statuses().iter()).enumerate() {
            let done = *b == StepStatus::Pending && *n == StepStatus::Done;
            let skipped = *b == StepStatus::Pending && *n == StepStatus::Skipped;
            assert_eq!(a.newly_done.contains(&i), done);
            assert_eq!(a.newly_skipped.contains(&i), skipped);
        }
        assert!(a.newly_done.iter().chain(a.newly_skipped.iter()).all(|&i| i < e.cursor()));
    }
}
