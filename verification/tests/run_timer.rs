use poe_copilot::run_timer::{auto_start, elapsed_ms, is_area_entered, is_never_started, pause, start, toggle, RunTimerState};

#[test]
fn default_is_never_started() {
    let state = RunTimerState::default();
    assert!(is_never_started(&state));
    assert_eq!(elapsed_ms(&state, 1_000_000), 0);
}

#[test]
fn start_begins_a_running_stretch() {
    let started = start(RunTimerState::default(), 500_000);
    assert!(!is_never_started(&started));
    assert_eq!(started.running_since_ms, Some(500_000));
    assert_eq!(elapsed_ms(&started, 510_000), 10_000);
}

#[test]
fn start_on_an_already_running_timer_is_a_no_op() {
    let running = start(RunTimerState::default(), 500_000);
    assert_eq!(start(running, 600_000), running);
}

#[test]
fn pause_folds_the_stretch_into_accumulated() {
    let running = start(RunTimerState::default(), 500_000);
    let paused = pause(running, 560_000);
    assert_eq!(paused.accumulated_ms, 60_000);
    assert_eq!(paused.running_since_ms, None);
    assert_eq!(elapsed_ms(&paused, 900_000), 60_000);
}

#[test]
fn pause_on_a_paused_timer_is_a_no_op() {
    let paused = pause(start(RunTimerState::default(), 0), 10_000);
    assert_eq!(pause(paused, 99_000), paused);
}

#[test]
fn toggle_alternates_running_and_paused() {
    let s0 = RunTimerState::default();
    let s1 = toggle(s0, 100_000);
    assert!(s1.running_since_ms.is_some());
    let s2 = toggle(s1, 160_000);
    assert_eq!(s2.accumulated_ms, 60_000);
    assert_eq!(s2.running_since_ms, None);
    let s3 = toggle(s2, 200_000);
    assert_eq!(s3.accumulated_ms, 60_000);
    assert_eq!(s3.running_since_ms, Some(200_000));
}

#[test]
fn a_resumed_timer_is_not_never_started() {
    let paused = pause(start(RunTimerState::default(), 0), 10_000);
    assert!(!is_never_started(&paused));
}

#[test]
fn future_running_since_clamps_to_zero_stretch() {
    let skewed = RunTimerState { accumulated_ms: 60_000, running_since_ms: Some(900_000) };
    assert_eq!(elapsed_ms(&skewed, 800_000), 60_000);
    assert_eq!(pause(skewed, 800_000).accumulated_ms, 60_000);
}

#[test]
fn is_area_entered_matches_only_zone_entry_lines() {
    let enter = "2023/12/09 20:15:22 76515625 f22b6b26 [INFO Client 22384] : You have entered The Twilight Strand.";
    assert!(is_area_entered(enter));
    assert!(!is_area_entered("random chat line"));
    let level_up = "2023/12/09 20:20:00 76800000 f22b6b26 [INFO Client 22384] : Exile (Marauder) is now level 2";
    assert!(!is_area_entered(level_up));
}

#[test]
fn auto_start_only_starts_a_pristine_timer() {
    let started = auto_start(RunTimerState::default(), 42);
    assert_eq!(started, RunTimerState { accumulated_ms: 0, running_since_ms: Some(42) });
    let paused = pause(start(RunTimerState::default(), 0), 10_000);
    assert_eq!(auto_start(paused, 20_000), paused);
    assert_eq!(auto_start(started, 99), started);
}

#[test]
fn pausing_keeps_the_elapsed_time() {
    let running = start(RunTimerState::default(), 1_000);
    assert_eq!(elapsed_ms(&pause(running, 5_000), 5_000), elapsed_ms(&running, 5_000));
}

#[test]
fn toggling_a_paused_timer_twice_at_one_instant_is_no_change() {
    let paused = pause(start(RunTimerState::default(), 0), 10_000);
    assert_eq!(toggle(toggle(paused, 30_000), 30_000), paused);
}
