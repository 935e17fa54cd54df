use poe_copilot::crate_ready;
use poe_copilot::data_root::{resolve, vendor_dir};
use poe_copilot::replay::fixtures_dir;

#[test]
fn resolve_prefers_env_over_once() {
    let env_path = "/tmp/env-root".to_string();
    let once_path = "/tmp/once-root".to_string();
    assert_eq!(resolve(Some(env_path.clone()), Some(&once_path), "/repo".to_string()), env_path);
}

#[test]
fn resolve_falls_back_to_once_without_env() {
    let once_path = "/tmp/once-root".to_string();
    assert_eq!(resolve(None, Some(&once_path), "/repo".to_string()), once_path);
}

#[test]
fn resolve_falls_back_to_default_without_env_or_once() {
    assert_eq!(resolve(None, None, "/repo".to_string()), "/repo");
}

#[test]
fn vendored_data_and_fixtures_sit_under_their_roots() {
    assert_eq!(vendor_dir("/repo"), "/repo/vendor/exile-leveling");
    assert_eq!(fixtures_dir("/repo/crates/replay"), "/repo/crates/replay/fixtures");
}

#[test]
fn workspace_builds() {
    assert!(crate_ready());
}
