use poe_copilot::hotkeys::{bindings, HotkeyAction, HotkeyConfig};

#[test]
fn defaults_match_the_frontend_defaults() {
    let cfg = HotkeyConfig::default();
    assert_eq!(cfg.zoom, "alt+shift+z");
    assert_eq!(cfg.compact, "alt+shift+c");
    assert_eq!(cfg.hide, "alt+shift+h");
    assert_eq!(cfg.setup, "alt+shift+s");
    assert_eq!(cfg.settings, "alt+shift+o");
    assert_eq!(cfg.timer, "alt+shift+t");
}

#[test]
fn bindings_covers_every_action_once() {
    let cfg = HotkeyConfig::default();
    let combos: Vec<&str> = bindings(&cfg).iter().map(|(_, c)| *c).collect();
    assert_eq!(combos, vec!["alt+shift+z", "alt+shift+c", "alt+shift+h", "alt+shift+s", "alt+shift+o", "alt+shift+t"]);
}

#[test]
fn bindings_pair_each_action_with_its_own_field() {
    let cfg = HotkeyConfig {
        zoom: "a".into(),
        compact: "b".into(),
        hide: "c".into(),
        setup: "d".into(),
        settings: "e".into(),
        timer: "f".into(),
    };
    let b = bindings(&cfg);
    assert_eq!(b[0], (HotkeyAction::Zoom, "a"));
    assert_eq!(b[1], (HotkeyAction::Compact, "b"));
    assert_eq!(b[2], (HotkeyAction::Hide, "c"));
    assert_eq!(b[3], (HotkeyAction::Setup, "d"));
    assert_eq!(b[4], (HotkeyAction::Settings, "e"));
    assert_eq!(b[5], (HotkeyAction::Timer, "f"));
}
