use poe_copilot::compile::Variant;
use poe_copilot::config::{configs_equal, is_known_variant, map_variant, normalize_variant, AppConfig};

#[test]
fn default_config_has_a_valid_route_variant() {
    let cfg = AppConfig::default();
    assert_eq!(cfg.variant, "league-start");
    assert!(is_known_variant(cfg.variant.as_str()));
}

#[test]
fn normalize_variant_replaces_unknown_values() {
    let cfg = AppConfig {
        client_log_path: Some("/tmp/Client.txt".into()),
        variant: "hardcore-solo-self-found".into(),
        pob_code: None,
    };
    let normalized = normalize_variant(cfg);
    assert_eq!(normalized.variant, "league-start");
    assert_eq!(normalized.client_log_path.as_deref(), Some("/tmp/Client.txt"), "other fields are preserved");
}

#[test]
fn normalize_variant_leaves_known_values_untouched() {
    let cfg = AppConfig { client_log_path: None, variant: "standard".into(), pob_code: None };
    assert_eq!(normalize_variant(cfg).variant, "standard");
}

#[test]
fn configs_equal_compares_all_three_fields() {
    let a = AppConfig {
        client_log_path: Some("/tmp/Client.txt".into()),
        variant: "standard".into(),
        pob_code: Some("code".into()),
    };
    let same = a.clone();
    assert!(configs_equal(&a, &same));
    let different_path = AppConfig { client_log_path: Some("/tmp/Other.txt".into()), ..a.clone() };
    assert!(!configs_equal(&a, &different_path));
    let different_variant = AppConfig { variant: "league-start".into(), ..a.clone() };
    assert!(!configs_equal(&a, &different_variant));
    let different_code = AppConfig { pob_code: None, ..a.clone() };
    assert!(!configs_equal(&a, &different_code));
}

#[test]
fn map_variant_accepts_the_two_known_variants_only() {
    assert_eq!(map_variant("league-start"), Ok(Variant::LeagueStart));
    assert_eq!(map_variant("standard"), Ok(Variant::Standard));
    assert_eq!(map_variant("ruthless"), Err("unknown route variant: ruthless".to_string()));
    assert_eq!(map_variant(""), Err("unknown route variant: ".to_string()));
}

#[test]
fn variant_names_are_case_sensitive() {
    assert!(!is_known_variant("Standard"));
    assert_eq!(normalize_variant(AppConfig { client_log_path: None, variant: "Standard".into(), pob_code: None }).variant, "league-start");
}
