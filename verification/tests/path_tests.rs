use chicken::settings::error::SettingsError;
use chicken::settings::path::{PathContext, PlaceholderValues, SettingsPath};

#[test]
fn test_settings_path_creation() {
    let path = SettingsPath::new("settings/audio.json").unwrap();
    assert_eq!(path.as_str(), "settings/audio.json");
    assert_eq!(path.extension(), Some("json"));
}

#[test]
fn test_resolve_placeholders() {
    let path = SettingsPath::new("saves/{slot_id}/game.json").unwrap();

    let mut values = PlaceholderValues::new();
    values.insert("slot_id".to_string(), "42".to_string());

    let resolved = path.resolve_placeholders(&values).unwrap();
    assert_eq!(resolved.as_str(), "saves/42/game.json");
}

#[test]
fn test_extract_placeholders() {
    let path = SettingsPath::new("saves/{slot_id}/{player_name}/game.json").unwrap();
    let placeholders = path.extract_placeholders();

    assert_eq!(placeholders, vec!["slot_id", "player_name"]);
}

#[test]
fn test_has_placeholders() {
    let with = SettingsPath::new("saves/{id}/game.json").unwrap();
    let without = SettingsPath::new("settings/global.json").unwrap();

    assert!(with.has_placeholders());
    assert!(!without.has_placeholders());
}

#[test]
fn resolve_fails_on_missing_value() {
    let path = SettingsPath::new("saves/{slot_id}/game.json").unwrap();
    let values = PlaceholderValues::new();
    assert!(path.resolve_placeholders(&values).is_err());
}

#[test]
fn resolve_fails_on_unclosed_brace() {
    let path = SettingsPath::new("saves/{slot_id/game.json").unwrap();
    let mut values = PlaceholderValues::new();
    values.insert("slot_id".to_string(), "1".to_string());
    assert!(path.resolve_placeholders(&values).is_err());
}

#[test]
fn later_placeholder_value_wins() {
    let path = SettingsPath::new("{a}.toml").unwrap();
    let mut values = PlaceholderValues::new();
    values.insert("a".to_string(), "x".to_string());
    values.insert("a".to_string(), "y".to_string());
    assert_eq!(path.resolve_placeholders(&values).unwrap().as_str(), "y.toml");
}

#[test]
fn context_resolution() {
    // a template without a complete placeholder comes back unchanged, even with a stray `{`
    assert_eq!(().resolve_path("settings/global.toml").unwrap().as_str(), "settings/global.toml");
    assert_eq!(().resolve_path("saves/{slot/game.toml").unwrap().as_str(), "saves/{slot/game.toml");
    match ().resolve_path("saves/{slot}/game.toml") {
        Err(SettingsError::PathResolution(m)) => assert_eq!(m, "Cannot resolve placeholder 'slot'"),
        _ => panic!("expected a resolution error"),
    }
}

#[test]
fn parent_and_join() {
    let path = SettingsPath::new("settings/audio.toml").unwrap();
    assert_eq!(path.parent().unwrap().as_str(), "settings");
    assert_eq!(path.join("extra.toml").as_str(), "settings/audio.toml/extra.toml");
    assert_eq!(SettingsPath::new("audio.toml").unwrap().extension(), Some("toml"));
    assert_eq!(SettingsPath::new("audio").unwrap().extension(), None);
}

#[test]
fn plain_path_extension_and_parent() {
    let ext = |s: &str| SettingsPath::new(s).unwrap().extension().map(|e| e.to_string());
    assert_eq!(ext("settings/audio.toml"), Some("toml".to_string()));
    assert_eq!(ext("saves/3/game.tar.gz"), Some("gz".to_string()));
    assert_eq!(ext("settings/.hidden"), None);
    assert_eq!(ext("settings/.hidden.toml"), Some("toml".to_string()));
    assert_eq!(ext("a/b."), Some("".to_string()));
    assert_eq!(ext("README"), None);
    let parent = |s: &str| SettingsPath::new(s).unwrap().parent().map(|p| p.as_str().to_string());
    assert_eq!(parent("saves/3/game.toml"), Some("saves/3".to_string()));
    assert_eq!(parent("game.toml"), Some("".to_string()));
    assert_eq!(parent(""), None);
}

#[test]
fn unit_context_has_no_values() {
    let m = ().to_map();
    assert!(m.get("anything").is_none());
}

#[test]
fn join_appends_after_a_separator() {
    let base = SettingsPath::new("settings").unwrap();
    assert_eq!(base.join("audio.toml").as_str(), "settings/audio.toml");
    assert_eq!(base.join("a/b.toml").as_str(), "settings/a/b.toml");
    assert_eq!(base.join("/abs/x.toml").as_str(), "/abs/x.toml");
    assert_eq!(SettingsPath::new("").unwrap().join("x.toml").as_str(), "x.toml");
}
