use chicken::settings::error::SettingsError;
use chicken::settings::format::Format;

#[test]
fn test_format_from_path() {
    assert_eq!(Format::from_path("test.toml").unwrap(), Format::Toml);
}

#[test]
fn test_format_extensions() {
    assert_eq!(Format::Toml.extension(), "toml");
}

#[test]
fn format_from_path_ignores_case_of_extension() {
    assert_eq!(Format::from_path("Settings.TOML").unwrap(), Format::Toml);
}

#[test]
fn format_from_path_refuses_other_extensions() {
    assert!(matches!(
        Format::from_path("settings.json"),
        Err(SettingsError::InvalidExtension(p)) if p == "settings.json"
    ));
    assert!(matches!(
        Format::from_path("settings"),
        Err(SettingsError::InvalidExtension(p)) if p == "settings"
    ));
    assert!(matches!(
        Format::from_path(".toml"),
        Err(SettingsError::InvalidExtension(p)) if p == ".toml"
    ));
    assert_eq!(Format::from_path("config/game.v2.toml").unwrap(), Format::Toml);
}

#[test]
fn toml_supports_delta() {
    assert!(Format::Toml.supports_delta());
}
