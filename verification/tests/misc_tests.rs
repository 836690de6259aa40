use chicken::content::graphics::GraphicsSettings;
use chicken::exitcodes::ExitCode;
use chicken::identity::PlayerIdentity;
use chicken::settings::loader::{plan_save, result_action, settle_load, AsyncFileStorage, ResultAction, SavePlan};
use chicken::settings::error::SettingsError;
use chicken::settings::path::SettingsPath;

#[test]
fn exit_codes() {
    assert_eq!(ExitCode::GenericFatal.code(), 1);
    assert_eq!(ExitCode::ServerGoingPrivateFailed.code(), 5);
    assert_eq!(ExitCode::ServerShutdownFailed.description(), "Server shutdown failed. Read logs for details.");
}

#[test]
fn player_identities() {
    let local = PlayerIdentity::local("Anna".to_string());
    assert_eq!(local.player_id, "local:Anna");
    assert!(!local.is_steam());
    let steam = PlayerIdentity::steam(76561198000000000, "Bob".to_string());
    assert_eq!(steam.player_id, "steam:76561198000000000");
    assert!(steam.is_steam());
}

#[test]
fn load_falls_back_to_defaults_when_missing() {
    let r: Result<u32, SettingsError> = settle_load(Err(SettingsError::NotFound("x".to_string())), 7);
    assert_eq!(r.unwrap(), 7);
    let r: Result<u32, SettingsError> = settle_load(Ok(3), 7);
    assert_eq!(r.unwrap(), 3);
    let r: Result<u32, SettingsError> = settle_load(Err(SettingsError::Runtime("x".to_string())), 7);
    assert!(r.is_err());
}

#[test]
fn save_plans() {
    assert_eq!(plan_save(true, true, 2), SavePlan::EditExisting);
    assert_eq!(plan_save(true, true, 0), SavePlan::Unchanged);
    assert_eq!(plan_save(true, false, 2), SavePlan::FullWrite);
    assert_eq!(plan_save(false, true, 2), SavePlan::FullWrite);
    assert_eq!(result_action(false, true, true), ResultAction::Skip);
    assert_eq!(result_action(true, false, true), ResultAction::EmitLoadedThenInsert);
    assert_eq!(result_action(true, true, false), ResultAction::EmitSaveFailed);
}

#[test]
fn file_storage_paths() {
    let s = AsyncFileStorage::with_base_path("/data".to_string());
    assert_eq!(s.base_path(), "/data");
    let p = SettingsPath::new("test/settings.toml").unwrap();
    assert_eq!(s.resolve_path(&p), "/data/test/settings.toml");
}

#[test]
fn graphics_settings() {
    let d = GraphicsSettings::default();
    assert_eq!(d.resolution, (1920, 1080));
    assert!(!d.fullscreen);
    let g = GraphicsSettings::new((800, 600), true);
    assert_eq!(g, GraphicsSettings { resolution: (800, 600), fullscreen: true });
}
