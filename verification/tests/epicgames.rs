use game_scanner::epicgames::{game_from_manifest, EpicManifest};
use game_scanner::error::ErrorKind;
use game_scanner::prelude::MatchIdentity;
use serde_json::Value;

/// Reads the manifest fields from JSON text, as an Epic `.item` file holds them.
fn manifest_from_json(text: &str) -> EpicManifest {
    let v: Value = serde_json::from_str(text).unwrap();
    let s = |k: &str| v[k].as_str().unwrap().to_string();
    let o = |k: &str| v.get(k).and_then(|x| x.as_str()).map(|x| x.to_string());
    EpicManifest {
        is_incomplete_install: v["bIsIncompleteInstall"].as_bool().unwrap(),
        app_name: s("AppName"),
        catalog_namespace: o("CatalogNamespace"),
        catalog_item_id: o("CatalogItemId"),
        display_name: s("DisplayName"),
        install_location: s("InstallLocation"),
        launch_executable: s("LaunchExecutable"),
    }
}

fn manifest(app: &str, incomplete: bool) -> EpicManifest {
    EpicManifest {
        is_incomplete_install: incomplete,
        app_name: app.to_string(),
        catalog_namespace: None,
        catalog_item_id: None,
        display_name: String::from("Game"),
        install_location: String::from("C:\\Game"),
        launch_executable: String::from("game.exe"),
    }
}

#[test]
fn reads_catalog_match_identity() {
    let text = r#"{
                "bIsIncompleteInstall": false,
                "AppName": "app-name",
                "CatalogNamespace": "catalog-namespace",
                "CatalogItemId": "catalog-item-id",
                "DisplayName": "Game",
                "InstallLocation": "C:\\Game",
                "LaunchExecutable": "game.exe"
            }"#;
    let game = game_from_manifest(manifest_from_json(text), "launcher.exe").ok().unwrap();
    assert!(matches!(
        game.match_identity,
        Some(MatchIdentity::Epic {
            catalog_namespace,
            catalog_item_id,
        }) if catalog_namespace == "catalog-namespace" && catalog_item_id == "catalog-item-id"
    ));
}

#[test]
fn epic_game_fields_and_launch_command() {
    let g = game_from_manifest(manifest("Fortnite", false), "C:\\Epic\\EpicGamesLauncher.exe").ok().unwrap();
    assert_eq!(g._type, "epicgames");
    assert_eq!(g.id, "Fortnite");
    assert_eq!(g.name, "Game");
    assert_eq!(g.path.as_deref(), Some("C:\\Game"));
    assert_eq!(
        g.commands.launch,
        Some(vec![
            String::from("C:\\Epic\\EpicGamesLauncher.exe"),
            String::from("com.epicgames.launcher://apps/Fortnite?action=launch&silent=true"),
        ])
    );
    assert!(g.commands.install.is_none() && g.commands.uninstall.is_none());
    assert!(g.state.installed);
    assert!(g.match_identity.is_none());
    let g = game_from_manifest(manifest("Fortnite", true), "l.exe").ok().unwrap();
    assert!(!g.state.installed);
}

#[test]
fn epic_identity_needs_both_catalog_fields() {
    let mut m = manifest("App", false);
    m.catalog_namespace = Some(String::from("ns"));
    let g = game_from_manifest(m, "l.exe").ok().unwrap();
    assert!(g.match_identity.is_none());
}

#[test]
fn unreal_engine_and_quixel_bridge_are_ignored() {
    for app in ["UE_5.3", "MyUEPlugin", "QuixelBridge"] {
        let err = game_from_manifest(manifest(app, false), "l.exe").err().unwrap();
        assert_eq!(err.kind, ErrorKind::IgnoredApp);
    }
    let err = game_from_manifest(manifest("UE_5.3", false), "l.exe").err().unwrap();
    assert_eq!(err.message, "(UE_5.3) Game is an invalid game");
    assert!(game_from_manifest(manifest("ue_lowercase", false), "l.exe").is_ok());
    assert!(game_from_manifest(manifest("Quixel", false), "l.exe").is_ok());
}
