//! Epic Games Launcher manifests (`*.item` files).
use vstd::prelude::*;
use crate::error::{Error, ErrorKind};
use crate::prelude::{Game, GameCommands, GameState, GameType, MatchIdentity, launcher_name};
use crate::text::{contains, contains_text};

verus! {

/// The fields of an Epic Games manifest that the scanner reads.
pub struct EpicManifest {
    /// `bIsIncompleteInstall`
    pub is_incomplete_install: bool,
    /// `AppName`
    pub app_name: String,
    /// `CatalogNamespace`
    pub catalog_namespace: Option<String>,
    /// `CatalogItemId`
    pub catalog_item_id: Option<String>,
    /// `DisplayName`
    pub display_name: String,
    /// `InstallLocation`
    pub install_location: String,
    /// `LaunchExecutable`
    pub launch_executable: String,
}

/// An app that is not a game: an Unreal Engine build or Quixel Bridge.
pub open spec fn is_ignored_app(app_name: Seq<char>) -> bool {
    contains_text(app_name, "UE"@) || contains_text(app_name, "QuixelBridge"@)
}

/// The message that refuses an app that is not a game.
pub open spec fn ignored_app_message(app_name: Seq<char>, display_name: Seq<char>) -> Seq<char> {
    "("@ + app_name + ") "@ + display_name + " is an invalid game"@
}

/// The launcher URI that launches an app silently.
pub open spec fn launch_uri(app_name: Seq<char>) -> Seq<char> {
    "com.epicgames.launcher://apps/"@ + app_name + "?action=launch&silent=true"@
}

/// The game a manifest describes, launched through `launcher_executable`.
///
/// Fails with `IgnoredApp` exactly when the app name contains `UE` or
/// `QuixelBridge`, with the message `(app name) display name is an invalid
/// game`. Otherwise: the id is the app name, the name the display
/// name, the path the install location; the launch command runs the launcher
/// with the app's launch URI; the game is installed unless the install is
/// incomplete; the catalog identity is present when both catalog fields are.
pub fn game_from_manifest(manifest: EpicManifest, launcher_executable: &str) -> (r: Result<Game, Error>)
    ensures
        is_ignored_app(manifest.app_name@) <==> r is Err,
        r matches Err(e) ==> e.kind == ErrorKind::IgnoredApp && e.message@ == ignored_app_message(
            manifest.app_name@,
            manifest.display_name@,
        ),
        r matches Ok(g) ==> {
            &&& g._type@ == launcher_name(GameType::EpicGames)
            &&& g.id@ == manifest.app_name@
            &&& g.name@ == manifest.display_name@
            &&& g.path matches Some(p) && p@ == manifest.install_location@
            &&& g.commands.install is None
            &&& g.commands.uninstall is None
            &&& g.commands.launch matches Some(cmd) && cmd@.len() == 2 && cmd@[0]@ == launcher_executable@
                && cmd@[1]@ == launch_uri(manifest.app_name@)
            &&& g.state.installed == !manifest.is_incomplete_install
            &&& !g.state.needs_update && !g.state.downloading
            &&& g.state.total_bytes is None && g.state.received_bytes is None
            &&& match (manifest.catalog_namespace, manifest.catalog_item_id) {
                (Some(ns), Some(item)) => g.match_identity matches Some(
                    MatchIdentity::Epic { catalog_namespace, catalog_item_id },
                ) && catalog_namespace@ == ns@ && catalog_item_id@ == item@,
                _ => g.match_identity is None,
            }
        },
{
    if contains(manifest.app_name.as_str(), "UE") || contains(manifest.app_name.as_str(), "QuixelBridge") {
        let mut m = String::from_str("(");
        m.append(manifest.app_name.as_str());
        m.append(") ");
        m.append(manifest.display_name.as_str());
        m.append(" is an invalid game");
        return Err(Error::new(ErrorKind::IgnoredApp, m));
    }
    let mut uri = String::from_str("com.epicgames.launcher://apps/");
    uri.append(manifest.app_name.as_str());
    uri.append("?action=launch&silent=true");
    let launch = vec![String::from_str(launcher_executable), uri];
    let match_identity = match (manifest.catalog_namespace, manifest.catalog_item_id) {
        (Some(catalog_namespace), Some(catalog_item_id)) => Some(
            MatchIdentity::Epic { catalog_namespace, catalog_item_id },
        ),
        _ => None,
    };
    Ok(Game {
        _type: GameType::EpicGames.to_string(),
        id: manifest.app_name.clone(),
        match_identity,
        name: manifest.display_name,
        path: Some(manifest.install_location),
        commands: GameCommands { install: None, launch: Some(launch), uninstall: None },
        state: GameState {
            installed: !manifest.is_incomplete_install,
            needs_update: false,
            downloading: false,
            total_bytes: None,
            received_bytes: None,
        },
    })
}

} // verus!
