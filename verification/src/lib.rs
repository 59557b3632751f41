//! Discovery of installed games and of the launchers that manage them.
//!
//! The library holds the verified logic of the scanner: launcher names and the
//! capability table, the Epic Games manifest rules, the Windows registry key
//! rules, and the Xbox / Microsoft Store discovery model (the `.GamingRoot`
//! file format, the `AppxManifest.xml` reading, the folder and manifest
//! selection rules and the process matching rule).

pub mod capability;
pub mod commands;
pub mod epicgames;
pub mod error;
mod text;
pub mod paths;
pub mod prelude;
pub mod registry;
pub mod xbox;
pub mod xml;

