use std::collections::HashMap;

use game_scanner::capability::{matrix, supports, Op};
use game_scanner::commands::{get_capabilities, parse_launcher as launcher_from_name};
use game_scanner::prelude::parse_launcher;
use game_scanner::prelude::GameType::{self, AmazonGames, Blizzard, EpicGames, Origin, RiotGames, Steam, Ubisoft, XboxGames, GOG};

const TABLE: [GameType; 8] = [AmazonGames, Blizzard, EpicGames, GOG, Origin, RiotGames, Steam, Ubisoft];

fn matrix_map() -> HashMap<String, Vec<Op>> {
    matrix().into_iter().collect()
}

#[test]
fn parse_launcher_round_trip() {
    for name in [
        "amazongames", "blizzard", "epicgames", "gog",
        "origin", "riotgames", "steam", "ubisoft", "xbox",
    ] {
        let l = parse_launcher(name).unwrap();
        assert_eq!(l.to_string(), name);
    }
}

#[test]
fn parse_launcher_unknown_returns_none() {
    assert!(parse_launcher("nope").is_none());
    assert!(parse_launcher("Steam").is_none());
}

#[test]
fn parse_launcher_names_each_launcher() {
    assert_eq!(parse_launcher("xbox"), Some(XboxGames));
    assert_eq!(parse_launcher("gog"), Some(GOG));
    assert_eq!(parse_launcher(""), None);
    assert_eq!(parse_launcher("steam "), None);
}

#[test]
fn launcher_names_round_trip_for_every_launcher() {
    for t in [AmazonGames, Blizzard, EpicGames, GOG, Origin, RiotGames, Steam, Ubisoft, XboxGames] {
        assert_eq!(parse_launcher(&t.to_string()), Some(t));
        assert_eq!(launcher_from_name(&t.to_string()), t);
    }
}

#[test]
fn every_launcher_supports_list() {
    for launcher in TABLE {
        assert!(supports(launcher, Op::List), "{:?} should support List", launcher);
    }
}

#[test]
fn every_launcher_supports_find() {
    for launcher in TABLE {
        assert!(supports(launcher, Op::Find), "{:?} should support Find", launcher);
    }
}

#[test]
fn every_launcher_supports_executable() {
    for launcher in TABLE {
        assert!(supports(launcher, Op::Executable), "{:?} should support Executable", launcher);
    }
}

#[test]
fn every_launcher_supports_launch() {
    for launcher in TABLE {
        assert!(supports(launcher, Op::Launch), "{:?} should support Launch", launcher);
    }
}

#[test]
fn install_supported_origin_steam_ubisoft() {
    assert!(supports(Origin, Op::Install));
    assert!(supports(Steam, Op::Install));
    assert!(supports(Ubisoft, Op::Install));
}

#[test]
fn install_unsupported_for_others() {
    for launcher in [AmazonGames, Blizzard, EpicGames, GOG, RiotGames] {
        assert!(!supports(launcher, Op::Install), "{:?} should NOT support Install", launcher);
    }
}

#[test]
fn uninstall_supported_riot_steam_ubisoft() {
    assert!(supports(RiotGames, Op::Uninstall));
    assert!(supports(Steam, Op::Uninstall));
    assert!(supports(Ubisoft, Op::Uninstall));
}

#[test]
fn uninstall_unsupported_for_others() {
    for launcher in [AmazonGames, Blizzard, EpicGames, GOG, Origin] {
        assert!(!supports(launcher, Op::Uninstall), "{:?} should NOT support Uninstall", launcher);
    }
}

#[test]
fn processes_supported_steam_only() {
    assert!(supports(Steam, Op::Processes));
    for launcher in [AmazonGames, Blizzard, EpicGames, GOG, Origin, RiotGames, Ubisoft] {
        assert!(!supports(launcher, Op::Processes), "{:?} should NOT support Processes", launcher);
    }
}

#[test]
fn close_supported_steam_only() {
    assert!(supports(Steam, Op::Close));
    for launcher in [AmazonGames, Blizzard, EpicGames, GOG, Origin, RiotGames, Ubisoft] {
        assert!(!supports(launcher, Op::Close), "{:?} should NOT support Close", launcher);
    }
}

#[test]
fn matrix_contains_all_eight_launchers() {
    let m = matrix_map();
    for launcher in TABLE {
        let key = launcher.to_string();
        assert!(m.contains_key(&key), "matrix missing {:?}", launcher);
    }
    assert_eq!(m.len(), 8);
}

#[test]
fn matrix_steam_has_eight_ops() {
    let m = matrix_map();
    assert_eq!(m.get("steam").unwrap().len(), 8);
}

#[test]
fn matrix_amazon_has_four_ops() {
    let m = matrix_map();
    let ops = m.get("amazongames").unwrap();
    assert_eq!(ops.len(), 4);
    assert!(ops.contains(&Op::List));
    assert!(ops.contains(&Op::Find));
    assert!(ops.contains(&Op::Executable));
    assert!(ops.contains(&Op::Launch));
}

#[test]
fn matrix_rows_follow_the_table_order() {
    let m = matrix();
    let names: Vec<String> = m.iter().map(|(n, _)| n.clone()).collect();
    assert_eq!(names, vec!["amazongames", "blizzard", "epicgames", "gog", "origin", "riotgames", "steam", "ubisoft"]);
    assert_eq!(m[4].1, vec![Op::List, Op::Find, Op::Executable, Op::Install, Op::Launch]);
    assert_eq!(m[5].1, vec![Op::List, Op::Find, Op::Executable, Op::Launch, Op::Uninstall]);
    assert_eq!(m[6].1, vec![Op::List, Op::Find, Op::Executable, Op::Install, Op::Launch, Op::Uninstall, Op::Processes, Op::Close]);
}

#[test]
fn capabilities_are_the_matrix() {
    let a = get_capabilities();
    let b = matrix();
    assert_eq!(a, b);
}

#[test]
fn xbox_supports_the_common_ops_only() {
    assert!(supports(XboxGames, Op::List));
    assert!(supports(XboxGames, Op::Launch));
    assert!(!supports(XboxGames, Op::Install));
    assert!(!supports(XboxGames, Op::Close));
}
