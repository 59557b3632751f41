use game_scanner::error::ErrorKind;
use game_scanner::prelude::{Game, GameCommands, GameState};
use game_scanner::xbox::gaming_root::{parse_gaming_root, GAMING_ROOT_MAGIC};
use game_scanner::xbox::manifest::{parse_manifest, ParsedManifest};
use game_scanner::xbox::platform::{
    content_manifest_path, drive_roots, get_app_folders_from_roots, get_game_manifests_from_folders,
    get_launcher_executable, manifest_path, modifiable_windows_apps, package_scope,
    select_launcher_executable, FolderEntry, FolderListing, GamingRootFile, PackageRecord,
    PackageScope, RootListing,
};
use game_scanner::paths::parent;
use game_scanner::xml::{read_events, XmlEvent};
use game_scanner::xbox::process::{pids, pids_in, ProcessInfo};
use game_scanner::xbox::{build_game, executable, find, find_in, games, processes, scan_all, uninstall};

fn gaming_root_bytes(folders: &[&str]) -> Vec<u8> {
    let mut out = Vec::new();
    out.extend_from_slice(&GAMING_ROOT_MAGIC.to_le_bytes());
    out.extend_from_slice(&(folders.len() as u32).to_le_bytes());
    for folder in folders {
        for unit in folder.encode_utf16() {
            out.extend_from_slice(&unit.to_le_bytes());
        }
        out.extend_from_slice(&0u16.to_le_bytes());
    }
    out
}

fn game(id: &str, path: Option<&str>) -> Game {
    Game {
        _type: String::from("xbox"),
        id: id.to_string(),
        match_identity: None,
        name: id.to_string(),
        path: path.map(|p| p.to_string()),
        commands: GameCommands { install: None, launch: None, uninstall: None },
        state: GameState {
            installed: true,
            needs_update: false,
            downloading: false,
            total_bytes: None,
            received_bytes: None,
        },
    }
}

#[test]
fn package_scope_uses_all_users_for_an_elevated_process() {
    assert_eq!(package_scope(true), PackageScope::AllUsers);
}

#[test]
fn package_scope_uses_current_user_for_a_non_elevated_process() {
    assert_eq!(package_scope(false), PackageScope::CurrentUser);
}

#[test]
fn parse_extracts_identity_name_and_display_name() {
    let body = r#"<?xml version="1.0" encoding="utf-8"?>
<Package>
  <Identity Name="ForzaHorizon5" />
  <Properties>
    <DisplayName>Forza Horizon 5</DisplayName>
  </Properties>
  <Applications>
    <Application Id="Forza" Executable="ForzaHorizon5.exe" />
  </Applications>
</Package>"#;
    let parsed = parse_manifest("AppxManifest.xml", body).ok().unwrap();
    assert_eq!(parsed.identity_name, "ForzaHorizon5");
    assert_eq!(parsed.display_name, "Forza Horizon 5");
}

#[test]
fn parse_returns_error_when_identity_missing() {
    let body = r#"<?xml version="1.0"?><Package><Properties><DisplayName>X</DisplayName></Properties></Package>"#;
    assert!(parse_manifest("AppxManifest.xml", body).is_err());
}

#[test]
fn parse_returns_error_on_malformed_xml() {
    let body = "not xml at all";
    assert!(parse_manifest("AppxManifest.xml", body).is_err());
}

#[test]
fn parse_handles_namespaced_manifest_elements() {
    let body = r#"<?xml version="1.0" encoding="utf-8"?>
<Package xmlns="http://schemas.microsoft.com/appx/manifest/foundation/windows10">
  <Identity Name="MinecraftUWP" />
  <Properties>
    <DisplayName>Minecraft</DisplayName>
  </Properties>
  <Applications>
    <Application Id="Minecraft" Executable="Minecraft.exe">
      <uap:VisualElements DisplayName="Should be ignored" />
    </Application>
  </Applications>
</Package>"#;
    let parsed = parse_manifest("AppxManifest.xml", body).ok().unwrap();
    assert_eq!(parsed.identity_name, "MinecraftUWP");
    assert_eq!(parsed.display_name, "Minecraft");
}

#[test]
fn parse_keeps_the_first_identity_and_display_name() {
    let body = r#"<Package><Identity Name="First"></Identity><Identity Name="Second"/>
<DisplayName>  </DisplayName><DisplayName>  Shown  </DisplayName><DisplayName>Later</DisplayName></Package>"#;
    let parsed = parse_manifest("m.xml", body).ok().unwrap();
    assert_eq!(parsed.identity_name, "First");
    assert_eq!(parsed.display_name, "Shown");
}

#[test]
fn parse_without_display_name_gives_empty_name() {
    let parsed = parse_manifest("m.xml", r#"<Package><Identity Name="Only"/></Package>"#).ok().unwrap();
    assert_eq!(parsed.identity_name, "Only");
    assert_eq!(parsed.display_name, "");
}

#[test]
fn parse_reports_mismatched_end_tags_as_invalid_manifest() {
    let err = parse_manifest("m.xml", r#"<Package><Identity Name="A"/></Other>"#).err().unwrap();
    assert_eq!(err.kind, ErrorKind::InvalidManifest);
}

#[test]
fn finds_modifiable_windows_apps_and_gaming_root_folders() {
    let root = String::from("D:\\");
    let roots = vec![RootListing {
        root: root.clone(),
        modifiable_is_dir: true,
        gaming_root: GamingRootFile::Contents(gaming_root_bytes(&["XboxGames"])),
    }];
    let (folders, errors) = get_app_folders_from_roots(&roots);
    assert!(errors.is_empty());
    assert_eq!(folders, vec!["D:\\Program Files\\ModifiableWindowsApps".to_string(), "D:\\XboxGames".to_string()]);
    assert_eq!(modifiable_windows_apps("D:\\"), "D:\\Program Files\\ModifiableWindowsApps");
}

#[test]
fn finds_manifests_in_game_folder_or_content_subfolder() {
    let listings = vec![FolderListing {
        folder: String::from("E:\\Root"),
        entries: Ok(vec![
            FolderEntry { path: String::from("E:\\Root\\Content"), is_dir: true, has_manifest: false, has_content_manifest: true },
            FolderEntry { path: String::from("E:\\Root\\Direct"), is_dir: true, has_manifest: true, has_content_manifest: false },
        ]),
    }];
    let (mut manifests, errors) = get_game_manifests_from_folders(&listings);
    assert!(errors.is_empty());
    manifests.sort();
    let mut expected = vec![
        String::from("E:\\Root\\Direct\\AppxManifest.xml"),
        String::from("E:\\Root\\Content\\Content\\AppxManifest.xml"),
    ];
    expected.sort();
    assert_eq!(manifests, expected);
}

#[test]
fn manifest_in_the_folder_wins_over_the_content_one() {
    let listings = vec![
        FolderListing { folder: String::from("C:\\Bad"), entries: Err(String::from("denied")) },
        FolderListing {
            folder: String::from("C:\\Games"),
            entries: Ok(vec![
                FolderEntry { path: String::from("C:\\Games\\Both"), is_dir: true, has_manifest: true, has_content_manifest: true },
                FolderEntry { path: String::from("C:\\Games\\file.txt"), is_dir: false, has_manifest: true, has_content_manifest: true },
                FolderEntry { path: String::from("C:\\Games\\Empty"), is_dir: true, has_manifest: false, has_content_manifest: false },
            ]),
        },
    ];
    let (manifests, errors) = get_game_manifests_from_folders(&listings);
    assert_eq!(manifests, vec![String::from("C:\\Games\\Both\\AppxManifest.xml")]);
    assert_eq!(errors.len(), 1);
    assert_eq!(errors[0].kind, ErrorKind::IO);
    assert_eq!(manifest_path("C:\\G"), "C:\\G\\AppxManifest.xml");
    assert_eq!(content_manifest_path("C:\\G"), "C:\\G\\Content\\AppxManifest.xml");
}

#[test]
fn gaming_root_round_trips_its_folders() {
    let data = gaming_root_bytes(&["XboxGames", "Games\\Sub", "Ünïcödé 𝄞"]);
    let folders = parse_gaming_root("F:\\", &data).ok().unwrap();
    assert_eq!(folders, vec!["F:\\XboxGames", "F:\\Games\\Sub", "F:\\Ünïcödé 𝄞"]);
    let none = parse_gaming_root("F:\\", &gaming_root_bytes(&[])).ok().unwrap();
    assert!(none.is_empty());
}

#[test]
fn gaming_root_rejects_bad_magic_and_truncation() {
    let mut data = gaming_root_bytes(&["XboxGames"]);
    data[0] ^= 1;
    assert_eq!(parse_gaming_root("F:\\", &data).err().unwrap().kind, ErrorKind::InvalidManifest);
    let data = gaming_root_bytes(&["XboxGames"]);
    assert!(parse_gaming_root("F:\\", &data[..data.len() - 1]).is_err());
    assert!(parse_gaming_root("F:\\", &data[..7]).is_err());
}

#[test]
fn gaming_root_rejects_too_many_folders() {
    let mut data = Vec::new();
    data.extend_from_slice(&GAMING_ROOT_MAGIC.to_le_bytes());
    data.extend_from_slice(&255u32.to_le_bytes());
    assert!(parse_gaming_root("F:\\", &data).is_err());
}

#[test]
fn gaming_root_rejects_escaping_folders() {
    for bad in ["..\\Windows", "a\\..", "C:\\Games", "\\Games", "/Games", "D:Games"] {
        assert!(parse_gaming_root("F:\\", &gaming_root_bytes(&[bad])).is_err(), "{bad}");
    }
    assert!(parse_gaming_root("F:\\", &gaming_root_bytes(&["..x\\y.."])).is_ok());
}

#[test]
fn gaming_root_rejects_unpaired_surrogates() {
    let mut data = Vec::new();
    data.extend_from_slice(&GAMING_ROOT_MAGIC.to_le_bytes());
    data.extend_from_slice(&1u32.to_le_bytes());
    data.extend_from_slice(&0xD800u16.to_le_bytes());
    data.extend_from_slice(&0x0041u16.to_le_bytes());
    data.extend_from_slice(&0u16.to_le_bytes());
    assert!(parse_gaming_root("F:\\", &data).is_err());
}

#[test]
fn a_bad_gaming_root_does_not_stop_the_other_roots() {
    let roots = vec![
        RootListing { root: String::from("C:\\"), modifiable_is_dir: false, gaming_root: GamingRootFile::Contents(vec![1, 2, 3]) },
        RootListing { root: String::from("D:\\"), modifiable_is_dir: true, gaming_root: GamingRootFile::Unreadable(String::from("denied")) },
        RootListing { root: String::from("E:\\"), modifiable_is_dir: false, gaming_root: GamingRootFile::Contents(gaming_root_bytes(&["XboxGames"])) },
        RootListing { root: String::from("F:\\"), modifiable_is_dir: false, gaming_root: GamingRootFile::Absent },
    ];
    let (folders, errors) = get_app_folders_from_roots(&roots);
    assert_eq!(folders, vec!["D:\\Program Files\\ModifiableWindowsApps".to_string(), "E:\\XboxGames".to_string()]);
    let kinds: Vec<ErrorKind> = errors.iter().map(|e| e.kind).collect();
    assert_eq!(kinds, vec![ErrorKind::InvalidManifest, ErrorKind::IO]);
}

#[test]
fn drive_roots_follow_the_mask() {
    assert_eq!(drive_roots(0b101), vec!["A:\\".to_string(), "C:\\".to_string()]);
    assert_eq!(drive_roots(1 << 25), vec!["Z:\\".to_string()]);
    assert!(drive_roots(1 << 26).is_empty());
    assert_eq!(drive_roots(u32::MAX).len(), 26);
}

fn package(family: Option<&str>, path: &str, executable_is_file: bool) -> PackageRecord {
    PackageRecord {
        family_name: family.map(|f| f.to_string()),
        installed_path: Some(path.to_string()),
        executable_is_file,
    }
}

#[test]
fn launcher_executable_is_the_first_gaming_app_package() {
    let mut packages = vec![
        package(Some("Microsoft.XboxApp_8wekyb3d8bbwe"), "C:\\A", true),
        package(None, "C:\\B", true),
        package(Some("Microsoft.GamingApp_8wekyb3d8bbwe"), "C:\\C", false),
    ];
    let err = select_launcher_executable(&packages).err().unwrap();
    assert_eq!(err.kind, ErrorKind::LauncherNotFound);
    packages.push(package(Some("Microsoft.GamingApp_8wekyb3d8bbwe"), "C:\\D", true));
    packages.push(package(Some("Microsoft.GamingApp_other"), "C:\\E", true));
    assert_eq!(select_launcher_executable(&packages).ok().unwrap(), "C:\\D\\XboxApp.exe");
}

#[test]
fn launcher_and_games_are_not_found_without_the_store() {
    assert_eq!(executable().err().unwrap().kind, ErrorKind::LauncherNotFound);
    assert_eq!(get_launcher_executable().err().unwrap().kind, ErrorKind::LauncherNotFound);
    assert_eq!(games().err().unwrap().kind, ErrorKind::LauncherNotFound);
    assert_eq!(find("ForzaHorizon5").err().unwrap().kind, ErrorKind::LauncherNotFound);
}

#[test]
fn find_in_returns_the_first_game_with_the_id() {
    let all = vec![game("A", Some("C:\\1")), game("B", Some("C:\\2")), game("B", Some("C:\\3"))];
    let g = find_in(all, "B").ok().unwrap();
    assert_eq!(g.path.as_deref(), Some("C:\\2"));
    let err = find_in(vec![game("A", None)], "Z").err().unwrap();
    assert_eq!(err.kind, ErrorKind::GameNotFound);
    assert_eq!(err.message, "Xbox game with id (Z) not found");
}

#[test]
fn uninstall_is_never_available() {
    let err = uninstall(&game("A", None)).err().unwrap();
    assert_eq!(err.kind, ErrorKind::InvalidGame);
}

#[test]
fn build_game_uses_the_manifest_folder() {
    let parsed = ParsedManifest { identity_name: String::from("Halo"), display_name: String::from("Halo Infinite") };
    let g = build_game("D:\\XboxGames\\Halo\\Content\\AppxManifest.xml", parsed).ok().unwrap();
    assert_eq!(g._type, "xbox");
    assert_eq!(g.id, "Halo");
    assert_eq!(g.name, "Halo Infinite");
    assert_eq!(g.path.as_deref(), Some("D:\\XboxGames\\Halo\\Content"));
    assert!(g.state.installed);
    let parsed = ParsedManifest { identity_name: String::from("X"), display_name: String::new() };
    assert_eq!(build_game("C:\\", parsed).err().unwrap().kind, ErrorKind::InvalidManifest);
}

#[test]
fn one_bad_manifest_does_not_abort_the_scan() {
    let outcomes = vec![
        (String::from("D:\\G\\A\\AppxManifest.xml"), Ok(ParsedManifest { identity_name: String::from("A"), display_name: String::from("Game A") })),
        (String::from("D:\\G\\B\\AppxManifest.xml"), parse_manifest("D:\\G\\B\\AppxManifest.xml", "not xml at all")),
        (String::from("D:\\G\\C\\Content\\AppxManifest.xml"), Ok(ParsedManifest { identity_name: String::from("C"), display_name: String::from("Game C") })),
    ];
    let (found, errors) = scan_all(outcomes);
    let ids: Vec<&str> = found.iter().map(|g| g.id.as_str()).collect();
    assert_eq!(ids, vec!["A", "C"]);
    assert_eq!(found[1].path.as_deref(), Some("D:\\G\\C\\Content"));
    assert_eq!(errors.len(), 1);
}

#[test]
fn processes_match_by_executable_or_working_directory() {
    let table = vec![
        ProcessInfo { pid: 1, exe: Some(String::from("D:\\XboxGames\\Halo\\Content\\halo.exe")), cwd: None },
        ProcessInfo { pid: 2, exe: Some(String::from("C:\\Windows\\svchost.exe")), cwd: Some(String::from("C:\\Windows")) },
        ProcessInfo { pid: 3, exe: None, cwd: Some(String::from("D:\\XboxGames\\Halo\\Content\\bin")) },
    ];
    let g = game("Halo", Some("D:\\XboxGames\\Halo\\Content"));
    assert_eq!(pids_in(&g, &table), vec![1, 3]);
    assert!(pids_in(&game("Halo", None), &table).is_empty());
    assert!(pids(&g).is_empty());
    assert_eq!(processes(&g), Some(Vec::new()));
}

#[test]
fn processes_match_whole_folder_components_only() {
    let table = vec![
        ProcessInfo { pid: 1, exe: Some(String::from("C:\\G\\AB\\x.exe")), cwd: None },
        ProcessInfo { pid: 2, exe: Some(String::from("C:\\G\\A\\x.exe")), cwd: None },
        ProcessInfo { pid: 3, exe: None, cwd: Some(String::from("C:\\G\\A")) },
        ProcessInfo { pid: 4, exe: Some(String::from("C:\\G\\A/bin/y.exe")), cwd: None },
        ProcessInfo { pid: 5, exe: Some(String::from("D:\\C:\\G\\A\\z.exe")), cwd: None },
    ];
    assert_eq!(pids_in(&game("A", Some("C:\\G\\A")), &table), vec![2, 3, 4]);
    assert_eq!(pids_in(&game("A", Some("C:\\G\\A\\")), &table), vec![2, 3, 4]);
}

#[test]
fn parent_skips_dot_components() {
    assert_eq!(parent("C:\\a\\."), Some(String::from("C:\\")));
    assert_eq!(parent("a\\.\\b"), Some(String::from("a")));
    assert_eq!(parent("a\\b\\.\\"), Some(String::from("a")));
    assert_eq!(parent("./a"), Some(String::from(".")));
    assert_eq!(parent("."), Some(String::new()));
    assert_eq!(parent("\\."), None);
    assert_eq!(parent("a\\.."), Some(String::from("a")));
    assert_eq!(parent("C:\\Games\\Halo\\AppxManifest.xml"), Some(String::from("C:\\Games\\Halo")));
}

#[test]
fn events_of_a_manifest_text() {
    let events = read_events("<Package><Identity Name=\"N\"/><DisplayName> D </DisplayName></Package>").unwrap();
    assert_eq!(events.len(), 6);
    assert!(matches!(&events[1], XmlEvent::Empty(t) if t.name == "Identity"
        && t.attributes == vec![Some((String::from("Name"), String::from("N")))]));
    assert!(matches!(&events[3], XmlEvent::Text(t) if t == "D"));
    assert!(read_events("<a></b>").is_err());
    assert!(read_events("").unwrap().is_empty());
}

#[test]
fn scan_reports_each_failure_in_order() {
    let read_error = parse_manifest("D:\\G\\B\\AppxManifest.xml", "<Package/>").err().unwrap();
    let outcomes = vec![
        (String::from("D:\\G\\B\\AppxManifest.xml"), Err(read_error.clone())),
        (String::from("D:\\G\\A\\AppxManifest.xml"), Ok(ParsedManifest { identity_name: String::from("A"), display_name: String::new() })),
        (String::from("C:\\"), Ok(ParsedManifest { identity_name: String::from("X"), display_name: String::new() })),
    ];
    let (found, errors) = scan_all(outcomes);
    assert_eq!(found.len(), 1);
    assert_eq!(errors.len(), 2);
    assert_eq!(errors[0].message, read_error.message);
    assert_eq!(errors[1].kind, ErrorKind::InvalidManifest);
    assert_eq!(errors[1].message, "Manifest has no parent directory: C:\\");
}

#[test]
fn manifest_identity_and_display_name_rules() {
    let xml = "<Package><Identity Name=\"\"/><Identity Name=\"Real\"/><Identity Name=\"Later\"/>\
               <Title>Outside</Title><DisplayName>   </DisplayName><DisplayName><b/> Shown </DisplayName>\
               <DisplayName>Second</DisplayName></Package>";
    let m = parse_manifest("m.xml", xml).ok().unwrap();
    assert_eq!(m.identity_name, "Real");
    assert_eq!(m.display_name, "Shown");
    let e = parse_manifest("m.xml", "<Package><DisplayName>X</DisplayName></Package>").err().unwrap();
    assert_eq!(e.kind, ErrorKind::InvalidManifest);
    assert_eq!(e.message, "No <Identity Name=\"...\"> found in m.xml");
    let e = parse_manifest("m.xml", "<a></b>").err().unwrap();
    assert!(e.message.starts_with("Failed to parse m.xml: "));
}
