//! Where the Xbox app and its games are on disk, and which packages to
//! enumerate.
//!
//! The functions here decide from facts about the machine (drives present,
//! folders and files that exist, file contents, installed packages) that the
//! caller gathers; they do no I/O themselves.
use vstd::prelude::*;
use crate::error::{Error, ErrorKind};
use crate::paths::{has_prefix, is_bare_drive, join, join_path, lemma_join_parent, parent_dir, starts_with, trim_back};
use crate::text::char_from_u32;
use crate::xbox::gaming_root::{gaming_root_folders, gaming_root_path, parse_gaming_root};

verus! {

/// Whose packages the package manager enumerates.
#[derive(Clone, Copy, Debug, Eq, PartialEq, Structural)]
pub enum PackageScope {
    /// Every user's packages; needs an elevated process.
    AllUsers,
    /// The packages of the user running the process.
    CurrentUser,
}

/// All users' packages for an elevated process, the current user's otherwise.
pub fn package_scope(is_elevated: bool) -> (s: PackageScope)
    ensures
        s == (if is_elevated {
            PackageScope::AllUsers
        } else {
            PackageScope::CurrentUser
        }),
{
    if is_elevated {
        PackageScope::AllUsers
    } else {
        PackageScope::CurrentUser
    }
}

/// The Xbox app's executable, on a system without the Microsoft Store (the
/// version this library builds): the launcher is never found there. On
/// Windows the choice among the installed packages is
/// `select_launcher_executable`.
pub fn get_launcher_executable() -> (r: Result<String, Error>)
    ensures
        r matches Err(e) && e.kind == ErrorKind::LauncherNotFound,
{
    Err(
        Error::new(
            ErrorKind::LauncherNotFound,
            String::from_str("Xbox / Microsoft Store is not supported on this platform"),
        ),
    )
}

/// What the package manager reports of an installed package, as far as the
/// launcher search reads it.
pub struct PackageRecord {
    /// The package family name, if it could be read.
    pub family_name: Option<String>,
    /// The installation folder, if it could be read.
    pub installed_path: Option<String>,
    /// Whether `launcher_executable_path` of the installation folder is a file.
    pub executable_is_file: bool,
}

/// The Xbox app's executable within its installation folder.
pub fn launcher_executable_path(install_location: &str) -> (p: String)
    ensures
        p@ == join_path(install_location@, "XboxApp.exe"@),
{
    join(install_location, "XboxApp.exe")
}

/// A package of the Xbox app (family `Microsoft.GamingApp*`) whose executable
/// is present.
pub open spec fn is_launcher_package(r: PackageRecord) -> bool {
    &&& r.family_name matches Some(f) && starts_with(f@, "Microsoft.GamingApp"@)
    &&& r.installed_path is Some
    &&& r.executable_is_file
}

/// The index of the first launcher package among `rs`, if any.
pub open spec fn first_launcher_package(rs: Seq<PackageRecord>) -> Option<int>
    decreases rs.len(),
{
    if rs.len() == 0 {
        None
    } else if is_launcher_package(rs[0]) {
        Some(0)
    } else {
        match first_launcher_package(rs.skip(1)) {
            Some(i) => Some(i + 1),
            None => None,
        }
    }
}

/// The executable of the first package, in enumeration order, that is the
/// Xbox app and has its executable; `LauncherNotFound` when there is none.
pub fn select_launcher_executable(packages: &Vec<PackageRecord>) -> (r: Result<String, Error>)
    ensures
        match first_launcher_package(packages@) {
            Some(i) => r matches Ok(p) && packages@[i].installed_path matches Some(loc) && p@
                == join_path(loc@, "XboxApp.exe"@),
            None => r matches Err(e) && e.kind == ErrorKind::LauncherNotFound,
        },
{
    let mut i: usize = 0;
    assert(packages@.skip(0) =~= packages@);
    while i < packages.len()
        invariant
            i <= packages@.len(),
            first_launcher_package(packages@) == match first_launcher_package(packages@.skip(i as int)) {
                Some(j) => Some(j + i),
                None => None::<int>,
            },
        decreases packages@.len() - i,
    {
        let rec = &packages[i];
        assert(packages@.skip(i as int).skip(1) =~= packages@.skip(i + 1));
        assert(packages@.skip(i as int)[0] == packages@[i as int]);
        match (&rec.family_name, &rec.installed_path) {
            (Some(f), Some(loc)) => {
                if has_prefix(f.as_str(), "Microsoft.GamingApp") && rec.executable_is_file {
                    return Ok(launcher_executable_path(loc.as_str()));
                }
            },
            _ => {},
        }
        i = i + 1;
    }
    Err(
        Error::new(
            ErrorKind::LauncherNotFound,
            String::from_str("Xbox app is not installed (no Microsoft.GamingApp_* package found)"),
        ),
    )
}

/// The executable that `select_launcher_executable` returns lies directly in
/// the package's installation folder: its parent is that folder (for a folder
/// path without trailing separators or `.` components that is not a bare
/// drive).
pub proof fn lemma_launcher_executable_in_install_folder(install_location: Seq<char>)
    requires
        install_location.len() > 0,
        trim_back(install_location) == install_location,
        !is_bare_drive(install_location),
    ensures
        parent_dir(join_path(install_location, "XboxApp.exe"@)) == Some(install_location),
{
    reveal_strlit("XboxApp.exe");
    lemma_join_parent(install_location, "XboxApp.exe"@);
}

/// Whether drive `index` (0 for `A:`) is present in a `GetLogicalDrives` mask.
pub open spec fn drive_present(mask: u32, index: u32) -> bool {
    (mask >> index) & 1 == 1
}

/// The root directory of drive `index`: `A:\` for 0, `B:\` for 1, ...
pub open spec fn drive_root(index: u32) -> Seq<char> {
    seq![((65 + index) as u32) as char, ':', '\\']
}

/// The roots of the drives present among the first `n`, in drive order.
pub open spec fn drive_roots_below(mask: u32, n: u32) -> Seq<Seq<char>>
    decreases n,
{
    if n == 0 {
        seq![]
    } else {
        let r = drive_roots_below(mask, (n - 1) as u32);
        if drive_present(mask, (n - 1) as u32) {
            r.push(drive_root((n - 1) as u32))
        } else {
            r
        }
    }
}

/// The root directories of the drives `A:` to `Z:` present in a
/// `GetLogicalDrives` mask, in drive order.
pub fn drive_roots(mask: u32) -> (roots: Vec<String>)
    ensures
        roots@.map_values(|s: String| s@) == drive_roots_below(mask, 26),
{
    let mut roots: Vec<String> = Vec::new();
    let mut index: u32 = 0;
    while index < 26
        invariant
            index <= 26,
            roots@.map_values(|s: String| s@) == drive_roots_below(mask, index),
        decreases 26 - index,
    {
        if (mask >> index) & 1 == 1 {
            let letter = match char_from_u32(65 + index) {
                Some(c) => c,
                None => {
                    return roots;
                },
            };
            proof {
                crate::text::char_of_code_point(letter, (65 + index) as u32);
            }
            let mut root = String::new();
            crate::text::push_char(&mut root, letter);
            crate::text::push_char(&mut root, ':');
            crate::text::push_char(&mut root, '\\');
            assert(root@ =~= drive_root(index));
            let ghost before = roots@.map_values(|s: String| s@);
            roots.push(root);
            assert(roots@.map_values(|s: String| s@)[before.len() as int] == drive_root(index));
            assert(roots@.map_values(|s: String| s@) =~= before.push(drive_root(index)));
        } else {
            assert(roots@.map_values(|s: String| s@) =~= drive_roots_below(mask, (index + 1) as u32));
        }
        index = index + 1;
    }
    roots
}

} // verus!

verus! {

/// `Program Files\ModifiableWindowsApps` under a root directory.
pub fn modifiable_windows_apps(root: &str) -> (p: String)
    ensures
        p@ == join_path(join_path(root@, "Program Files"@), "ModifiableWindowsApps"@),
{
    let program_files = join(root, "Program Files");
    join(program_files.as_str(), "ModifiableWindowsApps")
}

/// The `.GamingRoot` file of a root directory, as the caller found it.
pub enum GamingRootFile {
    /// `gaming_root_path(root)` is not a file.
    Absent,
    /// It is a file that could not be read; the message says why.
    Unreadable(String),
    /// Its contents.
    Contents(Vec<u8>),
}

/// What the caller found under a root directory.
pub struct RootListing {
    pub root: String,
    /// Whether `modifiable_windows_apps(root)` is a directory.
    pub modifiable_is_dir: bool,
    pub gaming_root: GamingRootFile,
}

/// The app folders that one root contributes: its `ModifiableWindowsApps`
/// folder when it exists, then the folders its valid `.GamingRoot` lists.
pub open spec fn root_app_folders(l: RootListing) -> Seq<Seq<char>> {
    let own = if l.modifiable_is_dir {
        seq![join_path(join_path(l.root@, "Program Files"@), "ModifiableWindowsApps"@)]
    } else {
        seq![]
    };
    let listed = match l.gaming_root {
        GamingRootFile::Contents(d) => match gaming_root_folders(l.root@, d@) {
            Some(fs) => fs,
            None => seq![],
        },
        _ => seq![],
    };
    own + listed
}

/// The failures that one root reports: an unreadable `.GamingRoot` is an
/// `IO` failure, an invalid one an `InvalidManifest` failure.
pub open spec fn root_failures(l: RootListing) -> Seq<ErrorKind> {
    match l.gaming_root {
        GamingRootFile::Unreadable(_) => seq![ErrorKind::IO],
        GamingRootFile::Contents(d) => if gaming_root_folders(l.root@, d@) is Some {
            seq![]
        } else {
            seq![ErrorKind::InvalidManifest]
        },
        GamingRootFile::Absent => seq![],
    }
}

pub open spec fn app_folders_of(ls: Seq<RootListing>) -> Seq<Seq<char>>
    decreases ls.len(),
{
    if ls.len() == 0 {
        seq![]
    } else {
        app_folders_of(ls.drop_last()) + root_app_folders(ls.last())
    }
}

pub open spec fn failures_of(ls: Seq<RootListing>) -> Seq<ErrorKind>
    decreases ls.len(),
{
    if ls.len() == 0 {
        seq![]
    } else {
        failures_of(ls.drop_last()) + root_failures(ls.last())
    }
}

/// The folders that a root's `.GamingRoot` declares: none unless it was read
/// and is valid.
pub open spec fn declared_folders(l: RootListing) -> Seq<Seq<char>> {
    match l.gaming_root {
        GamingRootFile::Contents(d) => match gaming_root_folders(l.root@, d@) {
            Some(fs) => fs,
            None => seq![],
        },
        _ => seq![],
    }
}

/// The app folders of roots listed one after another are those of the first
/// roots followed by those of the others: each root contributes on its own.
pub proof fn lemma_app_folders_concat(first: Seq<RootListing>, second: Seq<RootListing>)
    ensures
        app_folders_of(first + second) == app_folders_of(first) + app_folders_of(second),
    decreases second.len(),
{
    if second.len() == 0 {
        assert(first + second =~= first);
        assert(app_folders_of(first) + seq![] =~= app_folders_of(first));
    } else {
        lemma_app_folders_concat(first, second.drop_last());
        assert((first + second).drop_last() =~= first + second.drop_last());
        assert((first + second).last() == second.last());
        assert(app_folders_of(first) + app_folders_of(second.drop_last()) + root_app_folders(
            second.last(),
        ) =~= app_folders_of(first) + (app_folders_of(second.drop_last()) + root_app_folders(
            second.last(),
        )));
    }
}

/// Every root whose `ModifiableWindowsApps` folder exists contributes that
/// folder, whatever its `.GamingRoot` is; every folder that a valid
/// `.GamingRoot` declares (`declared_folders`) is among the app folders too.
pub proof fn lemma_app_folders_rule(roots: Seq<RootListing>)
    ensures
        forall|i: int|
            0 <= i < roots.len() && (#[trigger] roots[i]).modifiable_is_dir ==> app_folders_of(
                roots,
            ).contains(join_path(join_path(roots[i].root@, "Program Files"@), "ModifiableWindowsApps"@)),
        forall|i: int, k: int|
            0 <= i < roots.len() && 0 <= k < declared_folders(roots[i]).len() ==> app_folders_of(
                roots,
            ).contains(#[trigger] declared_folders(roots[i])[k]),
    decreases roots.len(),
{
    if roots.len() > 0 {
        let prev = roots.drop_last();
        let l = roots.last();
        lemma_app_folders_rule(prev);
        let own = if l.modifiable_is_dir {
            seq![join_path(join_path(l.root@, "Program Files"@), "ModifiableWindowsApps"@)]
        } else {
            seq![]
        };
        let listed = match l.gaming_root {
            GamingRootFile::Contents(d) => match gaming_root_folders(l.root@, d@) {
                Some(fs) => fs,
                None => seq![],
            },
            _ => seq![],
        };
        let all = app_folders_of(roots);
        assert(all == app_folders_of(prev) + (own + listed));
        assert forall|i: int|
            0 <= i < roots.len() && (#[trigger] roots[i]).modifiable_is_dir implies all.contains(
            join_path(join_path(roots[i].root@, "Program Files"@), "ModifiableWindowsApps"@),
        ) by {
            let f = join_path(join_path(roots[i].root@, "Program Files"@), "ModifiableWindowsApps"@);
            if i < prev.len() {
                assert(prev[i] == roots[i]);
                let j = choose|j: int| 0 <= j < app_folders_of(prev).len() && app_folders_of(prev)[j] == f;
                assert(all[j] == f);
            } else {
                assert(all[app_folders_of(prev).len() as int] == f);
            }
        }
        assert forall|i: int, k: int|
            0 <= i < roots.len() && 0 <= k < declared_folders(roots[i]).len() implies all.contains(
            #[trigger] declared_folders(roots[i])[k],
        ) by {
            let fs = declared_folders(roots[i]);
            if i < prev.len() {
                assert(prev[i] == roots[i]);
                assert(app_folders_of(prev).contains(declared_folders(prev[i])[k]));
                let j = choose|j: int| 0 <= j < app_folders_of(prev).len() && app_folders_of(prev)[j] == fs[k];
                assert(all[j] == fs[k]);
            } else {
                assert(listed == fs);
                assert(all[app_folders_of(prev).len() + own.len() + k] == fs[k]);
            }
        }
    }
}

pub open spec fn error_kinds(es: Seq<Error>) -> Seq<ErrorKind> {
    es.map_values(|e: Error| e.kind)
}

fn push_all(out: &mut Vec<String>, more: Vec<String>)
    ensures
        final(out)@.map_values(|s: String| s@) == old(out)@.map_values(|s: String| s@)
            + more@.map_values(|s: String| s@),
{
    let ghost start = out@;
    let ghost added = more@;
    let mut more = more;
    out.append(&mut more);
    assert(out@.map_values(|s: String| s@) =~= start.map_values(|s: String| s@) + added.map_values(
        |s: String| s@,
    ));
}

/// The app folders of the given roots, in root order, and the failures met
/// on the way; a bad `.GamingRoot` does not stop the scan of the others.
pub fn get_app_folders_from_roots(roots: &Vec<RootListing>) -> (r: (Vec<String>, Vec<Error>))
    ensures
        r.0@.map_values(|s: String| s@) == app_folders_of(roots@),
        error_kinds(r.1@) == failures_of(roots@),
{
    let mut folders: Vec<String> = Vec::new();
    let mut errors: Vec<Error> = Vec::new();
    let mut i: usize = 0;
    while i < roots.len()
        invariant
            i <= roots@.len(),
            folders@.map_values(|s: String| s@) == app_folders_of(roots@.subrange(0, i as int)),
            error_kinds(errors@) == failures_of(roots@.subrange(0, i as int)),
        decreases roots@.len() - i,
    {
        let l = &roots[i];
        assert(roots@.subrange(0, i + 1).drop_last() =~= roots@.subrange(0, i as int));
        assert(roots@.subrange(0, i + 1).last() == roots@[i as int]);
        let ghost f0 = folders@.map_values(|s: String| s@);
        let ghost e0 = error_kinds(errors@);
        if l.modifiable_is_dir {
            folders.push(modifiable_windows_apps(l.root.as_str()));
        }
        let ghost f1 = folders@.map_values(|s: String| s@);
        assert(f1 =~= f0 + (if l.modifiable_is_dir {
            seq![join_path(join_path(l.root@, "Program Files"@), "ModifiableWindowsApps"@)]
        } else {
            seq![]
        }));
        match &l.gaming_root {
            GamingRootFile::Absent => {
                assert(f1 =~= f0 + root_app_folders(*l));
                assert(e0 =~= e0 + root_failures(*l));
            },
            GamingRootFile::Unreadable(message) => {
                let mut m = String::from_str("Unable to open .GamingRoot at ");
                let path = gaming_root_path(l.root.as_str());
                m.append(path.as_str());
                m.append(": ");
                m.append(message.as_str());
                errors.push(Error::new(ErrorKind::IO, m));
                assert(folders@.map_values(|s: String| s@) =~= f0 + root_app_folders(*l));
                assert(error_kinds(errors@) =~= e0 + root_failures(*l));
            },
            GamingRootFile::Contents(d) => {
                match parse_gaming_root(l.root.as_str(), d.as_slice()) {
                    Ok(listed) => {
                        push_all(&mut folders, listed);
                        assert(folders@.map_values(|s: String| s@) =~= f0 + root_app_folders(*l));
                        assert(error_kinds(errors@) =~= e0 + root_failures(*l));
                    },
                    Err(e) => {
                        errors.push(e);
                        assert(folders@.map_values(|s: String| s@) =~= f0 + root_app_folders(*l));
                        assert(error_kinds(errors@) =~= e0 + root_failures(*l));
                    },
                }
            },
        }
        i = i + 1;
    }
    assert(roots@.subrange(0, roots@.len() as int) =~= roots@);
    (folders, errors)
}

} // verus!

verus! {

/// `AppxManifest.xml` directly in a game folder.
pub fn manifest_path(game_folder: &str) -> (p: String)
    ensures
        p@ == join_path(game_folder@, "AppxManifest.xml"@),
{
    join(game_folder, "AppxManifest.xml")
}

/// A manifest found directly in a game folder has that folder as its parent,
/// so the game built from it has that folder as its path (for a folder path
/// without trailing separators or `.` components that is not a bare drive).
pub proof fn lemma_manifest_in_game_folder(game_folder: Seq<char>)
    requires
        game_folder.len() > 0,
        trim_back(game_folder) == game_folder,
        !is_bare_drive(game_folder),
    ensures
        parent_dir(join_path(game_folder, "AppxManifest.xml"@)) == Some(game_folder),
{
    reveal_strlit("AppxManifest.xml");
    lemma_join_parent(game_folder, "AppxManifest.xml"@);
}

/// `Content\AppxManifest.xml` in a game folder.
pub fn content_manifest_path(game_folder: &str) -> (p: String)
    ensures
        p@ == join_path(join_path(game_folder@, "Content"@), "AppxManifest.xml"@),
{
    let content = join(game_folder, "Content");
    join(content.as_str(), "AppxManifest.xml")
}

/// An entry of an app folder, as the caller found it.
pub struct FolderEntry {
    pub path: String,
    pub is_dir: bool,
    /// Whether `manifest_path(path)` is a file.
    pub has_manifest: bool,
    /// Whether `content_manifest_path(path)` is a file.
    pub has_content_manifest: bool,
}

/// An app folder and its entries, or the message of the failure to list it.
pub struct FolderListing {
    pub folder: String,
    pub entries: Result<Vec<FolderEntry>, String>,
}

/// The manifest of an entry: none unless it is a directory; the one directly
/// in it when present, else the one in its `Content` folder when present.
pub open spec fn entry_manifest(e: FolderEntry) -> Seq<Seq<char>> {
    if !e.is_dir {
        seq![]
    } else if e.has_manifest {
        seq![join_path(e.path@, "AppxManifest.xml"@)]
    } else if e.has_content_manifest {
        seq![join_path(join_path(e.path@, "Content"@), "AppxManifest.xml"@)]
    } else {
        seq![]
    }
}

pub open spec fn entries_manifests(es: Seq<FolderEntry>) -> Seq<Seq<char>>
    decreases es.len(),
{
    if es.len() == 0 {
        seq![]
    } else {
        entries_manifests(es.drop_last()) + entry_manifest(es.last())
    }
}

pub open spec fn listing_manifests(l: FolderListing) -> Seq<Seq<char>> {
    match l.entries {
        Ok(es) => entries_manifests(es@),
        Err(_) => seq![],
    }
}

pub open spec fn manifests_of(ls: Seq<FolderListing>) -> Seq<Seq<char>>
    decreases ls.len(),
{
    if ls.len() == 0 {
        seq![]
    } else {
        manifests_of(ls.drop_last()) + listing_manifests(ls.last())
    }
}

/// The folders that could not be listed.
pub open spec fn unlisted_count(ls: Seq<FolderListing>) -> nat
    decreases ls.len(),
{
    if ls.len() == 0 {
        0
    } else {
        unlisted_count(ls.drop_last()) + if ls.last().entries is Err {
            1nat
        } else {
            0nat
        }
    }
}

/// The manifests of folders listed one after another are those of the first
/// folders followed by those of the others: each listed folder contributes
/// its entries' manifests on its own.
pub proof fn lemma_manifests_concat(first: Seq<FolderListing>, second: Seq<FolderListing>)
    ensures
        manifests_of(first + second) == manifests_of(first) + manifests_of(second),
    decreases second.len(),
{
    if second.len() == 0 {
        assert(first + second =~= first);
        assert(manifests_of(first) + seq![] =~= manifests_of(first));
    } else {
        lemma_manifests_concat(first, second.drop_last());
        assert((first + second).drop_last() =~= first + second.drop_last());
        assert((first + second).last() == second.last());
        assert(manifests_of(first) + manifests_of(second.drop_last()) + listing_manifests(
            second.last(),
        ) =~= manifests_of(first) + (manifests_of(second.drop_last()) + listing_manifests(
            second.last(),
        )));
    }
}

/// The manifest that a folder entry holds: `AppxManifest.xml` directly in
/// it, else `Content\AppxManifest.xml`; none for an entry that is not a
/// directory or holds neither.
pub open spec fn manifest_in_entry(e: FolderEntry) -> Option<Seq<char>> {
    if e.is_dir && e.has_manifest {
        Some(join_path(e.path@, "AppxManifest.xml"@))
    } else if e.is_dir && e.has_content_manifest {
        Some(join_path(join_path(e.path@, "Content"@), "AppxManifest.xml"@))
    } else {
        None
    }
}

proof fn lemma_entries_manifests_rule(es: Seq<FolderEntry>)
    ensures
        forall|j: int|
            0 <= j < es.len() && manifest_in_entry(#[trigger] es[j]) is Some ==> entries_manifests(
                es,
            ).contains(manifest_in_entry(es[j])->Some_0),
        entries_manifests(es).len() <= es.len(),
    decreases es.len(),
{
    if es.len() > 0 {
        let prev = es.drop_last();
        lemma_entries_manifests_rule(prev);
        let all = entries_manifests(es);
        assert forall|j: int|
            0 <= j < es.len() && manifest_in_entry(#[trigger] es[j]) is Some implies all.contains(
            manifest_in_entry(es[j])->Some_0,
        ) by {
            let m = manifest_in_entry(es[j])->Some_0;
            if j < prev.len() {
                assert(prev[j] == es[j]);
                let k = choose|k: int| 0 <= k < entries_manifests(prev).len() && entries_manifests(prev)[k] == m;
                assert(all[k] == m);
            } else {
                assert(all[entries_manifests(prev).len() as int] == m);
            }
        }
    }
}

/// Every game manifest of every folder that could be listed is found: for
/// each listed entry that holds a manifest (`manifest_in_entry`), that
/// manifest is among the results, whatever the other folders hold.
pub proof fn lemma_manifests_rule(listings: Seq<FolderListing>)
    ensures
        forall|i: int, j: int|
            0 <= i < listings.len() && listings[i].entries is Ok && 0 <= j
                < listings[i].entries->Ok_0@.len() && #[trigger] manifest_in_entry(
                listings[i].entries->Ok_0@[j],
            ) is Some ==> manifests_of(listings).contains(
                manifest_in_entry(listings[i].entries->Ok_0@[j])->Some_0,
            ),
    decreases listings.len(),
{
    if listings.len() > 0 {
        let prev = listings.drop_last();
        let l = listings.last();
        lemma_manifests_rule(prev);
        let all = manifests_of(listings);
        assert forall|i: int, j: int|
            0 <= i < listings.len() && listings[i].entries is Ok && 0 <= j
                < listings[i].entries->Ok_0@.len() && #[trigger] manifest_in_entry(
                listings[i].entries->Ok_0@[j],
            ) is Some implies all.contains(manifest_in_entry(listings[i].entries->Ok_0@[j])->Some_0) by {
            let m = manifest_in_entry(listings[i].entries->Ok_0@[j])->Some_0;
            if i < prev.len() {
                assert(prev[i] == listings[i]);
                assert(manifests_of(prev).contains(m));
                let k = choose|k: int| 0 <= k < manifests_of(prev).len() && manifests_of(prev)[k] == m;
                assert(all[k] == m);
            } else {
                let es = l.entries->Ok_0@;
                lemma_entries_manifests_rule(es);
                assert(entries_manifests(es).contains(m));
                let k = choose|k: int| 0 <= k < entries_manifests(es).len() && entries_manifests(es)[k] == m;
                assert(all[manifests_of(prev).len() + k] == m);
            }
        }
    }
}

fn entries_manifests_exec(es: &Vec<FolderEntry>, out: &mut Vec<String>)
    ensures
        final(out)@.map_values(|s: String| s@) == old(out)@.map_values(|s: String| s@)
            + entries_manifests(es@),
{
    let ghost start = out@.map_values(|s: String| s@);
    let mut j: usize = 0;
    while j < es.len()
        invariant
            j <= es@.len(),
            out@.map_values(|s: String| s@) == start + entries_manifests(es@.subrange(0, j as int)),
        decreases es@.len() - j,
    {
        let e = &es[j];
        assert(es@.subrange(0, j + 1).drop_last() =~= es@.subrange(0, j as int));
        assert(es@.subrange(0, j + 1).last() == es@[j as int]);
        let ghost before = out@.map_values(|s: String| s@);
        if e.is_dir {
            if e.has_manifest {
                out.push(manifest_path(e.path.as_str()));
            } else if e.has_content_manifest {
                out.push(content_manifest_path(e.path.as_str()));
            }
        }
        assert(out@.map_values(|s: String| s@) =~= before + entry_manifest(*e));
        j = j + 1;
    }
    assert(es@.subrange(0, es@.len() as int) =~= es@);
}

/// The game manifests in the given app folders, in folder and entry order,
/// and one `IO` failure for each folder that could not be listed.
pub fn get_game_manifests_from_folders(listings: &Vec<FolderListing>) -> (r: (Vec<String>, Vec<Error>))
    ensures
        r.0@.map_values(|s: String| s@) == manifests_of(listings@),
        r.1@.len() == unlisted_count(listings@),
        forall|i: int| 0 <= i < r.1@.len() ==> (#[trigger] r.1@[i]).kind == ErrorKind::IO,
{
    let mut manifests: Vec<String> = Vec::new();
    let mut errors: Vec<Error> = Vec::new();
    let mut i: usize = 0;
    while i < listings.len()
        invariant
            i <= listings@.len(),
            manifests@.map_values(|s: String| s@) == manifests_of(listings@.subrange(0, i as int)),
            errors@.len() == unlisted_count(listings@.subrange(0, i as int)),
            forall|k: int| 0 <= k < errors@.len() ==> (#[trigger] errors@[k]).kind == ErrorKind::IO,
        decreases listings@.len() - i,
    {
        let l = &listings[i];
        assert(listings@.subrange(0, i + 1).drop_last() =~= listings@.subrange(0, i as int));
        assert(listings@.subrange(0, i + 1).last() == listings@[i as int]);
        let ghost before = manifests@.map_values(|s: String| s@);
        match &l.entries {
            Ok(es) => {
                entries_manifests_exec(es, &mut manifests);
            },
            Err(message) => {
                let mut m = String::from_str("Unable to read Xbox app folder ");
                m.append(l.folder.as_str());
                m.append(": ");
                m.append(message.as_str());
                errors.push(Error::new(ErrorKind::IO, m));
                assert(manifests@.map_values(|s: String| s@) =~= before + seq![]);
            },
        }
        i = i + 1;
    }
    assert(listings@.subrange(0, listings@.len() as int) =~= listings@);
    (manifests, errors)
}

} // verus!
