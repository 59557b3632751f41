//! Xbox / Microsoft Store games.
//!
//! Games are found the way GameFinder finds them: on every drive, in
//! `Program Files\ModifiableWindowsApps` and in the folders that the drive's
//! `.GamingRoot` lists; each direct child folder holding `AppxManifest.xml`,
//! or `Content\AppxManifest.xml`, is a game. The manifest's `Identity` name
//! is the game's id and its `DisplayName` the game's name; the folder holding
//! the manifest is the game's path.

pub mod gaming_root;
pub mod manifest;
pub mod platform;
pub mod process;

use vstd::prelude::*;
use crate::error::{Error, ErrorKind};
use crate::paths::{parent, parent_dir};
use crate::prelude::{Game, GameCommands, GameState, GameType, launcher_name};
use crate::xbox::manifest::ParsedManifest;

verus! {

/// The game a manifest describes, with id, name and path.
pub open spec fn is_xbox_game(g: Game, id: Seq<char>, name: Seq<char>, path: Seq<char>) -> bool {
    &&& g._type@ == launcher_name(GameType::XboxGames)
    &&& g.id@ == id
    &&& g.name@ == name
    &&& g.path matches Some(p) && p@ == path
    &&& g.match_identity is None
    &&& g.commands.install is None && g.commands.launch is None && g.commands.uninstall is None
    &&& g.state.installed && !g.state.needs_update && !g.state.downloading
    &&& g.state.total_bytes is None && g.state.received_bytes is None
}

/// The path of the Xbox app's executable, for a system without the Microsoft
/// Store (the version this library builds): the launcher is not found. On
/// Windows the executable is chosen among the installed packages by
/// `platform::select_launcher_executable`, which the caller gives the
/// package manager's records.
pub fn executable() -> (r: Result<String, Error>)
    ensures
        r matches Err(e) && e.kind == ErrorKind::LauncherNotFound,
{
    platform::get_launcher_executable()
}

/// The installed Xbox games, for a system without the Microsoft Store (the
/// version this library builds): the launcher is not found. On Windows the
/// games come from the disk in these steps, each given what the caller read:
/// `platform::drive_roots`, `platform::get_app_folders_from_roots`,
/// `platform::get_game_manifests_from_folders`, then `scan_all`.
pub fn games() -> (r: Result<Vec<Game>, Error>)
    ensures
        r matches Err(e) && e.kind == ErrorKind::LauncherNotFound,
{
    Err(
        Error::new(
            ErrorKind::LauncherNotFound,
            String::from_str("Xbox / Microsoft Store is not supported on this platform"),
        ),
    )
}

/// The index of the first game with the given id.
pub open spec fn first_with_id(all: Seq<Game>, id: Seq<char>) -> Option<int>
    decreases all.len(),
{
    if all.len() == 0 {
        None
    } else if all[0].id@ == id {
        Some(0)
    } else {
        match first_with_id(all.skip(1), id) {
            Some(i) => Some(i + 1),
            None => None,
        }
    }
}

/// Which game a search by id finds: a game whose id is the searched id, with
/// no earlier game having that id; a search finds one whenever some game has
/// that id.
pub proof fn lemma_find_rule(all: Seq<Game>, id: Seq<char>)
    ensures
        first_with_id(all, id) matches Some(i) ==> 0 <= i < all.len() && all[i].id@ == id && forall|
            j: int,
        | 0 <= j < i ==> (#[trigger] all[j]).id@ != id,
        (exists|i: int| 0 <= i < all.len() && (#[trigger] all[i]).id@ == id) ==> first_with_id(
            all,
            id,
        ) is Some,
    decreases all.len(),
{
    if all.len() > 0 {
        let rest = all.skip(1);
        lemma_find_rule(rest, id);
        assert forall|j: int| 0 <= j < rest.len() implies rest[j] == all[j + 1] by {}
        if all[0].id@ != id {
            if exists|i: int| 0 <= i < all.len() && (#[trigger] all[i]).id@ == id {
                let i = choose|i: int| 0 <= i < all.len() && (#[trigger] all[i]).id@ == id;
                assert(rest[i - 1].id@ == id);
            }
            match first_with_id(rest, id) {
                Some(i) => {
                    assert forall|j: int| 0 <= j < i + 1 implies (#[trigger] all[j]).id@ != id by {
                        if j > 0 {
                            assert(all[j] == rest[j - 1]);
                        }
                    }
                },
                None => {},
            }
        }
    }
}

/// The first game of `all` with the given id; `GameNotFound` when none has it.
pub fn find_in(all: Vec<Game>, id: &str) -> (r: Result<Game, Error>)
    ensures
        match first_with_id(all@, id@) {
            Some(i) => r matches Ok(g) && g == all@[i],
            None => r matches Err(e) && e.kind == ErrorKind::GameNotFound,
        },
{
    let ghost start = all@;
    let mut rest = all;
    let ghost mut i: int = 0;
    assert(start.skip(0) =~= start);
    while rest.len() > 0
        invariant
            0 <= i <= start.len(),
            start == all@,
            rest@ == start.skip(i),
            first_with_id(start, id@) == match first_with_id(start.skip(i), id@) {
                Some(j) => Some(j + i),
                None => None::<int>,
            },
        decreases rest@.len(),
    {
        let g = rest.remove(0);
        assert(g == start[i]);
        assert(start.skip(i).skip(1) =~= start.skip(i + 1));
        if crate::text::str_equal(g.id.as_str(), id) {
            return Ok(g);
        }
        proof {
            i = i + 1;
        }
    }
    let mut m = String::from_str("Xbox game with id (");
    m.append(id);
    m.append(") not found");
    Err(Error::new(ErrorKind::GameNotFound, m))
}

/// The Xbox game with the given manifest identity name, for a system without
/// the Microsoft Store: `games` fails, so this fails the same way. The search
/// among the games of a scan is `find_in`.
pub fn find(id: &str) -> (r: Result<Game, Error>)
    ensures
        r matches Err(e) && e.kind == ErrorKind::LauncherNotFound,
{
    let all = games()?;
    find_in(all, id)
}

/// Games found on disk have no package full name, so they cannot be
/// uninstalled: this always fails with `InvalidGame`.
pub fn uninstall(game: &Game) -> (r: Result<(), Error>)
    ensures
        r matches Err(e) && e.kind == ErrorKind::InvalidGame,
{
    Err(
        Error::new(
            ErrorKind::InvalidGame,
            String::from_str("Xbox games discovered from disk do not expose an uninstall command"),
        ),
    )
}

/// The ids of the game's processes (see `process::pids`), for a system
/// without the Microsoft Store: none. On Windows they are
/// `process::pids_in` of the running processes.
pub fn processes(game: &Game) -> (r: Option<Vec<u32>>)
    ensures
        r matches Some(v) && v@.len() == 0,
{
    Some(process::pids(game))
}

/// The message for a manifest path without a parent folder.
pub open spec fn no_parent_message(manifest_path: Seq<char>) -> Seq<char> {
    "Manifest has no parent directory: "@ + manifest_path
}

/// The game described by a parsed manifest found at `manifest_path`: its id
/// is the identity name, its name the display name, its path the folder of
/// the manifest, and it is installed. Fails with `InvalidManifest` when the
/// manifest path has no parent folder.
pub fn build_game(manifest_path: &str, parsed: ParsedManifest) -> (r: Result<Game, Error>)
    ensures
        match parent_dir(manifest_path@) {
            Some(p) => r matches Ok(g) && is_xbox_game(
                g,
                parsed.identity_name@,
                parsed.display_name@,
                p,
            ),
            None => r matches Err(e) && e.kind == ErrorKind::InvalidManifest && e.message@
                == no_parent_message(manifest_path@),
        },
{
    let game_path = match parent(manifest_path) {
        Some(p) => p,
        None => {
            let mut m = String::from_str("Manifest has no parent directory: ");
            m.append(manifest_path);
            return Err(Error::new(ErrorKind::InvalidManifest, m));
        },
    };
    Ok(Game {
        _type: GameType::XboxGames.to_string(),
        id: parsed.identity_name,
        match_identity: None,
        name: parsed.display_name,
        path: Some(game_path),
        commands: GameCommands { install: None, launch: None, uninstall: None },
        state: GameState {
            installed: true,
            needs_update: false,
            downloading: false,
            total_bytes: None,
            received_bytes: None,
        },
    })
}

/// A manifest found on disk: its path and the outcome of reading it.
pub type ManifestOutcome = (String, Result<ParsedManifest, Error>);

/// What a manifest outcome contributes: the id, name and path of its game,
/// when it was read and its path has a parent.
pub open spec fn outcome_game(o: ManifestOutcome) -> Option<(Seq<char>, Seq<char>, Seq<char>)> {
    match o.1 {
        Ok(m) => match parent_dir(o.0@) {
            Some(p) => Some((m.identity_name@, m.display_name@, p)),
            None => None,
        },
        Err(_) => None,
    }
}

/// The outcomes that give no game, in order.
pub open spec fn failed_outcomes(os: Seq<ManifestOutcome>) -> Seq<ManifestOutcome>
    decreases os.len(),
{
    if os.len() == 0 {
        seq![]
    } else {
        let r = failed_outcomes(os.drop_last());
        if outcome_game(os.last()) is None {
            r.push(os.last())
        } else {
            r
        }
    }
}

/// The failure that a failed outcome reports: its reading error, or, when its
/// path has no parent folder, an `InvalidManifest` error that names the path.
pub open spec fn reports_failure(o: ManifestOutcome, e: Error) -> bool {
    match o.1 {
        Err(read_error) => e == read_error,
        Ok(_) => e.kind == ErrorKind::InvalidManifest && e.message@ == no_parent_message(o.0@),
    }
}

pub open spec fn outcome_games(os: Seq<ManifestOutcome>) -> Seq<(Seq<char>, Seq<char>, Seq<char>)>
    decreases os.len(),
{
    if os.len() == 0 {
        seq![]
    } else {
        let r = outcome_games(os.drop_last());
        match outcome_game(os.last()) {
            Some(t) => r.push(t),
            None => r,
        }
    }
}

/// A manifest that could not be read, or whose path has no parent folder,
/// adds no game and takes none away: the scan gives the games of the other
/// manifests, in order.
pub proof fn lemma_failed_manifest_adds_nothing(
    before: Seq<ManifestOutcome>,
    failed: ManifestOutcome,
    after: Seq<ManifestOutcome>,
)
    requires
        outcome_game(failed) is None,
    ensures
        outcome_games(before.push(failed) + after) == outcome_games(before + after),
    decreases after.len(),
{
    if after.len() == 0 {
        assert(before.push(failed) + after =~= before.push(failed));
        assert(before + after =~= before);
        assert(before.push(failed).drop_last() =~= before);
    } else {
        let rest = after.drop_last();
        lemma_failed_manifest_adds_nothing(before, failed, rest);
        assert((before.push(failed) + after).drop_last() =~= before.push(failed) + rest);
        assert((before + after).drop_last() =~= before + rest);
    }
}

/// When every manifest was read and has a parent folder, the scan gives one
/// game per manifest, in order: its id and name from the manifest, its path
/// the manifest's folder.
pub proof fn lemma_readable_manifests_give_one_game_each(os: Seq<ManifestOutcome>)
    requires
        forall|i: int| 0 <= i < os.len() ==> (#[trigger] os[i]).1 is Ok && parent_dir(os[i].0@) is Some,
    ensures
        outcome_games(os).len() == os.len(),
        forall|i: int|
            0 <= i < os.len() ==> (#[trigger] outcome_games(os)[i]) == (
                os[i].1->Ok_0.identity_name@,
                os[i].1->Ok_0.display_name@,
                parent_dir(os[i].0@)->Some_0,
            ),
    decreases os.len(),
{
    if os.len() > 0 {
        let rest = os.drop_last();
        assert forall|i: int| 0 <= i < rest.len() implies (#[trigger] rest[i]).1 is Ok && parent_dir(
            rest[i].0@,
        ) is Some by {
            assert(rest[i] == os[i]);
        }
        lemma_readable_manifests_give_one_game_each(rest);
        assert(os.last() == os[os.len() - 1]);
        assert forall|i: int| 0 <= i < os.len() implies (#[trigger] outcome_games(os)[i]) == (
            os[i].1->Ok_0.identity_name@,
            os[i].1->Ok_0.display_name@,
            parent_dir(os[i].0@)->Some_0,
        ) by {
            if i < os.len() - 1 {
                assert(rest[i] == os[i]);
            }
        }
    }
}

/// The games of the manifests found on disk, in order, and the failures met,
/// one per failed manifest, in order: one bad manifest does not stop the scan.
pub fn scan_all(manifests: Vec<ManifestOutcome>) -> (r: (Vec<Game>, Vec<Error>))
    ensures
        r.1@.len() == failed_outcomes(manifests@).len(),
        forall|i: int|
            0 <= i < r.1@.len() ==> reports_failure(failed_outcomes(manifests@)[i], #[trigger] r.1@[i]),
        r.0@.len() == outcome_games(manifests@).len(),
        forall|i: int|
            0 <= i < r.0@.len() ==> is_xbox_game(
                #[trigger] r.0@[i],
                outcome_games(manifests@)[i].0,
                outcome_games(manifests@)[i].1,
                outcome_games(manifests@)[i].2,
            ),
        r.0@.len() + r.1@.len() == manifests@.len(),
{
    let ghost all = manifests@;
    let mut rest = manifests;
    assert(all.skip(0) =~= all);
    let mut out: Vec<Game> = Vec::new();
    let mut errors: Vec<Error> = Vec::new();
    let ghost mut i: int = 0;
    while rest.len() > 0
        invariant
            0 <= i <= all.len(),
            all == manifests@,
            rest@ == all.skip(i),
            out@.len() == outcome_games(all.subrange(0, i)).len(),
            forall|k: int|
                0 <= k < out@.len() ==> is_xbox_game(
                    #[trigger] out@[k],
                    outcome_games(all.subrange(0, i))[k].0,
                    outcome_games(all.subrange(0, i))[k].1,
                    outcome_games(all.subrange(0, i))[k].2,
                ),
            out@.len() + errors@.len() == i,
            errors@.len() == failed_outcomes(all.subrange(0, i)).len(),
            forall|k: int|
                0 <= k < errors@.len() ==> reports_failure(
                    failed_outcomes(all.subrange(0, i))[k],
                    #[trigger] errors@[k],
                ),
        decreases rest@.len(),
    {
        let entry = rest.remove(0);
        assert(entry == all[i]);
        assert(all.skip(i).skip(1) =~= all.skip(i + 1));
        assert(all.subrange(0, i + 1).drop_last() =~= all.subrange(0, i));
        assert(all.subrange(0, i + 1).last() == all[i]);
        let (path, outcome) = entry;
        match outcome {
            Ok(parsed) => {
                match build_game(path.as_str(), parsed) {
                    Ok(g) => {
                        out.push(g);
                    },
                    Err(e) => {
                        errors.push(e);
                    },
                }
            },
            Err(e) => {
                errors.push(e);
            },
        }
        proof {
            i = i + 1;
        }
    }
    assert(all.subrange(0, all.len() as int) =~= all);
    (out, errors)
}

} // verus!
