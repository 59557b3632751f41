//! The launchers and the games they hold.
use vstd::prelude::*;
use crate::text::str_equal;

verus! {

/// A game launcher.
#[derive(Clone, Copy, Debug, Eq, Hash, Ord, PartialEq, PartialOrd, Structural)]
pub enum GameType {
    AmazonGames,
    Blizzard,
    EpicGames,
    GOG,
    Origin,
    RiotGames,
    Steam,
    Ubisoft,
    XboxGames,
}

/// The snake-case name of a launcher.
pub open spec fn launcher_name(t: GameType) -> Seq<char> {
    match t {
        GameType::AmazonGames => "amazongames"@,
        GameType::Blizzard => "blizzard"@,
        GameType::EpicGames => "epicgames"@,
        GameType::GOG => "gog"@,
        GameType::Origin => "origin"@,
        GameType::RiotGames => "riotgames"@,
        GameType::Steam => "steam"@,
        GameType::Ubisoft => "ubisoft"@,
        GameType::XboxGames => "xbox"@,
    }
}

impl GameType {
    /// The snake-case name of the launcher, as used on every interface.
    pub fn to_string(&self) -> (s: String)
        ensures
            s@ == launcher_name(*self),
    {
        let name = match self {
            GameType::AmazonGames => "amazongames",
            GameType::Blizzard => "blizzard",
            GameType::EpicGames => "epicgames",
            GameType::GOG => "gog",
            GameType::Origin => "origin",
            GameType::RiotGames => "riotgames",
            GameType::Steam => "steam",
            GameType::Ubisoft => "ubisoft",
            GameType::XboxGames => "xbox",
        };
        String::from_str(name)
    }
}

/// How a game is recognised across launchers.
pub enum MatchIdentity {
    Epic { catalog_namespace: String, catalog_item_id: String },
}

/// Commands to install, launch and uninstall a game, each as program and
/// arguments.
pub struct GameCommands {
    pub install: Option<Vec<String>>,
    pub launch: Option<Vec<String>>,
    pub uninstall: Option<Vec<String>>,
}

pub struct GameState {
    pub installed: bool,
    pub needs_update: bool,
    pub downloading: bool,
    pub total_bytes: Option<u64>,
    pub received_bytes: Option<u64>,
}

/// A game found by a launcher.
pub struct Game {
    /// The launcher's snake-case name.
    pub _type: String,
    pub id: String,
    pub match_identity: Option<MatchIdentity>,
    pub name: String,
    /// The installation folder.
    pub path: Option<String>,
    pub commands: GameCommands,
    pub state: GameState,
}

} // verus!

verus! {

/// The launcher with the given snake-case name (case-sensitive).
pub open spec fn launcher_of_name(name: Seq<char>) -> Option<GameType> {
    if name == "amazongames"@ {
        Some(GameType::AmazonGames)
    } else if name == "blizzard"@ {
        Some(GameType::Blizzard)
    } else if name == "epicgames"@ {
        Some(GameType::EpicGames)
    } else if name == "gog"@ {
        Some(GameType::GOG)
    } else if name == "origin"@ {
        Some(GameType::Origin)
    } else if name == "riotgames"@ {
        Some(GameType::RiotGames)
    } else if name == "steam"@ {
        Some(GameType::Steam)
    } else if name == "ubisoft"@ {
        Some(GameType::Ubisoft)
    } else if name == "xbox"@ {
        Some(GameType::XboxGames)
    } else {
        None
    }
}

/// Parses a snake-case launcher name; `None` for an unknown name.
pub fn parse_launcher(name: &str) -> (r: Option<GameType>)
    ensures
        r == launcher_of_name(name@),
{
    if str_equal(name, "amazongames") {
        Some(GameType::AmazonGames)
    } else if str_equal(name, "blizzard") {
        Some(GameType::Blizzard)
    } else if str_equal(name, "epicgames") {
        Some(GameType::EpicGames)
    } else if str_equal(name, "gog") {
        Some(GameType::GOG)
    } else if str_equal(name, "origin") {
        Some(GameType::Origin)
    } else if str_equal(name, "riotgames") {
        Some(GameType::RiotGames)
    } else if str_equal(name, "steam") {
        Some(GameType::Steam)
    } else if str_equal(name, "ubisoft") {
        Some(GameType::Ubisoft)
    } else if str_equal(name, "xbox") {
        Some(GameType::XboxGames)
    } else {
        None
    }
}

/// Every launcher's name parses back to that launcher.
pub proof fn lemma_parse_launcher_round_trip(t: GameType)
    ensures
        launcher_of_name(launcher_name(t)) == Some(t),
{
    reveal_strlit("amazongames");
    reveal_strlit("blizzard");
    reveal_strlit("epicgames");
    reveal_strlit("gog");
    reveal_strlit("origin");
    reveal_strlit("riotgames");
    reveal_strlit("steam");
    reveal_strlit("ubisoft");
    reveal_strlit("xbox");
    assert("amazongames"@.len() == 11);
    assert("blizzard"@.len() == 8);
    assert("epicgames"@.len() == 9);
    assert("gog"@.len() == 3);
    assert("origin"@.len() == 6);
    assert("riotgames"@.len() == 9);
    assert("steam"@.len() == 5);
    assert("ubisoft"@.len() == 7);
    assert("xbox"@.len() == 4);
    assert("epicgames"@[0] != "riotgames"@[0]);
    match t {
        GameType::RiotGames => {
            assert("riotgames"@ != "epicgames"@);
        },
        _ => {},
    }
}

/// A name parses to a launcher only if it is exactly that launcher's name.
pub proof fn lemma_parse_launcher_exact(name: Seq<char>)
    ensures
        launcher_of_name(name) matches Some(t) ==> launcher_name(t) == name,
{
}

/// Distinct launchers have distinct names.
pub proof fn lemma_launcher_names_distinct(a: GameType, b: GameType)
    ensures
        launcher_name(a) == launcher_name(b) ==> a == b,
{
    lemma_parse_launcher_round_trip(a);
    lemma_parse_launcher_round_trip(b);
}

} // verus!
