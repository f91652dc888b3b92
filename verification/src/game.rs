//! Registered games: what is kept of each, how one is admitted, and how it is
//! listed for launching.

use vstd::prelude::*;
use vstd::string::*;
use crate::accumulator::{total, TimeAccumulator};
use crate::text::{last_segment, last_segment_of, lowercase};
use crate::time_format::{format_time, time_text};

verus! {

/// The system family that the launcher runs on. It decides how paths are
/// cut and how a program is killed by name.
#[derive(Clone, Copy, Debug, PartialEq, Eq, Structural)]
pub enum Platform {
    Unix,
    Windows,
}

impl Platform {
    /// The character that parts the segments of a path.
    pub open spec fn separator(self) -> char {
        match self {
            Platform::Unix => '/',
            Platform::Windows => '\\',
        }
    }

    /// The character that parts the segments of a path.
    pub fn path_separator(self) -> (sep: char)
        ensures
            sep == self.separator(),
    {
        match self {
            Platform::Unix => '/',
            Platform::Windows => '\\',
        }
    }
}

/// A registered game as contracts see it.
pub struct GameView {
    pub name: Seq<char>,
    pub author: Seq<char>,
    pub location: Seq<char>,
}

/// A registered game: its name, its author and the path of its executable.
#[derive(Debug)]
pub struct Game {
    pub name: String,
    pub author: String,
    pub location: String,
}

impl View for Game {
    type V = GameView;

    open spec fn view(&self) -> GameView {
        GameView { name: self.name@, author: self.author@, location: self.location@ }
    }
}

impl Clone for Game {
    fn clone(&self) -> (copy: Game)
        ensures
            copy@ == self@,
    {
        Game {
            name: self.name.clone(),
            author: self.author.clone(),
            location: self.location.clone(),
        }
    }
}

impl PartialEq for Game {
    fn eq(&self, other: &Game) -> (same: bool) {
        self.name == other.name && self.author == other.author && self.location
            == other.location
    }
}

impl vstd::std_specs::cmp::PartialEqSpecImpl for Game {
    open spec fn obeys_eq_spec() -> bool {
        true
    }

    open spec fn eq_spec(&self, other: &Game) -> bool {
        self.name@ == other.name@ && self.author@ == other.author@ && self.location@
            == other.location@
    }
}

/// What a list of games looks like to contracts.
pub open spec fn game_views(games: Seq<Game>) -> Seq<GameView> {
    games.map_values(|game: Game| game@)
}

/// The name under which the run time of the executable at `location` is kept:
/// the last segment of the path, in lower case.
pub open spec fn time_key(location: Seq<char>, platform: Platform) -> Seq<char> {
    lowercase(last_segment(location, platform.separator()))
}

/// The name under which the run time of the executable at `location` is kept.
pub fn time_key_of(location: &str, platform: Platform) -> (key: String)
    ensures
        key@ == time_key(location@, platform),
{
    let segment = last_segment_of(location, platform.path_separator());
    segment.as_str().to_lowercase()
}

/// The line that lists a game with `seconds` of run time: name, author and
/// the time as it is displayed.
pub open spec fn label_text(game: GameView, seconds: nat) -> Seq<char> {
    game.name + " by "@ + game.author + ", "@ + time_text(seconds)
}

/// The line that lists `game` with `seconds` of run time.
pub fn label_with_seconds(game: &Game, seconds: u64) -> (label: String)
    ensures
        label@ == label_text(game@, seconds as nat),
{
    let mut label = game.name.clone();
    label.append(" by ");
    label.append(game.author.as_str());
    label.append(", ");
    let time = format_time(&seconds);
    label.append(time.as_str());
    label
}

/// The line that lists `game` for launching, with the run time that `times`
/// holds under the game's key: 0 seconds where the game was never seen running.
pub fn launch_label(game: &Game, times: &TimeAccumulator, platform: Platform) -> (label: String)
    ensures
        label@ == label_text(game@, total(times@, time_key(game.location@, platform))),
{
    let key = time_key_of(game.location.as_str(), platform);
    label_with_seconds(game, times.seconds_of(key.as_str()))
}

/// Why a game is not admitted to the list.
#[derive(Clone, Copy, Debug, PartialEq, Eq, Structural)]
pub enum RegistrationError {
    /// Nothing exists at the path given.
    MissingPath,
    /// The name is empty.
    EmptyName,
    /// The author is empty.
    EmptyAuthor,
}

impl RegistrationError {
    /// The status line shown to the user.
    pub open spec fn message_text(self) -> Seq<char> {
        match self {
            RegistrationError::MissingPath => "Game does not exist"@,
            RegistrationError::EmptyName => "Game requires a name"@,
            RegistrationError::EmptyAuthor => "Game requires an author"@,
        }
    }

    /// The status line shown to the user.
    pub fn message(&self) -> (text: String)
        ensures
            text@ == self.message_text(),
    {
        match self {
            RegistrationError::MissingPath => String::from_str("Game does not exist"),
            RegistrationError::EmptyName => String::from_str("Game requires a name"),
            RegistrationError::EmptyAuthor => String::from_str("Game requires an author"),
        }
    }
}

/// Whether a game with this name and author may be registered, given whether
/// anything exists at its path. The path is looked at first, then the name,
/// then the author.
pub open spec fn registration(name: Seq<char>, author: Seq<char>, path_exists: bool) -> Result<
    (),
    RegistrationError,
> {
    if !path_exists {
        Err(RegistrationError::MissingPath)
    } else if name.len() == 0 {
        Err(RegistrationError::EmptyName)
    } else if author.len() == 0 {
        Err(RegistrationError::EmptyAuthor)
    } else {
        Ok(())
    }
}

/// Decides whether a game may be registered.
pub fn check_registration(name: &str, author: &str, path_exists: bool) -> (verdict: Result<
    (),
    RegistrationError,
>)
    ensures
        verdict == registration(name@, author@, path_exists),
{
    if !path_exists {
        Err(RegistrationError::MissingPath)
    } else if name.is_empty() {
        Err(RegistrationError::EmptyName)
    } else if author.is_empty() {
        Err(RegistrationError::EmptyAuthor)
    } else {
        Ok(())
    }
}

} // verus!
