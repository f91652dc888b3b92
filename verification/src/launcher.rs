//! The launcher's own state and what the user's actions do to it.

use vstd::prelude::*;
use vstd::string::*;
use crate::accumulator::{total, TimeAccumulator};
use crate::game::{
    check_registration, game_views, label_text, launch_label, registration, time_key, Game,
    GameView, Platform, RegistrationError,
};
use crate::hidden::HiddenSet;
use crate::kill_all::{panic_steps, plan_panic, step_views, PanicStep};
use crate::sampler::LoopState;

verus! {

/// The seconds between two automatic saves of the launcher's state.
pub const AUTO_SAVE_SECONDS: u64 = 3;

/// The pages of the launcher.
#[derive(Clone, Copy, Debug, PartialEq, Eq, Structural)]
pub enum Page {
    Home,
    Launch,
    AddGame,
    ProcTime,
    Settings,
}

/// The launcher's state as contracts see it.
pub struct GameLunchView {
    pub page: Page,
    pub games: Seq<GameView>,
    pub game: GameView,
    pub location: Seq<char>,
    pub status: Seq<char>,
    pub launch_status: Seq<char>,
    pub sampling: LoopState,
    pub removed_values: Seq<Seq<char>>,
}

/// The launcher's state: the page shown, the registered games, the game that
/// is being entered, the two status lines, whether the sampling loop was
/// started, and the names hidden from the listing of process times.
///
/// The handles of launched subprocesses and the shared accumulator are kept
/// by the caller, which hands the functions below what they need of them.
#[derive(Debug)]
pub struct GameLunch {
    pub page: Page,
    pub games: Vec<Game>,
    pub game: Game,
    pub location: String,
    pub status: String,
    pub launch_status: String,
    pub sampling: LoopState,
    pub removed_values: HiddenSet,
}

impl View for GameLunch {
    type V = GameLunchView;

    open spec fn view(&self) -> GameLunchView {
        GameLunchView {
            page: self.page,
            games: game_views(self.games@),
            game: self.game@,
            location: self.location@,
            status: self.status@,
            launch_status: self.launch_status@,
            sampling: self.sampling,
            removed_values: self.removed_values.list(),
        }
    }
}

/// The status line after a launch that succeeded, or that failed.
pub open spec fn launch_status_text(launched: bool) -> Seq<char> {
    if launched {
        "Launched game"@
    } else {
        "Failed to launch game"@
    }
}

impl Default for GameLunch {
    /// The state of a first run.
    fn default() -> (state: GameLunch)
        ensures
            state@ == GameLunch::initial(),
    {
        let state = GameLunch {
            page: Page::Home,
            games: Vec::new(),
            game: Game { name: String::new(), author: String::new(), location: String::new() },
            location: String::new(),
            status: String::new(),
            launch_status: String::new(),
            sampling: LoopState::NotStarted,
            removed_values: HiddenSet::new(),
        };
        assert(game_views(state.games@) =~= Seq::<GameView>::empty());
        state
    }
}

impl GameLunch {
    /// The state of a first run: the home page, no game, nothing entered, no
    /// status, the loop not started, nothing hidden.
    pub open spec fn initial() -> GameLunchView {
        GameLunchView {
            page: Page::Home,
            games: Seq::empty(),
            game: GameView { name: Seq::empty(), author: Seq::empty(), location: Seq::empty() },
            location: Seq::empty(),
            status: Seq::empty(),
            launch_status: Seq::empty(),
            sampling: LoopState::NotStarted,
            removed_values: Seq::empty(),
        }
    }

    /// The state at the start of a run: what was stored by an earlier run, or
    /// the state of a first run where nothing was. The sampling loop is never
    /// running at the start, whatever was stored.
    pub fn new(stored: Option<GameLunch>) -> (state: GameLunch)
        ensures
            state@ == match stored {
                Some(earlier) => (GameLunchView { sampling: LoopState::NotStarted, ..earlier@ }),
                None => GameLunch::initial(),
            },
    {
        match stored {
            Some(earlier) => {
                let mut state = earlier;
                state.sampling = LoopState::NotStarted;
                state
            },
            None => GameLunch::default(),
        }
    }

    /// The start guard of the sampling loop, checked at every refresh: tells
    /// the caller to start the loop at the first check and at no later one.
    pub fn ensure_loop_started(&mut self) -> (start: bool)
        ensures
            start == old(self).sampling.check_starts(),
            final(self)@ == (GameLunchView { sampling: LoopState::Running, ..old(self)@ }),
    {
        self.sampling.ensure_started()
    }

    /// Registers the game that is being entered, with the path that is being
    /// entered, if it may be registered; `path_exists` says whether anything
    /// exists at that path. The game then joins the end of the list and the
    /// entry fields and the status are emptied. Otherwise the list stays as
    /// it is and the status says why.
    pub fn add_game(&mut self, path_exists: bool) -> (verdict: Result<(), RegistrationError>)
        ensures
            verdict == registration(old(self).game.name@, old(self).game.author@, path_exists),
            final(self)@ == match verdict {
                Ok(_) => (GameLunchView {
                    games: old(self)@.games.push(
                        GameView {
                            name: old(self).game.name@,
                            author: old(self).game.author@,
                            location: old(self).location@,
                        },
                    ),
                    game: GameView {
                        name: Seq::empty(),
                        author: Seq::empty(),
                        location: old(self).game.location@,
                    },
                    location: Seq::empty(),
                    status: Seq::empty(),
                    ..old(self)@
                }),
                Err(reason) => (GameLunchView { status: reason.message_text(), ..old(self)@ }),
            },
    {
        let verdict = check_registration(
            self.game.name.as_str(),
            self.game.author.as_str(),
            path_exists,
        );
        match verdict {
            Ok(_) => {
                let ghost before = game_views(self.games@);
                let game = Game {
                    name: self.game.name.clone(),
                    author: self.game.author.clone(),
                    location: self.location.clone(),
                };
                self.games.push(game);
                assert(game_views(self.games@) =~= before.push(game@));
                self.game.name = String::new();
                self.game.author = String::new();
                self.location = String::new();
                self.status = String::new();
            },
            Err(reason) => {
                self.status = reason.message();
            },
        }
        verdict
    }

    /// Records how the launch of a game ended: the status line says whether
    /// the game was launched.
    pub fn record_launch(&mut self, launched: bool)
        ensures
            final(self)@ == (GameLunchView {
                launch_status: launch_status_text(launched),
                ..old(self)@
            }),
    {
        if launched {
            self.launch_status = String::from_str("Launched game");
        } else {
            self.launch_status = String::from_str("Failed to launch game");
        }
    }

    /// Takes the game at place `i` off the list.
    pub fn remove_game(&mut self, i: usize)
        requires
            i < old(self).games.len(),
        ensures
            final(self)@ == (GameLunchView {
                games: old(self)@.games.remove(i as int),
                ..old(self)@
            }),
    {
        let ghost before = game_views(self.games@);
        let _ = self.games.remove(i);
        assert(game_views(self.games@) =~= before.remove(i as int));
    }

    /// The lines that list the games for launching, one for each game in the
    /// order of the list, each with the run time that `times` holds for it.
    pub fn launch_labels(&self, times: &TimeAccumulator, platform: Platform) -> (labels: Vec<
        String,
    >)
        ensures
            labels.len() == self.games.len(),
            forall|i: int|
                0 <= i < labels.len() ==> (#[trigger] labels[i])@ == label_text(
                    self.games[i]@,
                    total(times@, time_key(self.games[i].location@, platform)),
                ),
    {
        let mut labels: Vec<String> = Vec::new();
        let mut i: usize = 0;
        while i < self.games.len()
            invariant
                i <= self.games.len(),
                labels.len() == i,
                forall|k: int|
                    0 <= k < i ==> (#[trigger] labels[k])@ == label_text(
                        self.games[k]@,
                        total(times@, time_key(self.games[k].location@, platform)),
                    ),
            decreases self.games.len() - i,
        {
            labels.push(launch_label(&self.games[i], times, platform));
            i += 1;
        }
        labels
    }

    /// Plans the panic operation for `launched` subprocesses and the games of
    /// the list.
    pub fn panic_plan(&self, launched: usize, platform: Platform) -> (steps: Vec<PanicStep>)
        ensures
            step_views(steps@) == panic_steps(launched as nat, self@.games, platform),
            steps.len() == launched + self.games.len() + 1,
    {
        plan_panic(launched, &self.games, platform)
    }
}

} // verus!
