//! The panic operation: what is terminated, in which order, before the
//! launcher itself exits.

use vstd::prelude::*;
use vstd::string::*;
use crate::game::{game_views, Game, GameView, Platform};
use crate::text::{last_segment, last_segment_of};

verus! {

/// The status with which the launcher exits after the panic operation.
pub const EXIT_STATUS: i32 = 0;

/// A shell command that kills by name, as contracts see it.
pub struct KillCommandView {
    pub program: Seq<char>,
    pub flag: Seq<char>,
    pub script: Seq<char>,
}

/// A shell command that kills every process of one name: the shell, the flag
/// that makes it run a script, and the script.
#[derive(Debug, PartialEq, Eq)]
pub struct KillCommand {
    pub program: String,
    pub flag: String,
    pub script: String,
}

impl View for KillCommand {
    type V = KillCommandView;

    open spec fn view(&self) -> KillCommandView {
        KillCommandView { program: self.program@, flag: self.flag@, script: self.script@ }
    }
}

/// One step of the panic operation, as contracts see it.
pub enum PanicStepView {
    Terminate(nat),
    KillByName(KillCommandView),
    Exit(int),
}

/// One step of the panic operation. A step that fails is passed over: the
/// steps behind it are still taken.
#[derive(Debug, PartialEq, Eq)]
pub enum PanicStep {
    /// Terminate the launched subprocess with this index.
    Terminate(usize),
    /// Run this command and ignore how it ends.
    KillByName(KillCommand),
    /// Exit the launcher with this status.
    Exit(i32),
}

impl View for PanicStep {
    type V = PanicStepView;

    open spec fn view(&self) -> PanicStepView {
        match self {
            PanicStep::Terminate(index) => PanicStepView::Terminate(*index as nat),
            PanicStep::KillByName(command) => PanicStepView::KillByName(command@),
            PanicStep::Exit(status) => PanicStepView::Exit(*status as int),
        }
    }
}

/// What a list of steps looks like to contracts.
pub open spec fn step_views(steps: Seq<PanicStep>) -> Seq<PanicStepView> {
    steps.map_values(|step: PanicStep| step@)
}

/// The command that kills the processes named like the executable at
/// `location`: the name is the last segment of the path, as it is written.
pub open spec fn kill_command(location: Seq<char>, platform: Platform) -> KillCommandView {
    let name = last_segment(location, platform.separator());
    match platform {
        Platform::Unix => KillCommandView {
            program: "sh"@,
            flag: "-c"@,
            script: "kill $(pidof "@ + name + ")"@,
        },
        Platform::Windows => KillCommandView {
            program: "cmd"@,
            flag: "/C"@,
            script: "taskkill $(pidof "@ + name + ")"@,
        },
    }
}

/// The steps of the panic operation with `launched` subprocesses and
/// these games: every subprocess is terminated, in the order of launch; then
/// one kill by name for each game, in the order of the list; then the exit.
pub open spec fn panic_steps(launched: nat, games: Seq<GameView>, platform: Platform) -> Seq<
    PanicStepView,
> {
    Seq::new(launched, |i: int| PanicStepView::Terminate(i as nat)) + games.map_values(
        |game: GameView| PanicStepView::KillByName(kill_command(game.location, platform)),
    ) + seq![PanicStepView::Exit(EXIT_STATUS as int)]
}

/// Builds the command that kills the processes named like the executable at
/// `location`.
pub fn kill_command_for(location: &str, platform: Platform) -> (command: KillCommand)
    ensures
        command@ == kill_command(location@, platform),
{
    let name = last_segment_of(location, platform.path_separator());
    match platform {
        Platform::Unix => {
            let mut script = String::from_str("kill $(pidof ");
            script.append(name.as_str());
            script.append(")");
            KillCommand { program: String::from_str("sh"), flag: String::from_str("-c"), script }
        },
        Platform::Windows => {
            let mut script = String::from_str("taskkill $(pidof ");
            script.append(name.as_str());
            script.append(")");
            KillCommand { program: String::from_str("cmd"), flag: String::from_str("/C"), script }
        },
    }
}

/// Plans the panic operation for `launched` subprocesses and the
/// registered games. The last step is always the exit.
pub fn plan_panic(launched: usize, games: &Vec<Game>, platform: Platform) -> (steps: Vec<
    PanicStep,
>)
    ensures
        step_views(steps@) == panic_steps(launched as nat, game_views(games@), platform),
        steps.len() == launched + games.len() + 1,
{
    let ghost terminations = Seq::new(launched as nat, |i: int| PanicStepView::Terminate(i as nat));
    let ghost kills = game_views(games@).map_values(
        |game: GameView| PanicStepView::KillByName(kill_command(game.location, platform)),
    );
    let mut steps: Vec<PanicStep> = Vec::new();
    let mut i: usize = 0;
    while i < launched
        invariant
            i <= launched,
            steps.len() == i,
            forall|k: int| 0 <= k < i ==> (#[trigger] steps[k])@ == PanicStepView::Terminate(k as nat),
        decreases launched - i,
    {
        steps.push(PanicStep::Terminate(i));
        i += 1;
    }
    let mut j: usize = 0;
    while j < games.len()
        invariant
            j <= games.len(),
            steps.len() == launched + j,
            forall|k: int|
                0 <= k < launched ==> (#[trigger] steps[k])@ == PanicStepView::Terminate(k as nat),
            forall|k: int|
                0 <= k < j ==> (#[trigger] steps[launched + k])@ == PanicStepView::KillByName(
                    kill_command(games[k].location@, platform),
                ),
        decreases games.len() - j,
    {
        let command = kill_command_for(games[j].location.as_str(), platform);
        let ghost before = steps@;
        steps.push(PanicStep::KillByName(command));
        proof {
            assert forall|k: int| 0 <= k < j + 1 implies (#[trigger] steps[launched + k])@
                == PanicStepView::KillByName(kill_command(games[k].location@, platform)) by {
                if k < j {
                    assert(steps[launched + k] == before[launched + k]);
                }
            }
        }
        j += 1;
    }
    steps.push(PanicStep::Exit(EXIT_STATUS));
    proof {
        let planned = panic_steps(launched as nat, game_views(games@), platform);
        assert(planned =~= terminations + kills + seq![PanicStepView::Exit(EXIT_STATUS as int)]);
        assert(step_views(steps@).len() == planned.len());
        assert forall|k: int| 0 <= k < planned.len() implies step_views(steps@)[k]
            == planned[k] by {
            if k < launched {
                assert(steps[k]@ == PanicStepView::Terminate(k as nat));
            } else if k < launched + games.len() {
                let g = k - launched;
                assert(steps[launched + g]@ == PanicStepView::KillByName(
                    kill_command(games[g].location@, platform),
                ));
                assert(kills[g] == PanicStepView::KillByName(
                    kill_command(game_views(games@)[g].location, platform),
                ));
            }
        }
        assert(step_views(steps@) =~= planned);
    }
    steps
}

} // verus!
