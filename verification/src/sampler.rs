//! The sampling loop: started once, then one cycle after another.

use vstd::prelude::*;
use crate::accumulator::{
    appearances, credited, credited_all, fits, lemma_credited_all_from_empty,
    lemma_credited_all_total, total, unknown, TimeAccumulator,
};
use crate::snapshot::{distinct, lowercased, texts, Snapshot};

verus! {

/// The seconds that a cycle credits to each name it sees.
pub const FIXED_INCREMENT: u64 = 5;

/// The seconds that the loop sleeps between two cycles.
pub const FIXED_INTERVAL: u64 = 5;

/// Where the sampling loop stands. It is started once and never stops.
#[derive(Clone, Copy, Debug, PartialEq, Eq, Structural)]
pub enum LoopState {
    NotStarted,
    Running,
}

impl LoopState {
    /// The state after one check of the start guard: running, whatever it was.
    pub open spec fn after_check(self) -> LoopState {
        LoopState::Running
    }

    /// Whether a check of the start guard in this state starts the loop.
    pub open spec fn check_starts(self) -> bool {
        self == LoopState::NotStarted
    }

    /// How many loops `checks` checks of the start guard start, one after
    /// another, from this state.
    pub open spec fn loops_started(self, checks: nat) -> nat
        decreases checks,
    {
        if checks == 0 {
            0
        } else {
            (if self.check_starts() {
                1nat
            } else {
                0nat
            }) + self.after_check().loops_started((checks - 1) as nat)
        }
    }

    /// The start guard: tells the caller to start the loop if it has not been
    /// started, and records that it has.
    pub fn ensure_started(&mut self) -> (start: bool)
        ensures
            start == old(self).check_starts(),
            *final(self) == old(self).after_check(),
    {
        match *self {
            LoopState::NotStarted => {
                *self = LoopState::Running;
                true
            },
            LoopState::Running => false,
        }
    }

    /// Whether the loop has been started.
    pub fn is_running(&self) -> (running: bool)
        ensures
            running == (*self == LoopState::Running),
    {
        match *self {
            LoopState::NotStarted => false,
            LoopState::Running => true,
        }
    }

    /// However often the start guard is checked, one loop is started: by the
    /// first check, and by no later one.
    pub proof fn lemma_started_once(checks: nat)
        ensures
            LoopState::Running.loops_started(checks) == 0,
            checks > 0 ==> LoopState::NotStarted.loops_started(checks) == 1,
        decreases checks,
    {
        if checks > 0 {
            Self::lemma_started_once((checks - 1) as nat);
        }
    }
}

/// What one query of the system's process list gave.
#[derive(Debug)]
pub enum Observation {
    /// The names that the system reports, one for each process.
    Processes(Vec<String>),
    /// The query failed.
    Failed,
}

impl Observation {
    /// The names observed, in lower case: none where the query failed.
    pub open spec fn names(&self) -> Seq<Seq<char>> {
        match self {
            Observation::Processes(reported) => lowercased(texts(reported@)),
            Observation::Failed => Seq::empty(),
        }
    }

    /// The snapshot of this observation. A failed query counts as a moment at
    /// which nothing runs.
    pub fn snapshot(&self) -> (snapshot: Snapshot)
        ensures
            snapshot.names() == distinct(self.names()),
            snapshot@ == self.names().to_set(),
    {
        match self {
            Observation::Processes(reported) => Snapshot::from_process_names(reported),
            Observation::Failed => {
                let snapshot = Snapshot::empty();
                assert(self.names().to_set() =~= Set::<Seq<char>>::empty());
                snapshot
            },
        }
    }
}

/// What a cycle did, and how long the loop sleeps before the next.
#[derive(Clone, Copy, Debug, PartialEq, Eq)]
pub struct CycleReport {
    /// Whether the names were credited. They are not where a counter would
    /// overflow; the accumulator is then left as it was.
    pub credited: bool,
    pub sleep_seconds: u64,
}

/// The crediting step of a cycle: `FIXED_INCREMENT` seconds to every name of
/// the snapshot. Returns the seconds to sleep before the next cycle.
pub fn credit_cycle(times: &mut TimeAccumulator, snapshot: &Snapshot) -> (sleep_seconds: u64)
    requires
        fits(old(times)@, snapshot@, FIXED_INCREMENT as nat),
    ensures
        final(times)@ == credited(old(times)@, snapshot@, FIXED_INCREMENT as nat),
        final(times).names() == old(times).names() + unknown(
            snapshot.names(),
            old(times)@.dom(),
        ),
        sleep_seconds == FIXED_INTERVAL,
{
    times.increment_by(snapshot, FIXED_INCREMENT);
    FIXED_INTERVAL
}

/// One cycle of the loop on what the system reported: the distinct lower-case
/// names are credited `FIXED_INCREMENT` seconds each, and the loop is told
/// to sleep `FIXED_INTERVAL` seconds. A failed query credits nothing and does
/// not end the loop.
pub fn sample_cycle(times: &mut TimeAccumulator, observation: &Observation) -> (report:
    CycleReport)
    ensures
        report.sleep_seconds == FIXED_INTERVAL,
        report.credited == fits(
            old(times)@,
            observation.names().to_set(),
            FIXED_INCREMENT as nat,
        ),
        final(times)@ == if report.credited {
            credited(old(times)@, observation.names().to_set(), FIXED_INCREMENT as nat)
        } else {
            old(times)@
        },
        final(times).names() == if report.credited {
            old(times).names() + unknown(distinct(observation.names()), old(times)@.dom())
        } else {
            old(times).names()
        },
{
    let snapshot = observation.snapshot();
    if times.can_credit(&snapshot, FIXED_INCREMENT) {
        let sleep_seconds = credit_cycle(times, &snapshot);
        CycleReport { credited: true, sleep_seconds }
    } else {
        CycleReport { credited: false, sleep_seconds: FIXED_INTERVAL }
    }
}

/// The sets of names that a run of observations credits, cycle by cycle.
pub open spec fn rounds_of(observations: Seq<Observation>) -> Seq<Set<Seq<char>>> {
    observations.map_values(|observation: Observation| observation.names().to_set())
}

/// After any run of cycles, a name holds what it had before plus
/// `FIXED_INCREMENT` seconds for each cycle that observed it; from an empty
/// accumulator, `FIXED_INCREMENT` times the number of those cycles.
pub proof fn lemma_cycles_total(
    times: Map<Seq<char>, nat>,
    observations: Seq<Observation>,
    name: Seq<char>,
)
    ensures
        total(credited_all(times, rounds_of(observations), FIXED_INCREMENT as nat), name) == total(
            times,
            name,
        ) + FIXED_INCREMENT * appearances(rounds_of(observations), name),
        total(credited_all(Map::empty(), rounds_of(observations), FIXED_INCREMENT as nat), name)
            == FIXED_INCREMENT * appearances(rounds_of(observations), name),
{
    lemma_credited_all_total(times, rounds_of(observations), FIXED_INCREMENT as nat, name);
    lemma_credited_all_from_empty(rounds_of(observations), FIXED_INCREMENT as nat, name);
}

} // verus!
