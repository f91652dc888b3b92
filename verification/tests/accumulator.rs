use gamelunch::sampler::{credit_cycle, FIXED_INCREMENT, FIXED_INTERVAL};
use gamelunch::{
    sample_cycle, CycleReport, LoopState, Observation, Snapshot, TimeAccumulator, TimeEntry,
};

fn names(list: &[&str]) -> Vec<String> {
    list.iter().map(|name| name.to_string()).collect()
}

fn entry(name: &str, seconds: u64) -> TimeEntry {
    TimeEntry { name: name.to_string(), seconds }
}

#[test]
fn snapshot_counts_a_repeated_name_once() {
    let snapshot = Snapshot::from_names(&names(&["b", "a", "b", "c", "a"]));
    assert_eq!(snapshot.len(), 3);
    assert_eq!(snapshot.to_vec(), names(&["b", "a", "c"]));
    assert_eq!(snapshot.name_at(1), "a");
    assert!(snapshot.contains("c"));
    assert!(!snapshot.contains("d"));
}

#[test]
fn snapshot_of_process_names_is_in_lower_case() {
    let snapshot = Snapshot::from_process_names(&names(&["Game.EXE", "tool", "GAME.exe", "Tool"]));
    assert_eq!(snapshot.to_vec(), names(&["game.exe", "tool"]));
    assert!(snapshot.contains("game.exe"));
    assert!(!snapshot.contains("Game.EXE"));
}

#[test]
fn empty_snapshot_holds_nothing() {
    let snapshot = Snapshot::empty();
    assert_eq!(snapshot.len(), 0);
    assert!(!snapshot.contains(""));
    assert_eq!(Snapshot::from_names(&Vec::new()).len(), 0);
}

#[test]
fn accumulator_starts_empty() {
    let times = TimeAccumulator::new();
    assert_eq!(times.len(), 0);
    assert_eq!(times.get("game.exe"), None);
    assert_eq!(times.seconds_of("game.exe"), 0);
    assert!(times.read().is_empty());
}

#[test]
fn two_cycles_credit_what_they_see() {
    let mut times = TimeAccumulator::new();
    let first = Snapshot::from_names(&names(&["game.exe"]));
    times.increment_by(&first, 5);
    assert_eq!(times.read(), vec![entry("game.exe", 5)]);
    let second = Snapshot::from_names(&names(&["game.exe", "tool.exe"]));
    times.increment_by(&second, 5);
    assert_eq!(times.read(), vec![entry("game.exe", 10), entry("tool.exe", 5)]);
    assert_eq!(times.get("game.exe"), Some(10));
    assert_eq!(times.get("tool.exe"), Some(5));
    assert_eq!(times.get("other"), None);
}

#[test]
fn names_outside_the_snapshot_keep_their_seconds() {
    let mut times = TimeAccumulator::new();
    times.insert("idle".to_string(), 40);
    times.insert("busy".to_string(), 1);
    times.increment_by(&Snapshot::from_names(&names(&["busy", "new"])), 7);
    assert_eq!(times.read(), vec![entry("idle", 40), entry("busy", 8), entry("new", 7)]);
}

#[test]
fn value_is_the_increment_times_the_appearances() {
    let rounds: Vec<Vec<&str>> = vec![
        vec!["a", "b"],
        vec!["b"],
        vec![],
        vec!["c", "a", "b"],
        vec!["b", "b", "a"],
    ];
    let mut times = TimeAccumulator::new();
    for round in rounds.iter() {
        let snapshot = Snapshot::from_names(&names(round));
        assert!(times.can_credit(&snapshot, FIXED_INCREMENT));
        times.increment_by(&snapshot, FIXED_INCREMENT);
    }
    assert_eq!(times.seconds_of("a"), 3 * FIXED_INCREMENT);
    assert_eq!(times.seconds_of("b"), 4 * FIXED_INCREMENT);
    assert_eq!(times.seconds_of("c"), FIXED_INCREMENT);
    assert_eq!(times.seconds_of("d"), 0);
    assert_eq!(times.len(), 3);
}

#[test]
fn seconds_never_go_down() {
    let mut times = TimeAccumulator::new();
    let mut last_a: u64 = 0;
    let mut last_b: u64 = 0;
    for round in 0..20 {
        let seen = if round % 3 == 0 { names(&["a"]) } else { names(&["b", "a"]) };
        times.increment_by(&Snapshot::from_names(&seen), 5);
        assert!(times.seconds_of("a") >= last_a);
        assert!(times.seconds_of("b") >= last_b);
        last_a = times.seconds_of("a");
        last_b = times.seconds_of("b");
    }
    assert_eq!(last_a, 100);
    assert_eq!(last_b, 65);
}

#[test]
fn insert_sets_the_seconds_of_a_name() {
    let mut times = TimeAccumulator::new();
    times.insert("a".to_string(), 3);
    times.insert("b".to_string(), 4);
    times.insert("a".to_string(), 9);
    assert_eq!(times.read(), vec![entry("a", 9), entry("b", 4)]);
    assert_eq!(times.len(), 2);
}

#[test]
fn can_credit_tells_when_a_counter_would_overflow() {
    let mut times = TimeAccumulator::new();
    times.insert("old".to_string(), u64::MAX - 4);
    let seen = Snapshot::from_names(&names(&["young", "old"]));
    assert!(!times.can_credit(&seen, 5));
    assert!(times.can_credit(&seen, 4));
    assert!(times.can_credit(&Snapshot::from_names(&names(&["young"])), u64::MAX));
    times.increment_by(&seen, 4);
    assert_eq!(times.seconds_of("old"), u64::MAX);
    assert_eq!(times.seconds_of("young"), 4);
    assert!(times.can_credit(&seen, 0));
    assert!(!times.can_credit(&seen, 1));
}

#[test]
fn cycle_credits_five_seconds_and_sleeps_five() {
    let mut times = TimeAccumulator::new();
    let report = sample_cycle(&mut times, &Observation::Processes(names(&["game.exe"])));
    assert_eq!(report, CycleReport { credited: true, sleep_seconds: 5 });
    assert_eq!(times.read(), vec![entry("game.exe", 5)]);
    let report = sample_cycle(
        &mut times,
        &Observation::Processes(names(&["game.exe", "tool.exe"])),
    );
    assert_eq!(report, CycleReport { credited: true, sleep_seconds: 5 });
    assert_eq!(times.read(), vec![entry("game.exe", 10), entry("tool.exe", 5)]);
    assert_eq!(FIXED_INCREMENT, 5);
    assert_eq!(FIXED_INTERVAL, 5);
}

#[test]
fn processes_that_share_a_name_are_credited_once() {
    let mut times = TimeAccumulator::new();
    let seen = names(&["Browser", "browser", "BROWSER", "shell", "browser"]);
    let report = sample_cycle(&mut times, &Observation::Processes(seen));
    assert!(report.credited);
    assert_eq!(times.read(), vec![entry("browser", 5), entry("shell", 5)]);
}

#[test]
fn failed_query_credits_nothing_and_the_loop_goes_on() {
    let mut times = TimeAccumulator::new();
    times.insert("game.exe".to_string(), 15);
    let report = sample_cycle(&mut times, &Observation::Failed);
    assert_eq!(report, CycleReport { credited: true, sleep_seconds: 5 });
    assert_eq!(times.read(), vec![entry("game.exe", 15)]);
    let report = sample_cycle(&mut times, &Observation::Processes(names(&["game.exe"])));
    assert!(report.credited);
    assert_eq!(times.seconds_of("game.exe"), 20);
    assert_eq!(Observation::Failed.snapshot().len(), 0);
}

#[test]
fn cycle_that_would_overflow_leaves_the_times_alone() {
    let mut times = TimeAccumulator::new();
    times.insert("ancient".to_string(), u64::MAX - 2);
    times.insert("young".to_string(), 10);
    let report = sample_cycle(&mut times, &Observation::Processes(names(&["young", "Ancient"])));
    assert_eq!(report, CycleReport { credited: false, sleep_seconds: 5 });
    assert_eq!(times.read(), vec![entry("ancient", u64::MAX - 2), entry("young", 10)]);
}

#[test]
fn credit_cycle_credits_a_snapshot() {
    let mut times = TimeAccumulator::new();
    let snapshot = Snapshot::from_names(&names(&["a", "b"]));
    assert_eq!(credit_cycle(&mut times, &snapshot), 5);
    assert_eq!(credit_cycle(&mut times, &snapshot), 5);
    assert_eq!(times.read(), vec![entry("a", 10), entry("b", 10)]);
}

#[test]
fn start_guard_starts_one_loop() {
    let mut state = LoopState::NotStarted;
    assert!(!state.is_running());
    let mut started = 0;
    for _ in 0..50 {
        if state.ensure_started() {
            started += 1;
        }
        assert!(state.is_running());
        assert_eq!(state, LoopState::Running);
    }
    assert_eq!(started, 1);
}

#[test]
fn one_loop_credits_once_a_cycle() {
    let mut state = LoopState::NotStarted;
    let mut times = TimeAccumulator::new();
    let mut loops = 0;
    for _ in 0..4 {
        if state.ensure_started() {
            loops += 1;
        }
    }
    for _ in 0..loops {
        sample_cycle(&mut times, &Observation::Processes(names(&["game.exe"])));
    }
    assert_eq!(times.seconds_of("game.exe"), 5);
}
