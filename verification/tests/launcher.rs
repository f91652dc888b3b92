use gamelunch::game::{check_registration, label_with_seconds, launch_label, time_key_of};
use gamelunch::kill_all::{kill_command_for, EXIT_STATUS};
use gamelunch::launcher::AUTO_SAVE_SECONDS;
use gamelunch::{
    plan_panic, Game, GameLunch, HiddenSet, KillCommand, LoopState, Page, PanicStep, Platform,
    RegistrationError, Snapshot, TimeAccumulator, TimeEntry,
};

fn game(name: &str, author: &str, location: &str) -> Game {
    Game { name: name.to_string(), author: author.to_string(), location: location.to_string() }
}

fn names(list: &[&str]) -> Vec<String> {
    list.iter().map(|name| name.to_string()).collect()
}

fn enter(state: &mut GameLunch, name: &str, author: &str, location: &str) {
    state.game.name = name.to_string();
    state.game.author = author.to_string();
    state.location = location.to_string();
}

#[test]
fn first_run_state() {
    let state = GameLunch::default();
    assert_eq!(state.page, Page::Home);
    assert!(state.games.is_empty());
    assert_eq!(state.game, game("", "", ""));
    assert_eq!(state.location, "");
    assert_eq!(state.status, "");
    assert_eq!(state.launch_status, "");
    assert_eq!(state.sampling, LoopState::NotStarted);
    assert!(state.removed_values.names.is_empty());
    assert_eq!(AUTO_SAVE_SECONDS, 3);
}

#[test]
fn new_without_stored_state_is_the_first_run_state() {
    let state = GameLunch::new(None);
    assert_eq!(state.page, Page::Home);
    assert!(state.games.is_empty());
    assert_eq!(state.sampling, LoopState::NotStarted);
}

#[test]
fn new_takes_the_stored_state_with_the_loop_not_started() {
    let mut stored = GameLunch::default();
    stored.page = Page::ProcTime;
    stored.games.push(game("Quest", "Ann", "/opt/quest"));
    stored.status = "x".to_string();
    stored.removed_values.hide_name("shell".to_string());
    assert!(stored.ensure_loop_started());
    let state = GameLunch::new(Some(stored));
    assert_eq!(state.page, Page::ProcTime);
    assert_eq!(state.games, vec![game("Quest", "Ann", "/opt/quest")]);
    assert_eq!(state.status, "x");
    assert_eq!(state.removed_values.names, names(&["shell"]));
    assert_eq!(state.sampling, LoopState::NotStarted);
}

#[test]
fn game_with_a_missing_path_is_rejected() {
    let mut state = GameLunch::default();
    enter(&mut state, "Quest", "Ann", "/no/such/file");
    assert_eq!(state.add_game(false), Err(RegistrationError::MissingPath));
    assert_eq!(state.status, "Game does not exist");
    assert!(state.status.contains("does not exist"));
    assert!(state.games.is_empty());
    assert!(state.launch_labels(&TimeAccumulator::new(), Platform::Unix).is_empty());
    assert_eq!(state.game, game("Quest", "Ann", ""));
    assert_eq!(state.location, "/no/such/file");
}

#[test]
fn game_without_name_or_author_is_rejected() {
    let mut state = GameLunch::default();
    enter(&mut state, "", "Ann", "/opt/quest");
    assert_eq!(state.add_game(true), Err(RegistrationError::EmptyName));
    assert_eq!(state.status, "Game requires a name");
    enter(&mut state, "Quest", "", "/opt/quest");
    assert_eq!(state.add_game(true), Err(RegistrationError::EmptyAuthor));
    assert_eq!(state.status, "Game requires an author");
    enter(&mut state, "", "", "/opt/quest");
    assert_eq!(state.add_game(true), Err(RegistrationError::EmptyName));
    assert_eq!(state.add_game(false), Err(RegistrationError::MissingPath));
    assert!(state.games.is_empty());
}

#[test]
fn registered_game_joins_the_list_and_the_fields_are_emptied() {
    let mut state = GameLunch::default();
    enter(&mut state, "", "Ann", "/opt/quest");
    assert!(state.add_game(true).is_err());
    enter(&mut state, "Quest", "Ann", "/opt/quest");
    assert_eq!(state.add_game(true), Ok(()));
    assert_eq!(state.games, vec![game("Quest", "Ann", "/opt/quest")]);
    assert_eq!(state.game, game("", "", ""));
    assert_eq!(state.location, "");
    assert_eq!(state.status, "");
    enter(&mut state, "Maze", "Bob", "/opt/maze");
    assert_eq!(state.add_game(true), Ok(()));
    assert_eq!(
        state.games,
        vec![game("Quest", "Ann", "/opt/quest"), game("Maze", "Bob", "/opt/maze")]
    );
}

#[test]
fn check_registration_looks_at_the_path_first() {
    assert_eq!(check_registration("", "", false), Err(RegistrationError::MissingPath));
    assert_eq!(check_registration("n", "", true), Err(RegistrationError::EmptyAuthor));
    assert_eq!(check_registration("", "a", true), Err(RegistrationError::EmptyName));
    assert_eq!(check_registration("n", "a", true), Ok(()));
    assert_eq!(RegistrationError::MissingPath.message(), "Game does not exist");
    assert_eq!(RegistrationError::EmptyName.message(), "Game requires a name");
    assert_eq!(RegistrationError::EmptyAuthor.message(), "Game requires an author");
}

#[test]
fn launch_status_says_how_the_launch_ended() {
    let mut state = GameLunch::default();
    state.record_launch(true);
    assert_eq!(state.launch_status, "Launched game");
    state.record_launch(false);
    assert_eq!(state.launch_status, "Failed to launch game");
    assert_eq!(state.status, "");
}

#[test]
fn removed_game_leaves_the_list() {
    let mut state = GameLunch::default();
    state.games = vec![game("a", "x", "/a"), game("b", "y", "/b"), game("c", "z", "/c")];
    state.remove_game(1);
    assert_eq!(state.games, vec![game("a", "x", "/a"), game("c", "z", "/c")]);
    state.remove_game(1);
    state.remove_game(0);
    assert!(state.games.is_empty());
}

#[test]
fn launch_label_shows_the_time_kept_under_the_key() {
    let mut times = TimeAccumulator::new();
    times.increment_by(&Snapshot::from_process_names(&names(&["Quest.EXE"])), 130);
    let quest = game("Quest", "Ann", "/opt/games/Quest.exe");
    assert_eq!(launch_label(&quest, &times, Platform::Unix), "Quest by Ann, 2 minutes");
    let maze = game("Maze", "Bob", "/opt/games/maze");
    assert_eq!(launch_label(&maze, &times, Platform::Unix), "Maze by Bob, 0 seconds");
    let other = game("Quest", "Ann", "C:\\Games\\QUEST.exe");
    assert_eq!(launch_label(&other, &times, Platform::Windows), "Quest by Ann, 2 minutes");
    assert_eq!(launch_label(&other, &times, Platform::Unix), "Quest by Ann, 0 seconds");
    assert_eq!(label_with_seconds(&maze, 7260), "Maze by Bob, 2 hours");
}

#[test]
fn time_key_is_the_last_segment_in_lower_case() {
    assert_eq!(time_key_of("/opt/Games/Quest.EXE", Platform::Unix), "quest.exe");
    assert_eq!(time_key_of("C:\\Games\\Quest.EXE", Platform::Windows), "quest.exe");
    assert_eq!(time_key_of("C:\\Games\\Quest.EXE", Platform::Unix), "c:\\games\\quest.exe");
    assert_eq!(time_key_of("Quest", Platform::Unix), "quest");
    assert_eq!(time_key_of("/opt/", Platform::Unix), "");
    assert_eq!(Platform::Unix.path_separator(), '/');
    assert_eq!(Platform::Windows.path_separator(), '\\');
}

#[test]
fn launch_labels_follow_the_list() {
    let mut state = GameLunch::default();
    state.games = vec![game("Quest", "Ann", "/opt/quest"), game("Maze", "Bob", "/opt/maze")];
    let mut times = TimeAccumulator::new();
    times.insert("maze".to_string(), 45);
    assert_eq!(
        state.launch_labels(&times, Platform::Unix),
        names(&["Quest by Ann, 0 seconds", "Maze by Bob, 45 seconds"])
    );
}

#[test]
fn start_guard_of_the_launcher_starts_one_loop() {
    let mut state = GameLunch::default();
    let mut started = 0;
    for _ in 0..10 {
        if state.ensure_loop_started() {
            started += 1;
        }
    }
    assert_eq!(started, 1);
    assert_eq!(state.sampling, LoopState::Running);
    assert_eq!(state.page, Page::Home);
}

#[test]
fn kill_all_with_one_subprocess_and_one_game() {
    let games = vec![game("Quest", "Ann", "/opt/games/Quest")];
    let steps = plan_panic(1, &games, Platform::Unix);
    assert_eq!(
        steps,
        vec![
            PanicStep::Terminate(0),
            PanicStep::KillByName(KillCommand {
                program: "sh".to_string(),
                flag: "-c".to_string(),
                script: "kill $(pidof Quest)".to_string(),
            }),
            PanicStep::Exit(0),
        ]
    );
    assert_eq!(EXIT_STATUS, 0);
}

#[test]
fn kill_all_ends_in_the_exit_whatever_there_is() {
    assert_eq!(plan_panic(0, &Vec::new(), Platform::Unix), vec![PanicStep::Exit(0)]);
    let games = vec![game("a", "x", "/x/a"), game("b", "y", "b")];
    let steps = plan_panic(3, &games, Platform::Unix);
    assert_eq!(steps.len(), 6);
    assert_eq!(steps[0], PanicStep::Terminate(0));
    assert_eq!(steps[1], PanicStep::Terminate(1));
    assert_eq!(steps[2], PanicStep::Terminate(2));
    assert_eq!(steps[3], PanicStep::KillByName(kill_command_for("/x/a", Platform::Unix)));
    assert_eq!(steps[4], PanicStep::KillByName(kill_command_for("b", Platform::Unix)));
    assert_eq!(steps[5], PanicStep::Exit(0));
}

#[test]
fn kill_command_of_each_platform() {
    assert_eq!(
        kill_command_for("/opt/Games/Quest.exe", Platform::Unix),
        KillCommand {
            program: "sh".to_string(),
            flag: "-c".to_string(),
            script: "kill $(pidof Quest.exe)".to_string(),
        }
    );
    assert_eq!(
        kill_command_for("C:\\Games\\Quest.exe", Platform::Windows),
        KillCommand {
            program: "cmd".to_string(),
            flag: "/C".to_string(),
            script: "taskkill $(pidof Quest.exe)".to_string(),
        }
    );
}

#[test]
fn panic_plan_of_the_launcher_uses_its_games() {
    let mut state = GameLunch::default();
    state.games = vec![game("Quest", "Ann", "/opt/games/Quest")];
    assert_eq!(state.panic_plan(1, Platform::Unix), plan_panic(1, &state.games, Platform::Unix));
    assert_eq!(state.panic_plan(2, Platform::Windows).len(), 4);
}

#[test]
fn game_equality_and_clone() {
    let quest = game("Quest", "Ann", "/opt/quest");
    assert_eq!(quest.clone(), quest);
    assert_ne!(quest, game("Quest", "Ann", "/opt/Quest"));
    assert_ne!(quest, game("Quest", "Bob", "/opt/quest"));
    assert_ne!(quest, game("Maze", "Ann", "/opt/quest"));
}

#[test]
fn hidden_name_is_not_listed_twice_in_a_row() {
    let mut hidden = HiddenSet::new();
    hidden.hide_name("a".to_string());
    hidden.hide_name("a".to_string());
    assert_eq!(hidden.names, names(&["a"]));
    hidden.hide_name("b".to_string());
    hidden.hide_name("a".to_string());
    assert_eq!(hidden.names, names(&["a", "b", "a"]));
    assert!(hidden.is_hidden("a"));
    assert!(hidden.is_hidden("b"));
    assert!(!hidden.is_hidden("c"));
}

#[test]
fn hiding_squeezes_the_whole_list() {
    let mut hidden = HiddenSet { names: names(&["a", "a", "b", "b", "b", "a"]) };
    hidden.hide_name("c".to_string());
    assert_eq!(hidden.names, names(&["a", "b", "a", "c"]));
}

#[test]
fn hide_all_hides_every_name_with_seconds() {
    let mut times = TimeAccumulator::new();
    times.increment_by(&Snapshot::from_names(&names(&["x", "y", "z"])), 5);
    let mut hidden = HiddenSet::new();
    hidden.hide_name("x".to_string());
    hidden.hide_all(&times);
    assert_eq!(hidden.names, names(&["x", "y", "z"]));
    hidden.hide_all(&times);
    assert_eq!(hidden.names, names(&["x", "y", "z", "x", "y", "z"]));
    assert!(hidden.visible(&times).is_empty());
}

#[test]
fn restored_name_is_shown_again() {
    let mut times = TimeAccumulator::new();
    times.increment_by(&Snapshot::from_names(&names(&["x", "y", "z"])), 5);
    times.increment_by(&Snapshot::from_names(&names(&["y"])), 5);
    let mut hidden = HiddenSet::new();
    assert_eq!(hidden.visible(&times), times.read());
    hidden.hide_all(&times);
    hidden.restore(1);
    assert_eq!(hidden.names, names(&["x", "z"]));
    assert_eq!(hidden.visible(&times), vec![TimeEntry { name: "y".to_string(), seconds: 10 }]);
    hidden.restore(0);
    hidden.restore(0);
    assert_eq!(hidden.visible(&times), times.read());
}

#[test]
fn hiding_never_changes_the_times() {
    let mut times = TimeAccumulator::new();
    times.increment_by(&Snapshot::from_names(&names(&["x", "y"])), 5);
    let before = times.read();
    let mut hidden = HiddenSet::new();
    hidden.hide_all(&times);
    hidden.sort();
    hidden.restore(0);
    assert_eq!(times.read(), before);
}

#[test]
fn sort_puts_the_hidden_names_in_the_order_of_strings() {
    let mut hidden = HiddenSet { names: names(&["pear", "Apple", "fig", "apple", "", "fig", "figs", "ä"]) };
    let mut expected = hidden.names.clone();
    expected.sort();
    hidden.sort();
    assert_eq!(hidden.names, expected);
    assert_eq!(hidden.names, names(&["", "Apple", "apple", "fig", "fig", "figs", "pear", "ä"]));
    let mut nothing = HiddenSet::new();
    nothing.sort();
    assert!(nothing.names.is_empty());
}
