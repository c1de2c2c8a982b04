use wheel_of_fortune::game::{build_players, wants_replay, Game, TurnOutcome};
use wheel_of_fortune::player::Player;
use wheel_of_fortune::puzzle::Puzzle;

fn names(list: &[&str]) -> Vec<String> {
    list.iter().map(|name| name.to_string()).collect()
}

fn apple_game(players: &[&str]) -> Game {
    Game::with_puzzle(1, Puzzle::with_solution("Fruit", "APPLE"), build_players(names(players)))
}

fn winnings(game: &Game) -> Vec<u64> {
    game.players().iter().map(|player| player.winnings()).collect()
}

#[test]
fn players_are_built_in_order() {
    let players = build_players(names(&[" Ada \n", "Grace", ""]));
    assert_eq!(players.len(), 3);
    assert_eq!(players[0].name(), "Ada");
    assert_eq!(players[1].name(), "Grace");
    assert_eq!(players[2].name(), "");
    assert!(players.iter().all(|player| player.winnings() == 0));
    assert!(build_players(Vec::new()).is_empty());
}

#[test]
fn new_game_starts_with_the_first_player() {
    let game = Game::new(3, names(&["Ada\n", "Grace\n"]));
    assert_eq!(game.round(), 3);
    assert_eq!(game.current_player(), 0);
    assert!(!game.round_over());
    assert_eq!(game.players().len(), 2);
    assert_eq!(game.players()[0].name(), "Ada");
    assert_eq!(game.players()[1].name(), "Grace");
    assert_eq!(winnings(&game), vec![0, 0]);
    let solution = game.puzzle().solution();
    assert!(["APPLE", "PEACH", "THREES A CROWD."].contains(&solution.as_str()));
    assert!(!game.puzzle().solved());
}

#[test]
fn right_letter_pays_the_wheel_value_for_each_place() {
    let mut game = apple_game(&["Ada", "Grace"]);
    let outcome = game.take_turn(600, "P");
    assert_eq!(outcome, TurnOutcome::Played { matches: 2, award: 1200 });
    assert_eq!(game.puzzle().board(), "_PP__");
    assert_eq!(winnings(&game), vec![1200, 0]);
    assert_eq!(game.current_player(), 1);
    assert!(game.puzzle().already_guessed("P"));
}

#[test]
fn wrong_letter_pays_nothing_and_is_recorded() {
    let mut game = apple_game(&["Ada", "Grace"]);
    let outcome = game.take_turn(2500, "Z");
    assert_eq!(outcome, TurnOutcome::Played { matches: 0, award: 0 });
    assert_eq!(game.puzzle().board(), "_____");
    assert_eq!(winnings(&game), vec![0, 0]);
    assert!(game.puzzle().already_guessed("Z"));
    assert_eq!(game.current_player(), 1);
}

#[test]
fn wrong_phrase_reveals_none_of_its_letters() {
    let mut game = apple_game(&["Ada"]);
    let outcome = game.take_turn(500, "APPLY");
    assert_eq!(outcome, TurnOutcome::Played { matches: 0, award: 0 });
    assert_eq!(game.puzzle().board(), "_____");
}

#[test]
fn repeated_guess_scores_nothing_and_leaves_the_board() {
    let mut game = apple_game(&["Ada", "Grace"]);
    game.take_turn(600, "P");
    let board = game.puzzle().board();
    let outcome = game.take_turn(900, " P\n");
    assert_eq!(outcome, TurnOutcome::Repeated);
    assert_eq!(game.puzzle().board(), board);
    assert_eq!(winnings(&game), vec![1200, 0]);
    assert_eq!(game.current_player(), 0);
}

#[test]
fn whole_solution_pays_for_every_place() {
    let mut game = apple_game(&["Ada"]);
    let outcome = game.take_turn(700, "APPLE\n");
    assert_eq!(outcome, TurnOutcome::Played { matches: 5, award: 3500 });
    assert!(game.puzzle().solved());
    assert_eq!(winnings(&game), vec![3500]);
    assert!(game.round_over());
}

#[test]
fn turns_go_round_the_players() {
    let mut game = apple_game(&["Ada", "Grace", "Edsger"]);
    let mut order = Vec::new();
    for guess in ["Q", "R", "S", "T", "U", "V", "W"] {
        order.push(game.current_player());
        game.take_turn(500, guess);
    }
    assert_eq!(order, vec![0, 1, 2, 0, 1, 2, 0]);
    assert_eq!(game.current_player(), 1);
}

#[test]
fn round_ends_only_after_a_full_pass() {
    let mut game = apple_game(&["Ada", "Grace", "Edsger"]);
    game.take_turn(500, "APPLE");
    assert!(game.puzzle().solved());
    assert!(!game.round_over());
    game.take_turn(500, "A");
    assert!(!game.round_over());
    game.take_turn(500, "Z");
    assert!(game.round_over());
    assert_eq!(winnings(&game), vec![2500, 500, 0]);
}

#[test]
fn round_goes_on_while_the_puzzle_is_unsolved() {
    let mut game = apple_game(&["Ada", "Grace"]);
    game.take_turn(500, "A");
    game.take_turn(500, "P");
    assert_eq!(game.current_player(), 0);
    assert!(!game.round_over());
    game.take_turn(500, "L");
    game.take_turn(500, "E");
    assert!(game.puzzle().solved());
    assert!(game.round_over());
    assert_eq!(winnings(&game), vec![1000, 1500]);
}

#[test]
fn puzzle_without_letters_still_takes_one_pass() {
    let mut game = Game::with_puzzle(
        1,
        Puzzle::with_solution("Dots", ". ."),
        build_players(names(&["Ada", "Grace"])),
    );
    assert!(game.puzzle().solved());
    assert!(!game.round_over());
    game.take_turn(500, "A");
    assert!(!game.round_over());
    game.take_turn(500, "B");
    assert!(game.round_over());
}

#[test]
fn lowercase_guess_misses_until_it_is_put_in_uppercase() {
    let mut game = apple_game(&["Ada"]);
    assert_eq!(game.take_turn(600, "e"), TurnOutcome::Played { matches: 0, award: 0 });
    let guess = game.players()[0].submit_guess("e");
    assert_eq!(game.take_turn(600, &guess), TurnOutcome::Played { matches: 1, award: 600 });
    assert_eq!(game.puzzle().board(), "____E");
}

#[test]
fn try_take_turn_plays_a_turn_that_can_be_taken() {
    let mut game = apple_game(&["Ada", "Grace"]);
    assert_eq!(
        game.try_take_turn(800, "P"),
        Some(TurnOutcome::Played { matches: 2, award: 1600 })
    );
    assert_eq!(game.try_take_turn(800, "P"), Some(TurnOutcome::Repeated));
    assert_eq!(game.puzzle().board(), "_PP__");
    assert_eq!(winnings(&game), vec![1600, 0]);
    assert_eq!(game.current_player(), 0);
}

#[test]
fn try_take_turn_needs_a_player() {
    let mut game = apple_game(&[]);
    assert_eq!(game.try_take_turn(500, "P"), None);
    assert_eq!(game.puzzle().board(), "_____");
    assert!(!game.puzzle().already_guessed("P"));
    assert_eq!(game.current_player(), 0);
    assert!(!game.round_over());
}

#[test]
fn try_take_turn_needs_a_value_of_the_wheel() {
    let mut game = apple_game(&["Ada"]);
    for value in [0, -600, 1000, 601] {
        assert_eq!(game.try_take_turn(value, "P"), None);
    }
    assert_eq!(game.puzzle().board(), "_____");
    assert!(!game.puzzle().already_guessed("P"));
    assert_eq!(winnings(&game), vec![0]);
}

#[test]
fn try_take_turn_refuses_winnings_beyond_the_count() {
    let mut rich = Player::new(String::from("Ada"));
    rich.add_winnings(u64::MAX - 1199);
    let mut game = Game::with_puzzle(1, Puzzle::with_solution("Fruit", "APPLE"), vec![rich]);
    assert_eq!(game.try_take_turn(600, "P"), None);
    assert_eq!(game.puzzle().board(), "_____");
    assert!(!game.puzzle().already_guessed("P"));
    assert_eq!(winnings(&game), vec![u64::MAX - 1199]);
    assert_eq!(
        game.try_take_turn(600, "A"),
        Some(TurnOutcome::Played { matches: 1, award: 600 })
    );
    assert_eq!(winnings(&game), vec![u64::MAX - 599]);
    assert_eq!(game.try_take_turn(600, "E"), None);
    assert_eq!(
        game.try_take_turn(500, "E"),
        Some(TurnOutcome::Played { matches: 1, award: 500 })
    );
    assert_eq!(winnings(&game), vec![u64::MAX - 99]);
    assert_eq!(game.puzzle().board(), "A___E");
}

#[test]
fn typed_line_is_played_in_uppercase() {
    let mut game = apple_game(&["Ada", "Grace"]);
    assert_eq!(
        game.play_turn(600, "e\n"),
        Some(TurnOutcome::Played { matches: 1, award: 600 })
    );
    assert_eq!(game.puzzle().board(), "____E");
    assert!(game.puzzle().already_guessed("E"));
    assert!(!game.puzzle().already_guessed("e"));
    assert_eq!(game.play_turn(700, "E\n"), Some(TurnOutcome::Repeated));
    assert_eq!(
        game.play_turn(500, " apple \n"),
        Some(TurnOutcome::Played { matches: 5, award: 2500 })
    );
    assert!(game.puzzle().solved());
    assert_eq!(winnings(&game), vec![3100, 0]);
    assert_eq!(game.current_player(), 1);
}

#[test]
fn typed_line_in_either_case_plays_the_same_turn() {
    let mut lower = apple_game(&["Ada"]);
    let mut upper = apple_game(&["Ada"]);
    for (a, b) in [("p", "P"), ("z", "Z"), ("Apple", "aPPLE"), ("p", "p")] {
        assert_eq!(lower.play_turn(800, a), upper.play_turn(800, b));
        assert_eq!(lower.puzzle().board(), upper.puzzle().board());
        assert_eq!(winnings(&lower), winnings(&upper));
    }
}

#[test]
fn typed_line_is_refused_where_no_turn_can_be_taken() {
    let mut nobody = apple_game(&[]);
    assert_eq!(nobody.play_turn(500, "p"), None);
    assert!(!nobody.puzzle().already_guessed("P"));
    let mut game = apple_game(&["Ada"]);
    assert_eq!(game.play_turn(501, "p"), None);
    assert_eq!(game.puzzle().board(), "_____");
    assert!(!game.puzzle().already_guessed("P"));
    assert_eq!(game.current_player(), 0);
}

#[test]
fn replay_needs_a_leading_lowercase_y() {
    assert!(wants_replay("y"));
    assert!(wants_replay("yes\n"));
    assert!(wants_replay("y\n"));
    assert!(!wants_replay("Y"));
    assert!(!wants_replay("Yes"));
    assert!(!wants_replay(" y"));
    assert!(!wants_replay("n"));
    assert!(!wants_replay("\n"));
    assert!(!wants_replay(""));
}
