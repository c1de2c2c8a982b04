use wheel_of_fortune::player::Player;

#[test]
fn new_player_has_a_trimmed_name_and_no_winnings() {
    let player = Player::new(String::from("  Ada Lovelace\n"));
    assert_eq!(player.name(), "Ada Lovelace");
    assert_eq!(player.winnings(), 0);
}

#[test]
fn new_player_may_have_an_empty_name() {
    assert_eq!(Player::new(String::from("\n")).name(), "");
    assert_eq!(Player::new(String::new()).name(), "");
}

#[test]
fn winnings_add_up() {
    let mut player = Player::new(String::from("Ada"));
    player.add_winnings(1200);
    assert_eq!(player.winnings(), 1200);
    player.add_winnings(0);
    assert_eq!(player.winnings(), 1200);
    player.add_winnings(2500);
    assert_eq!(player.winnings(), 3700);
    assert_eq!(player.name(), "Ada");
}

#[test]
fn winnings_reach_the_largest_count() {
    let mut player = Player::new(String::from("Ada"));
    player.add_winnings(u64::MAX - 1);
    player.add_winnings(1);
    assert_eq!(player.winnings(), u64::MAX);
}

#[test]
fn guess_is_put_in_uppercase() {
    let player = Player::new(String::from("Ada"));
    assert_eq!(player.submit_guess("e"), "E");
    assert_eq!(player.submit_guess("apple"), "APPLE");
    assert_eq!(player.submit_guess("Threes a Crowd.\n"), "THREES A CROWD.\n");
    assert_eq!(player.submit_guess(" p "), " P ");
    assert_eq!(player.submit_guess("stra\u{df}e"), "STRASSE");
    assert_eq!(player.submit_guess(""), "");
}
