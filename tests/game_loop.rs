use crackle::game_loop::{check_input, process_input_characters, GameLoop, InputError};
use std::collections::HashSet;

fn create_test_game(current_word: &str) -> GameLoop<()> {
    let mut game = GameLoop::new(());
    game.number_of_guesses = 1;
    game.current_word = current_word.to_string();
    game
}

fn set_of(chars: &[char]) -> HashSet<char> {
    chars.iter().cloned().collect()
}

#[test]
fn game_loop_test_check_input() {
    assert!(check_input("gyngy").is_ok());
    assert!(check_input("gyngyy").is_err());
    assert!(check_input("gyn").is_err());
    assert!(check_input("abcde").is_err());
}

#[test]
fn check_input_tells_length_from_format() {
    assert!(matches!(check_input("gyn"), Err(InputError::InvalidLength)));
    assert!(matches!(check_input("abcde"), Err(InputError::InvalidFormat)));
}

#[test]
fn game_loop_test_check_for_win() {
    let mut game = create_test_game("apple");
    game.state.resolved = ['a', 'p', 'p', 'l', 'e'];
    assert!(game.check_for_win());
}

#[test]
fn game_loop_test_all_green_input() {
    let mut game = create_test_game("apple");
    let excluded_chars = process_input_characters(&mut game, "ggggg");

    assert_eq!(game.state.resolved, ['a', 'p', 'p', 'l', 'e']);
    assert!(excluded_chars.is_empty());
    assert!(game.state.forbidden_positions.is_empty());
    assert!(game.state.required_characters.is_empty());
}

#[test]
fn game_loop_test_all_gray_input() {
    let mut game = create_test_game("apple");
    let excluded_chars = process_input_characters(&mut game, "nnnnn");

    assert_eq!(game.state.resolved, ['_'; 5]);
    let expected_excluded = set_of(&['a', 'p', 'l', 'e']);
    assert_eq!(set_of(&excluded_chars), expected_excluded);
    assert!(game.state.forbidden_positions.is_empty());
    assert!(game.state.required_characters.is_empty());
}

#[test]
fn game_loop_test_all_yellow_input() {
    let mut game = create_test_game("apple");
    let excluded_chars = process_input_characters(&mut game, "yyyyy");

    assert_eq!(game.state.resolved, ['_'; 5]);
    assert!(excluded_chars.is_empty());

    assert!(game.state.forbidden_positions.contains(&('a', 0)));
    assert!(game.state.forbidden_positions.contains(&('p', 1)));
    assert!(game.state.forbidden_positions.contains(&('p', 2)));
    assert!(game.state.forbidden_positions.contains(&('l', 3)));
    assert!(game.state.forbidden_positions.contains(&('e', 4)));

    assert!(game.state.required_characters.contains(&'a'));
    assert!(game.state.required_characters.contains(&'p'));
    assert!(game.state.required_characters.contains(&'l'));
    assert!(game.state.required_characters.contains(&'e'));
}

#[test]
fn game_loop_test_duplicate_characters_mixed() {
    let mut game = create_test_game("hello");
    let excluded_chars = process_input_characters(&mut game, "gnygy");

    assert_eq!(game.state.resolved[0], 'h');
    assert_eq!(game.state.resolved[1], '_');
    assert_eq!(game.state.resolved[2], '_');
    assert_eq!(game.state.resolved[3], 'l');
    assert_eq!(game.state.resolved[4], '_');

    let expected_excluded = set_of(&['e']);
    assert_eq!(set_of(&excluded_chars), expected_excluded);

    assert!(game.state.forbidden_positions.contains(&('l', 2)));
    assert!(game.state.forbidden_positions.contains(&('o', 4)));

    assert!(game.state.required_characters.contains(&'l'));
    assert!(game.state.required_characters.contains(&'o'));
}

#[test]
fn game_loop_test_same_char_gray_then_yellow() {
    let mut game = create_test_game("speed");
    let excluded_chars = process_input_characters(&mut game, "nygyn");

    let expected_excluded = set_of(&['s', 'd']);
    assert_eq!(set_of(&excluded_chars), expected_excluded);

    assert!(game.state.forbidden_positions.contains(&('e', 3)));
    assert!(game.state.required_characters.contains(&'e'));
}

#[test]
fn game_loop_test_empty_excluded_when_all_chars_are_green_or_yellow() {
    let mut game = create_test_game("trust");
    let excluded_chars = process_input_characters(&mut game, "gygyg");

    assert!(excluded_chars.is_empty());

    assert_eq!(game.state.resolved[0], 't');
    assert_eq!(game.state.resolved[2], 'u');
    assert_eq!(game.state.resolved[4], 't');

    assert!(game.state.forbidden_positions.contains(&('r', 1)));
    assert!(game.state.forbidden_positions.contains(&('s', 3)));
}

#[test]
fn game_loop_test_word_with_repeated_chars() {
    let mut game = create_test_game("paper");
    let excluded_chars = process_input_characters(&mut game, "gnyyn");

    assert_eq!(game.state.resolved[0], 'p');
    assert_eq!(game.state.resolved[1], '_');
    assert_eq!(game.state.resolved[2], '_');
    assert_eq!(game.state.resolved[3], '_');
    assert_eq!(game.state.resolved[4], '_');

    let expected_excluded = set_of(&['a', 'r']);
    assert_eq!(set_of(&excluded_chars), expected_excluded);

    assert!(game.state.forbidden_positions.contains(&('p', 2)));
    assert!(game.state.forbidden_positions.contains(&('e', 3)));
    assert!(game.state.required_characters.contains(&'p'));
    assert!(game.state.required_characters.contains(&'e'));
}

#[test]
fn test_maintains_existing_game_state() {
    let mut game = create_test_game("world");

    game.state.resolved[0] = 'w';
    game.state.forbidden_positions.push(('x', 0));
    game.state.required_characters.push('x');

    let excluded_chars = process_input_characters(&mut game, "nggnn");

    assert_eq!(game.state.resolved[0], 'w');
    assert_eq!(game.state.resolved[1], 'o');
    assert_eq!(game.state.resolved[2], 'r');

    assert!(game.state.forbidden_positions.contains(&('x', 0)));
    assert!(game.state.required_characters.contains(&'x'));

    let expected_excluded = set_of(&['w', 'l', 'd']);
    assert_eq!(set_of(&excluded_chars), expected_excluded);
}

#[test]
fn new_game_starts_blank() {
    let game = GameLoop::new(7u32);
    assert_eq!(game.current_word, "_____");
    assert_eq!(game.number_of_guesses, 0);
    assert_eq!(game.db, 7);
    assert_eq!(game.pattern(), "_____");
}

#[test]
fn game_results_record_the_game() {
    let mut game = create_test_game("apple");
    assert!(game.parse_user_input("ggggg".to_string()).is_ok());
    let results = game.game_results();
    assert_eq!(results.word, "apple");
    assert_eq!(results.number_of_guesses, 1);
    assert!(results.win);
}

#[test]
fn next_guess_from_store_words() {
    let mut game = create_test_game("apple");
    assert!(game.parse_user_input("gnnnn".to_string()).is_ok());
    let words = vec!["apple".to_string(), "amber".to_string(), "artsy".to_string()];
    // 'p', 'l' and 'e' are excluded: only "artsy" fits.
    assert_eq!(game.next_guess(words), Some("artsy".to_string()));
    assert_eq!(game.next_guess(Vec::new()), None);
}
