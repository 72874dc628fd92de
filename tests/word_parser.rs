use crackle::word_parser::{Character, Word, WordError, WordParser};

fn score(word: &Word) -> f64 {
    word.total_percent as f64 / 100.0
}

#[test]
fn word_parser_test_character_creation() {
    let character = Character::new(b'a', 0, None, 5);
    assert_eq!(character.get_char(), 'a');
    assert_eq!(character.position, 0);
    assert_eq!(character.frequency, 5);
    assert_eq!(character.probability, None);
}

#[test]
fn test_character_increment_frequency() {
    let mut character = Character::new(b'a', 0, None, 5);
    character.increment_frequency();
    assert_eq!(character.frequency, 6);
}

#[test]
fn test_character_update_probability() {
    let mut character = Character::new(b'a', 0, None, 25);
    character.update_probability(100);
    assert_eq!(character.probability, Some(25));
}

#[test]
fn word_parser_test_word_creation_valid() {
    let word = Word::new(1, 50, "hello").unwrap();
    assert_eq!(word.as_str(), "hello");
    assert_eq!(word.frequency, 1);
    assert_eq!(score(&word), 0.5);
}

#[test]
fn test_word_get_char_at() {
    let word = Word::new(1, 50, "hello").unwrap();
    assert_eq!(word.get_char_at(0).unwrap(), 'h');
    assert_eq!(word.get_char_at(4).unwrap(), 'o');

    let result = word.get_char_at(5);
    assert!(matches!(result, Err(WordError::InvalidPosition(5))));
}

#[test]
fn test_word_contains_char() {
    let word = Word::new(1, 50, "hello").unwrap();
    assert!(word.contains_char('h'));
    assert!(word.contains_char('e'));
    assert!(word.contains_char('l'));
    assert!(word.contains_char('o'));
    assert!(!word.contains_char('z'));
    assert!(!word.contains_char('a'));
}

#[test]
fn test_word_from_bytes() {
    let bytes = [b'h', b'e', b'l', b'l', b'o'];
    let word = Word::from_bytes(bytes).unwrap();
    assert_eq!(word.as_str(), "hello");
    assert_eq!(word.frequency, 0);
    assert_eq!(score(&word), 0.0);
}

#[test]
fn test_word_display() {
    let word = Word::new(1, 75, "world").unwrap();
    let display_string = word.as_str();
    assert_eq!(display_string, "world");
}

#[test]
fn word_parser_test_parser_creation() {
    let parser = WordParser::new();
    assert_eq!(parser.get_total_words(), 0);
    assert_eq!(parser.words().len(), 0);
    assert_eq!(parser.character_count(), 0);
}

#[test]
fn word_parser_test_parser_single_word() {
    let mut parser = WordParser::new();
    assert!(parser.parse_word("hello").is_ok());

    assert_eq!(parser.get_total_words(), 1);
    assert_eq!(parser.words().len(), 1);
    assert_eq!(parser.character_count(), 5);

    assert!(parser.get_character('h', 0).is_some());
    assert!(parser.get_character('e', 1).is_some());
    assert!(parser.get_character('l', 2).is_some());
    assert!(parser.get_character('l', 3).is_some());
    assert!(parser.get_character('o', 4).is_some());
}

#[test]
fn test_parser_multiple_words() {
    let mut parser = WordParser::new();
    parser.parse_word("hello").unwrap();
    parser.parse_word("world").unwrap();
    parser.parse_word("helps").unwrap();

    assert_eq!(parser.get_total_words(), 3);
    assert_eq!(parser.words().len(), 3);

    let h0_char = parser.get_character('h', 0).unwrap();
    assert_eq!(h0_char.frequency, 2);

    let l2_char = parser.get_character('l', 2).unwrap();
    assert_eq!(l2_char.frequency, 2);

    let e1_char = parser.get_character('e', 1).unwrap();
    assert_eq!(e1_char.frequency, 2);
}

#[test]
fn test_parser_repeated_letters_same_word() {
    let mut parser = WordParser::new();
    parser.parse_word("llama").unwrap();

    assert_eq!(parser.get_character('l', 0).unwrap().frequency, 1);
    assert_eq!(parser.get_character('l', 1).unwrap().frequency, 1);
    assert_eq!(parser.get_character('a', 2).unwrap().frequency, 1);
    assert_eq!(parser.get_character('a', 4).unwrap().frequency, 1);
}

#[test]
fn word_parser_test_finalize_probabilities() {
    let mut parser = WordParser::new();
    parser.parse_word("arose").unwrap();
    parser.parse_word("alert").unwrap();
    parser.parse_word("above").unwrap();

    parser.finalize_probabilities();

    assert_eq!(parser.get_character('a', 0).unwrap().probability, Some(100));
    assert_eq!(parser.get_character('r', 1).unwrap().probability, Some(33));
    assert_eq!(parser.get_character('e', 4).unwrap().probability, Some(66));
}

#[test]
fn test_pop_n_parse_with_probabilities() {
    let mut parser = WordParser::new();
    parser.parse_word("arose").unwrap();
    parser.parse_word("slate").unwrap();

    parser.finalize_probabilities();

    let word = parser.pop_n_parse().unwrap();
    assert!(score(&word) > 0.0);
    assert!(score(&word) <= 5.0);

    let word2 = parser.pop_n_parse().unwrap();
    assert!(score(&word2) > 0.0);

    assert!(parser.pop_n_parse().is_none());
}

#[test]
fn test_pop_n_parse_empty_stack() {
    let mut parser = WordParser::new();
    parser.finalize_probabilities();
    assert!(parser.pop_n_parse().is_none());
}

#[test]
fn test_parser_case_sensitivity() {
    let mut parser = WordParser::new();
    parser.parse_word("HELLO").unwrap();

    let word = &parser.words()[0];
    assert_eq!(word.as_str(), "HELLO");

    assert!(parser.get_character('H', 0).is_some());
    assert!(parser.get_character('E', 1).is_some());
}

#[test]
fn test_comprehensive_probability_calculation() {
    let mut parser = WordParser::new();
    parser.parse_word("tests").unwrap();
    parser.parse_word("toast").unwrap();
    parser.parse_word("trait").unwrap();
    parser.parse_word("twist").unwrap();

    parser.finalize_probabilities();

    assert_eq!(parser.get_character('t', 0).unwrap().probability, Some(100));
    assert_eq!(parser.get_character('t', 3).unwrap().probability, Some(25));
    assert_eq!(parser.get_character('s', 3).unwrap().probability, Some(50));
    assert_eq!(parser.get_character('s', 4).unwrap().probability, Some(25));
    assert_eq!(parser.get_character('t', 4).unwrap().probability, Some(75));
}

#[test]
fn test_word_probability_calculation_integration() {
    let mut parser = WordParser::new();
    parser.parse_word("aaaaa").unwrap();
    parser.parse_word("bbbbb").unwrap();

    parser.finalize_probabilities();

    let word = parser.pop_n_parse().unwrap();
    assert_eq!(score(&word), 2.5);
}

#[test]
fn test_parser_error_handling() {
    let mut parser = WordParser::new();
    parser.parse_word("hello").unwrap();
    parser.parse_word("world").unwrap();
    parser.parse_word("tests").unwrap();

    let initial_word_count = parser.get_total_words();
    let initial_stack_len = parser.words().len();
    let initial_hash_len = parser.character_count();

    assert!(matches!(parser.parse_word("hi"), Err(WordError::InvalidWordLength(2))));
    assert!(matches!(parser.parse_word("toolong"), Err(WordError::InvalidWordLength(7))));
    assert!(matches!(parser.parse_word("he11o"), Err(WordError::InvalidWordCharacter('1'))));

    assert_eq!(parser.get_total_words(), initial_word_count);
    assert_eq!(parser.words().len(), initial_stack_len);
    assert_eq!(parser.character_count(), initial_hash_len);
}

#[test]
fn popped_word_without_probabilities_scores_zero() {
    let mut parser = WordParser::new();
    parser.parse_word("crane").unwrap();
    assert_eq!(parser.pop_n_parse().unwrap().total_percent, 0);
}
