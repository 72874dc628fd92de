use crackle::word_analyzer::{Character, Word, WordAnalyzer, WordAnalyzerError, WordError};

fn score(word: &Word) -> f64 {
    word.total_percent as f64 / 100.0
}

#[test]
fn test_get_most_probable_word_empty_analyzer() {
    let mut analyzer = WordAnalyzer::new();
    assert!(analyzer.get_most_probable_word().is_none());
}

#[test]
fn test_get_most_probable_word_single_word() {
    let mut analyzer = WordAnalyzer::new();
    analyzer.analyze_word("hello").unwrap();

    let result = analyzer.get_most_probable_word();
    assert!(result.is_some());
    assert_eq!(result.unwrap().as_str(), "hello");
    assert!(analyzer.is_finalized());
}

#[test]
fn test_get_most_probable_word_auto_finalizes() {
    let mut analyzer = WordAnalyzer::new();
    analyzer.analyze_word("hello").unwrap();
    analyzer.analyze_word("world").unwrap();

    assert!(!analyzer.is_finalized());
    let result = analyzer.get_most_probable_word();
    assert!(result.is_some());
    assert!(analyzer.is_finalized());
}

#[test]
fn test_get_most_probable_word_clear_winner() {
    let mut analyzer = WordAnalyzer::new();
    analyzer.analyze_word("aaaaa").unwrap();
    analyzer.analyze_word("abcde").unwrap();
    analyzer.analyze_word("fghij").unwrap();

    let result = analyzer.get_most_probable_word();
    assert!(result.is_some());
    let most_probable = result.unwrap();
    assert_eq!(most_probable.as_str(), "aaaaa");
    assert!(score(&most_probable) > 0.0);
}

#[test]
fn test_get_most_probable_word_realistic_scenario() {
    let mut analyzer = WordAnalyzer::new();
    analyzer.analyze_word("tests").unwrap();
    analyzer.analyze_word("toast").unwrap();
    analyzer.analyze_word("trust").unwrap();
    analyzer.analyze_word("twist").unwrap();

    let result = analyzer.get_most_probable_word();
    assert!(result.is_some());
    let most_probable = result.unwrap();
    assert_ne!(most_probable.as_str(), "tests");
    let word_str = most_probable.as_str();
    assert!(word_str == "toast" || word_str == "trust" || word_str == "twist");
}

#[test]
fn test_get_most_probable_word_predictable_probabilities() {
    let mut analyzer = WordAnalyzer::new();
    analyzer.analyze_word("aaaaa").unwrap();
    analyzer.analyze_word("bbbbb").unwrap();

    let result = analyzer.get_most_probable_word();
    assert!(result.is_some());
    let most_probable = result.unwrap();
    assert_eq!(score(&most_probable), 2.5);
    let word_str = most_probable.as_str();
    assert!(word_str == "aaaaa" || word_str == "bbbbb");
}

#[test]
fn test_get_most_probable_word_preserves_state() {
    let mut analyzer = WordAnalyzer::new();
    analyzer.analyze_word("hello").unwrap();
    analyzer.analyze_word("world").unwrap();

    let initial_word_count = analyzer.words().len();
    let initial_total_words = analyzer.get_total_words();

    let result1_str = analyzer.get_most_probable_word().unwrap().as_str();
    let result2_str = analyzer.get_most_probable_word().unwrap().as_str();

    assert_eq!(result1_str, result2_str);
    assert_eq!(analyzer.words().len(), initial_word_count);
    assert_eq!(analyzer.get_total_words(), initial_total_words);
}

#[test]
fn test_get_most_probable_word_with_ties() {
    let mut analyzer = WordAnalyzer::new();
    analyzer.analyze_word("abcde").unwrap();
    analyzer.analyze_word("fghij").unwrap();

    let result = analyzer.get_most_probable_word();
    assert!(result.is_some());
    let word_str = result.unwrap().as_str();
    assert!(word_str == "abcde" || word_str == "fghij");
}

#[test]
fn test_get_most_probable_word_complex_scenario() {
    let mut analyzer = WordAnalyzer::new();
    analyzer.analyze_word("smart").unwrap();
    analyzer.analyze_word("start").unwrap();
    analyzer.analyze_word("sport").unwrap();
    analyzer.analyze_word("shirt").unwrap();
    analyzer.analyze_word("short").unwrap();

    let result = analyzer.get_most_probable_word();
    assert!(result.is_some());
    assert_eq!(result.unwrap().as_str(), "short");
}

#[test]
fn test_get_most_probable_word_probability_calculation() {
    let mut analyzer = WordAnalyzer::new();
    analyzer.analyze_word("aaaaa").unwrap();
    analyzer.analyze_word("aaaab").unwrap();
    analyzer.analyze_word("aaaac").unwrap();

    let result = analyzer.get_most_probable_word();
    assert!(result.is_some());
    let most_probable = result.unwrap();
    assert_eq!(most_probable.as_str(), "aaaaa");
    assert_eq!(score(&most_probable), 4.33);
}

#[test]
fn word_analyzer_test_character_creation() {
    let character = Character::new(b'a', 0, None, 5);
    assert_eq!(character.get_char(), 'a');
    assert_eq!(character.position, 0);
    assert_eq!(character.frequency, 5);
    assert_eq!(character.probability, None);
}

#[test]
fn word_analyzer_test_word_creation_valid() {
    let word = Word::new(1, 50, "hello").unwrap();
    assert_eq!(word.as_str(), "hello");
    assert_eq!(word.frequency, 1);
    assert_eq!(score(&word), 0.5);
}

#[test]
fn word_analyzer_test_parser_creation() {
    let parser = WordAnalyzer::new();
    assert_eq!(parser.get_total_words(), 0);
    assert_eq!(parser.words().len(), 0);
    assert_eq!(parser.character_count(), 0);
}

#[test]
fn word_analyzer_test_parser_single_word() {
    let mut parser = WordAnalyzer::new();
    assert!(parser.analyze_word("hello").is_ok());

    assert_eq!(parser.get_total_words(), 1);
    assert_eq!(parser.words().len(), 1);
    assert_eq!(parser.character_count(), 5);
}

#[test]
fn word_analyzer_test_finalize_probabilities() {
    let mut parser = WordAnalyzer::new();
    parser.analyze_word("arose").unwrap();
    parser.analyze_word("alert").unwrap();
    parser.analyze_word("above").unwrap();

    parser.finalize_probabilities();

    let a0_char = parser.get_character('a', 0).unwrap();
    assert_eq!(a0_char.probability, Some(100));
}

#[test]
fn test_pop_requires_finalized_probabilities() {
    let mut parser = WordAnalyzer::new();
    parser.analyze_word("hello").unwrap();

    assert!(matches!(parser.pop(), Err(WordAnalyzerError::ProbabilitiesNotFinalized)));

    parser.finalize_probabilities();
    assert!(parser.pop().unwrap().is_some());
}

#[test]
fn invalid_words_are_skipped_and_change_nothing() {
    let mut analyzer = WordAnalyzer::new();
    analyzer.analyze_word("crane").unwrap();
    assert!(matches!(analyzer.analyze_word("cran"), Err(WordError::InvalidWordLength(4))));
    assert!(matches!(analyzer.analyze_word("cr4ne"), Err(WordError::InvalidWordCharacter('4'))));
    assert_eq!(analyzer.get_total_words(), 1);
    assert_eq!(analyzer.words().len(), 1);
    assert_eq!(analyzer.character_count(), 5);
}

#[test]
fn scores_stay_within_five() {
    let mut analyzer = WordAnalyzer::new();
    for w in ["crane", "crate", "trace", "react", "caret", "aaaaa"] {
        analyzer.analyze_word(w).unwrap();
    }
    analyzer.finalize_probabilities();
    for w in analyzer.words() {
        assert!(score(w) >= 0.0 && score(w) <= 5.0);
    }
}

#[test]
fn finalizing_twice_changes_nothing() {
    let mut analyzer = WordAnalyzer::new();
    for w in ["arose", "alert", "above"] {
        analyzer.analyze_word(w).unwrap();
    }
    analyzer.finalize_probabilities();
    let first: Vec<u32> = analyzer.words().iter().map(|w| w.total_percent).collect();
    let r1 = analyzer.get_character('r', 1).unwrap().probability;
    analyzer.finalize_probabilities();
    let second: Vec<u32> = analyzer.words().iter().map(|w| w.total_percent).collect();
    assert_eq!(first, second);
    assert_eq!(analyzer.get_character('r', 1).unwrap().probability, r1);
    assert_eq!(r1, Some(33));
}

#[test]
fn ingesting_after_finalize_invalidates_probabilities() {
    let mut analyzer = WordAnalyzer::new();
    analyzer.analyze_word("aaaaa").unwrap();
    analyzer.finalize_probabilities();
    assert_eq!(analyzer.get_character('a', 0).unwrap().probability, Some(100));
    analyzer.analyze_word("bbbbb").unwrap();
    assert!(!analyzer.is_finalized());
    assert_eq!(analyzer.get_character('a', 0).unwrap().probability, None);
    assert_eq!(analyzer.get_most_probable_word().unwrap().total_percent, 250);
    assert_eq!(analyzer.get_character('a', 0).unwrap().probability, Some(50));
}

#[test]
fn first_of_tied_words_wins() {
    let mut analyzer = WordAnalyzer::new();
    analyzer.analyze_word("abcde").unwrap();
    analyzer.analyze_word("fghij").unwrap();
    assert_eq!(analyzer.get_most_probable_word().unwrap().as_str(), "abcde");
}

#[test]
fn letters_are_counted_by_case() {
    let mut analyzer = WordAnalyzer::new();
    analyzer.analyze_word("Hello").unwrap();
    assert!(analyzer.get_character('H', 0).is_some());
    assert!(analyzer.get_character('h', 0).is_none());
    assert!(analyzer.get_character('l', 7).is_none());
}

#[test]
fn word_from_bytes_and_positions() {
    let word = Word::from_bytes(*b"hello").unwrap();
    assert_eq!(word.as_str(), "hello");
    assert_eq!(word.word[4].position, 4);
    assert!(Word::new(0, 0, "hi").is_err());
}
