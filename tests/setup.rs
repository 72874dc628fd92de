use crackle::config::Config;
use crackle::setup::{read_words_from_file, split_lines};
use crackle::word_analyzer::{WordAnalyzer, WordError};
use std::path::PathBuf;

#[test]
fn lines_are_split_at_line_endings() {
    assert_eq!(split_lines("crane\nslate\r\nadieu"), vec!["crane", "slate", "adieu"]);
    assert_eq!(split_lines("crane\n\nslate\n"), vec!["crane", "", "slate"]);
    assert_eq!(split_lines(""), Vec::<String>::new());
    assert_eq!(split_lines("a\rb"), vec!["a\rb"]);
}

#[test]
fn word_list_skips_bad_lines() {
    let mut analyzer = WordAnalyzer::new();
    let errors = read_words_from_file("crane\nab\nsl4te\nadieu\n", &mut analyzer);
    assert_eq!(analyzer.get_total_words(), 2);
    assert_eq!(errors.len(), 2);
    assert!(matches!(errors[0], WordError::InvalidWordLength(2)));
    assert!(matches!(errors[1], WordError::InvalidWordCharacter('4')));
    let best = analyzer.get_most_probable_word().unwrap();
    assert_eq!(best.as_str(), "crane");
}

#[test]
fn config_points_at_another_database() {
    let mut config = Config::new("words.txt".to_string(), 10, PathBuf::from("a.db"));
    config.update_app_db(PathBuf::from("b.db"));
    assert_eq!(config.app_db, PathBuf::from("b.db"));
    assert_eq!(config.starting_word_limit, 10);
    assert_eq!(config.word_list_path, "words.txt");
}
