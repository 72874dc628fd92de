use crackle::error::RecoverableError;
use crackle::session::{
    pick_starting_word, starting_word_at, SessionEnd, SessionState, SessionStep, SessionType,
};

fn words(ws: &[&str]) -> Vec<String> {
    ws.iter().map(|w| w.to_string()).collect()
}

#[test]
fn session_type_names() {
    assert_eq!(SessionType::Interactive.as_str(), "Interactive");
    assert_eq!(SessionType::Test.as_str(), "Test");
    assert_eq!(SessionType::Api.as_str(), "Api");
}

#[test]
fn starting_word_is_drawn_from_the_list() {
    let list = words(&["crane", "slate", "adieu"]);
    for _ in 0..20 {
        let w = pick_starting_word(&list).unwrap();
        assert!(list.contains(&w));
    }
    assert_eq!(pick_starting_word(&Vec::new()), None);
    assert_eq!(starting_word_at(&list, 1), Some("slate".to_string()));
    assert_eq!(starting_word_at(&list, 3), None);
}

#[test]
fn session_won_on_all_correct_feedback() {
    let mut session = SessionState::new("crane".to_string(), 5);
    assert_eq!(session.current_guess(), "crane");
    let step = session.on_feedback("ggggg").unwrap();
    assert!(matches!(step, SessionStep::Finished(SessionEnd::Won)));
    let results = session.results();
    assert_eq!(results.word, "crane");
    assert_eq!(results.number_of_guesses, 1);
    assert!(results.win);
}

#[test]
fn session_asks_for_candidates_then_proposes() {
    let mut session = SessionState::new("crane".to_string(), 5);
    match session.on_feedback("gnnnn").unwrap() {
        SessionStep::NeedCandidates(pattern) => assert_eq!(pattern, "c____"),
        other => panic!("unexpected {:?}", other),
    }
    match session.on_candidates(words(&["crane", "cloth", "civic"])) {
        SessionStep::Propose(guess) => assert_eq!(guess, "cloth"),
        other => panic!("unexpected {:?}", other),
    }
    assert_eq!(session.current_guess(), "cloth");
    assert_eq!(session.words_guessed(), &words(&["crane", "cloth"]));
}

#[test]
fn session_stumped_without_candidates() {
    let mut session = SessionState::new("crane".to_string(), 5);
    assert!(matches!(session.on_feedback("nnnnn").unwrap(), SessionStep::NeedCandidates(_)));
    let step = session.on_candidates(words(&["crane", "react"]));
    assert!(matches!(step, SessionStep::Finished(SessionEnd::Stumped)));
    assert!(!session.results().win);
}

#[test]
fn session_out_of_guesses() {
    let mut session = SessionState::new("crane".to_string(), 1);
    let step = session.on_feedback("nnnnn").unwrap();
    assert!(matches!(step, SessionStep::Finished(SessionEnd::OutOfGuesses)));
    assert_eq!(session.results().number_of_guesses, 1);
}

#[test]
fn session_refuses_bad_feedback() {
    let mut session = SessionState::new("crane".to_string(), 5);
    assert!(matches!(session.on_feedback("gg"), Err(RecoverableError::InvalidWordLength(2))));
    assert!(matches!(session.on_feedback("ggqgg"), Err(RecoverableError::InvalidInputFormat(_))));
    assert_eq!(session.results().number_of_guesses, 0);
    assert_eq!(session.results().word, "_____");
}
