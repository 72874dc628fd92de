//! The decisions of a guessing session, as a state machine: the caller
//! performs each action it returns (asks for feedback, looks up candidate
//! words, proposes a guess, stores the results) and hands back what came of it.

use crate::error::RecoverableError;
use crate::game_engine::{all_resolved, chosen_guess, round_applied, GameEngine};
use crate::game_loop::GameResults;
use crate::input::is_feedback;
use vstd::prelude::*;

verus! {

#[derive(Debug, Clone, Copy)]
pub enum SessionType {
    Interactive,
    Test,
    Api,
}

/// The name under which a session type is stored and shown.
pub open spec fn session_type_name(t: SessionType) -> Seq<char> {
    match t {
        SessionType::Interactive => "Interactive"@,
        SessionType::Test => "Test"@,
        SessionType::Api => "Api"@,
    }
}

impl SessionType {
    /// The name under which the session type is stored and shown.
    pub fn as_str(&self) -> (r: &'static str)
        ensures
            r@ == session_type_name(*self),
    {
        match self {
            SessionType::Interactive => "Interactive",
            SessionType::Test => "Test",
            SessionType::Api => "Api",
        }
    }
}

/// Relies on rand's `Rng::gen_range` on `thread_rng()`: a value drawn from
/// `0..n`, which must not be empty.
#[verifier::external_body]
fn random_index(n: usize) -> (r: usize)
    requires
        n > 0,
    ensures
        r < n,
{
    rand::Rng::gen_range(&mut rand::thread_rng(), 0..n)
}

/// The word at `index` of `words`, if there is one.
pub fn starting_word_at(words: &Vec<String>, index: usize) -> (r: Option<String>)
    ensures
        index < words@.len() ==> match r {
            Some(w) => w@ == words@[index as int]@,
            None => false,
        },
        index >= words@.len() ==> r.is_none(),
{
    if index < words.len() {
        Some(words[index].clone())
    } else {
        None
    }
}

/// A word of `words` drawn at random; `None` where there is none.
pub fn pick_starting_word(words: &Vec<String>) -> (r: Option<String>)
    ensures
        words@.len() == 0 ==> r.is_none(),
        words@.len() > 0 ==> match r {
            Some(w) => exists|i: int| 0 <= i < words@.len() && w@ == #[trigger] words@[i]@,
            None => false,
        },
{
    if words.len() == 0 {
        return None;
    }
    let i = random_index(words.len());
    starting_word_at(words, i)
}

/// Why a session ended.
#[derive(Debug, Clone, Copy)]
pub enum SessionEnd {
    /// Every letter of the answer is known.
    Won,
    /// The guess budget is spent.
    OutOfGuesses,
    /// No candidate word is left.
    Stumped,
}

/// What the caller does next.
#[derive(Debug)]
pub enum SessionStep {
    /// Look up the candidate words matching this pattern and hand them to
    /// `on_candidates`.
    NeedCandidates(String),
    /// Propose this guess and hand the feedback on it to `on_feedback`.
    Propose(String),
    /// The session is over: store its results.
    Finished(SessionEnd),
}

/// One guessing session: the engine, the guesses proposed, and the guess
/// budget.
pub struct SessionState {
    engine: GameEngine,
    words_guessed: Vec<String>,
    number_of_guesses: u8,
    max_guesses: u8,
    finished: bool,
}

impl SessionState {
    pub closed spec fn engine(&self) -> GameEngine {
        self.engine
    }

    /// The guesses proposed, the starting word first.
    pub closed spec fn guessed(&self) -> Seq<String> {
        self.words_guessed@
    }

    /// Rounds of feedback taken in.
    pub closed spec fn rounds(&self) -> u8 {
        self.number_of_guesses
    }

    pub closed spec fn budget(&self) -> u8 {
        self.max_guesses
    }

    pub closed spec fn is_over(&self) -> bool {
        self.finished
    }

    /// A session that has not ended has room for one more round.
    pub open spec fn wf(&self) -> bool {
        !self.is_over() ==> self.rounds() < self.budget() || self.rounds() == 0
    }

    /// A session that proposes `starting_word` first and allows
    /// `max_guesses` rounds of feedback.
    pub fn new(starting_word: String, max_guesses: u8) -> (r: Self)
        ensures
            r.wf(),
            r.engine().guess() == starting_word@,
            r.engine().feedback_state().is_fresh(),
            r.guessed().len() == 1,
            r.guessed()[0]@ == starting_word@,
            r.rounds() == 0,
            r.budget() == max_guesses,
            !r.is_over(),
    {
        let mut engine = GameEngine::new();
        let first = starting_word.clone();
        engine.set_starting_word(starting_word);
        let mut words_guessed = Vec::new();
        words_guessed.push(first);
        SessionState { engine, words_guessed, number_of_guesses: 0, max_guesses, finished: false }
    }

    /// The guess the next feedback is about.
    pub fn current_guess(&self) -> (r: &str)
        ensures
            r@ == self.engine().guess(),
    {
        self.engine.get_current_guess()
    }

    /// The guesses proposed, the starting word first.
    pub fn words_guessed(&self) -> (r: &Vec<String>)
        ensures
            r@ == self.guessed(),
    {
        &self.words_guessed
    }

    /// Takes in feedback on the current guess. Invalid feedback is refused
    /// and changes nothing. Otherwise the round counts: the session is won
    /// where every letter is known, lost where the budget is spent, and
    /// needs the candidates matching the known letters otherwise.
    pub fn on_feedback(&mut self, feedback: &str) -> (r: Result<SessionStep, RecoverableError>)
        requires
            old(self).wf(),
            !old(self).is_over(),
        ensures
            final(self).wf(),
            match r {
                Err(_) => *final(self) == *old(self) && !(is_feedback(feedback@)
                    && old(self).engine().guess().len() >= 5),
                Ok(step) => {
                    let state = final(self).engine().feedback_state();
                    &&& is_feedback(feedback@)
                    &&& old(self).engine().guess().len() >= 5
                    &&& round_applied(
                        old(self).engine().feedback_state(),
                        state,
                        old(self).engine().guess(),
                        feedback@,
                    )
                    &&& final(self).engine().guess() == old(self).engine().guess()
                    &&& final(self).guessed() == old(self).guessed()
                    &&& final(self).budget() == old(self).budget()
                    &&& final(self).rounds() == old(self).rounds() + 1
                    &&& if all_resolved(state.resolved@) {
                        &&& step matches SessionStep::Finished(SessionEnd::Won)
                        &&& final(self).is_over()
                    } else if final(self).rounds() >= final(self).budget() {
                        &&& step matches SessionStep::Finished(SessionEnd::OutOfGuesses)
                        &&& final(self).is_over()
                    } else {
                        &&& !final(self).is_over()
                        &&& match step {
                            SessionStep::NeedCandidates(p) => p@ == state.resolved@,
                            _ => false,
                        }
                    }
                },
            },
    {
        match self.engine.parse_input(feedback) {
            Ok(_) => {},
            Err(e) => return Err(e),
        }
        self.number_of_guesses = self.number_of_guesses + 1;
        if self.engine.check_for_win() {
            self.finished = true;
            return Ok(SessionStep::Finished(SessionEnd::Won));
        }
        if self.number_of_guesses >= self.max_guesses {
            self.finished = true;
            return Ok(SessionStep::Finished(SessionEnd::OutOfGuesses));
        }
        Ok(SessionStep::NeedCandidates(self.engine.get_pattern()))
    }

    /// Takes in the candidate words: proposes the best of those that fit,
    /// or ends the session where none does.
    pub fn on_candidates(&mut self, possible_words: Vec<String>) -> (r: SessionStep)
        requires
            old(self).wf(),
            !old(self).is_over(),
            possible_words@.len() < u32::MAX,
        ensures
            final(self).wf(),
            final(self).engine().feedback_state() == old(self).engine().feedback_state(),
            final(self).rounds() == old(self).rounds(),
            final(self).budget() == old(self).budget(),
            match chosen_guess(
                old(self).engine().feedback_state(),
                old(self).engine().guess(),
                possible_words@,
            ) {
                None => (r matches SessionStep::Finished(SessionEnd::Stumped)) && final(self).is_over()
                    && final(self).guessed() == old(self).guessed(),
                Some(w) => {
                    &&& !final(self).is_over()
                    &&& final(self).engine().guess() == w
                    &&& final(self).guessed().len() == old(self).guessed().len() + 1
                    &&& final(self).guessed().drop_last() == old(self).guessed()
                    &&& final(self).guessed().last()@ == w
                    &&& match r {
                        SessionStep::Propose(s) => s@ == w,
                        _ => false,
                    }
                },
            },
    {
        match self.engine.get_next_guess(possible_words) {
            Ok(guess) => {
                self.words_guessed.push(guess.clone());
                assert(self.words_guessed@.drop_last() =~= old(self).words_guessed@);
                SessionStep::Propose(guess)
            },
            Err(_) => {
                self.finished = true;
                SessionStep::Finished(SessionEnd::Stumped)
            },
        }
    }

    /// The record of the session: the letters known, the rounds taken, and
    /// whether it was won.
    pub fn results(&self) -> (r: GameResults)
        ensures
            r.word@ == self.engine().feedback_state().resolved@,
            r.number_of_guesses == self.rounds(),
            r.win == all_resolved(self.engine().feedback_state().resolved@),
    {
        GameResults {
            word: self.engine.get_pattern(),
            number_of_guesses: self.number_of_guesses,
            win: self.engine.check_for_win(),
        }
    }
}

} // verus!
