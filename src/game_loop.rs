//! A single game driven from a word store: the game's state and its
//! decisions. The loop that talks to the player and the store runs outside.

use crate::error::RecoverableError;
use crate::game_engine::{
    all_resolved, chosen_guess, first_pass_applied, marked_absent, marked_present, pick_guess,
    round_applied, FeedbackState, UNKNOWN,
};
use crate::input::is_feedback;
use crate::text::chars_of;
use vstd::prelude::*;

verus! {

/// The feedback format shown to players.
pub const EXPECTED_FORMAT: &'static str = "gyngy";

/// Guesses a game may take before it is lost.
pub const MAX_GUESSES: u8 = 5;

/// The record of a finished game.
#[derive(Debug)]
pub struct GameResults {
    pub word: String,
    pub number_of_guesses: u8,
    pub win: bool,
}

#[derive(Debug, Clone, Copy)]
pub enum InputError {
    InvalidFormat,
    InvalidLength,
}

/// One game: the guesses made, what the feedback says of the answer, the
/// current word, and the store the candidate words come from.
pub struct GameLoop<D> {
    pub number_of_guesses: u8,
    pub state: FeedbackState,
    pub current_word: String,
    pub db: D,
}

impl<D> GameLoop<D> {
    /// A game with no guess yet and nothing known.
    pub fn new(db: D) -> (r: Self)
        ensures
            r.number_of_guesses == 0,
            r.state.resolved@ == seq![UNKNOWN, UNKNOWN, UNKNOWN, UNKNOWN, UNKNOWN],
            r.state.forbidden_positions@ == Seq::<(char, usize)>::empty(),
            r.state.required_characters@ == Seq::<char>::empty(),
            r.state.excluded_characters@ == Seq::<char>::empty(),
            r.current_word@ == seq![UNKNOWN, UNKNOWN, UNKNOWN, UNKNOWN, UNKNOWN],
            r.db == db,
    {
        let mut current_word = String::new();
        let mut i: usize = 0;
        while i < 5
            invariant
                i <= 5,
                current_word@ == Seq::new(i as nat, |j: int| UNKNOWN),
            decreases 5 - i,
        {
            crate::text::push_char(&mut current_word, UNKNOWN);
            assert(current_word@ =~= Seq::new((i + 1) as nat, |j: int| UNKNOWN));
            i += 1;
        }
        assert(current_word@ =~= seq![UNKNOWN, UNKNOWN, UNKNOWN, UNKNOWN, UNKNOWN]);
        GameLoop { number_of_guesses: 0, state: FeedbackState::new(), current_word, db }
    }

    /// Takes in feedback on the current word. Fails, changing nothing, on
    /// feedback that is not five symbols among `g`, `y` and `n`, and where
    /// the current word has fewer than five characters.
    pub fn parse_user_input(&mut self, input: String) -> (r: Result<(), RecoverableError>)
        ensures
            match r {
                Ok(_) => {
                    &&& is_feedback(input@)
                    &&& old(self).current_word@.len() >= 5
                    &&& round_applied(old(self).state, final(self).state, old(self).current_word@, input@)
                    &&& final(self).current_word == old(self).current_word
                    &&& final(self).number_of_guesses == old(self).number_of_guesses
                    &&& final(self).db == old(self).db
                },
                Err(RecoverableError::InvalidWordLength(n)) => !is_feedback(input@) && *final(self)
                    == *old(self),
                Err(RecoverableError::InvalidInputFormat(s)) => !is_feedback(input@) && s@
                    == input@ && *final(self) == *old(self),
                Err(RecoverableError::NoGuessFound) => is_feedback(input@)
                    && old(self).current_word@.len() < 5 && *final(self) == *old(self),
                Err(_) => false,
            },
    {
        match crate::input::check_input(input.as_str()) {
            Ok(_) => {},
            Err(e) => return Err(e),
        }
        let guess = chars_of(self.current_word.as_str());
        if guess.len() < 5 {
            return Err(RecoverableError::NoGuessFound);
        }
        let symbols = chars_of(input.as_str());
        self.state.apply_feedback(&guess, &symbols);
        Ok(())
    }

    /// Whether every slot is resolved.
    pub fn check_for_win(&self) -> (r: bool)
        ensures
            r == all_resolved(self.state.resolved@),
    {
        self.state.has_won()
    }

    /// The resolved slots as a pattern for the word store, `UNKNOWN` where
    /// no letter is known.
    pub fn pattern(&self) -> (r: String)
        ensures
            r@ == self.state.resolved@,
    {
        self.state.pattern()
    }

    /// The next word to propose, drawn from the words of the store that match
    /// the pattern; `None` where none fits.
    pub fn next_guess(&self, words: Vec<String>) -> (r: Option<String>)
        requires
            words@.len() < u32::MAX,
        ensures
            match chosen_guess(self.state, self.current_word@, words@) {
                None => r.is_none(),
                Some(w) => match r {
                    Some(s) => s@ == w,
                    None => false,
                },
            },
    {
        pick_guess(&self.state, self.current_word.as_str(), words)
    }

    /// The record of the game as it stands.
    pub fn game_results(&self) -> (r: GameResults)
        ensures
            r.word@ == self.current_word@,
            r.number_of_guesses == self.number_of_guesses,
            r.win == all_resolved(self.state.resolved@),
    {
        GameResults {
            word: self.current_word.clone(),
            number_of_guesses: self.number_of_guesses,
            win: self.check_for_win(),
        }
    }
}

/// Checks that `input` is five symbols among `g`, `y` and `n`.
pub fn check_input(input: &str) -> (r: Result<(), InputError>)
    ensures
        match r {
            Ok(_) => input.len() == 5 && is_feedback(input@),
            Err(InputError::InvalidLength) => input.len() != 5 && !is_feedback(input@),
            Err(InputError::InvalidFormat) => input.len() == 5 && !is_feedback(input@),
        },
{
    match crate::input::check_input(input) {
        Ok(_) => Ok(()),
        Err(RecoverableError::InvalidWordLength(_)) => Err(InputError::InvalidLength),
        Err(_) => Err(InputError::InvalidFormat),
    }
}

/// The first pass of a round of feedback on the game's current word; returns
/// the letters marked absent and not marked present in it.
pub fn process_input_characters<D>(game: &mut GameLoop<D>, input: &str) -> (r: Vec<char>)
    requires
        old(game).current_word@.len() >= 5,
        is_feedback(input@),
    ensures
        first_pass_applied(old(game).state, final(game).state, old(game).current_word@, input@),
        final(game).current_word == old(game).current_word,
        final(game).number_of_guesses == old(game).number_of_guesses,
        final(game).db == old(game).db,
        forall|c: char| #[trigger]
            r@.contains(c) <==> marked_absent(old(game).current_word@, input@, c)
                && !marked_present(old(game).current_word@, input@, c),
{
    let guess = chars_of(game.current_word.as_str());
    let symbols = chars_of(input);
    game.state.process_input_characters(&guess, &symbols)
}

} // verus!
