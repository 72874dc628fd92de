//! A simpler frequency model: probabilities are computed on request and a
//! word's score is computed when it is taken off the stack.

pub use crate::word_analyzer::{Character, Word, WordError};

use crate::letter_table::{
    has_key, has_stat, lemma_recorded_score, probabilities_current, recorded_score, score, with_probabilities,
    LetterTable,
};
use crate::word_analyzer::{is_fresh_word, letters_of, validate_word, word_error};
use vstd::prelude::*;

verus! {

/// Parses words into a stack and keeps their positional letter statistics.
pub struct WordParser {
    table: LetterTable,
    word_stack: Vec<Word>,
}

impl WordParser {
    pub closed spec fn table(&self) -> LetterTable {
        self.table
    }

    /// Every word parsed, as bytes, in order.
    pub open spec fn corpus(&self) -> Seq<Seq<u8>> {
        self.table().corpus()
    }

    /// The letter statistics.
    pub open spec fn stats(&self) -> Seq<Character> {
        self.table().stats()
    }

    /// The words on the stack, the most recent last.
    pub closed spec fn stack(&self) -> Seq<Word> {
        self.word_stack@
    }

    pub open spec fn wf(&self) -> bool {
        self.table().wf()
    }

    pub fn new() -> (r: Self)
        ensures
            r.wf(),
            r.corpus() == Seq::<Seq<u8>>::empty(),
            r.stats() == Seq::<Character>::empty(),
            r.stack() == Seq::<Word>::empty(),
    {
        WordParser { table: LetterTable::new(), word_stack: Vec::new() }
    }

    fn push(&mut self, word: Word)
        ensures
            final(self).table() == old(self).table(),
            final(self).stack() == old(self).stack().push(word),
    {
        self.word_stack.push(word);
    }

    /// Parses `word` if it is five ASCII letters and counts its letters;
    /// leaves everything as it was otherwise.
    pub fn parse_word(&mut self, word: &str) -> (r: Result<(), WordError>)
        requires
            old(self).wf(),
            old(self).corpus().len() < u32::MAX,
        ensures
            final(self).wf(),
            match r {
                Ok(_) => {
                    &&& word_error(word@, word.len()).is_none()
                    &&& final(self).corpus() == old(self).corpus().push(letters_of(word@))
                    &&& final(self).stack().drop_last() == old(self).stack()
                    &&& final(self).stack().len() == old(self).stack().len() + 1
                    &&& is_fresh_word(final(self).stack().last(), letters_of(word@), 0, 0)
                    &&& final(self).stats().len() >= old(self).stats().len()
                    &&& forall|k: int|
                        0 <= k < old(self).stats().len() ==> #[trigger] final(self).stats()[k] == (
                        Character {
                            frequency: final(self).stats()[k].frequency,
                            ..old(self).stats()[k]
                        })
                    &&& forall|k: int|
                        old(self).stats().len() <= k < final(self).stats().len() ==> (
                        #[trigger] final(self).stats()[k]).probability.is_none()
                },
                Err(e) => word_error(word@, word.len()) == Some(e) && *final(self) == *old(self),
            },
    {
        let letters = match validate_word(word) {
            Ok(b) => b,
            Err(e) => return Err(e),
        };
        let fresh = match Word::from_bytes(letters) {
            Ok(w) => w,
            Err(e) => return Err(e),
        };
        self.table.record(letters);
        self.push(fresh);
        assert(self.stack().drop_last() =~= old(self).stack());
        Ok(())
    }

    /// Computes the probability of every letter statistic.
    pub fn finalize_probabilities(&mut self)
        requires
            old(self).wf(),
        ensures
            final(self).wf(),
            final(self).corpus() == old(self).corpus(),
            final(self).stats() == with_probabilities(old(self).stats(), old(self).corpus()),
            probabilities_current(final(self).stats(), final(self).corpus()),
            final(self).stack() == old(self).stack(),
    {
        self.table.compute_probabilities();
    }

    /// Takes the last word off the stack, with its score computed from the
    /// recorded probabilities.
    pub fn pop_n_parse(&mut self) -> (r: Option<Word>)
        requires
            old(self).wf(),
        ensures
            final(self).wf(),
            final(self).table() == old(self).table(),
            old(self).stack().len() == 0 ==> r.is_none() && final(self).stack() == old(
                self,
            ).stack(),
            old(self).stack().len() > 0 ==> {
                let w = old(self).stack().last();
                &&& final(self).stack() == old(self).stack().drop_last()
                &&& r == Some(
                    Word {
                        total_percent: recorded_score(old(self).stats(), w.letters()) as u32,
                        ..w
                    },
                )
                &&& recorded_score(old(self).stats(), w.letters()) <= 500
            },
    {
        match self.word_stack.pop() {
            Some(w) => {
                let mut word = w;
                let letters = [
                    w.word[0].character,
                    w.word[1].character,
                    w.word[2].character,
                    w.word[3].character,
                    w.word[4].character,
                ];
                assert(letters@ =~= w.letters());
                word.total_percent = self.table.word_percent(&letters);
                Some(word)
            },
            None => None,
        }
    }

    /// Where the probabilities are current, the score that `pop_n_parse`
    /// gives a word is the word's score against every word parsed.
    pub proof fn lemma_popped_score(&self, w: Word)
        requires
            self.wf(),
            probabilities_current(self.stats(), self.corpus()),
        ensures
            recorded_score(self.stats(), w.letters()) == score(self.corpus(), w.letters()),
    {
        lemma_recorded_score(self.stats(), self.corpus(), w.letters());
    }

    /// Number of words parsed.
    pub fn get_total_words(&self) -> (r: u32)
        requires
            self.wf(),
        ensures
            r == self.corpus().len(),
    {
        self.table.total_words()
    }

    /// The words on the stack, the most recent last.
    pub fn words(&self) -> (r: &Vec<Word>)
        ensures
            r@ == self.stack(),
    {
        &self.word_stack
    }

    /// Number of letter statistics kept: one per letter and position seen.
    pub fn character_count(&self) -> (r: usize)
        ensures
            r == self.stats().len(),
    {
        self.table.len()
    }

    /// The statistic of letter `c` at `position`, if that pair was seen.
    pub fn get_character(&self, c: char, position: usize) -> (r: Option<Character>)
        requires
            self.wf(),
        ensures
            (c as u32) < 256 && position < 5 ==> match r {
                Some(ch) => has_key(ch, c as u8, position as u8) && self.stats().contains(ch),
                None => !has_stat(self.stats(), c as u8, position as u8),
            },
            (c as u32) >= 256 || position >= 5 ==> r.is_none(),
    {
        if (c as u32) >= 256 || position >= 5 {
            return None;
        }
        self.table.find(c as u8, position as u8)
    }
}

} // verus!
