//! The frequency model: ingests five-letter words, derives positional letter
//! probabilities, and ranks the ingested words by score.

use crate::letter_table::{
    has_key, has_stat, lemma_recorded_score, lemma_score_le_500, probabilities_cleared,
    probabilities_current, probability, score, with_probabilities, without_probabilities, LetterTable,
};
use crate::text::{chars_of, push_char};
use vstd::prelude::*;

verus! {

/// Number of letters in every word of the game.
pub const WORD_LENGTH: usize = 5;

/// A letter at a position of a word, with how often it was seen there and,
/// once computed, the percentage of words that hold it there.
#[derive(Debug, Clone, Copy)]
pub struct Character {
    pub character: u8,
    pub position: u8,
    pub probability: Option<u32>,
    pub frequency: u32,
}

impl Character {
    pub fn new(character: u8, position: u8, probability: Option<u32>, frequency: u32) -> (r: Self)
        ensures
            r == (Character { character, position, probability, frequency }),
    {
        Character { character, position, probability, frequency }
    }

    pub fn increment_frequency(&mut self)
        requires
            old(self).frequency < u32::MAX,
        ensures
            *final(self) == (Character { frequency: (old(self).frequency + 1) as u32, ..*old(self) }),
    {
        self.frequency = self.frequency + 1;
    }

    pub fn get_char(&self) -> (r: char)
        ensures
            r == self.character as char,
    {
        self.character as char
    }

    /// Sets the probability to `frequency * 100 / total_frequency`, rounded down.
    pub fn update_probability(&mut self, total_frequency: u32)
        requires
            total_frequency > 0,
            old(self).frequency * 100 / total_frequency as int <= u32::MAX,
        ensures
            *final(self) == (Character {
                probability: Some((old(self).frequency * 100 / total_frequency as int) as u32),
                ..*old(self)
            }),
    {
        let p: u64 = (self.frequency as u64) * 100 / (total_frequency as u64);
        self.probability = Some(p as u32);
    }
}

#[derive(Debug, Clone, Copy)]
pub enum WordError {
    InvalidWordLength(usize),
    InvalidWordCharacter(char),
    InvalidPosition(u8),
    ProbabilitiesNotFinalized,
}

#[derive(Debug, Clone, Copy)]
pub enum WordAnalyzerError {
    ProbabilitiesNotFinalized,
}

/// An ASCII letter, either case.
pub open spec fn is_letter(c: char) -> bool {
    ('a' <= c && c <= 'z') || ('A' <= c && c <= 'Z')
}

/// Every character of `s` is an ASCII letter.
pub open spec fn all_letters(s: Seq<char>) -> bool {
    forall|i: int| 0 <= i < s.len() ==> is_letter(#[trigger] s[i])
}

/// Five ASCII letters: a word the model accepts.
pub open spec fn is_valid_word(s: Seq<char>) -> bool {
    s.len() == 5 && all_letters(s)
}

/// The bytes of a word of ASCII letters give back its characters.
pub proof fn lemma_letters_round_trip(s: Seq<char>)
    requires
        is_valid_word(s),
    ensures
        forall|i: int| 0 <= i < 5 ==> #[trigger] (letters_of(s)[i] as char) == s[i],
{
    assert forall|i: int| 0 <= i < 5 implies #[trigger] (letters_of(s)[i] as char) == s[i] by {
        assert(is_letter(s[i]));
    }
}

/// `i` is the index of the first character of `s` that is not an ASCII letter.
pub open spec fn is_first_non_letter(s: Seq<char>, i: int) -> bool {
    &&& 0 <= i < s.len()
    &&& !is_letter(s[i])
    &&& forall|j: int| 0 <= j < i ==> is_letter(#[trigger] s[j])
}

/// Why a string of `byte_len` bytes and characters `s` is not a word the
/// model accepts; `None` where it is one.
pub open spec fn word_error(s: Seq<char>, byte_len: usize) -> Option<WordError> {
    if byte_len != WORD_LENGTH {
        Some(WordError::InvalidWordLength(byte_len))
    } else if !all_letters(s) {
        Some(WordError::InvalidWordCharacter(s[choose|i: int| is_first_non_letter(s, i)]))
    } else {
        None
    }
}

/// The low byte of a character.
pub open spec fn low_byte(c: char) -> u8 {
    #[verifier::truncate] (c as u8)
}

/// The bytes of a string of ASCII characters.
pub open spec fn letters_of(s: Seq<char>) -> Seq<u8> {
    Seq::new(s.len(), |i: int| s[i] as u8)
}

/// `w` is a word just made from `b`: each letter at its position, with no
/// counts and no score.
pub open spec fn is_fresh_word(w: Word, b: Seq<u8>, frequency: u32, total_percent: u32) -> bool {
    &&& w.frequency == frequency
    &&& w.total_percent == total_percent
    &&& b.len() == 5
    &&& forall|i: int|
        0 <= i < 5 ==> #[trigger] w.word[i] == Character::spec_new(b[i], i as u8, None, 0)
}

impl Character {
    pub open spec fn spec_new(
        character: u8,
        position: u8,
        probability: Option<u32>,
        frequency: u32,
    ) -> Character {
        Character { character, position, probability, frequency }
    }
}

pub fn is_ascii_letter(c: char) -> (r: bool)
    ensures
        r == is_letter(c),
{
    ('a' <= c && c <= 'z') || ('A' <= c && c <= 'Z')
}

/// Checks that `word` is five ASCII letters and returns its bytes.
pub fn validate_word(word: &str) -> (r: Result<[u8; 5], WordError>)
    ensures
        match r {
            Ok(b) => word_error(word@, word.len()).is_none() && word@.len() == 5 && b@
                == letters_of(word@),
            Err(e) => word_error(word@, word.len()) == Some(e),
        },
        r.is_ok() <==> is_valid_word(word@),
{
    let n = word.len();
    if n != WORD_LENGTH {
        proof {
            if is_valid_word(word@) {
                assert(vstd::string::is_ascii(word));
            }
        }
        return Err(WordError::InvalidWordLength(n));
    }
    let cs = chars_of(word);
    let mut i: usize = 0;
    while i < cs.len()
        invariant
            cs@ == word@,
            word.len() == 5,
            i <= cs@.len(),
            forall|j: int| 0 <= j < i ==> is_letter(#[trigger] cs@[j]),
        decreases cs@.len() - i,
    {
        if !is_ascii_letter(cs[i]) {
            assert(!is_letter(word@[i as int]));
            assert(!all_letters(word@));
            assert(is_first_non_letter(word@, i as int));
            let ghost k = choose|k: int| is_first_non_letter(word@, k);
            assert(k == i as int);
            return Err(WordError::InvalidWordCharacter(cs[i]));
        }
        i += 1;
    }
    assert(vstd::string::is_ascii(word));
    let b: [u8; 5] = [cs[0] as u8, cs[1] as u8, cs[2] as u8, cs[3] as u8, cs[4] as u8];
    assert(b@ =~= letters_of(word@));
    Ok(b)
}

/// A five-letter word and its score.
#[derive(Debug, Clone, Copy)]
pub struct Word {
    pub frequency: u32,
    /// The score in hundredths: the sum of the percentages of the word's
    /// letters at their positions.
    pub total_percent: u32,
    pub word: [Character; 5],
}

impl Word {
    /// The word's letters, as bytes.
    pub open spec fn letters(&self) -> Seq<u8> {
        self.word@.map_values(|c: Character| c.character)
    }

    /// Makes a word from the characters of `word`, each kept as its low byte.
    pub fn new(frequency: u32, total_percent: u32, word: &str) -> (r: Result<Self, WordError>)
        ensures
            match r {
                Ok(w) => word@.len() == 5 && is_fresh_word(
                    w,
                    letters_of(word@),
                    frequency,
                    total_percent,
                ),
                Err(e) => word@.len() != 5 && e == WordError::InvalidWordLength(word.len()),
            },
    {
        let cs = chars_of(word);
        if cs.len() != WORD_LENGTH {
            return Err(WordError::InvalidWordLength(word.len()));
        }
        let w = Word {
            frequency,
            total_percent,
            word: [
                Character::new(cs[0] as u8, 0, None, 0),
                Character::new(cs[1] as u8, 1, None, 0),
                Character::new(cs[2] as u8, 2, None, 0),
                Character::new(cs[3] as u8, 3, None, 0),
                Character::new(cs[4] as u8, 4, None, 0),
            ],
        };
        assert(is_fresh_word(w, letters_of(word@), frequency, total_percent));
        Ok(w)
    }

    /// The word's letters as a string.
    pub fn as_str(&self) -> (r: String)
        ensures
            r@ == self.word@.map_values(|c: Character| c.character as char),
    {
        let mut r = String::new();
        let mut i: usize = 0;
        while i < WORD_LENGTH
            invariant
                i <= 5,
                r@ == self.word@.subrange(0, i as int).map_values(
                    |c: Character| c.character as char,
                ),
            decreases 5 - i,
        {
            push_char(&mut r, self.word[i].get_char());
            assert(self.word@.subrange(0, i + 1) =~= self.word@.subrange(0, i as int).push(
                self.word@[i as int],
            ));
            i += 1;
        }
        assert(self.word@.subrange(0, 5) =~= self.word@);
        r
    }

    /// Makes a word from five bytes, with no counts and no score.
    pub fn from_bytes(bytes: [u8; 5]) -> (r: Result<Self, WordError>)
        ensures
            match r {
                Ok(w) => is_fresh_word(w, bytes@, 0, 0),
                Err(_) => false,
            },
    {
        let w = Word {
            frequency: 0,
            total_percent: 0,
            word: [
                Character::new(bytes[0], 0, None, 0),
                Character::new(bytes[1], 1, None, 0),
                Character::new(bytes[2], 2, None, 0),
                Character::new(bytes[3], 3, None, 0),
                Character::new(bytes[4], 4, None, 0),
            ],
        };
        assert(is_fresh_word(w, bytes@, 0, 0));
        Ok(w)
    }

    fn update_probability(&mut self, total_percent: u32)
        ensures
            *final(self) == (Word { total_percent, ..*old(self) }),
    {
        self.total_percent = total_percent;
    }

    /// The letter at `position`.
    pub fn get_char_at(&self, position: usize) -> (r: Result<char, WordError>)
        ensures
            position < 5 ==> r == Ok::<char, WordError>(self.word[position as int].character as char),
            position >= 5 ==> r == Err::<char, WordError>(WordError::InvalidPosition(position as u8)),
    {
        if position < WORD_LENGTH {
            Ok(self.word[position].get_char())
        } else {
            Err(WordError::InvalidPosition(position as u8))
        }
    }

    /// Whether the low byte of `ch` is one of the word's letters.
    pub fn contains_char(&self, ch: char) -> (r: bool)
        ensures
            r == self.letters().contains(low_byte(ch)),
    {
        let byte = #[verifier::truncate] (ch as u8);
        assert(byte == low_byte(ch));
        let mut i: usize = 0;
        while i < WORD_LENGTH
            invariant
                i <= 5,
                byte == low_byte(ch),
                forall|j: int| 0 <= j < i ==> self.word[j].character != byte,
            decreases 5 - i,
        {
            if self.word[i].character == byte {
                assert(self.letters()[i as int] == byte);
                assert(self.letters().contains(byte));
                return true;
            }
            i += 1;
        }
        false
    }

    fn letter_bytes(&self) -> (r: [u8; 5])
        ensures
            r@ == self.letters(),
    {
        let r = [
            self.word[0].character,
            self.word[1].character,
            self.word[2].character,
            self.word[3].character,
            self.word[4].character,
        ];
        assert(r@ =~= self.letters());
        r
    }
}

/// The words with their scores computed against `corpus`.
pub open spec fn scored(stack: Seq<Word>, corpus: Seq<Seq<u8>>) -> Seq<Word> {
    Seq::new(
        stack.len(),
        |j: int| Word { total_percent: score(corpus, stack[j].letters()) as u32, ..stack[j] },
    )
}

/// Finalizing is idempotent: computing the probabilities and the scores
/// again, with no word ingested in between, gives the same statistics and
/// the same scores.
pub proof fn lemma_finalize_idempotent(
    stats: Seq<Character>,
    stack: Seq<Word>,
    corpus: Seq<Seq<u8>>,
)
    ensures
        with_probabilities(with_probabilities(stats, corpus), corpus) == with_probabilities(
            stats,
            corpus,
        ),
        scored(scored(stack, corpus), corpus) == scored(stack, corpus),
{
    assert(with_probabilities(with_probabilities(stats, corpus), corpus) =~= with_probabilities(
        stats,
        corpus,
    ));
    assert(scored(scored(stack, corpus), corpus) =~= scored(stack, corpus));
}

/// Index of the first word with the highest score.
pub open spec fn best_index(ws: Seq<Word>) -> int
    decreases ws.len(),
{
    if ws.len() <= 1 {
        0
    } else {
        let k = best_index(ws.drop_last());
        if ws.last().total_percent > ws[k].total_percent {
            ws.len() - 1
        } else {
            k
        }
    }
}

/// Index of the first word of `ws` with the highest score against `corpus`.
pub open spec fn first_best(ws: Seq<Seq<u8>>, corpus: Seq<Seq<u8>>) -> int
    decreases ws.len(),
{
    if ws.len() <= 1 {
        0
    } else {
        let k = first_best(ws.drop_last(), corpus);
        if score(corpus, ws.last()) > score(corpus, ws[k]) {
            ws.len() - 1
        } else {
            k
        }
    }
}

/// The first best word is a highest-scoring word, and every word before it
/// scores less.
pub proof fn lemma_first_best(ws: Seq<Seq<u8>>, corpus: Seq<Seq<u8>>)
    requires
        ws.len() > 0,
    ensures
        0 <= first_best(ws, corpus) < ws.len(),
        forall|j: int|
            0 <= j < ws.len() ==> score(corpus, #[trigger] ws[j]) <= score(
                corpus,
                ws[first_best(ws, corpus)],
            ),
        forall|j: int|
            0 <= j < first_best(ws, corpus) ==> score(corpus, #[trigger] ws[j]) < score(
                corpus,
                ws[first_best(ws, corpus)],
            ),
    decreases ws.len(),
{
    if ws.len() > 1 {
        let rest = ws.drop_last();
        lemma_first_best(rest, corpus);
        let k = first_best(rest, corpus);
        let b = first_best(ws, corpus);
        assert(rest[k] == ws[k]);
        assert forall|j: int| 0 <= j < ws.len() implies score(corpus, #[trigger] ws[j]) <= score(
            corpus,
            ws[b],
        ) by {
            if j < rest.len() {
                assert(rest[j] == ws[j]);
            }
        }
        assert forall|j: int| 0 <= j < b implies score(corpus, #[trigger] ws[j]) < score(
            corpus,
            ws[b],
        ) by {
            assert(rest[j] == ws[j]);
        }
    }
}

/// On words scored against `corpus`, the best word held is the first best
/// of their letters.
pub proof fn lemma_best_index_first_best(stack: Seq<Word>, ws: Seq<Seq<u8>>, corpus: Seq<Seq<u8>>)
    requires
        stack.len() == ws.len(),
        forall|j: int|
            0 <= j < stack.len() ==> (#[trigger] stack[j]).letters() == ws[j]
                && stack[j].total_percent == score(corpus, ws[j]),
    ensures
        best_index(stack) == first_best(ws, corpus),
    decreases stack.len(),
{
    if stack.len() > 1 {
        lemma_best_index_first_best(stack.drop_last(), ws.drop_last(), corpus);
        lemma_first_best(ws.drop_last(), corpus);
    }
}

/// The frequency model: the words ingested, their positional letter
/// statistics, and, once finalized, every probability and word score.
pub struct WordAnalyzer {
    table: LetterTable,
    word_stack: Vec<Word>,
    probabilities_finalized: bool,
}

impl WordAnalyzer {
    pub closed spec fn table(&self) -> LetterTable {
        self.table
    }

    /// Every word ingested, as bytes, in order.
    pub open spec fn corpus(&self) -> Seq<Seq<u8>> {
        self.table().corpus()
    }

    /// The letter statistics.
    pub open spec fn stats(&self) -> Seq<Character> {
        self.table().stats()
    }

    /// The words held, in the order they were ingested.
    pub closed spec fn stack(&self) -> Seq<Word> {
        self.word_stack@
    }

    pub closed spec fn finalized(&self) -> bool {
        self.probabilities_finalized
    }

    pub open spec fn wf(&self) -> bool {
        &&& self.table().wf()
        &&& self.finalized() ==> probabilities_current(self.stats(), self.corpus()) && forall|
            j: int,
        |
            0 <= j < self.stack().len() ==> (#[trigger] self.stack()[j]).total_percent == score(
                self.corpus(),
                self.stack()[j].letters(),
            )
        &&& !self.finalized() ==> probabilities_cleared(self.stats())
    }

    /// Once finalized, the statistics and the scores are those that
    /// finalizing computes.
    pub proof fn lemma_finalized_is_fixed(&self)
        requires
            self.wf(),
            self.finalized(),
        ensures
            with_probabilities(self.stats(), self.corpus()) == self.stats(),
            scored(self.stack(), self.corpus()) == self.stack(),
    {
        let stats = self.stats();
        let corpus = self.corpus();
        assert forall|k: int| 0 <= k < stats.len() implies #[trigger] with_probabilities(
            stats,
            corpus,
        )[k] == stats[k] by {
            assert(stats[k].probability == Some(
                probability(corpus, stats[k].position as int, stats[k].character) as u32,
            ));
        }
        assert(with_probabilities(stats, corpus) =~= stats);
        assert forall|j: int| 0 <= j < self.stack().len() implies #[trigger] scored(
            self.stack(),
            corpus,
        )[j] == self.stack()[j] by {
            lemma_score_le_500(corpus, self.stack()[j].letters());
        }
        assert(scored(self.stack(), corpus) =~= self.stack());
    }

    /// Once finalized, every word held scores between 0 and 500 hundredths,
    /// that is between 0 and 5.
    pub proof fn lemma_scores_within_bounds(&self)
        requires
            self.wf(),
            self.finalized(),
        ensures
            forall|j: int|
                0 <= j < self.stack().len() ==> (#[trigger] self.stack()[j]).total_percent <= 500,
    {
        assert forall|j: int| 0 <= j < self.stack().len() implies (#[trigger] self.stack()[
            j]).total_percent <= 500 by {
            lemma_score_le_500(self.corpus(), self.stack()[j].letters());
        }
    }

    pub fn new() -> (r: Self)
        ensures
            r.wf(),
            r.corpus() == Seq::<Seq<u8>>::empty(),
            r.stats() == Seq::<Character>::empty(),
            r.stack() == Seq::<Word>::empty(),
            !r.finalized(),
    {
        WordAnalyzer {
            table: LetterTable::new(),
            word_stack: Vec::new(),
            probabilities_finalized: false,
        }
    }

    fn push(&mut self, word: Word)
        ensures
            *final(self) == (WordAnalyzer {
                word_stack: final(self).word_stack,
                ..*old(self)
            }),
            final(self).stack() == old(self).stack().push(word),
    {
        self.word_stack.push(word);
    }

    /// Removes the last word held. Fails until the probabilities are finalized.
    pub fn pop(&mut self) -> (r: Result<Option<Word>, WordAnalyzerError>)
        requires
            old(self).wf(),
        ensures
            final(self).wf(),
            !old(self).finalized() ==> r == Err::<Option<Word>, WordAnalyzerError>(
                WordAnalyzerError::ProbabilitiesNotFinalized,
            ) && *final(self) == *old(self),
            old(self).finalized() ==> {
                &&& final(self).corpus() == old(self).corpus()
                &&& final(self).stats() == old(self).stats()
                &&& final(self).finalized()
                &&& if old(self).stack().len() == 0 {
                    r == Ok::<Option<Word>, WordAnalyzerError>(None) && final(self).stack()
                        == old(self).stack()
                } else {
                    r == Ok::<Option<Word>, WordAnalyzerError>(Some(old(self).stack().last()))
                        && final(self).stack() == old(self).stack().drop_last()
                }
            },
    {
        if !self.probabilities_finalized {
            return Err(WordAnalyzerError::ProbabilitiesNotFinalized);
        }
        let r = self.word_stack.pop();
        assert forall|j: int| 0 <= j < self.stack().len() implies (#[trigger] self.stack()[
            j]).total_percent == score(self.corpus(), self.stack()[j].letters()) by {
            assert(self.stack()[j] == old(self).stack()[j]);
        }
        Ok(r)
    }

    /// Ingests `word` if it is five ASCII letters; leaves everything as it
    /// was otherwise. Ingesting invalidates earlier probabilities.
    pub fn analyze_word(&mut self, word: &str) -> (r: Result<(), WordError>)
        requires
            old(self).wf(),
            old(self).corpus().len() < u32::MAX,
        ensures
            final(self).wf(),
            match r {
                Ok(_) => {
                    &&& word_error(word@, word.len()).is_none()
                    &&& final(self).corpus() == old(self).corpus().push(letters_of(word@))
                    &&& final(self).stack().drop_last() == old(self).stack()
                    &&& final(self).stack().len() == old(self).stack().len() + 1
                    &&& is_fresh_word(final(self).stack().last(), letters_of(word@), 0, 0)
                    &&& !final(self).finalized()
                },
                Err(e) => word_error(word@, word.len()) == Some(e) && *final(self) == *old(self),
            },
            r.is_ok() <==> is_valid_word(word@),
    {
        let letters = match validate_word(word) {
            Ok(b) => b,
            Err(e) => return Err(e),
        };
        let fresh = match Word::from_bytes(letters) {
            Ok(w) => w,
            Err(e) => return Err(e),
        };
        if self.probabilities_finalized {
            self.table.clear_probabilities();
            self.probabilities_finalized = false;
        }
        self.table.record(letters);
        self.push(fresh);
        assert(self.stack().drop_last() =~= old(self).stack());
        Ok(())
    }

    pub fn get_total_words(&self) -> (r: u32)
        requires
            self.wf(),
        ensures
            r == self.corpus().len(),
    {
        self.table.total_words()
    }

    /// Computes every probability and every word score; does nothing where
    /// they are already current.
    pub fn finalize_probabilities(&mut self)
        requires
            old(self).wf(),
        ensures
            final(self).wf(),
            final(self).finalized(),
            final(self).corpus() == old(self).corpus(),
            final(self).stats() == with_probabilities(old(self).stats(), old(self).corpus()),
            final(self).stack() == scored(old(self).stack(), old(self).corpus()),
            old(self).finalized() ==> *final(self) == *old(self),
    {
        let ghost corpus = self.corpus();
        if self.probabilities_finalized {
            proof {
                self.lemma_finalized_is_fixed();
            }
            return;
        }
        self.table.compute_probabilities();
        let ghost old_stack = self.word_stack@;
        let mut j: usize = 0;
        while j < self.word_stack.len()
            invariant
                self.table.wf(),
                self.table.corpus() == corpus,
                self.table.stats() == with_probabilities(old(self).stats(), corpus),
                probabilities_current(self.table.stats(), corpus),
                j <= self.word_stack@.len(),
                self.word_stack@.len() == old_stack.len(),
                forall|k: int|
                    0 <= k < old_stack.len() ==> #[trigger] self.word_stack@[k] == if k < j {
                        scored(old_stack, corpus)[k]
                    } else {
                        old_stack[k]
                    },
            decreases self.word_stack@.len() - j,
        {
            let mut w = self.word_stack[j];
            let letters = w.letter_bytes();
            let p = self.table.word_percent(&letters);
            proof {
                lemma_recorded_score(self.table.stats(), corpus, letters@);
            }
            w.update_probability(p);
            self.word_stack.set(j, w);
            j += 1;
        }
        self.probabilities_finalized = true;
        assert(self.word_stack@ =~= scored(old_stack, corpus));
        assert forall|k: int| 0 <= k < self.stack().len() implies (#[trigger] self.stack()[
            k]).total_percent == score(corpus, self.stack()[k].letters()) by {
            lemma_score_le_500(corpus, old_stack[k].letters());
        }
    }

    /// The first word with the highest score, finalizing the probabilities
    /// first where needed; `None` where no word is held.
    pub fn get_most_probable_word(&mut self) -> (r: Option<Word>)
        requires
            old(self).wf(),
        ensures
            final(self).wf(),
            final(self).finalized(),
            final(self).corpus() == old(self).corpus(),
            final(self).stats() == with_probabilities(old(self).stats(), old(self).corpus()),
            final(self).stack() == scored(old(self).stack(), old(self).corpus()),
            old(self).finalized() ==> *final(self) == *old(self),
            r == if final(self).stack().len() == 0 {
                None
            } else {
                Some(final(self).stack()[best_index(final(self).stack())])
            },
    {
        if !self.probabilities_finalized {
            self.finalize_probabilities();
        } else {
            proof {
                self.lemma_finalized_is_fixed();
            }
        }
        if self.word_stack.len() == 0 {
            return None;
        }
        let mut best: usize = 0;
        let mut i: usize = 1;
        while i < self.word_stack.len()
            invariant
                1 <= i <= self.word_stack@.len(),
                best == best_index(self.word_stack@.subrange(0, i as int)),
                best < i,
            decreases self.word_stack@.len() - i,
        {
            let ghost prefix = self.word_stack@.subrange(0, i + 1);
            assert(prefix.drop_last() =~= self.word_stack@.subrange(0, i as int));
            if self.word_stack[i].total_percent > self.word_stack[best].total_percent {
                best = i;
            }
            i += 1;
        }
        assert(self.word_stack@.subrange(0, i as int) =~= self.word_stack@);
        Some(self.word_stack[best])
    }

    /// Same as `pop`.
    pub fn pop_with_probability(&mut self) -> (r: Result<Option<Word>, WordAnalyzerError>)
        requires
            old(self).wf(),
        ensures
            final(self).wf(),
            !old(self).finalized() ==> r == Err::<Option<Word>, WordAnalyzerError>(
                WordAnalyzerError::ProbabilitiesNotFinalized,
            ) && *final(self) == *old(self),
            old(self).finalized() ==> {
                &&& final(self).corpus() == old(self).corpus()
                &&& final(self).stats() == old(self).stats()
                &&& final(self).finalized()
                &&& if old(self).stack().len() == 0 {
                    r == Ok::<Option<Word>, WordAnalyzerError>(None) && final(self).stack()
                        == old(self).stack()
                } else {
                    r == Ok::<Option<Word>, WordAnalyzerError>(Some(old(self).stack().last()))
                        && final(self).stack() == old(self).stack().drop_last()
                }
            },
    {
        self.pop()
    }

    /// Whether the probabilities and scores are current.
    pub fn is_finalized(&self) -> (r: bool)
        ensures
            r == self.finalized(),
    {
        self.probabilities_finalized
    }

    /// The words held, in the order they were ingested.
    pub fn words(&self) -> (r: &Vec<Word>)
        ensures
            r@ == self.stack(),
    {
        &self.word_stack
    }

    /// Number of letter statistics kept: one per letter and position seen.
    pub fn character_count(&self) -> (r: usize)
        ensures
            r == self.stats().len(),
    {
        self.table.len()
    }

    /// The statistic of letter `c` at `position`, if that pair was seen.
    pub fn get_character(&self, c: char, position: usize) -> (r: Option<Character>)
        requires
            self.wf(),
        ensures
            (c as u32) < 256 && position < 5 ==> match r {
                Some(ch) => has_key(ch, c as u8, position as u8) && self.stats().contains(ch),
                None => !has_stat(self.stats(), c as u8, position as u8),
            },
            (c as u32) >= 256 || position >= 5 ==> r.is_none(),
    {
        if (c as u32) >= 256 || position >= WORD_LENGTH {
            return None;
        }
        self.table.find(c as u8, position as u8)
    }
}

} // verus!
