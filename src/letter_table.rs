//! Positional letter statistics over a corpus of five-letter words, and the
//! mathematical model they are held to: counts, position totals, probabilities
//! and word scores.

use crate::word_analyzer::Character;
use vstd::prelude::*;

verus! {

/// Number of words of `corpus` that hold byte `c` at position `pos`.
pub open spec fn count_at(corpus: Seq<Seq<u8>>, pos: int, c: u8) -> nat
    decreases corpus.len(),
{
    if corpus.len() == 0 {
        0
    } else {
        count_at(corpus.drop_last(), pos, c) + if corpus.last()[pos] == c {
            1nat
        } else {
            0nat
        }
    }
}

/// Sum of `count_at(corpus, pos, b)` over the byte values `b` below `n`.
pub open spec fn partial_position_total(corpus: Seq<Seq<u8>>, pos: int, n: nat) -> nat
    decreases n,
{
    if n == 0 {
        0
    } else {
        partial_position_total(corpus, pos, (n - 1) as nat) + count_at(corpus, pos, (n - 1) as u8)
    }
}

/// The position total: the frequencies of all letters observed at `pos`, summed.
pub open spec fn position_total(corpus: Seq<Seq<u8>>, pos: int) -> nat {
    partial_position_total(corpus, pos, 256)
}

/// Percentage of the position total that letter `c` takes at `pos`, rounded down.
pub open spec fn probability(corpus: Seq<Seq<u8>>, pos: int, c: u8) -> nat {
    if position_total(corpus, pos) == 0 {
        0
    } else {
        count_at(corpus, pos, c) * 100 / position_total(corpus, pos)
    }
}

/// Score of a five-letter word against a corpus, in hundredths: the sum over
/// the positions of the probability of the word's letter there.
pub open spec fn score(corpus: Seq<Seq<u8>>, w: Seq<u8>) -> nat {
    probability(corpus, 0, w[0]) + probability(corpus, 1, w[1]) + probability(corpus, 2, w[2])
        + probability(corpus, 3, w[3]) + probability(corpus, 4, w[4])
}

/// Whether `ch` is the statistic of byte `c` at position `pos`.
pub open spec fn has_key(ch: Character, c: u8, pos: u8) -> bool {
    ch.character == c && ch.position == pos
}

/// No two statistics share a letter and a position.
pub open spec fn keys_unique(stats: Seq<Character>) -> bool {
    forall|i: int, j: int|
        #![trigger stats[i], stats[j]]
        0 <= i < stats.len() && 0 <= j < stats.len() && i != j ==> !has_key(
            stats[i],
            stats[j].character,
            stats[j].position,
        )
}

/// Whether some statistic is kept for `c` at `pos`.
pub open spec fn has_stat(stats: Seq<Character>, c: u8, pos: u8) -> bool {
    exists|k: int| 0 <= k < stats.len() && has_key(#[trigger] stats[k], c, pos)
}

/// The percentage recorded for `c` at `pos`; 0 where none is recorded.
pub open spec fn recorded_percent(stats: Seq<Character>, c: u8, pos: u8) -> nat {
    if has_stat(stats, c, pos) {
        let k = choose|k: int| 0 <= k < stats.len() && has_key(#[trigger] stats[k], c, pos);
        match stats[k].probability {
            Some(p) => p as nat,
            None => 0,
        }
    } else {
        0
    }
}

/// Score of a word from the recorded percentages, in hundredths.
pub open spec fn recorded_score(stats: Seq<Character>, w: Seq<u8>) -> nat {
    recorded_percent(stats, w[0], 0) + recorded_percent(stats, w[1], 1) + recorded_percent(
        stats,
        w[2],
        2,
    ) + recorded_percent(stats, w[3], 3) + recorded_percent(stats, w[4], 4)
}

/// The statistics count `corpus` exactly: one per observed letter and
/// position, each with its frequency.
pub open spec fn counts_corpus(stats: Seq<Character>, corpus: Seq<Seq<u8>>) -> bool {
    &&& keys_unique(stats)
    &&& forall|k: int|
        #![trigger stats[k]]
        0 <= k < stats.len() ==> {
            &&& stats[k].position < 5
            &&& stats[k].frequency == count_at(corpus, stats[k].position as int, stats[k].character)
            &&& stats[k].frequency > 0
        }
    &&& forall|pos: int, c: u8|
        0 <= pos < 5 && #[trigger] count_at(corpus, pos, c) > 0 ==> has_stat(stats, c, pos as u8)
}

/// Every recorded percentage is at most 100.
pub open spec fn percents_bounded(stats: Seq<Character>) -> bool {
    forall|k: int|
        0 <= k < stats.len() ==> match #[trigger] stats[k].probability {
            Some(p) => p <= 100,
            None => true,
        }
}

/// Every statistic holds the probability of its letter and position.
pub open spec fn probabilities_current(stats: Seq<Character>, corpus: Seq<Seq<u8>>) -> bool {
    forall|k: int|
        0 <= k < stats.len() ==> #[trigger] stats[k].probability == Some(
            probability(corpus, stats[k].position as int, stats[k].character) as u32,
        )
}

/// No statistic holds a probability.
pub open spec fn probabilities_cleared(stats: Seq<Character>) -> bool {
    forall|k: int| 0 <= k < stats.len() ==> (#[trigger] stats[k].probability).is_none()
}

/// The statistics with each probability computed against `corpus`.
pub open spec fn with_probabilities(stats: Seq<Character>, corpus: Seq<Seq<u8>>) -> Seq<
    Character,
> {
    Seq::new(
        stats.len(),
        |k: int|
            Character {
                probability: Some(
                    probability(corpus, stats[k].position as int, stats[k].character) as u32,
                ),
                ..stats[k]
            },
    )
}

/// The statistics with every probability removed.
pub open spec fn without_probabilities(stats: Seq<Character>) -> Seq<Character> {
    Seq::new(stats.len(), |k: int| Character { probability: None, ..stats[k] })
}

/// Adding a word to the corpus adds one to the count of its letter at `pos`.
pub proof fn lemma_count_push(corpus: Seq<Seq<u8>>, w: Seq<u8>, pos: int, c: u8)
    ensures
        count_at(corpus.push(w), pos, c) == count_at(corpus, pos, c) + if w[pos] == c {
            1nat
        } else {
            0nat
        },
{
    assert(corpus.push(w).drop_last() =~= corpus);
}

/// A count never exceeds the number of words.
pub proof fn lemma_count_le_len(corpus: Seq<Seq<u8>>, pos: int, c: u8)
    ensures
        count_at(corpus, pos, c) <= corpus.len(),
    decreases corpus.len(),
{
    if corpus.len() > 0 {
        lemma_count_le_len(corpus.drop_last(), pos, c);
    }
}

proof fn lemma_partial_push(corpus: Seq<Seq<u8>>, w: Seq<u8>, pos: int, n: nat)
    requires
        n <= 256,
    ensures
        partial_position_total(corpus.push(w), pos, n) == partial_position_total(corpus, pos, n)
            + if (w[pos] as nat) < n {
            1nat
        } else {
            0nat
        },
    decreases n,
{
    if n > 0 {
        lemma_partial_push(corpus, w, pos, (n - 1) as nat);
        lemma_count_push(corpus, w, pos, (n - 1) as u8);
    }
}

proof fn lemma_partial_empty(pos: int, n: nat)
    ensures
        partial_position_total(Seq::<Seq<u8>>::empty(), pos, n) == 0,
    decreases n,
{
    if n > 0 {
        lemma_partial_empty(pos, (n - 1) as nat);
    }
}

/// Each word holds exactly one letter at each position, so every position
/// total is the number of words.
pub proof fn lemma_position_total(corpus: Seq<Seq<u8>>, pos: int)
    ensures
        position_total(corpus, pos) == corpus.len(),
    decreases corpus.len(),
{
    if corpus.len() == 0 {
        lemma_partial_empty(pos, 256);
        assert(corpus =~= Seq::<Seq<u8>>::empty());
    } else {
        let rest = corpus.drop_last();
        lemma_position_total(rest, pos);
        lemma_partial_push(rest, corpus.last(), pos, 256);
        assert(rest.push(corpus.last()) =~= corpus);
    }
}

/// Every probability is a percentage: at most 100.
pub proof fn lemma_probability_le_100(corpus: Seq<Seq<u8>>, pos: int, c: u8)
    ensures
        probability(corpus, pos, c) <= 100,
{
    lemma_position_total(corpus, pos);
    lemma_count_le_len(corpus, pos, c);
    let n = corpus.len();
    if n > 0 {
        let k = count_at(corpus, pos, c);
        assert(k * 100 <= n * 100) by (nonlinear_arith)
            requires
                k <= n,
        ;
        assert(k * 100 / n <= 100) by (nonlinear_arith)
            requires
                k * 100 <= n * 100,
                n > 0,
        ;
    }
}

/// Every score lies between 0 and 500 hundredths.
pub proof fn lemma_score_le_500(corpus: Seq<Seq<u8>>, w: Seq<u8>)
    ensures
        score(corpus, w) <= 500,
{
    lemma_probability_le_100(corpus, 0, w[0]);
    lemma_probability_le_100(corpus, 1, w[1]);
    lemma_probability_le_100(corpus, 2, w[2]);
    lemma_probability_le_100(corpus, 3, w[3]);
    lemma_probability_le_100(corpus, 4, w[4]);
}

/// Where the probabilities are current, the recorded percentages are the
/// probabilities of the model.
pub proof fn lemma_recorded_percent(
    stats: Seq<Character>,
    corpus: Seq<Seq<u8>>,
    c: u8,
    pos: u8,
)
    requires
        counts_corpus(stats, corpus),
        probabilities_current(stats, corpus),
        pos < 5,
    ensures
        recorded_percent(stats, c, pos) == probability(corpus, pos as int, c),
{
    if has_stat(stats, c, pos) {
        let k = choose|k: int| 0 <= k < stats.len() && has_key(#[trigger] stats[k], c, pos);
        lemma_probability_le_100(corpus, pos as int, c);
    } else {
        lemma_position_total(corpus, pos as int);
    }
}

/// Where the probabilities are current, the recorded score is the score of
/// the model.
pub proof fn lemma_recorded_score(stats: Seq<Character>, corpus: Seq<Seq<u8>>, w: Seq<u8>)
    requires
        counts_corpus(stats, corpus),
        probabilities_current(stats, corpus),
    ensures
        recorded_score(stats, w) == score(corpus, w),
{
    lemma_recorded_percent(stats, corpus, w[0], 0);
    lemma_recorded_percent(stats, corpus, w[1], 1);
    lemma_recorded_percent(stats, corpus, w[2], 2);
    lemma_recorded_percent(stats, corpus, w[3], 3);
    lemma_recorded_percent(stats, corpus, w[4], 4);
}

/// The statistics of a corpus: one per letter and position observed, in the
/// order in which the pairs were first seen.
pub struct LetterTable {
    entries: Vec<Character>,
    total_words: u32,
    corpus: Ghost<Seq<Seq<u8>>>,
}

impl LetterTable {
    /// The words counted so far, as bytes, in the order they were counted.
    pub closed spec fn corpus(&self) -> Seq<Seq<u8>> {
        self.corpus@
    }

    /// The statistics kept.
    pub closed spec fn stats(&self) -> Seq<Character> {
        self.entries@
    }

    /// The word counter agrees with the corpus.
    pub closed spec fn total_ok(&self) -> bool {
        self.total_words == self.corpus@.len()
    }

    pub open spec fn wf(&self) -> bool {
        &&& self.total_ok()
        &&& counts_corpus(self.stats(), self.corpus())
        &&& percents_bounded(self.stats())
    }

    pub fn new() -> (r: Self)
        ensures
            r.wf(),
            r.corpus() == Seq::<Seq<u8>>::empty(),
            r.stats() == Seq::<Character>::empty(),
    {
        LetterTable { entries: Vec::new(), total_words: 0, corpus: Ghost(Seq::empty()) }
    }

    /// Number of words counted.
    pub fn total_words(&self) -> (r: u32)
        requires
            self.wf(),
        ensures
            r == self.corpus().len(),
    {
        self.total_words
    }

    /// Number of statistics kept.
    pub fn len(&self) -> (r: usize)
        ensures
            r == self.stats().len(),
    {
        self.entries.len()
    }

    fn find_index(&self, c: u8, pos: u8) -> (r: Option<usize>)
        ensures
            match r {
                Some(k) => k < self.stats().len() && has_key(self.stats()[k as int], c, pos),
                None => !has_stat(self.stats(), c, pos),
            },
    {
        let mut k: usize = 0;
        while k < self.entries.len()
            invariant
                k <= self.entries@.len(),
                forall|j: int| 0 <= j < k ==> !has_key(#[trigger] self.entries@[j], c, pos),
            decreases self.entries@.len() - k,
        {
            if self.entries[k].character == c && self.entries[k].position == pos {
                return Some(k);
            }
            k += 1;
        }
        None
    }

    /// The statistic kept for `c` at `pos`, if any.
    pub fn find(&self, c: u8, pos: u8) -> (r: Option<Character>)
        ensures
            match r {
                Some(ch) => has_key(ch, c, pos) && self.stats().contains(ch),
                None => !has_stat(self.stats(), c, pos),
            },
    {
        match self.find_index(c, pos) {
            Some(k) => Some(self.entries[k]),
            None => None,
        }
    }

    /// Counts one more word. Statistics already kept keep their place and
    /// probability; those of pairs seen for the first time come last, with
    /// no probability.
    pub fn record(&mut self, w: [u8; 5])
        requires
            old(self).wf(),
            old(self).corpus().len() < u32::MAX,
        ensures
            final(self).wf(),
            final(self).corpus() == old(self).corpus().push(w@),
            final(self).stats().len() >= old(self).stats().len(),
            forall|k: int|
                0 <= k < old(self).stats().len() ==> #[trigger] final(self).stats()[k] == (
                Character { frequency: final(self).stats()[k].frequency, ..old(self).stats()[k] }),
            forall|k: int|
                old(self).stats().len() <= k < final(self).stats().len() ==> (
                #[trigger] final(self).stats()[k]).probability.is_none(),
    {
        let ghost old_corpus = self.corpus@;
        let ghost old_entries = self.entries@;
        let ghost new_corpus = old_corpus.push(w@);
        let mut i: usize = 0;
        while i < 5
            invariant
                i <= 5,
                old_corpus.len() < u32::MAX,
                self.total_words == old_corpus.len(),
                self.corpus@ == old_corpus,
                keys_unique(self.entries@),
                percents_bounded(self.entries@),
                self.entries@.len() >= old_entries.len(),
                forall|k: int|
                    0 <= k < old_entries.len() ==> #[trigger] self.entries@[k] == (Character {
                        frequency: self.entries@[k].frequency,
                        ..old_entries[k]
                    }),
                forall|k: int|
                    old_entries.len() <= k < self.entries@.len() ==> (
                    #[trigger] self.entries@[k]).probability.is_none(),
                forall|k: int|
                    #![trigger self.entries@[k]]
                    0 <= k < self.entries@.len() ==> {
                        &&& self.entries@[k].position < 5
                        &&& self.entries@[k].frequency == count_at(
                            old_corpus,
                            self.entries@[k].position as int,
                            self.entries@[k].character,
                        ) + if (self.entries@[k].position as int) < i && w@[
                            self.entries@[k].position as int] == self.entries@[k].character {
                            1nat
                        } else {
                            0nat
                        }
                        &&& self.entries@[k].frequency > 0
                    },
                forall|pos: int, c: u8|
                    0 <= pos < 5 && (#[trigger] count_at(old_corpus, pos, c) > 0 || (pos < i
                        && w@[pos] == c)) ==> has_stat(self.entries@, c, pos as u8),
            decreases 5 - i,
        {
            let c = w[i];
            let ghost before = self.entries@;
            match self.find_index(c, i as u8) {
                Some(k) => {
                    let mut e = self.entries[k];
                    proof {
                        lemma_count_le_len(old_corpus, i as int, c);
                    }
                    e.increment_frequency();
                    self.entries.set(k, e);
                    assert forall|pos: int, c2: u8|
                        0 <= pos < 5 && (#[trigger] count_at(old_corpus, pos, c2) > 0 || (pos < i
                            + 1 && w@[pos] == c2)) implies has_stat(
                        self.entries@,
                        c2,
                        pos as u8,
                    ) by {
                        if pos == i && w@[pos] == c2 {
                            assert(has_key(self.entries@[k as int], c2, pos as u8));
                        } else {
                            let j = choose|j: int|
                                0 <= j < before.len() && has_key(
                                    #[trigger] before[j],
                                    c2,
                                    pos as u8,
                                );
                            assert(has_key(self.entries@[j], c2, pos as u8));
                        }
                    }
                },
                None => {
                    self.entries.push(Character::new(c, i as u8, None, 1));
                    let ghost last = (self.entries@.len() - 1) as int;
                    assert forall|pos: int, c2: u8|
                        0 <= pos < 5 && (#[trigger] count_at(old_corpus, pos, c2) > 0 || (pos < i
                            + 1 && w@[pos] == c2)) implies has_stat(
                        self.entries@,
                        c2,
                        pos as u8,
                    ) by {
                        if pos == i && w@[pos] == c2 {
                            assert(has_key(self.entries@[last], c2, pos as u8));
                        } else {
                            let j = choose|j: int|
                                0 <= j < before.len() && has_key(
                                    #[trigger] before[j],
                                    c2,
                                    pos as u8,
                                );
                            assert(has_key(self.entries@[j], c2, pos as u8));
                        }
                    }
                },
            }
            i += 1;
        }
        self.total_words = self.total_words + 1;
        self.corpus = Ghost(new_corpus);
        assert forall|pos: int, c: u8|
            0 <= pos < 5 implies #[trigger] count_at(new_corpus, pos, c) == count_at(old_corpus, pos, c) + if w@[pos] == c {
                1nat
            } else {
                0nat
            } by {
            lemma_count_push(old_corpus, w@, pos, c);
        }
    }

    /// Removes every probability.
    pub fn clear_probabilities(&mut self)
        requires
            old(self).wf(),
        ensures
            final(self).wf(),
            final(self).corpus() == old(self).corpus(),
            final(self).stats() == without_probabilities(old(self).stats()),
    {
        let ghost old_entries = self.entries@;
        let mut k: usize = 0;
        while k < self.entries.len()
            invariant
                self.total_words == self.corpus@.len(),
                self.corpus@ == old(self).corpus@,
                k <= self.entries@.len(),
                self.entries@.len() == old_entries.len(),
                forall|j: int|
                    0 <= j < old_entries.len() ==> #[trigger] self.entries@[j] == if j < k {
                        Character { probability: None, ..old_entries[j] }
                    } else {
                        old_entries[j]
                    },
            decreases self.entries@.len() - k,
        {
            let mut e = self.entries[k];
            e.probability = None;
            self.entries.set(k, e);
            k += 1;
        }
        assert(self.entries@ =~= without_probabilities(old_entries));
        assert forall|pos: int, c: u8|
            0 <= pos < 5 && #[trigger] count_at(self.corpus@, pos, c) > 0 implies has_stat(
            self.entries@,
            c,
            pos as u8,
        ) by {
            let j = choose|j: int|
                0 <= j < old_entries.len() && has_key(#[trigger] old_entries[j], c, pos as u8);
            assert(has_key(self.entries@[j], c, pos as u8));
        }
    }

    /// Sets every probability from the counts of the corpus.
    pub fn compute_probabilities(&mut self)
        requires
            old(self).wf(),
        ensures
            final(self).wf(),
            final(self).corpus() == old(self).corpus(),
            final(self).stats() == with_probabilities(old(self).stats(), old(self).corpus()),
    {
        let ghost old_entries = self.entries@;
        let ghost corpus = self.corpus@;
        let total = self.total_words;
        let mut k: usize = 0;
        while k < self.entries.len()
            invariant
                self.total_words == corpus.len(),
                total == corpus.len(),
                self.corpus@ == corpus,
                counts_corpus(old_entries, corpus),
                k <= self.entries@.len(),
                self.entries@.len() == old_entries.len(),
                forall|j: int|
                    0 <= j < old_entries.len() ==> #[trigger] self.entries@[j] == if j < k {
                        Character {
                            probability: Some(
                                probability(
                                    corpus,
                                    old_entries[j].position as int,
                                    old_entries[j].character,
                                ) as u32,
                            ),
                            ..old_entries[j]
                        }
                    } else {
                        old_entries[j]
                    },
            decreases self.entries@.len() - k,
        {
            let mut e = self.entries[k];
            proof {
                let pos = e.position as int;
                lemma_count_le_len(corpus, pos, e.character);
                lemma_position_total(corpus, pos);
                lemma_probability_le_100(corpus, pos, e.character);
                let f = e.frequency as int;
                let n = total as int;
                assert(f * 100 <= n * 100) by (nonlinear_arith)
                    requires
                        f <= n,
                ;
                assert(f * 100 / n <= 100) by (nonlinear_arith)
                    requires
                        f * 100 <= n * 100,
                        n > 0,
                ;
            }
            e.update_probability(total);
            self.entries.set(k, e);
            k += 1;
        }
        assert(self.entries@ =~= with_probabilities(old_entries, corpus));
        assert forall|j: int| 0 <= j < self.entries@.len() implies match #[trigger] self.entries@[
            j].probability {
            Some(p) => p <= 100,
            None => true,
        } by {
            lemma_probability_le_100(corpus, old_entries[j].position as int, old_entries[j].character);
        }
        assert forall|pos: int, c: u8|
            0 <= pos < 5 && #[trigger] count_at(self.corpus@, pos, c) > 0 implies has_stat(
            self.entries@,
            c,
            pos as u8,
        ) by {
            let j = choose|j: int|
                0 <= j < old_entries.len() && has_key(#[trigger] old_entries[j], c, pos as u8);
            assert(has_key(self.entries@[j], c, pos as u8));
        }
    }

    /// The percentage recorded for `c` at `pos`; 0 where none is.
    pub fn recorded(&self, c: u8, pos: u8) -> (r: u32)
        requires
            self.wf(),
        ensures
            r == recorded_percent(self.stats(), c, pos),
            r <= 100,
    {
        match self.find_index(c, pos) {
            Some(k) => {
                let ghost j = choose|j: int|
                    0 <= j < self.entries@.len() && has_key(#[trigger] self.entries@[j], c, pos);
                assert(j == k as int);
                match self.entries[k].probability {
                    Some(p) => p,
                    None => 0,
                }
            },
            None => 0,
        }
    }

    /// Score of `w` from the recorded percentages, in hundredths.
    pub fn word_percent(&self, w: &[u8; 5]) -> (r: u32)
        requires
            self.wf(),
        ensures
            r == recorded_score(self.stats(), w@),
            r <= 500,
    {
        let at0 = self.recorded(w[0], 0);
        let at1 = self.recorded(w[1], 1);
        let at2 = self.recorded(w[2], 2);
        let at3 = self.recorded(w[3], 3);
        let at4 = self.recorded(w[4], 4);
        at0 + at1 + at2 + at3 + at4
    }
}

} // verus!
