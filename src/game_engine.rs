//! The constraint engine: decodes player feedback into constraints on the
//! answer and picks the next guess among the words that satisfy them.

use crate::error::RecoverableError;
use crate::filter_logic::{filter_potential_words, filtered};
use crate::input::{check_input, is_feedback};
use crate::letter_table::score;
use crate::text::{chars_of, push_char};
use crate::word_analyzer::{
    first_best, is_valid_word, lemma_best_index_first_best, letters_of, scored, WordAnalyzer,
};
use vstd::prelude::*;

verus! {

/// The value of a slot of `resolved` whose letter is not known yet.
pub const UNKNOWN: char = '_';

/// What the feedback so far says of the answer.
#[derive(Debug)]
pub struct FeedbackState {
    /// The letter known at each position, `UNKNOWN` where none is.
    pub resolved: [char; 5],
    /// Letters known not to stand at a position.
    pub forbidden_positions: Vec<(char, usize)>,
    /// Letters known to occur somewhere in the answer.
    pub required_characters: Vec<char>,
    /// Letters known not to occur in the answer.
    pub excluded_characters: Vec<char>,
}

/// The resolved slots once the correct symbols of feedback `f` on guess `g`
/// are taken in.
pub open spec fn resolved_after(resolved: Seq<char>, g: Seq<char>, f: Seq<char>) -> Seq<char> {
    Seq::new(5, |i: int| if f[i] == 'g' { g[i] } else { resolved[i] })
}

/// `c` is marked present at one of the first `n` positions.
pub open spec fn present_before(g: Seq<char>, f: Seq<char>, c: char, n: int) -> bool {
    exists|j: int| 0 <= j < n && f[j] == 'y' && #[trigger] g[j] == c
}

/// `c` is marked present somewhere in the round.
pub open spec fn marked_present(g: Seq<char>, f: Seq<char>, c: char) -> bool {
    present_before(g, f, c, 5)
}

/// `c` is marked absent at one of the first `n` positions.
pub open spec fn absent_before(g: Seq<char>, f: Seq<char>, c: char, n: int) -> bool {
    exists|j: int| 0 <= j < n && f[j] == 'n' && #[trigger] g[j] == c
}

/// `c` is marked absent somewhere in the round.
pub open spec fn marked_absent(g: Seq<char>, f: Seq<char>, c: char) -> bool {
    absent_before(g, f, c, 5)
}

/// After the first pass of a round, `c` is known to be in the answer:
/// resolved in some slot, or required.
pub open spec fn known_present(
    resolved: Seq<char>,
    required: Seq<char>,
    g: Seq<char>,
    f: Seq<char>,
    c: char,
) -> bool {
    resolved_after(resolved, g, f).contains(c) || required.contains(c) || marked_present(g, f, c)
}

/// The first pass of a round: correct symbols resolve their slot; present
/// symbols forbid their letter at that position and require it.
pub open spec fn first_pass_applied(
    old: FeedbackState,
    new: FeedbackState,
    g: Seq<char>,
    f: Seq<char>,
) -> bool {
    &&& new.resolved@ == resolved_after(old.resolved@, g, f)
    &&& forall|c: char|
        #[trigger] new.required_characters@.contains(c) <==> old.required_characters@.contains(c)
            || marked_present(g, f, c)
    &&& forall|c: char, i: usize|
        #[trigger] new.forbidden_positions@.contains((c, i)) <==> old.forbidden_positions@.contains(
            (c, i),
        ) || (i < 5 && g[i as int] == c && f[i as int] == 'y')
    &&& new.excluded_characters@ == old.excluded_characters@
}

/// The second pass of a round: a letter marked absent is forbidden at that
/// position where it is known to be in the answer, and excluded otherwise.
pub open spec fn second_pass_applied(
    old: FeedbackState,
    new: FeedbackState,
    g: Seq<char>,
    f: Seq<char>,
) -> bool {
    &&& new.resolved == old.resolved
    &&& new.required_characters@ == old.required_characters@
    &&& forall|c: char, i: usize|
        #[trigger] new.forbidden_positions@.contains((c, i)) <==> old.forbidden_positions@.contains(
            (c, i),
        ) || (i < 5 && g[i as int] == c && f[i as int] == 'n' && (old.resolved@.contains(c)
            || old.required_characters@.contains(c)))
    &&& forall|c: char|
        #[trigger] new.excluded_characters@.contains(c) <==> old.excluded_characters@.contains(c)
            || (marked_absent(g, f, c) && !old.resolved@.contains(c)
            && !old.required_characters@.contains(c))
}

/// One round of feedback `f` on guess `g` took the state `old` to `new`.
pub open spec fn round_applied(
    old: FeedbackState,
    new: FeedbackState,
    g: Seq<char>,
    f: Seq<char>,
) -> bool {
    let known = |c: char| known_present(old.resolved@, old.required_characters@, g, f, c);
    &&& new.resolved@ == resolved_after(old.resolved@, g, f)
    &&& forall|c: char|
        #[trigger] new.required_characters@.contains(c) <==> old.required_characters@.contains(c)
            || marked_present(g, f, c)
    &&& forall|c: char, i: usize|
        #[trigger] new.forbidden_positions@.contains((c, i)) <==> old.forbidden_positions@.contains(
            (c, i),
        ) || (i < 5 && g[i as int] == c && (f[i as int] == 'y' || (f[i as int] == 'n' && known(
            c,
        ))))
    &&& forall|c: char|
        #[trigger] new.excluded_characters@.contains(c) <==> old.excluded_characters@.contains(c)
            || (marked_absent(g, f, c) && !known(c))
}

/// No slot of `resolved` is unknown.
pub open spec fn all_resolved(resolved: Seq<char>) -> bool {
    forall|i: int| 0 <= i < resolved.len() ==> #[trigger] resolved[i] != UNKNOWN
}

fn insert_char(v: &mut Vec<char>, c: char)
    ensures
        forall|x: char| #[trigger] final(v)@.contains(x) <==> old(v)@.contains(x) || x == c,
{
    let ghost before = v@;
    if !crate::text::contains_char(v, c) {
        v.push(c);
        assert(v@[v@.len() - 1] == c);
        assert forall|x: char| #[trigger] v@.contains(x) <==> before.contains(x) || x == c by {
            if v@.contains(x) && x != c {
                let k = choose|k: int| 0 <= k < v@.len() && v@[k] == x;
                assert(before[k] == x);
            }
            if before.contains(x) {
                let k = choose|k: int| 0 <= k < before.len() && before[k] == x;
                assert(v@[k] == x);
            }
        }
    }
}

fn insert_pair(v: &mut Vec<(char, usize)>, c: char, i: usize)
    ensures
        forall|x: (char, usize)| #[trigger] final(v)@.contains(x) <==> old(v)@.contains(x) || x
            == (c, i),
{
    let ghost before = v@;
    let mut k: usize = 0;
    while k < v.len()
        invariant
            v@ == before,
            k <= v@.len(),
            forall|j: int| 0 <= j < k ==> v@[j] != (c, i),
        decreases v@.len() - k,
    {
        if v[k].0 == c && v[k].1 == i {
            assert(v@[k as int] == (c, i));
            return;
        }
        k += 1;
    }
    v.push((c, i));
    assert(v@[v@.len() - 1] == (c, i));
    assert forall|x: (char, usize)| #[trigger] v@.contains(x) <==> before.contains(x) || x == (
        c,
        i,
    ) by {
        if v@.contains(x) && x != (c, i) {
            let j = choose|j: int| 0 <= j < v@.len() && v@[j] == x;
            assert(before[j] == x);
        }
        if before.contains(x) {
            let j = choose|j: int| 0 <= j < before.len() && before[j] == x;
            assert(v@[j] == x);
        }
    }
}

fn array_contains(a: &[char; 5], c: char) -> (r: bool)
    ensures
        r == a@.contains(c),
{
    let mut k: usize = 0;
    while k < 5
        invariant
            k <= 5,
            forall|j: int| 0 <= j < k ==> a@[j] != c,
        decreases 5 - k,
    {
        if a[k] == c {
            assert(a@[k as int] == c);
            return true;
        }
        k += 1;
    }
    false
}

fn is_marked_present(g: &Vec<char>, f: &Vec<char>, c: char) -> (r: bool)
    requires
        g@.len() >= 5,
        f@.len() == 5,
    ensures
        r == marked_present(g@, f@, c),
{
    let mut k: usize = 0;
    while k < 5
        invariant
            k <= 5,
            g@.len() >= 5,
            f@.len() == 5,
            !present_before(g@, f@, c, k as int),
        decreases 5 - k,
    {
        if f[k] == 'y' && g[k] == c {
            return true;
        }
        k += 1;
    }
    false
}

impl FeedbackState {
    /// Nothing is known: every slot unknown and every set empty.
    pub open spec fn is_fresh(&self) -> bool {
        &&& self.resolved@ == seq![UNKNOWN, UNKNOWN, UNKNOWN, UNKNOWN, UNKNOWN]
        &&& self.forbidden_positions@ == Seq::<(char, usize)>::empty()
        &&& self.required_characters@ == Seq::<char>::empty()
        &&& self.excluded_characters@ == Seq::<char>::empty()
    }

    /// Nothing known: every slot unknown and every set empty.
    pub fn new() -> (r: Self)
        ensures
            r.is_fresh(),
            r.resolved@ == seq![UNKNOWN, UNKNOWN, UNKNOWN, UNKNOWN, UNKNOWN],
            r.forbidden_positions@ == Seq::<(char, usize)>::empty(),
            r.required_characters@ == Seq::<char>::empty(),
            r.excluded_characters@ == Seq::<char>::empty(),
    {
        let r = FeedbackState {
            resolved: [UNKNOWN; 5],
            forbidden_positions: Vec::new(),
            required_characters: Vec::new(),
            excluded_characters: Vec::new(),
        };
        assert(r.resolved@ =~= seq![UNKNOWN, UNKNOWN, UNKNOWN, UNKNOWN, UNKNOWN]);
        r
    }

    /// First pass of a round: classifies each position of feedback `input`
    /// on `guess`. Returns the letters marked absent and not marked present
    /// in this round.
    pub fn process_input_characters(&mut self, guess: &Vec<char>, input: &Vec<char>) -> (r: Vec<
        char,
    >)
        requires
            guess@.len() >= 5,
            is_feedback(input@),
        ensures
            first_pass_applied(*old(self), *final(self), guess@, input@),
            forall|c: char| #[trigger]
                r@.contains(c) <==> marked_absent(guess@, input@, c) && !marked_present(
                    guess@,
                    input@,
                    c,
                ),
    {
        let ghost old_state = *self;
        let ghost g = guess@;
        let ghost f = input@;
        let mut i: usize = 0;
        while i < 5
            invariant
                i <= 5,
                g == guess@,
                f == input@,
                g.len() >= 5,
                is_feedback(f),
                self.resolved@ == Seq::new(
                    5,
                    |j: int|
                        if j < i && f[j] == 'g' {
                            g[j]
                        } else {
                            old_state.resolved@[j]
                        },
                ),
                forall|c: char|
                    #[trigger] self.required_characters@.contains(c)
                        <==> old_state.required_characters@.contains(c) || present_before(
                        g,
                        f,
                        c,
                        i as int,
                    ),
                forall|c: char, k: usize|
                    #[trigger] self.forbidden_positions@.contains((c, k))
                        <==> old_state.forbidden_positions@.contains((c, k)) || (k < i && g[k as int]
                        == c && f[k as int] == 'y'),
                self.excluded_characters@ == old_state.excluded_characters@,
            decreases 5 - i,
        {
            let c = guess[i];
            let symbol = input[i];
            if symbol == 'g' {
                self.resolved[i] = c;
            } else if symbol == 'y' {
                insert_pair(&mut self.forbidden_positions, c, i);
                insert_char(&mut self.required_characters, c);
            }
            assert forall|c2: char| #[trigger] present_before(g, f, c2, i + 1) <==> present_before(
                g,
                f,
                c2,
                i as int,
            ) || (f[i as int] == 'y' && g[i as int] == c2) by {
                if present_before(g, f, c2, i + 1) && !(f[i as int] == 'y' && g[i as int] == c2) {
                    let j = choose|j: int| 0 <= j < i + 1 && f[j] == 'y' && #[trigger] g[j] == c2;
                    assert(j < i);
                }
            }
            i += 1;
        }
        assert(self.resolved@ =~= resolved_after(old_state.resolved@, g, f));
        let mut tentative: Vec<char> = Vec::new();
        let mut k: usize = 0;
        while k < 5
            invariant
                k <= 5,
                g == guess@,
                f == input@,
                g.len() >= 5,
                f.len() == 5,
                forall|c: char| #[trigger]
                    tentative@.contains(c) <==> absent_before(g, f, c, k as int) && !marked_present(
                        g,
                        f,
                        c,
                    ),
            decreases 5 - k,
        {
            let c = guess[k];
            if input[k] == 'n' && !is_marked_present(guess, input, c) {
                insert_char(&mut tentative, c);
            }
            assert forall|c2: char|
                #[trigger] absent_before(g, f, c2, k + 1) <==> absent_before(g, f, c2, k as int) || (
                f[k as int] == 'n' && g[k as int] == c2) by {
                if absent_before(g, f, c2, k + 1) && !(f[k as int] == 'n' && g[k as int] == c2) {
                    let j = choose|j: int| 0 <= j < k + 1 && f[j] == 'n' && #[trigger] g[j] == c2;
                    assert(j < k);
                }
            }
            k += 1;
        }
        tentative
    }

    /// Second pass of a round: each letter marked absent is forbidden at its
    /// position where it is already resolved or required, and excluded
    /// from the answer otherwise.
    pub fn reconcile(&mut self, guess: &Vec<char>, input: &Vec<char>)
        requires
            guess@.len() >= 5,
            is_feedback(input@),
        ensures
            second_pass_applied(*old(self), *final(self), guess@, input@),
    {
        let ghost old_state = *self;
        let ghost g = guess@;
        let ghost f = input@;
        let mut i: usize = 0;
        while i < 5
            invariant
                i <= 5,
                g == guess@,
                f == input@,
                g.len() >= 5,
                f.len() == 5,
                self.resolved == old_state.resolved,
                self.required_characters@ == old_state.required_characters@,
                forall|c: char, k: usize|
                    #[trigger] self.forbidden_positions@.contains((c, k))
                        <==> old_state.forbidden_positions@.contains((c, k)) || (k < i && g[k as int]
                        == c && f[k as int] == 'n' && (old_state.resolved@.contains(c)
                        || old_state.required_characters@.contains(c))),
                forall|c: char| #[trigger]
                    self.excluded_characters@.contains(c) <==> old_state.excluded_characters@.contains(
                        c,
                    ) || (absent_before(g, f, c, i as int)
                        && !old_state.resolved@.contains(c)
                        && !old_state.required_characters@.contains(c)),
            decreases 5 - i,
        {
            let c = guess[i];
            if input[i] == 'n' {
                if array_contains(&self.resolved, c) || crate::text::contains_char(
                    &self.required_characters,
                    c,
                ) {
                    insert_pair(&mut self.forbidden_positions, c, i);
                } else {
                    insert_char(&mut self.excluded_characters, c);
                }
            }
            assert forall|c2: char|
                #[trigger] absent_before(g, f, c2, i + 1) <==> absent_before(g, f, c2, i as int) || (
                f[i as int] == 'n' && g[i as int] == c2) by {
                if absent_before(g, f, c2, i + 1) && !(f[i as int] == 'n' && g[i as int] == c2) {
                    let j = choose|j: int| 0 <= j < i + 1 && f[j] == 'n' && #[trigger] g[j] == c2;
                    assert(j < i);
                }
            }
            i += 1;
        }
    }

    /// Takes in one round of feedback `input` on `guess`: the first pass,
    /// then the second.
    pub fn apply_feedback(&mut self, guess: &Vec<char>, input: &Vec<char>)
        requires
            guess@.len() >= 5,
            is_feedback(input@),
        ensures
            round_applied(*old(self), *final(self), guess@, input@),
    {
        let ghost old_state = *self;
        let _ = self.process_input_characters(guess, input);
        let ghost mid = *self;
        self.reconcile(guess, input);
        proof {
            let g = guess@;
            let f = input@;
            assert forall|c: char|
                mid.resolved@.contains(c) || mid.required_characters@.contains(c) <==> known_present(
                    old_state.resolved@,
                    old_state.required_characters@,
                    g,
                    f,
                    c,
                ) by {
                assert(mid.required_characters@.contains(c) <==> old_state.required_characters@.contains(c)
                    || marked_present(g, f, c));
            }
        }
    }

    /// Whether every slot is resolved.
    pub fn has_won(&self) -> (r: bool)
        ensures
            r == all_resolved(self.resolved@),
    {
        !array_contains(&self.resolved, UNKNOWN)
    }

    /// The resolved slots as a string, `UNKNOWN` where a letter is not known.
    pub fn pattern(&self) -> (r: String)
        ensures
            r@ == self.resolved@,
    {
        let mut r = String::new();
        let mut i: usize = 0;
        while i < 5
            invariant
                i <= 5,
                r@ == self.resolved@.subrange(0, i as int),
            decreases 5 - i,
        {
            push_char(&mut r, self.resolved[i]);
            i += 1;
        }
        assert(self.resolved@.subrange(0, 5) =~= self.resolved@);
        r
    }
}

/// A letter marked absent at a position and, in the same round, present at
/// another or correct elsewhere is not excluded from the answer (unless it
/// already was) and is forbidden at the position where it was marked absent.
pub proof fn lemma_repeated_letter_not_excluded(
    old: FeedbackState,
    new: FeedbackState,
    g: Seq<char>,
    f: Seq<char>,
    i: int,
    j: int,
)
    requires
        round_applied(old, new, g, f),
        g.len() >= 5,
        is_feedback(f),
        0 <= i < 5,
        0 <= j < 5,
        f[i] == 'n',
        f[j] == 'y' || f[j] == 'g',
        g[j] == g[i],
        !old.excluded_characters@.contains(g[i]),
    ensures
        !new.excluded_characters@.contains(g[i]),
        new.forbidden_positions@.contains((g[i], i as usize)),
{
    let c = g[i];
    if f[j] == 'y' {
        assert(present_before(g, f, c, 5));
    } else {
        assert(resolved_after(old.resolved@, g, f)[j] == c);
    }
    assert(known_present(old.resolved@, old.required_characters@, g, f, c));
    assert(new.forbidden_positions@.contains((c, i as usize)));
}

/// A round in which every symbol is correct, on a guess of letters, wins.
pub proof fn lemma_all_correct_wins(old: FeedbackState, new: FeedbackState, g: Seq<char>, f: Seq<char>)
    requires
        round_applied(old, new, g, f),
        g.len() >= 5,
        f.len() == 5,
        forall|i: int| 0 <= i < 5 ==> #[trigger] f[i] == 'g',
        forall|i: int| 0 <= i < 5 ==> #[trigger] g[i] != UNKNOWN,
    ensures
        all_resolved(new.resolved@),
        new.resolved@ == g.subrange(0, 5),
{
    assert(new.resolved@ =~= g.subrange(0, 5));
}

/// The words of `words` that the frequency model accepts, as characters,
/// in their order.
pub open spec fn candidates(words: Seq<String>) -> Seq<Seq<char>>
    decreases words.len(),
{
    if words.len() == 0 {
        Seq::empty()
    } else {
        let rest = candidates(words.drop_last());
        if is_valid_word(words.last()@) {
            rest.push(words.last()@)
        } else {
            rest
        }
    }
}

/// The bytes of each word.
pub open spec fn letters_all(cs: Seq<Seq<char>>) -> Seq<Seq<u8>> {
    cs.map_values(|s: Seq<char>| letters_of(s))
}

/// The next guess drawn from `pool`: among the words that survive the
/// constraints of `state` and are five ASCII letters, the first with the
/// highest score against all of them; `None` where there is none.
pub open spec fn chosen_guess(state: FeedbackState, current: Seq<char>, pool: Seq<String>) -> Option<
    Seq<char>,
> {
    let cands = candidates(
        filtered(
            pool,
            state.forbidden_positions@,
            state.excluded_characters@,
            current,
            state.required_characters@,
        ),
    );
    if cands.len() == 0 {
        None
    } else {
        let ls = letters_all(cands);
        Some(cands[first_best(ls, ls)])
    }
}

proof fn lemma_candidates_len(words: Seq<String>)
    ensures
        candidates(words).len() <= words.len(),
    decreases words.len(),
{
    if words.len() > 0 {
        lemma_candidates_len(words.drop_last());
    }
}

/// Picks the next guess from `possible_words`: filters them through the
/// constraints of `state`, ranks the survivors with a frequency model built
/// from them alone, and takes the best.
pub fn pick_guess(state: &FeedbackState, current: &str, possible_words: Vec<String>) -> (r: Option<
    String,
>)
    requires
        possible_words@.len() < u32::MAX,
    ensures
        match chosen_guess(*state, current@, possible_words@) {
            None => r.is_none(),
            Some(w) => match r {
                Some(s) => s@ == w,
                None => false,
            },
        },
{
    let ghost pool = possible_words@;
    let survivors = filter_potential_words(
        possible_words,
        &state.forbidden_positions,
        &state.excluded_characters,
        current,
        &state.required_characters,
    );
    proof {
        crate::filter_logic::lemma_filtered_len(
            pool,
            state.forbidden_positions@,
            state.excluded_characters@,
            current@,
            state.required_characters@,
        );
    }
    let mut analyzer = WordAnalyzer::new();
    let mut i: usize = 0;
    while i < survivors.len()
        invariant
            i <= survivors@.len(),
            survivors@.len() < u32::MAX,
            analyzer.wf(),
            analyzer.corpus() == letters_all(candidates(survivors@.subrange(0, i as int))),
            analyzer.stack().len() == analyzer.corpus().len(),
            forall|j: int|
                0 <= j < analyzer.stack().len() ==> (#[trigger] analyzer.stack()[j]).letters()
                    == analyzer.corpus()[j],
        decreases survivors@.len() - i,
    {
        let ghost before = analyzer.stack();
        let ghost prev = candidates(survivors@.subrange(0, i as int));
        proof {
            lemma_candidates_len(survivors@.subrange(0, i as int));
            assert(survivors@.subrange(0, i + 1).drop_last() =~= survivors@.subrange(
                0,
                i as int,
            ));
        }
        let outcome = analyzer.analyze_word(survivors[i].as_str());
        proof {
            let next = candidates(survivors@.subrange(0, i + 1));
            if outcome.is_ok() {
                assert(next == prev.push(survivors@[i as int]@));
                assert(letters_all(next) =~= letters_all(prev).push(
                    letters_of(survivors@[i as int]@),
                ));
                assert forall|j: int|
                    0 <= j < analyzer.stack().len() implies (#[trigger] analyzer.stack()[
                    j]).letters() == analyzer.corpus()[j] by {
                    if j < before.len() {
                        assert(analyzer.stack()[j] == before[j]);
                    } else {
                        let w = analyzer.stack()[j];
                        assert(w.letters() =~= letters_of(survivors@[i as int]@));
                    }
                }
            } else {
                assert(next == prev);
            }
        }
        i += 1;
    }
    assert(survivors@.subrange(0, i as int) =~= survivors@);
    let ghost corpus = analyzer.corpus();
    let ghost cands = candidates(survivors@);
    let ghost stack0 = analyzer.stack();
    analyzer.finalize_probabilities();
    match analyzer.get_most_probable_word() {
        Some(best) => {
            let s = best.as_str();
            proof {
                let stack = analyzer.stack();
                assert(stack == scored(stack0, corpus));
                assert forall|j: int| 0 <= j < stack.len() implies (#[trigger] stack[
                    j]).letters() == corpus[j] && stack[j].total_percent == score(
                    corpus,
                    corpus[j],
                ) by {
                    crate::letter_table::lemma_score_le_500(corpus, corpus[j]);
                    assert(stack[j].letters() == stack0[j].letters());
                }
                lemma_best_index_first_best(stack, corpus, corpus);
                let b = first_best(corpus, corpus);
                crate::word_analyzer::lemma_first_best(corpus, corpus);
                let cand = cands[b];
                assert(corpus[b] == letters_of(cand));
                assert(is_valid_word(cand)) by {
                    lemma_candidates_valid(survivors@, b);
                }
                crate::word_analyzer::lemma_letters_round_trip(cand);
                assert forall|k: int| 0 <= k < 5 implies #[trigger] s@[k] == cand[k] by {
                    assert(best.letters()[k] == best.word@[k].character);
                    assert(best.letters()[k] == letters_of(cand)[k]);
                }
                assert(s@ =~= cand);
            }
            Some(s)
        },
        None => None,
    }
}

impl Default for GameEngine {
    fn default() -> (r: Self)
        ensures
            r.feedback_state().is_fresh(),
            r.guess() == Seq::<char>::empty(),
    {
        GameEngine::new()
    }
}

/// The game engine: the feedback state of one game and the current guess.
#[derive(Debug)]
pub struct GameEngine {
    state: FeedbackState,
    current_guess: String,
}

impl GameEngine {
    /// What the feedback so far says of the answer.
    pub closed spec fn feedback_state(&self) -> FeedbackState {
        self.state
    }

    /// The word most recently proposed.
    pub closed spec fn guess(&self) -> Seq<char> {
        self.current_guess@
    }

    /// A fresh engine: nothing known, no guess yet.
    pub fn new() -> (r: Self)
        ensures
            r.feedback_state().resolved@ == seq![UNKNOWN, UNKNOWN, UNKNOWN, UNKNOWN, UNKNOWN],
            r.feedback_state().forbidden_positions@ == Seq::<(char, usize)>::empty(),
            r.feedback_state().required_characters@ == Seq::<char>::empty(),
            r.feedback_state().excluded_characters@ == Seq::<char>::empty(),
            r.feedback_state().is_fresh(),
            r.guess() == Seq::<char>::empty(),
    {
        GameEngine { state: FeedbackState::new(), current_guess: String::new() }
    }

    /// Sets the word the first feedback will be about.
    pub fn set_starting_word(&mut self, starting_word: String)
        ensures
            final(self).guess() == starting_word@,
            final(self).feedback_state() == old(self).feedback_state(),
    {
        self.current_guess = starting_word;
    }

    pub fn get_current_guess(&self) -> (r: &str)
        ensures
            r@ == self.guess(),
    {
        self.current_guess.as_str()
    }

    pub fn state(&self) -> (r: &FeedbackState)
        ensures
            *r == self.feedback_state(),
    {
        &self.state
    }

    /// The first pass of a round of feedback on the current guess; returns
    /// the letters marked absent and not marked present in it.
    pub fn process_input_characters(&mut self, input: &str) -> (r: Vec<char>)
        requires
            old(self).guess().len() >= 5,
            is_feedback(input@),
        ensures
            first_pass_applied(
                old(self).feedback_state(),
                final(self).feedback_state(),
                old(self).guess(),
                input@,
            ),
            final(self).guess() == old(self).guess(),
            forall|c: char| #[trigger]
                r@.contains(c) <==> marked_absent(old(self).guess(), input@, c) && !marked_present(
                    old(self).guess(),
                    input@,
                    c,
                ),
    {
        let guess = chars_of(self.current_guess.as_str());
        let symbols = chars_of(input);
        self.state.process_input_characters(&guess, &symbols)
    }

    /// Takes in feedback on the current guess. Fails, changing nothing, on
    /// feedback that is not five symbols among `g`, `y` and `n`, and where
    /// the current guess has fewer than five characters.
    pub fn parse_input(&mut self, input: &str) -> (r: Result<(), RecoverableError>)
        ensures
            match r {
                Ok(_) => {
                    &&& is_feedback(input@)
                    &&& old(self).guess().len() >= 5
                    &&& round_applied(
                        old(self).feedback_state(),
                        final(self).feedback_state(),
                        old(self).guess(),
                        input@,
                    )
                    &&& final(self).guess() == old(self).guess()
                },
                Err(RecoverableError::InvalidWordLength(n)) => input.len() != 5 && n
                    == input.len() && !is_feedback(input@) && *final(self) == *old(self),
                Err(RecoverableError::InvalidInputFormat(s)) => input.len() == 5 && !is_feedback(
                    input@,
                ) && s@ == input@ && *final(self) == *old(self),
                Err(RecoverableError::NoGuessFound) => is_feedback(input@) && old(self).guess().len()
                    < 5 && *final(self) == *old(self),
                Err(_) => false,
            },
    {
        match check_input(input) {
            Ok(_) => {},
            Err(e) => return Err(e),
        }
        let guess = chars_of(self.current_guess.as_str());
        if guess.len() < 5 {
            return Err(RecoverableError::NoGuessFound);
        }
        let symbols = chars_of(input);
        self.state.apply_feedback(&guess, &symbols);
        Ok(())
    }

    /// Picks the next guess from `possible_words` (see `pick_guess`); it
    /// becomes the current guess.
    pub fn get_next_guess(&mut self, possible_words: Vec<String>) -> (r: Result<
        String,
        RecoverableError,
    >)
        requires
            possible_words@.len() < u32::MAX,
        ensures
            match chosen_guess(old(self).feedback_state(), old(self).guess(), possible_words@) {
                None => match r {
                    Err(RecoverableError::NoGuessFound) => *final(self) == *old(self),
                    _ => false,
                },
                Some(w) => match r {
                    Ok(s) => s@ == w && final(self).guess() == w && final(self).feedback_state()
                        == old(self).feedback_state(),
                    _ => false,
                },
            },
    {
        match pick_guess(&self.state, self.current_guess.as_str(), possible_words) {
            Some(s) => {
                self.current_guess = s.clone();
                Ok(s)
            },
            None => Err(RecoverableError::NoGuessFound),
        }
    }

    /// The resolved slots as a string, `UNKNOWN` where no letter is known.
    pub fn get_pattern(&self) -> (r: String)
        ensures
            r@ == self.feedback_state().resolved@,
    {
        self.state.pattern()
    }

    /// Whether every slot is resolved.
    pub fn check_for_win(&self) -> (r: bool)
        ensures
            r == all_resolved(self.feedback_state().resolved@),
    {
        self.state.has_won()
    }
}

proof fn lemma_candidates_valid(words: Seq<String>, k: int)
    requires
        0 <= k < candidates(words).len(),
    ensures
        is_valid_word(candidates(words)[k]),
    decreases words.len(),
{
    if words.len() > 0 {
        let rest = candidates(words.drop_last());
        if k < rest.len() {
            lemma_candidates_valid(words.drop_last(), k);
        }
    }
}

} // verus!
