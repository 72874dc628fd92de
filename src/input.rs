//! Player feedback: its validation, and the feedback a known answer gives a
//! guess.

use crate::error::RecoverableError;
use crate::shared_state::SharedTestState;
use crate::text::{chars_of, push_char};
use std::cell::RefCell;
use std::rc::Rc;
use vstd::prelude::*;

verus! {

/// One of the three feedback symbols: `g` (right letter, right place),
/// `y` (right letter, wrong place), `n` (letter not usable here).
pub open spec fn is_feedback_symbol(c: char) -> bool {
    c == 'g' || c == 'y' || c == 'n'
}

/// Every character of `s` is a feedback symbol.
pub open spec fn all_feedback_symbols(s: Seq<char>) -> bool {
    forall|i: int| 0 <= i < s.len() ==> is_feedback_symbol(#[trigger] s[i])
}

/// A well-formed feedback: five symbols.
pub open spec fn is_feedback(s: Seq<char>) -> bool {
    s.len() == 5 && all_feedback_symbols(s)
}

pub fn is_feedback_char(c: char) -> (r: bool)
    ensures
        r == is_feedback_symbol(c),
{
    c == 'g' || c == 'y' || c == 'n'
}

/// Checks that `input` is five feedback symbols.
pub fn check_input(input: &str) -> (r: Result<(), RecoverableError>)
    ensures
        match r {
            Ok(_) => input.len() == 5 && is_feedback(input@),
            Err(RecoverableError::InvalidWordLength(n)) => input.len() != 5 && n == input.len()
                && !is_feedback(input@),
            Err(RecoverableError::InvalidInputFormat(s)) => input.len() == 5 && !is_feedback(
                input@,
            ) && s@ == input@,
            Err(_) => false,
        },
{
    let n = input.len();
    if n != 5 {
        proof {
            if is_feedback(input@) {
                assert(vstd::string::is_ascii(input));
            }
        }
        return Err(RecoverableError::InvalidWordLength(n));
    }
    let cs = chars_of(input);
    let mut i: usize = 0;
    while i < cs.len()
        invariant
            cs@ == input@,
            input.len() == 5,
            i <= cs@.len(),
            forall|j: int| 0 <= j < i ==> is_feedback_symbol(#[trigger] cs@[j]),
        decreases cs@.len() - i,
    {
        if !is_feedback_char(cs[i]) {
            assert(!is_feedback_symbol(input@[i as int]));
            return Err(RecoverableError::InvalidInputFormat(input.to_owned()));
        }
        i += 1;
    }
    assert(vstd::string::is_ascii(input));
    Ok(())
}

/// Number of positions `j < n` where the answer `s` holds `c` and the guess
/// `g` does not match it.
pub open spec fn unmatched_before(g: Seq<char>, s: Seq<char>, c: char, n: int) -> nat
    decreases n,
{
    if n <= 0 {
        0
    } else {
        unmatched_before(g, s, c, n - 1) + if s[n - 1] == c && g[n - 1] != s[n - 1] {
            1nat
        } else {
            0nat
        }
    }
}

/// Number of positions `j < n` where the guess `g` holds `c` and does not
/// match the answer `s`.
pub open spec fn misplaced_before(g: Seq<char>, s: Seq<char>, c: char, n: int) -> nat
    decreases n,
{
    if n <= 0 {
        0
    } else {
        misplaced_before(g, s, c, n - 1) + if g[n - 1] == c && g[n - 1] != s[n - 1] {
            1nat
        } else {
            0nat
        }
    }
}

/// The feedback symbol the answer `s` gives position `i` of guess `g`: `g`
/// where they match; else `y` while the unmatched occurrences of the letter
/// in the answer outnumber its earlier unmatched occurrences in the guess;
/// else `n`.
pub open spec fn feedback_symbol(g: Seq<char>, s: Seq<char>, i: int) -> char {
    if g[i] == s[i] {
        'g'
    } else if misplaced_before(g, s, g[i], i) < unmatched_before(g, s, g[i], s.len() as int) {
        'y'
    } else {
        'n'
    }
}

/// The feedback the answer `s` gives the guess `g`, position by position.
pub open spec fn feedback_for(g: Seq<char>, s: Seq<char>) -> Seq<char> {
    Seq::new(g.len(), |i: int| feedback_symbol(g, s, i))
}

fn count_unmatched(g: &Vec<char>, s: &Vec<char>, c: char, n: usize) -> (r: usize)
    requires
        n <= g@.len(),
        n <= s@.len(),
    ensures
        r == unmatched_before(g@, s@, c, n as int),
{
    let mut k: usize = 0;
    let mut count: usize = 0;
    while k < n
        invariant
            k <= n,
            n <= g@.len(),
            n <= s@.len(),
            count == unmatched_before(g@, s@, c, k as int),
            count <= k,
        decreases n - k,
    {
        if s[k] == c && g[k] != s[k] {
            count += 1;
        }
        k += 1;
    }
    count
}

fn count_misplaced(g: &Vec<char>, s: &Vec<char>, c: char, n: usize) -> (r: usize)
    requires
        n <= g@.len(),
        n <= s@.len(),
    ensures
        r == misplaced_before(g@, s@, c, n as int),
{
    let mut k: usize = 0;
    let mut count: usize = 0;
    while k < n
        invariant
            k <= n,
            n <= g@.len(),
            n <= s@.len(),
            count == misplaced_before(g@, s@, c, k as int),
            count <= k,
        decreases n - k,
    {
        if g[k] == c && g[k] != s[k] {
            count += 1;
        }
        k += 1;
    }
    count
}

/// Feedback from a known answer: the input of a test session.
pub struct TestInput {
    random_word: String,
    shared_state: Rc<RefCell<SharedTestState>>,
}

impl TestInput {
    /// The answer of the session.
    pub closed spec fn answer(&self) -> Seq<char> {
        self.random_word@
    }

    pub closed spec fn shared(&self) -> Rc<RefCell<SharedTestState>> {
        self.shared_state
    }

    pub fn new(random_word: String, feedback: Rc<RefCell<SharedTestState>>) -> (r: Self)
        ensures
            r.answer() == random_word@,
            r.shared() == feedback,
    {
        TestInput { random_word, shared_state: feedback }
    }

    /// Where the guesses of the session are recorded.
    pub fn shared_state(&self) -> (r: &Rc<RefCell<SharedTestState>>)
        ensures
            *r == self.shared(),
    {
        &self.shared_state
    }
}

/// The feedback that the answer of `input` gives `response`; empty where the
/// two differ in length.
pub fn parse_response(input: &TestInput, response: &str) -> (r: String)
    ensures
        response@.len() != input.answer().len() ==> r@ == Seq::<char>::empty(),
        response@.len() == input.answer().len() ==> r@ == feedback_for(response@, input.answer()),
{
    let g = chars_of(response);
    let s = chars_of(input.random_word.as_str());
    if g.len() != s.len() {
        return String::new();
    }
    let len = g.len();
    let mut r = String::new();
    let mut i: usize = 0;
    while i < len
        invariant
            g@ == response@,
            s@ == input.answer(),
            len == g@.len(),
            len == s@.len(),
            i <= len,
            r@ == feedback_for(g@, s@).subrange(0, i as int),
        decreases len - i,
    {
        let symbol = if g[i] == s[i] {
            'g'
        } else if count_misplaced(&g, &s, g[i], i) < count_unmatched(&g, &s, g[i], len) {
            'y'
        } else {
            'n'
        };
        push_char(&mut r, symbol);
        assert(feedback_for(g@, s@).subrange(0, i + 1) =~= feedback_for(g@, s@).subrange(
            0,
            i as int,
        ).push(symbol));
        i += 1;
    }
    assert(feedback_for(g@, s@).subrange(0, len as int) =~= feedback_for(g@, s@));
    r
}

/// Feedback typed by a player, read from `reader`.
pub struct InteractiveInput<R> {
    reader: R,
}

impl<R> InteractiveInput<R> {
    pub closed spec fn reader(&self) -> R {
        self.reader
    }

    pub fn new(reader: R) -> (r: Self)
        ensures
            r.reader() == reader,
    {
        InteractiveInput { reader }
    }

    /// The reader, to read the next line of feedback from.
    pub fn reader_mut(&mut self) -> (r: &mut R)
        ensures
            *r == old(self).reader(),
            final(self).reader() == *final(r),
    {
        &mut self.reader
    }
}

/// Feedback received from a program through `reader`.
pub struct ApiInput<I> {
    reader: I,
}

impl<I> ApiInput<I> {
    pub closed spec fn reader(&self) -> I {
        self.reader
    }

    pub fn new(reader: I) -> (r: Self)
        ensures
            r.reader() == reader,
    {
        ApiInput { reader }
    }
}

} // verus!
