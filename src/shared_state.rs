//! State shared between the input and the output of a test session.

use vstd::prelude::*;

verus! {

/// Declares `std::cell::RefCell` so that values shared through `Rc<RefCell<_>>`
/// can be held; nothing is assumed of what they contain.
#[verifier::external_type_specification]
#[verifier::external_body]
#[verifier::reject_recursive_types(T)]
pub struct ExRefCell<T: ?Sized>(std::cell::RefCell<T>);

/// The guesses proposed so far in a test session.
pub struct SharedTestState {
    pub guesses: Vec<String>,
}

impl Default for SharedTestState {
    fn default() -> (r: Self)
        ensures
            r.guesses@ == Seq::<String>::empty(),
    {
        SharedTestState::new()
    }
}

impl SharedTestState {
    pub fn new() -> (r: Self)
        ensures
            r.guesses@ == Seq::<String>::empty(),
    {
        SharedTestState { guesses: Vec::new() }
    }

    /// Records a proposed guess.
    pub fn record_guess(&mut self, guess: &str)
        ensures
            final(self).guesses@.len() == old(self).guesses@.len() + 1,
            final(self).guesses@.drop_last() == old(self).guesses@,
            final(self).guesses@.last()@ == guess@,
    {
        self.guesses.push(guess.to_owned());
        assert(self.guesses@.drop_last() =~= old(self).guesses@);
    }
}

} // verus!
