//! Errors that a caller can recover from.

use vstd::prelude::*;

verus! {

#[derive(Debug)]
pub enum RecoverableError {
    /// The feedback holds a symbol other than `g`, `y` and `n`; carries the feedback.
    InvalidInputFormat(String),
    InputError(String),
    /// The feedback does not have five symbols; carries its length in bytes.
    InvalidWordLength(usize),
    /// No candidate word is left, or no guess is on record.
    NoGuessFound,
    NoMatchingWords,
    NetworkTimeout,
}

} // verus!
