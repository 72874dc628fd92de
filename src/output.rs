//! Where guesses and notices go.

use crate::shared_state::SharedTestState;
use crate::text::append;
use std::cell::RefCell;
use std::rc::Rc;
use vstd::prelude::*;

verus! {

/// Declares `std::io::Error`, the error of a failed write; nothing is
/// assumed of it.
#[verifier::external_type_specification]
#[verifier::external_body]
pub struct ExIoError(std::io::Error);

/// The message that reports a fatal error.
pub fn fatal_error_message(msg: &str) -> (r: String)
    ensures
        r@ == "Fatal error: "@ + msg@,
{
    let mut r = String::new();
    append(&mut r, "Fatal error: ");
    append(&mut r, msg);
    r
}

/// The message that proposes a guess.
pub fn guess_message(guess: &str) -> (r: String)
    ensures
        r@ == "Guess: "@ + guess@ + "\r\n"@,
{
    let mut r = String::new();
    append(&mut r, "Guess: ");
    append(&mut r, guess);
    append(&mut r, "\r\n");
    r
}

/// The message that says no guess is left.
pub fn out_of_guesses_message() -> (r: String)
    ensures
        r@ == "Out of guesses!"@,
{
    let mut r = String::new();
    append(&mut r, "Out of guesses!");
    r
}

/// Messages for a player, written to `writer`.
pub struct InteractiveOutput<W> {
    writer: W,
}

impl<W> InteractiveOutput<W> {
    pub closed spec fn writer(&self) -> W {
        self.writer
    }

    pub fn new(writer: W) -> (r: Self)
        ensures
            r.writer() == writer,
    {
        InteractiveOutput { writer }
    }

    /// Gives the writer back.
    pub fn into_inner(self) -> (r: W)
        ensures
            r == self.writer(),
    {
        self.writer
    }

    /// The writer, to write the next message to.
    pub fn writer_mut(&mut self) -> (r: &mut W)
        ensures
            *r == old(self).writer(),
            final(self).writer() == *final(r),
    {
        &mut self.writer
    }
}

impl<W: std::io::Write> InteractiveOutput<W> {
    /// Relies on `std::io::Write` (through `writeln!`): writes `line` and a
    /// newline to the writer.
    #[verifier::external_body]
    fn write_line(&mut self, line: &str) -> Result<(), std::io::Error> {
        writeln!(self.writer, "{line}")
    }

    /// Writes the message that reports a fatal error.
    pub fn fatal_error(&mut self, msg: &str) -> Result<(), std::io::Error> {
        let line = fatal_error_message(msg);
        self.write_line(line.as_str())
    }

    /// Writes the message that proposes a guess.
    pub fn output_guess(&mut self, guess: &str) -> Result<(), std::io::Error> {
        let line = guess_message(guess);
        self.write_line(line.as_str())
    }

    /// Writes the message that says no guess is left.
    pub fn out_of_guesses(&mut self) -> Result<(), std::io::Error> {
        let line = out_of_guesses_message();
        self.write_line(line.as_str())
    }
}

/// Messages for a program, written to `writer`.
pub struct ApiOutput<W> {
    writer: W,
}

impl<W> ApiOutput<W> {
    pub closed spec fn writer(&self) -> W {
        self.writer
    }

    pub fn new(writer: W) -> (r: Self)
        ensures
            r.writer() == writer,
    {
        ApiOutput { writer }
    }
}

/// The output of a test session: records each guess in the shared state.
pub struct TestOutput {
    shared_state: Rc<RefCell<SharedTestState>>,
}

impl TestOutput {
    pub closed spec fn shared(&self) -> Rc<RefCell<SharedTestState>> {
        self.shared_state
    }

    pub fn new(shared_state: Rc<RefCell<SharedTestState>>) -> (r: Self)
        ensures
            r.shared() == shared_state,
    {
        TestOutput { shared_state }
    }

    /// Where the guesses of the session are recorded.
    pub fn shared_state(&self) -> (r: &Rc<RefCell<SharedTestState>>)
        ensures
            *r == self.shared(),
    {
        &self.shared_state
    }
}

} // verus!
