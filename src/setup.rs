//! Building the frequency model from a word list.

use crate::text::{chars_of, string_from_chars, string_from_prefix};
use crate::word_analyzer::{is_valid_word, letters_of, word_error, WordAnalyzer, WordError};
use vstd::prelude::*;

verus! {

/// Drops one carriage return at the end of `line`.
pub open spec fn strip_cr(line: Seq<char>) -> Seq<char> {
    if line.len() > 0 && line.last() == '\r' {
        line.drop_last()
    } else {
        line
    }
}

/// The lines ended by a newline in `text`, each without its line ending,
/// and the text after the last newline.
pub open spec fn split_ended(text: Seq<char>) -> (Seq<Seq<char>>, Seq<char>)
    decreases text.len(),
{
    if text.len() == 0 {
        (Seq::empty(), Seq::empty())
    } else {
        let (done, rest) = split_ended(text.drop_last());
        if text.last() == '\n' {
            (done.push(strip_cr(rest)), Seq::empty())
        } else {
            (done, rest.push(text.last()))
        }
    }
}

/// The lines of `text`: split at each `\n`, a `\r` just before it dropped;
/// the last line needs no line ending, and an empty one after the last
/// line ending does not count.
pub open spec fn lines_of(text: Seq<char>) -> Seq<Seq<char>> {
    let (done, rest) = split_ended(text);
    if rest.len() == 0 {
        done
    } else {
        done.push(rest)
    }
}

/// The bytes of the lines that are words the model accepts, in order.
pub open spec fn valid_letters(lines: Seq<Seq<char>>) -> Seq<Seq<u8>>
    decreases lines.len(),
{
    if lines.len() == 0 {
        Seq::empty()
    } else {
        let rest = valid_letters(lines.drop_last());
        if is_valid_word(lines.last()) {
            rest.push(letters_of(lines.last()))
        } else {
            rest
        }
    }
}

/// Why each rejected line is not a word the model accepts, in order.
pub open spec fn line_errors(lines: Seq<Seq<char>>) -> Seq<WordError>
    decreases lines.len(),
{
    if lines.len() == 0 {
        Seq::empty()
    } else {
        let rest = line_errors(lines.drop_last());
        match word_error(lines.last(), vstd::utf8::encode_utf8(lines.last()).len() as usize) {
            Some(e) => rest.push(e),
            None => rest,
        }
    }
}

/// Splits `text` into its lines.
pub fn split_lines(text: &str) -> (r: Vec<String>)
    ensures
        r@.map_values(|s: String| s@) == lines_of(text@),
{
    let cs = chars_of(text);
    let mut lines: Vec<String> = Vec::new();
    let mut current: Vec<char> = Vec::new();
    let mut i: usize = 0;
    while i < cs.len()
        invariant
            cs@ == text@,
            i <= cs@.len(),
            lines@.map_values(|s: String| s@) == split_ended(cs@.subrange(0, i as int)).0,
            current@ == split_ended(cs@.subrange(0, i as int)).1,
        decreases cs@.len() - i,
    {
        assert(cs@.subrange(0, i + 1).drop_last() =~= cs@.subrange(0, i as int));
        let c = cs[i];
        if c == '\n' {
            let n = current.len();
            let end = if n > 0 && current[n - 1] == '\r' {
                n - 1
            } else {
                n
            };
            let line = string_from_prefix(&current, end);
            assert(line@ =~= strip_cr(current@));
            let ghost before = lines@;
            lines.push(line);
            assert(lines@.map_values(|s: String| s@) =~= before.map_values(|s: String| s@).push(
                line@,
            ));
            current = Vec::new();
        } else {
            current.push(c);
        }
        i += 1;
    }
    assert(cs@.subrange(0, i as int) =~= cs@);
    if current.len() > 0 {
        let line = string_from_chars(&current);
        let ghost before = lines@;
        lines.push(line);
        assert(lines@.map_values(|s: String| s@) =~= before.map_values(|s: String| s@).push(
            line@,
        ));
    }
    lines
}

/// Ingests every line of `word_source` that is a word the model accepts,
/// in order, and returns why each other line was skipped.
pub fn read_words_from_file(word_source: &str, word_analyzer: &mut WordAnalyzer) -> (r: Vec<
    WordError,
>)
    requires
        old(word_analyzer).wf(),
        old(word_analyzer).corpus().len() + word_source@.len() < u32::MAX,
    ensures
        final(word_analyzer).wf(),
        final(word_analyzer).corpus() == old(word_analyzer).corpus() + valid_letters(
            lines_of(word_source@),
        ),
        r@ == line_errors(lines_of(word_source@)),
{
    let lines = split_lines(word_source);
    let ghost views = lines@.map_values(|s: String| s@);
    proof {
        lemma_lines_len(word_source@);
    }
    let ghost start = word_analyzer.corpus();
    let mut errors: Vec<WordError> = Vec::new();
    let mut i: usize = 0;
    while i < lines.len()
        invariant
            views == lines@.map_values(|s: String| s@),
            views == lines_of(word_source@),
            views.len() <= word_source@.len() + 1,
            i <= lines@.len(),
            start.len() + word_source@.len() < u32::MAX,
            word_analyzer.wf(),
            word_analyzer.corpus() == start + valid_letters(views.subrange(0, i as int)),
            valid_letters(views.subrange(0, i as int)).len() <= i,
            errors@ == line_errors(views.subrange(0, i as int)),
        decreases lines@.len() - i,
    {
        let ghost prefix = views.subrange(0, i + 1);
        assert(prefix.drop_last() =~= views.subrange(0, i as int));
        assert(prefix.last() == lines@[i as int]@);
        match word_analyzer.analyze_word(lines[i].as_str()) {
            Ok(_) => {
                assert(word_analyzer.corpus() =~= start + valid_letters(prefix));
            },
            Err(e) => {
                errors.push(e);
            },
        }
        i += 1;
    }
    assert(views.subrange(0, i as int) =~= views);
    errors
}

proof fn lemma_split_len(text: Seq<char>)
    ensures
        split_ended(text).0.len() + split_ended(text).1.len() <= text.len(),
    decreases text.len(),
{
    if text.len() > 0 {
        lemma_split_len(text.drop_last());
    }
}

proof fn lemma_lines_len(text: Seq<char>)
    ensures
        lines_of(text).len() <= text.len() + 1,
{
    lemma_split_len(text);
}

} // verus!
