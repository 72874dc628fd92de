//! The filter predicate: which candidate words are still consistent with the
//! feedback received so far.

use crate::text::{chars_of, contains_char, same_chars};
use vstd::prelude::*;

verus! {

/// Whether `w` survives the constraints: it is not the current guess, it
/// holds every required character, and none of its characters is excluded
/// or forbidden at its position.
pub open spec fn survives(
    w: Seq<char>,
    forbidden: Seq<(char, usize)>,
    excluded: Seq<char>,
    current: Seq<char>,
    required: Seq<char>,
) -> bool {
    &&& w != current
    &&& forall|k: int| 0 <= k < required.len() ==> w.contains(#[trigger] required[k])
    &&& forall|i: int|
        0 <= i < w.len() ==> !excluded.contains(#[trigger] w[i]) && !forbidden.contains(
            (w[i], i as usize),
        )
}

/// The words of `words` that survive the constraints, in their order.
pub open spec fn filtered(
    words: Seq<String>,
    forbidden: Seq<(char, usize)>,
    excluded: Seq<char>,
    current: Seq<char>,
    required: Seq<char>,
) -> Seq<String>
    decreases words.len(),
{
    if words.len() == 0 {
        Seq::empty()
    } else {
        let rest = filtered(words.drop_last(), forbidden, excluded, current, required);
        if survives(words.last()@, forbidden, excluded, current, required) {
            rest.push(words.last())
        } else {
            rest
        }
    }
}

/// The characters of each string.
pub open spec fn views(words: Seq<String>) -> Seq<Seq<char>> {
    words.map_values(|s: String| s@)
}

fn has_all_required(cs: &Vec<char>, required: &Vec<char>) -> (r: bool)
    ensures
        r == forall|k: int| 0 <= k < required@.len() ==> cs@.contains(#[trigger] required@[k]),
{
    let mut k: usize = 0;
    while k < required.len()
        invariant
            k <= required@.len(),
            forall|j: int| 0 <= j < k ==> cs@.contains(#[trigger] required@[j]),
        decreases required@.len() - k,
    {
        if !contains_char(cs, required[k]) {
            return false;
        }
        k += 1;
    }
    true
}

fn contains_pair(pairs: &Vec<(char, usize)>, c: char, i: usize) -> (r: bool)
    ensures
        r == pairs@.contains((c, i)),
{
    let mut k: usize = 0;
    while k < pairs.len()
        invariant
            k <= pairs@.len(),
            forall|j: int| 0 <= j < k ==> pairs@[j] != (c, i),
        decreases pairs@.len() - k,
    {
        if pairs[k].0 == c && pairs[k].1 == i {
            assert(pairs@[k as int] == (c, i));
            return true;
        }
        k += 1;
    }
    false
}

fn positions_allowed(cs: &Vec<char>, forbidden: &Vec<(char, usize)>, excluded: &Vec<char>) -> (r:
    bool)
    ensures
        r == forall|i: int|
            0 <= i < cs@.len() ==> !excluded@.contains(#[trigger] cs@[i]) && !forbidden@.contains(
                (cs@[i], i as usize),
            ),
{
    let mut i: usize = 0;
    while i < cs.len()
        invariant
            i <= cs@.len(),
            forall|j: int|
                0 <= j < i ==> !excluded@.contains(#[trigger] cs@[j]) && !forbidden@.contains(
                    (cs@[j], j as usize),
                ),
        decreases cs@.len() - i,
    {
        if contains_char(excluded, cs[i]) || contains_pair(forbidden, cs[i], i) {
            return false;
        }
        i += 1;
    }
    true
}

/// Whether `word` survives the constraints.
pub fn word_survives(
    word: &str,
    forbidden: &Vec<(char, usize)>,
    excluded: &Vec<char>,
    current: &Vec<char>,
    required: &Vec<char>,
) -> (r: bool)
    ensures
        r == survives(word@, forbidden@, excluded@, current@, required@),
{
    let cs = chars_of(word);
    !same_chars(&cs, current) && has_all_required(&cs, required) && positions_allowed(
        &cs,
        forbidden,
        excluded,
    )
}

/// Keeps the words that survive the constraints, in their order: not the
/// current guess, every required (yellow) character present, and no
/// excluded character nor any character at a position forbidden for it.
pub fn filter_potential_words(
    words: Vec<String>,
    yellow_positions: &Vec<(char, usize)>,
    excluded: &Vec<char>,
    current_word: &str,
    yellow_characters: &Vec<char>,
) -> (r: Vec<String>)
    ensures
        r@ == filtered(
            words@,
            yellow_positions@,
            excluded@,
            current_word@,
            yellow_characters@,
        ),
{
    let current = chars_of(current_word);
    let mut out: Vec<String> = Vec::new();
    let mut i: usize = 0;
    while i < words.len()
        invariant
            current@ == current_word@,
            i <= words@.len(),
            out@ == filtered(
                words@.subrange(0, i as int),
                yellow_positions@,
                excluded@,
                current_word@,
                yellow_characters@,
            ),
        decreases words@.len() - i,
    {
        assert(words@.subrange(0, i + 1).drop_last() =~= words@.subrange(0, i as int));
        if word_survives(words[i].as_str(), yellow_positions, excluded, &current, yellow_characters) {
            out.push(words[i].clone());
        }
        i += 1;
    }
    assert(words@.subrange(0, i as int) =~= words@);
    out
}

/// A word is kept exactly when it is in the pool and survives the constraints.
pub proof fn lemma_filtered_members(
    words: Seq<String>,
    forbidden: Seq<(char, usize)>,
    excluded: Seq<char>,
    current: Seq<char>,
    required: Seq<char>,
    x: Seq<char>,
)
    ensures
        views(filtered(words, forbidden, excluded, current, required)).contains(x) <==> (views(
            words,
        ).contains(x) && survives(x, forbidden, excluded, current, required)),
    decreases words.len(),
{
    let kept = filtered(words, forbidden, excluded, current, required);
    if words.len() == 0 {
        assert(views(kept) =~= Seq::<Seq<char>>::empty());
    } else {
        let rest_words = words.drop_last();
        let rest = filtered(rest_words, forbidden, excluded, current, required);
        let last = words.last()@;
        lemma_filtered_members(rest_words, forbidden, excluded, current, required, x);
        assert(views(words) =~= views(rest_words).push(last));
        lemma_push_contains(views(rest_words), last, x);
        if survives(last, forbidden, excluded, current, required) {
            assert(views(kept) =~= views(rest).push(last));
            lemma_push_contains(views(rest), last, x);
        }
    }
}

proof fn lemma_push_contains(s: Seq<Seq<char>>, v: Seq<char>, x: Seq<char>)
    ensures
        s.push(v).contains(x) <==> (s.contains(x) || x == v),
{
    if s.push(v).contains(x) && x != v {
        let k = choose|k: int| 0 <= k < s.push(v).len() && s.push(v)[k] == x;
        assert(s[k] == x);
    }
    if s.contains(x) {
        let k = choose|k: int| 0 <= k < s.len() && s[k] == x;
        assert(s.push(v)[k] == x);
    }
    if x == v {
        assert(s.push(v)[s.len() as int] == x);
    }
}

/// The filter depends on the pool only through the words in it: two pools
/// with the same words, in any order and with any repetitions, keep the same
/// words. Being a function of its arguments, it also gives the same result
/// each time it is applied.
pub proof fn lemma_filter_order_independent(
    first_pool: Seq<String>,
    second_pool: Seq<String>,
    forbidden: Seq<(char, usize)>,
    excluded: Seq<char>,
    current: Seq<char>,
    required: Seq<char>,
)
    requires
        forall|x: Seq<char>| views(first_pool).contains(x) <==> views(second_pool).contains(x),
    ensures
        forall|x: Seq<char>|
            views(filtered(first_pool, forbidden, excluded, current, required)).contains(x) <==> views(
                filtered(second_pool, forbidden, excluded, current, required),
            ).contains(x),
{
    assert forall|x: Seq<char>|
        views(filtered(first_pool, forbidden, excluded, current, required)).contains(x) <==> views(
            filtered(second_pool, forbidden, excluded, current, required),
        ).contains(x) by {
        lemma_filtered_members(first_pool, forbidden, excluded, current, required, x);
        lemma_filtered_members(second_pool, forbidden, excluded, current, required, x);
    }
}

/// Filtering never adds words.
pub proof fn lemma_filtered_len(
    words: Seq<String>,
    forbidden: Seq<(char, usize)>,
    excluded: Seq<char>,
    current: Seq<char>,
    required: Seq<char>,
)
    ensures
        filtered(words, forbidden, excluded, current, required).len() <= words.len(),
    decreases words.len(),
{
    if words.len() > 0 {
        lemma_filtered_len(words.drop_last(), forbidden, excluded, current, required);
    }
}

} // verus!
