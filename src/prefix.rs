//! The prefixes to the left of the cursor.

use vstd::prelude::*;
use crate::error::Error;
use crate::matching::{char_is_char_prefix, char_is_word, is_prefix_char, is_word_char};
use crate::text::{TextBuffer, line_start, lf_count};

verus! {

/// Length of the run of word characters that ends at `p`.
pub open spec fn word_run_before(s: Seq<char>, p: int) -> nat
    decreases p,
{
    if p <= 0 || p > s.len() {
        0
    } else if is_word_char(s[p - 1]) {
        1 + word_run_before(s, p - 1)
    } else {
        0
    }
}

/// Length of the run of prefix characters that ends at `p`, at most `max`.
pub open spec fn char_run_before(s: Seq<char>, p: int, max: nat) -> nat
    decreases max,
{
    if p <= 0 || p > s.len() || max == 0 {
        0
    } else if is_prefix_char(s[p - 1]) {
        1 + char_run_before(s, p - 1, (max - 1) as nat)
    } else {
        0
    }
}

/// The character index of (line, column), if the line exists.
pub open spec fn cursor_of(s: Seq<char>, line: nat, col: nat) -> Option<int> {
    if line <= lf_count(s) + 1 {
        Some((line_start(s, line) + col) as int)
    } else {
        None
    }
}

/// The word prefix at `p`.
pub open spec fn word_prefix_at(s: Seq<char>, p: int) -> Seq<char> {
    s.subrange(p - word_run_before(s, p), p)
}

/// The char prefix at `p`, at most `max` characters long.
pub open spec fn char_prefix_at(s: Seq<char>, p: int, max: nat) -> Seq<char> {
    s.subrange(p - char_run_before(s, p, max), p)
}

/// The prefixes that a cursor position yields.
pub struct Prefixes {
    /// Character index of the cursor.
    pub cursor: usize,
    /// The run of word characters left of the cursor.
    pub word_prefix: String,
    /// The run of non-whitespace characters left of the cursor, capped.
    pub char_prefix: String,
}

/// The word prefix and the char prefix (at most `max_chars` long) left of the
/// cursor at `line` and `col`. Fails with `BoundsError` when the line does
/// not exist or the cursor falls past the end of the buffer.
pub fn get_prefix(text: &TextBuffer, line: usize, col: usize, max_chars: usize) -> (r: Result<
    Prefixes,
    Error,
>)
    ensures
        r.is_ok() <==> (cursor_of(text@, line as nat, col as nat) matches Some(c) && c
            <= text@.len()),
        r.is_err() ==> r == Err::<Prefixes, Error>(Error::BoundsError),
        r matches Ok(p) ==> {
            &&& Some(p.cursor as int) == cursor_of(text@, line as nat, col as nat)
            &&& p.word_prefix@ == word_prefix_at(text@, p.cursor as int)
            &&& p.char_prefix@ == char_prefix_at(text@, p.cursor as int, max_chars as nat)
        },
{
    let start = match text.line_to_char(line) {
        Some(s) => s,
        None => return Err(Error::BoundsError),
    };
    let len = text.len_chars();
    if col > len || start > len - col {
        return Err(Error::BoundsError);
    }
    let cursor = start + col;
    let ghost s = text@;
    let mut k: usize = 0;
    while k < cursor
        invariant
            s == text@,
            cursor <= s.len(),
            k <= cursor,
            word_run_before(s, cursor as int) == k + word_run_before(s, cursor - k),
        ensures
            k <= cursor,
            word_run_before(s, cursor as int) == k,
        decreases cursor - k,
    {
        let c = text.get_char(cursor - k - 1).unwrap();
        if !char_is_word(c) {
            assert(word_run_before(s, cursor - k) == 0);
            break;
        }
        k += 1;
    }
    let mut m: usize = 0;
    while m < cursor && m < max_chars
        invariant
            s == text@,
            cursor <= s.len(),
            m <= cursor,
            m <= max_chars,
            char_run_before(s, cursor as int, max_chars as nat) == m + char_run_before(
                s,
                cursor - m,
                (max_chars - m) as nat,
            ),
        ensures
            m <= cursor,
            char_run_before(s, cursor as int, max_chars as nat) == m,
        decreases cursor - m,
    {
        let c = text.get_char(cursor - m - 1).unwrap();
        if !char_is_char_prefix(c) {
            assert(char_run_before(s, cursor - m, (max_chars - m) as nat) == 0);
            break;
        }
        m += 1;
    }
    let word_prefix = text.slice(cursor - k, cursor).unwrap();
    let char_prefix = text.slice(cursor - m, cursor).unwrap();
    Ok(Prefixes { cursor, word_prefix, char_prefix })
}

/// The word prefix is the longest run of word characters that ends at the
/// cursor: each of its characters is a word character, and the character
/// before it, if any, is not.
pub proof fn law_word_prefix_is_maximal_run(s: Seq<char>, p: int)
    requires
        0 <= p <= s.len(),
    ensures
        word_run_before(s, p) <= p,
        forall|i: int| p - word_run_before(s, p) <= i < p ==> is_word_char(#[trigger] s[i]),
        p - word_run_before(s, p) > 0 ==> !is_word_char(s[p - word_run_before(s, p) - 1]),
    decreases p,
{
    if p > 0 && is_word_char(s[p - 1]) {
        law_word_prefix_is_maximal_run(s, p - 1);
    }
}

/// The char prefix is the longest run of non-whitespace characters that ends
/// at the cursor and is at most `max` long: each of its characters is a
/// prefix character, and unless it has `max` characters, the one before it,
/// if any, is whitespace.
pub proof fn law_char_prefix_is_maximal_run(s: Seq<char>, p: int, max: nat)
    requires
        0 <= p <= s.len(),
    ensures
        char_run_before(s, p, max) <= p,
        char_run_before(s, p, max) <= max,
        forall|i: int|
            p - char_run_before(s, p, max) <= i < p ==> is_prefix_char(#[trigger] s[i]),
        p - char_run_before(s, p, max) > 0 && char_run_before(s, p, max) < max ==> !is_prefix_char(
            s[p - char_run_before(s, p, max) - 1],
        ),
    decreases max,
{
    if p > 0 && max > 0 && is_prefix_char(s[p - 1]) {
        law_char_prefix_is_maximal_run(s, p - 1, (max - 1) as nat);
    }
}

} // verus!
