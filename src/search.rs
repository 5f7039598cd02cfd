//! Word search: candidates from a case-insensitive automaton over the
//! chunks of a buffer, each checked and extended to a whole word.

use vstd::prelude::*;
use crate::error::Error;
use crate::matching::{caseless_starts_with, char_is_word, is_word_char, starts_with};
use crate::reader::{RopeReader, concat};
use crate::strings::str_eq;
use crate::snippets::texts;
use crate::text::{TextBuffer, byte_len, char_at_byte};
use vstd::string::StringSliceAdditionalSpecFns;

verus! {

#[verifier::external_type_specification]
#[verifier::external_body]
pub struct ExAhoCorasick(aho_corasick::AhoCorasick);

#[verifier::external_type_specification]
#[verifier::external_body]
pub struct ExBuildError(aho_corasick::BuildError);

/// Whether aho_corasick's builder, matching ASCII letters without regard to
/// case, builds an automaton for the single pattern.
pub uninterp spec fn ac_builds(pattern: Seq<char>) -> bool;

/// The byte spans that AhoCorasick::try_find_iter reports in `hay` for the
/// automaton built, ASCII case-insensitively, from the single pattern: its
/// non-overlapping matches from left to right.
pub uninterp spec fn ac_spans(pattern: Seq<char>, hay: Seq<char>) -> Seq<(usize, usize)>;

/// Relies on aho_corasick's builder: an automaton for the single pattern
/// `prefix`, matching ASCII letters without regard to case.
#[verifier::external_body]
fn build_searcher(prefix: &str) -> (r: Result<aho_corasick::AhoCorasick, aho_corasick::BuildError>)
    ensures
        r is Ok <==> ac_builds(prefix@),
{
    aho_corasick::AhoCorasick::builder().ascii_case_insensitive(true).build([prefix])
}

/// An automaton for one pattern, with the pattern it was built from.
pub struct WordSearcher {
    ac: aho_corasick::AhoCorasick,
    pattern: String,
}

impl WordSearcher {
    /// The pattern the automaton was built from.
    pub closed spec fn pattern(&self) -> Seq<char> {
        self.pattern@
    }
}

/// Relies on AhoCorasick::try_find_iter: the byte spans of the matches in
/// `hay`, each within it (none where the search reports an error). The
/// automaton of a `WordSearcher` is built from its pattern.
#[verifier::external_body]
fn find_spans(s: &WordSearcher, hay: &str) -> (r: Vec<(usize, usize)>)
    ensures
        r@ == ac_spans(s.pattern(), hay@),
        forall|i: int|
            0 <= i < r@.len() ==> #[trigger] r@[i].0 <= r@[i].1 <= hay.spec_bytes().len(),
{
    match s.ac.try_find_iter(hay) {
        Ok(it) => it.map(|m| (m.start(), m.end())).collect(),
        Err(_) => Vec::new(),
    }
}

/// The search automaton for `prefix`; `SearchError` exactly when it cannot
/// be built. This is the only way to make a `WordSearcher`.
pub fn ac_searcher(prefix: &str) -> (r: Result<WordSearcher, Error>)
    ensures
        r is Ok <==> ac_builds(prefix@),
        r matches Ok(s) ==> s.pattern() == prefix@,
        r matches Err(e) ==> e == Error::SearchError,
{
    match build_searcher(prefix) {
        Ok(ac) => Ok(WordSearcher { ac, pattern: prefix.to_owned() }),
        Err(_) => Err(Error::SearchError),
    }
}

/// Length of the run of word characters that starts at `i`.
pub open spec fn word_run_from(s: Seq<char>, i: int) -> nat
    decreases s.len() - i,
{
    if i < 0 || i >= s.len() || !is_word_char(s[i]) {
        0
    } else {
        1 + word_run_from(s, i + 1)
    }
}

/// A word may start at `c`: it is in the buffer and is the start or follows a
/// character that is not a word character.
pub open spec fn word_boundary(s: Seq<char>, c: int) -> bool {
    0 <= c <= s.len() && (c == 0 || !is_word_char(s[c - 1]))
}

/// The whole word that starts at `c`.
pub open spec fn word_from(s: Seq<char>, c: int) -> Seq<char> {
    s.subrange(c, c + word_run_from(s, c))
}

/// `w` is a completion of `prefix` found in `s`: a whole word of `s` that
/// starts with `prefix` under caseless matching and is not `prefix` itself.
pub open spec fn is_completion_word(s: Seq<char>, prefix: Seq<char>, w: Seq<char>) -> bool {
    &&& exists|c: int| word_boundary(s, c) && w == #[trigger] word_from(s, c)
    &&& w != prefix
    &&& caseless_starts_with(w, prefix)
}

proof fn lemma_word_run_bound(s: Seq<char>, i: int)
    requires
        0 <= i <= s.len(),
    ensures
        i + word_run_from(s, i) <= s.len(),
        forall|k: int| i <= k < i + word_run_from(s, i) ==> is_word_char(#[trigger] s[k]),
        i + word_run_from(s, i) < s.len() ==> !is_word_char(s[i + word_run_from(s, i)]),
    decreases s.len() - i,
{
    if i < s.len() && is_word_char(s[i]) {
        lemma_word_run_bound(s, i + 1);
    }
}

/// The whole word that starts at character `c`; `None` unless a word may
/// start there.
pub fn word_at(text: &TextBuffer, c: usize) -> (r: Option<String>)
    ensures
        r is Some <==> word_boundary(text@, c as int),
        r matches Some(w) ==> w@ == word_from(text@, c as int),
{
    let len = text.len_chars();
    if c > len {
        return None;
    }
    if c > 0 {
        let before = text.get_char(c - 1).unwrap();
        if char_is_word(before) {
            return None;
        }
    }
    proof {
        lemma_word_run_bound(text@, c as int);
    }
    let mut e: usize = c;
    while e < len
        invariant
            len == text@.len(),
            c <= e <= len,
            word_run_from(text@, c as int) == (e - c) + word_run_from(text@, e as int),
        ensures
            c <= e <= len,
            word_run_from(text@, c as int) == e - c,
        decreases len - e,
    {
        let ch = text.get_char(e).unwrap();
        if !char_is_word(ch) {
            assert(word_run_from(text@, e as int) == 0);
            break;
        }
        e += 1;
    }
    text.slice(c, e)
}

/// Whether `v` holds a string with the text of `s`.
pub fn contains_string(v: &Vec<String>, s: &str) -> (r: bool)
    ensures
        r == exists|i: int| 0 <= i < v@.len() && #[trigger] v@[i]@ == s@,
{
    let mut i: usize = 0;
    while i < v.len()
        invariant
            i <= v@.len(),
            forall|k: int| 0 <= k < i ==> #[trigger] v@[k]@ != s@,
        decreases v.len() - i,
    {
        if str_eq(v[i].as_str(), s) {
            return true;
        }
        i += 1;
    }
    false
}

/// No two strings of `v` have the same text.
pub open spec fn distinct_texts(v: Seq<String>) -> bool {
    forall|i: int, j: int| 0 <= i < j < v.len() ==> #[trigger] v[i]@ != #[trigger] v[j]@
}

/// The words that candidate starts add to `found`, in order: the whole word
/// at each start where a word may start, unless it is `prefix` itself, does
/// not start with `prefix` under caseless matching, is already there, or
/// `found` already holds `max` words.
pub open spec fn add_candidates(
    found: Seq<Seq<char>>,
    s: Seq<char>,
    prefix: Seq<char>,
    starts: Seq<usize>,
    max: nat,
) -> Seq<Seq<char>>
    decreases starts.len(),
{
    if starts.len() == 0 {
        found
    } else {
        let r = add_candidates(found, s, prefix, starts.drop_last(), max);
        let c = starts.last() as int;
        let w = word_from(s, c);
        if r.len() < max && word_boundary(s, c) && w != prefix && caseless_starts_with(w, prefix)
            && !r.contains(w) {
            r.push(w)
        } else {
            r
        }
    }
}

/// No two entries are equal.
pub open spec fn no_repeats(v: Seq<Seq<char>>) -> bool {
    forall|i: int, j: int| 0 <= i < j < v.len() ==> v[i] != v[j]
}

proof fn lemma_add_candidates(found: Seq<Seq<char>>, s: Seq<char>, prefix: Seq<char>, starts: Seq<usize>, max: nat)
    requires
        no_repeats(found),
    ensures
        ({
            let r = add_candidates(found, s, prefix, starts, max);
            &&& no_repeats(r)
            &&& r.len() >= found.len()
            &&& r.take(found.len() as int) == found
            &&& found.len() < max ==> r.len() <= max
            &&& forall|i: int| found.len() <= i < r.len() ==> is_completion_word(s, prefix, #[trigger] r[i])
        }),
    decreases starts.len(),
{
    if starts.len() > 0 {
        lemma_add_candidates(found, s, prefix, starts.drop_last(), max);
        let r = add_candidates(found, s, prefix, starts.drop_last(), max);
        let c = starts.last() as int;
        let w = word_from(s, c);
        if r.len() < max && word_boundary(s, c) && w != prefix && caseless_starts_with(w, prefix)
            && !r.contains(w) {
            assert(r.push(w).take(found.len() as int) =~= r.take(found.len() as int));
            assert forall|i: int, j: int| 0 <= i < j < r.push(w).len() implies r.push(w)[i] != r.push(w)[j] by {
                if j == r.len() {
                    assert(r.push(w)[i] == r[i]);
                }
            }
        }
    }
}

/// Adds to `result` the words at the candidate starts `starts` (character
/// indices of `text`), as `add_candidates` says.
pub fn add_candidates_exec(
    text: &TextBuffer,
    starts: &Vec<usize>,
    prefix: &str,
    max: usize,
    result: &mut Vec<String>,
)
    ensures
        texts(final(result)@) == add_candidates(texts(old(result)@), text@, prefix@, starts@, max as nat),
        final(result)@.len() >= old(result)@.len(),
        final(result)@.take(old(result)@.len() as int) == old(result)@,
{
    let mut k: usize = 0;
    while k < starts.len()
        invariant
            k <= starts@.len(),
            texts(result@) == add_candidates(texts(old(result)@), text@, prefix@, starts@.take(k as int), max as nat),
            result@.len() >= old(result)@.len(),
            result@.take(old(result)@.len() as int) == old(result)@,
        decreases starts.len() - k,
    {
        assert(starts@.take(k + 1).drop_last() =~= starts@.take(k as int));
        let ghost r = texts(result@);
        let c = starts[k];
        k += 1;
        if result.len() >= max {
            continue;
        }
        let w = match word_at(text, c) {
            Some(w) => w,
            None => continue,
        };
        if str_eq(w.as_str(), prefix) || !starts_with(w.as_str(), prefix) {
            continue;
        }
        if contains_string(result, w.as_str()) {
            assert(r.contains(w@)) by {
                let i = choose|i: int| 0 <= i < result@.len() && #[trigger] result@[i]@ == w@;
                assert(r[i] == w@);
            }
            continue;
        }
        assert(!r.contains(w@)) by {
            if r.contains(w@) {
                let i = choose|i: int| 0 <= i < r.len() && r[i] == w@;
                assert(result@[i]@ == w@);
            }
        }
        let ghost prev = result@;
        result.push(w);
        assert(texts(result@) =~= r.push(w@));
        assert(result@.take(old(result)@.len() as int) =~= prev.take(old(result)@.len() as int));
    }
    assert(starts@.take(k as int) =~= starts@);
}

/// The candidate starts that the spans found in a chunk point at: for each
/// span, the character of the text that its first byte belongs to, the
/// chunk starting at character `st`.
pub open spec fn chunk_starts(text: Seq<char>, st: int, spans: Seq<(usize, usize)>) -> Seq<usize>
    decreases spans.len(),
{
    if spans.len() == 0 {
        Seq::empty()
    } else {
        let r = chunk_starts(text, st, spans.drop_last());
        let abs = byte_len(text.take(st)) + spans.last().0;
        if abs <= byte_len(text) {
            r.push(char_at_byte(text, abs) as usize)
        } else {
            r
        }
    }
}

/// The words that the chunks of `text`, in order, add to `found`.
pub open spec fn fold_chunks(
    found: Seq<Seq<char>>,
    text: Seq<char>,
    prefix: Seq<char>,
    chunks: Seq<Seq<char>>,
    max: nat,
) -> Seq<Seq<char>>
    decreases chunks.len(),
{
    if chunks.len() == 0 {
        found
    } else {
        let r = fold_chunks(found, text, prefix, chunks.drop_last(), max);
        let st = concat(chunks.drop_last()).len() as int;
        add_candidates(r, text, prefix, chunk_starts(text, st, ac_spans(prefix, chunks.last())), max)
    }
}

/// `new` is what searching `text` for `prefix` adds to `old`: the words at
/// the spans that the automaton reports in each chunk of some split of
/// `text` into chunks.
pub open spec fn searched(old: Seq<Seq<char>>, text: Seq<char>, prefix: Seq<char>, max: nat, new: Seq<Seq<char>>) -> bool {
    exists|chunks: Seq<Seq<char>>| concat(chunks) == text && new == #[trigger] fold_chunks(old, text, prefix, chunks, max)
}

proof fn lemma_add_candidates_full(found: Seq<Seq<char>>, s: Seq<char>, prefix: Seq<char>, starts: Seq<usize>, max: nat)
    requires
        found.len() >= max,
    ensures
        add_candidates(found, s, prefix, starts, max) == found,
    decreases starts.len(),
{
    if starts.len() > 0 {
        lemma_add_candidates_full(found, s, prefix, starts.drop_last(), max);
    }
}

/// Adds to `result` the completions of `prefix` that the automaton `ac`
/// points at in `text`, skipping those already there, and stops once
/// `result` holds `max_completion_items` words. What was in `result` stays,
/// in order; each word added is a completion of `prefix` found in `text`;
/// and the words added are exactly those at the spans that the automaton
/// reports in the chunks of the buffer.
pub fn search(
    prefix: &str,
    text: &TextBuffer,
    ac: &WordSearcher,
    max_completion_items: usize,
    result: &mut Vec<String>,
) -> (r: Result<(), Error>)
    requires
        distinct_texts(old(result)@),
        ac.pattern() == prefix@,
    ensures
        r is Ok,
        searched(texts(old(result)@), text@, prefix@, max_completion_items as nat, texts(final(result)@)),
        distinct_texts(final(result)@),
        final(result)@.len() >= old(result)@.len(),
        final(result)@.take(old(result)@.len() as int) == old(result)@,
        forall|i: int|
            old(result)@.len() <= i < final(result)@.len() ==> is_completion_word(
                text@,
                prefix@,
                #[trigger] final(result)@[i]@,
            ),
        old(result)@.len() < max_completion_items ==> final(result)@.len() <= max_completion_items,
{
    let ghost max = max_completion_items as nat;
    let ghost mut chunks: Seq<Seq<char>> = Seq::empty();
    let len_bytes = text.len_bytes();
    let mut reader = RopeReader::new(text);
    loop
        invariant
            reader.wf(),
            reader.text() == text@,
            max == max_completion_items as nat,
            ac.pattern() == prefix@,
            len_bytes == byte_len(text@),
            concat(chunks) == text@.take(reader.emitted() as int),
            texts(result@) == fold_chunks(texts(old(result)@), text@, prefix@, chunks, max),
            distinct_texts(result@),
            result@.len() >= old(result)@.len(),
            result@.take(old(result)@.len() as int) == old(result)@,
            forall|i: int|
                old(result)@.len() <= i < result@.len() ==> is_completion_word(
                    text@,
                    prefix@,
                    #[trigger] result@[i]@,
                ),
            old(result)@.len() < max_completion_items ==> result@.len() < max_completion_items,
        decreases text@.len() - reader.emitted(),
    {
        proof {
            reader.lemma_emitted_bound();
        }
        let (st, chunk) = match reader.next_chunk() {
            None => {
                assert(text@.take(reader.emitted() as int) =~= text@);
                assert(searched(texts(old(result)@), text@, prefix@, max, texts(result@)));
                return Ok(());
            },
            Some(x) => x,
        };
        proof {
            reader.lemma_emitted_bound();
        }
        let base = text.char_to_byte(st).unwrap();
        let spans = find_spans(ac, chunk.as_str());
        let mut starts: Vec<usize> = Vec::new();
        let mut k: usize = 0;
        while k < spans.len()
            invariant
                k <= spans@.len(),
                len_bytes == byte_len(text@),
                base == byte_len(text@.take(st as int)),
                starts@ == chunk_starts(text@, st as int, spans@.take(k as int)),
            decreases spans.len() - k,
        {
            assert(spans@.take(k + 1).drop_last() =~= spans@.take(k as int));
            let (s, _) = spans[k];
            if let Some(b) = base.checked_add(s) {
                if let Some(c) = text.byte_to_char(b) {
                    starts.push(c);
                }
            }
            k += 1;
        }
        assert(spans@.take(k as int) =~= spans@);
        let ghost before = result@;
        let ghost old_chunks = chunks;
        proof {
            chunks = chunks.push(chunk@);
            assert(chunks.drop_last() =~= old_chunks);
            assert(text@.take(reader.emitted() as int) =~= text@.take(st as int) + chunk@);
            assert forall|i: int, j: int| 0 <= i < j < texts(before).len() implies texts(before)[i] != texts(before)[j] by {
                assert(before[i]@ != before[j]@);
            }
            lemma_add_candidates(texts(before), text@, prefix@, starts@, max_completion_items as nat);
        }
        add_candidates_exec(text, &starts, prefix, max_completion_items, result);
        proof {
            assert(chunks.last() == chunk@);
            assert(concat(old_chunks).len() == st);
            assert(concat(chunks) =~= concat(old_chunks) + chunk@);
            assert(concat(chunks) == text@.take(reader.emitted() as int));
            assert(texts(result@) == fold_chunks(texts(old(result)@), text@, prefix@, chunks, max));
            let r = texts(result@);
            assert(result@.take(old(result)@.len() as int) =~= old(result)@) by {
                assert forall|i: int| 0 <= i < old(result)@.len() implies result@[i] == old(result)@[i] by {
                    assert(before.take(old(result)@.len() as int)[i] == old(result)@[i]);
                    assert(result@.take(before.len() as int)[i] == before[i]);
                }
            }
            assert forall|i: int, j: int| 0 <= i < j < result@.len() implies #[trigger] result@[i]@ != #[trigger] result@[j]@ by {
                assert(r[i] != r[j]);
            }
            assert forall|i: int| old(result)@.len() <= i < result@.len() implies is_completion_word(text@, prefix@, #[trigger] result@[i]@) by {
                if i < before.len() {
                    assert(result@.take(before.len() as int)[i] == before[i]);
                } else {
                    assert(r[i] == result@[i]@);
                }
            }
        }
        if result.len() >= max_completion_items {
            proof {
                let rest = text@.skip(reader.emitted() as int);
                let all = chunks.push(rest);
                assert(all.drop_last() =~= chunks);
                assert(all.last() == rest);
                assert(concat(all) == concat(chunks) + rest);
                assert(concat(all) =~= text@);
                lemma_add_candidates_full(
                    texts(result@),
                    text@,
                    prefix@,
                    chunk_starts(text@, concat(chunks).len() as int, ac_spans(prefix@, rest)),
                    max,
                );
                assert(texts(result@) == fold_chunks(texts(old(result)@), text@, prefix@, all, max));
            }
            return Ok(());
        }
    }
}

/// Each word that the search adds is a whole word of the buffer: every
/// character of it is a word character, the character before it (if any) is
/// not, nor the one after it (if any); and it starts with the prefix under
/// caseless matching without being the prefix itself.
pub proof fn law_search_soundness(s: Seq<char>, prefix: Seq<char>, w: Seq<char>)
    requires
        is_completion_word(s, prefix, w),
    ensures
        exists|c: int|
            0 <= c && c + w.len() <= s.len() && #[trigger] s.subrange(c, c + w.len()) == w && (c
                == 0 || !is_word_char(s[c - 1])) && (c + w.len() == s.len() || !is_word_char(
                s[c + w.len()],
            )),
        forall|k: int| 0 <= k < w.len() ==> is_word_char(#[trigger] w[k]),
        caseless_starts_with(w, prefix),
        w != prefix,
{
    let c = choose|c: int| word_boundary(s, c) && w == #[trigger] word_from(s, c);
    lemma_word_run_bound(s, c);
    assert(s.subrange(c, c + w.len()) == w);
    assert forall|k: int| 0 <= k < w.len() implies is_word_char(#[trigger] w[k]) by {
        assert(w[k] == s[c + k]);
    }
}

} // verus!
