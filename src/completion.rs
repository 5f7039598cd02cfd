//! Completion items and the providers that work on tables in memory:
//! snippets by prefix or by tail, and unicode input.

use vstd::prelude::*;
use vstd::string::StringExecFns;
use crate::matching::{caseless_eq, caseless_match, caseless_starts_with, starts_with};
use crate::snippets::{Snippet, UnicodeInputItem};
use crate::strings::{chars_of, string_of};

verus! {

/// What an item completes to.
#[derive(Debug, Clone, Copy, PartialEq, Eq, Structural)]
pub enum CompletionKind {
    Text,
    Snippet,
    Folder,
    File,
    Reference,
}

/// A place in a document: line and character, both from zero.
#[derive(Debug, Clone, Copy, PartialEq, Eq, Structural)]
pub struct Position {
    pub line: usize,
    pub character: usize,
}

/// A span of a document.
#[derive(Debug, Clone, Copy, PartialEq, Eq, Structural)]
pub struct Range {
    pub start: Position,
    pub end: Position,
}

/// Documentation of an item.
pub enum Documentation {
    PlainText(String),
    Markdown(String),
}

/// The edit that accepting an item makes.
pub struct TextEdit {
    pub range: Range,
    pub new_text: String,
}

/// One completion candidate.
pub struct CompletionItem {
    pub label: String,
    pub kind: CompletionKind,
    pub sort_text: Option<String>,
    pub filter_text: Option<String>,
    pub detail: Option<String>,
    pub documentation: Option<Documentation>,
    pub text_edit: Option<TextEdit>,
    /// The new text is in snippet format.
    pub snippet_format: bool,
}

impl CompletionItem {
    /// The text that accepting the item inserts.
    pub open spec fn inserted(&self) -> Option<Seq<char>> {
        match self.text_edit {
            Some(e) => Some(e.new_text@),
            None => None,
        }
    }

    /// The span that accepting the item replaces.
    pub open spec fn replaced(&self) -> Option<Range> {
        match self.text_edit {
            Some(e) => Some(e.range),
            None => None,
        }
    }
}

/// The text of an optional string.
pub open spec fn text_of(o: Option<String>) -> Option<Seq<char>> {
    match o {
        Some(s) => Some(s@),
        None => None,
    }
}

/// The span of the `n` characters left of the cursor on its line.
pub open spec fn range_before(cursor: Position, n: nat) -> Range {
    Range {
        start: Position {
            line: cursor.line,
            character: if n <= cursor.character {
                (cursor.character - n) as usize
            } else {
                0
            },
        },
        end: cursor,
    }
}

/// The span of the `n` characters left of the cursor on its line.
pub fn range_before_exec(cursor: Position, n: usize) -> (r: Range)
    ensures
        r == range_before(cursor, n as nat),
{
    Range {
        start: Position {
            line: cursor.line,
            character: if n <= cursor.character {
                cursor.character - n
            } else {
                0
            },
        },
        end: cursor,
    }
}

/// A snippet is for language `lang`: it has no scope, an empty one, or one
/// that names `lang`.
pub open spec fn in_scope(s: Snippet, lang: Seq<char>) -> bool {
    match s.scope {
        None => true,
        Some(v) => v@.len() == 0 || exists|i: int| 0 <= i < v@.len() && #[trigger] v@[i]@ == lang,
    }
}

/// A snippet matches `prefix` in `lang`: it is in scope and its trigger
/// equals `prefix` (exact) or starts with it, under caseless matching.
pub open spec fn snippet_matches(s: Snippet, prefix: Seq<char>, exact: bool, lang: Seq<char>) -> bool {
    in_scope(s, lang) && if exact {
        caseless_eq(s.prefix@, prefix)
    } else {
        caseless_starts_with(s.prefix@, prefix)
    }
}

/// The snippets of `snips` that match, in order.
pub open spec fn matching_snippets(
    snips: Seq<Snippet>,
    prefix: Seq<char>,
    exact: bool,
    lang: Seq<char>,
) -> Seq<Snippet>
    decreases snips.len(),
{
    if snips.len() == 0 {
        Seq::empty()
    } else {
        let r = matching_snippets(snips.drop_last(), prefix, exact, lang);
        if snippet_matches(snips.last(), prefix, exact, lang) {
            r.push(snips.last())
        } else {
            r
        }
    }
}

/// `body` fenced as code of `lang`.
pub open spec fn fenced(lang: Seq<char>, body: Seq<char>) -> Seq<char> {
    seq!['`', '`', '`'] + lang + seq!['\n'] + body + seq!['\n', '`', '`', '`']
}

/// The Markdown that documents a snippet with a description: the
/// description, a line break, then the body fenced as code of `lang`.
pub open spec fn snippet_markdown(description: Seq<char>, lang: Seq<char>, body: Seq<char>) -> Seq<
    char,
> {
    description + seq!['\n'] + fenced(lang, body)
}

/// `it` is the item for snippet `s` that replaces `n` characters left of
/// the cursor; its filter text is `filter_prefix`, or the trigger when that
/// is empty.
pub open spec fn is_snippet_item(
    it: CompletionItem,
    s: Snippet,
    n: nat,
    filter_prefix: Seq<char>,
    lang: Seq<char>,
    cursor: Position,
) -> bool {
    &&& it.label@ == s.prefix@
    &&& it.kind == CompletionKind::Snippet
    &&& text_of(it.sort_text) == Some(s.prefix@)
    &&& text_of(it.filter_text) == Some(
        if filter_prefix.len() == 0 {
            s.prefix@
        } else {
            filter_prefix
        },
    )
    &&& text_of(it.detail) == Some(s.body@)
    &&& match s.description {
        Some(d) => it.documentation matches Some(Documentation::Markdown(m)) && m@
            == snippet_markdown(d@, lang, s.body@),
        None => it.documentation matches Some(Documentation::Markdown(m)) && m@
            == fenced(lang, s.body@),
    }
    &&& it.inserted() == Some(s.body@)
    &&& it.replaced() == Some(range_before(cursor, n))
    &&& it.snippet_format
}

fn append_str(s: &mut String, t: &str)
    ensures
        final(s)@ == old(s)@ + t@,
{
    s.append(t);
}

/// The item for snippet `s` that replaces `n` characters left of the cursor.
pub fn snippet_item(
    s: &Snippet,
    n: usize,
    filter_prefix: &str,
    lang: &str,
    cursor: Position,
) -> (it: CompletionItem)
    ensures
        is_snippet_item(it, *s, n as nat, filter_prefix@, lang@, cursor),
{
    let documentation = match &s.description {
        Some(d) => {
            let mut m = d.clone();
            append_str(&mut m, "\n```");
            append_str(&mut m, lang);
            append_str(&mut m, "\n");
            append_str(&mut m, s.body.as_str());
            append_str(&mut m, "\n```");
            proof {
                reveal_strlit("\n```");
                reveal_strlit("\n");
                assert(m@ =~= snippet_markdown(d@, lang@, s.body@));
            }
            Documentation::Markdown(m)
        },
        None => {
            let mut m = String::from_str("```");
            append_str(&mut m, lang);
            append_str(&mut m, "\n");
            append_str(&mut m, s.body.as_str());
            append_str(&mut m, "\n```");
            proof {
                reveal_strlit("```");
                reveal_strlit("\n```");
                reveal_strlit("\n");
                assert(m@ =~= fenced(lang@, s.body@));
            }
            Documentation::Markdown(m)
        },
    };
    let filter_text = if filter_prefix.unicode_len() == 0 {
        s.prefix.clone()
    } else {
        filter_prefix.to_owned()
    };
    CompletionItem {
        label: s.prefix.clone(),
        kind: CompletionKind::Snippet,
        sort_text: Some(s.prefix.clone()),
        filter_text: Some(filter_text),
        detail: Some(s.body.clone()),
        documentation: Some(documentation),
        text_edit: Some(TextEdit { range: range_before_exec(cursor, n), new_text: s.body.clone() }),
        snippet_format: true,
    }
}

/// Whether snippet `s` matches `prefix` in `lang`.
pub fn snippet_matches_exec(s: &Snippet, prefix: &str, exact: bool, lang: &str) -> (r: bool)
    ensures
        r == snippet_matches(*s, prefix@, exact, lang@),
{
    let scoped = match &s.scope {
        None => true,
        Some(v) => {
            if v.len() == 0 {
                true
            } else {
                let mut found = false;
                let mut i: usize = 0;
                while i < v.len()
                    invariant
                        i <= v@.len(),
                        found == exists|k: int| 0 <= k < i && #[trigger] v@[k]@ == lang@,
                    decreases v.len() - i,
                {
                    if crate::strings::str_eq(v[i].as_str(), lang) {
                        found = true;
                    }
                    i += 1;
                }
                found
            }
        },
    };
    if !scoped {
        return false;
    }
    if exact {
        caseless_match(s.prefix.as_str(), prefix)
    } else {
        starts_with(s.prefix.as_str(), prefix)
    }
}

/// The items for the snippets of `snips` that match `prefix` in `lang`, in
/// order, at most `max_items` of them; each replaces the prefix left of the
/// cursor.
pub fn snippets(
    snips: &Vec<Snippet>,
    prefix: &str,
    filter_text_prefix: &str,
    exact: bool,
    lang: &str,
    cursor: Position,
    max_items: usize,
) -> (r: Vec<CompletionItem>)
    ensures
        ({
            let m = matching_snippets(snips@, prefix@, exact, lang@);
            &&& r@.len() == if m.len() < max_items {
                m.len()
            } else {
                max_items as nat
            }
            &&& forall|i: int|
                0 <= i < r@.len() ==> is_snippet_item(
                    #[trigger] r@[i],
                    m[i],
                    prefix@.len(),
                    filter_text_prefix@,
                    lang@,
                    cursor,
                )
        }),
{
    let n = prefix.unicode_len();
    let mut out: Vec<CompletionItem> = Vec::new();
    let mut i: usize = 0;
    while i < snips.len()
        invariant
            i <= snips@.len(),
            n == prefix@.len(),
            ({
                let m = matching_snippets(snips@.take(i as int), prefix@, exact, lang@);
                &&& out@.len() == if m.len() < max_items {
                    m.len()
                } else {
                    max_items as nat
                }
                &&& forall|k: int|
                    0 <= k < out@.len() ==> is_snippet_item(
                        #[trigger] out@[k],
                        m[k],
                        prefix@.len(),
                        filter_text_prefix@,
                        lang@,
                        cursor,
                    )
            }),
        decreases snips.len() - i,
    {
        assert(snips@.take(i + 1).drop_last() =~= snips@.take(i as int));
        let ghost m = matching_snippets(snips@.take(i as int), prefix@, exact, lang@);
        if snippet_matches_exec(&snips[i], prefix, exact, lang) {
            if out.len() < max_items {
                let it = snippet_item(&snips[i], n, filter_text_prefix, lang, cursor);
                out.push(it);
                let ghost m2 = matching_snippets(snips@.take(i + 1), prefix@, exact, lang@);
                assert(m2 == m.push(snips@[i as int]));
                assert forall|k: int| 0 <= k < out@.len() implies is_snippet_item(
                    #[trigger] out@[k],
                    m2[k],
                    prefix@.len(),
                    filter_text_prefix@,
                    lang@,
                    cursor,
                ) by {
                    if k < out@.len() - 1 {
                        assert(m2[k] == m[k]);
                    }
                }
            }
        }
        i += 1;
    }
    assert(snips@.take(i as int) =~= snips@);
    out
}

/// The snippets matched by the tail of `cp` that starts at `k`, each with
/// the tail's length; none for a tail shorter than `min_len` or longer than
/// `max_len`.
pub open spec fn snippet_segment(
    snips: Seq<Snippet>,
    cp: Seq<char>,
    k: int,
    lang: Seq<char>,
    min_len: nat,
    max_len: nat,
) -> Seq<(Snippet, nat)> {
    let n = (cp.len() - k) as nat;
    if n < min_len || n > max_len {
        Seq::empty()
    } else {
        matching_snippets(snips, cp.skip(k), false, lang).map_values(|s: Snippet| (s, n))
    }
}

/// What the tails that start before `k` match, longest tail first.
pub open spec fn snippet_emitted(
    snips: Seq<Snippet>,
    cp: Seq<char>,
    k: int,
    lang: Seq<char>,
    min_len: nat,
    max_len: nat,
) -> Seq<(Snippet, nat)>
    decreases k,
{
    if k <= 0 {
        Seq::empty()
    } else {
        snippet_emitted(snips, cp, k - 1, lang, min_len, max_len) + snippet_segment(
            snips,
            cp,
            k - 1,
            lang,
            min_len,
            max_len,
        )
    }
}

/// Snippets matched by the tails of `chars_prefix`, longest tail first: for
/// each tail no shorter than `min_len` and no longer than `max_len`, the
/// snippets whose trigger starts with it, in order; the first `max_items`
/// of these, each replacing its tail and filtered by the whole char prefix.
pub fn snippets_by_word_tail(
    snips: &Vec<Snippet>,
    chars_prefix: &str,
    lang: &str,
    cursor: Position,
    min_len: usize,
    max_len: usize,
    max_items: usize,
) -> (r: Vec<CompletionItem>)
    ensures
        ({
            let all = snippet_emitted(snips@, chars_prefix@, chars_prefix@.len() as int, lang@, min_len as nat, max_len as nat);
            &&& r@.len() == min_len_of(all.len(), max_items as nat)
            &&& forall|i: int|
                0 <= i < r@.len() ==> is_snippet_item(
                    #[trigger] r@[i],
                    all[i].0,
                    all[i].1,
                    chars_prefix@,
                    lang@,
                    cursor,
                )
        }),
{
    let cp = chars_of(chars_prefix);
    let ghost mn = min_len as nat;
    let ghost mx = max_len as nat;
    let mut out: Vec<CompletionItem> = Vec::new();
    let mut index: usize = 0;
    while index < cp.len()
        invariant
            cp@ == chars_prefix@,
            mn == min_len as nat,
            mx == max_len as nat,
            index <= cp@.len(),
            out@.len() == min_len_of(snippet_emitted(snips@, cp@, index as int, lang@, mn, mx).len(), max_items as nat),
            forall|i: int|
                0 <= i < out@.len() ==> is_snippet_item(
                    #[trigger] out@[i],
                    snippet_emitted(snips@, cp@, index as int, lang@, mn, mx)[i].0,
                    snippet_emitted(snips@, cp@, index as int, lang@, mn, mx)[i].1,
                    chars_prefix@,
                    lang@,
                    cursor,
                ),
        decreases cp.len() - index,
    {
        let ghost done = snippet_emitted(snips@, cp@, index as int, lang@, mn, mx);
        let ghost seg = snippet_segment(snips@, cp@, index as int, lang@, mn, mx);
        assert(snippet_emitted(snips@, cp@, index + 1, lang@, mn, mx) == done + seg);
        let part_len = cp.len() - index;
        if part_len >= min_len && part_len <= max_len {
            let part_chars = crate::snippets::slice_vec(&cp, index, cp.len());
            let part = string_of(part_chars.as_slice());
            assert(part@ == cp@.skip(index as int));
            let cap = if out.len() < max_items { max_items - out.len() } else { 0 };
            let found = snippets(snips, part.as_str(), chars_prefix, false, lang, cursor, cap);
            let ghost m = matching_snippets(snips@, part@, false, lang@);
            assert(seg =~= m.map_values(|s: Snippet| (s, part_len as nat)));
            let ghost before = out@;
            let mut k: usize = 0;
            while k < found.len()
                invariant
                    k <= found@.len(),
                    out@.len() == before.len() + k,
                    forall|i: int| 0 <= i < before.len() ==> out@[i] == before[i],
                    forall|i: int| 0 <= i < k ==> out@[before.len() + i] == found@[i],
                decreases found.len() - k,
            {
                out.push(found[k].clone_item());
                k += 1;
            }
            proof {
                let cur = done + seg;
                assert forall|i: int| 0 <= i < out@.len() implies is_snippet_item(
                    #[trigger] out@[i],
                    cur[i].0,
                    cur[i].1,
                    chars_prefix@,
                    lang@,
                    cursor,
                ) by {
                    if i < before.len() {
                        assert(out@[i] == before[i]);
                        assert(cur[i] == done[i]);
                    } else {
                        let q = i - before.len();
                        assert(out@[i] == found@[q]);
                        assert(before.len() == done.len());
                        assert(cur[i] == seg[q]);
                        assert(seg[q] == (m[q], part_len as nat));
                    }
                }
            }
        } else {
            assert(seg =~= Seq::<(Snippet, nat)>::empty());
            assert(done + seg =~= done);
        }
        index += 1;
    }
    out
}

/// The character of a decimal digit.
pub open spec fn digit_char(d: nat) -> char {
    if d == 0 { '0' } else if d == 1 { '1' } else if d == 2 { '2' } else if d == 3 { '3' }
    else if d == 4 { '4' } else if d == 5 { '5' } else if d == 6 { '6' } else if d == 7 { '7' }
    else if d == 8 { '8' } else { '9' }
}

/// The decimal digits of `n`.
pub open spec fn decimal(n: nat) -> Seq<char>
    decreases n,
{
    if n < 10 {
        seq![digit_char(n)]
    } else {
        decimal(n / 10).push(digit_char(n % 10))
    }
}

/// `n` in decimal, padded with zeros to two digits.
pub open spec fn sort_key(n: nat) -> Seq<char> {
    if n < 10 {
        seq!['0', digit_char(n)]
    } else {
        decimal(n)
    }
}

fn digit_char_exec(d: usize) -> (c: char)
    requires
        d < 10,
    ensures
        c == digit_char(d as nat),
{
    if d == 0 { '0' } else if d == 1 { '1' } else if d == 2 { '2' } else if d == 3 { '3' }
    else if d == 4 { '4' } else if d == 5 { '5' } else if d == 6 { '6' } else if d == 7 { '7' }
    else if d == 8 { '8' } else { '9' }
}

fn decimal_exec(n: usize) -> (r: Vec<char>)
    ensures
        r@ == decimal(n as nat),
    decreases n,
{
    if n < 10 {
        let mut v = Vec::new();
        v.push(digit_char_exec(n));
        assert(v@ =~= seq![digit_char(n as nat)]);
        v
    } else {
        let mut v = decimal_exec(n / 10);
        v.push(digit_char_exec(n % 10));
        v
    }
}

/// The sort key of the item at `n`: its decimal form padded to two digits.
pub fn sort_key_exec(n: usize) -> (r: String)
    ensures
        r@ == sort_key(n as nat),
{
    if n < 10 {
        let mut v = Vec::new();
        v.push('0');
        v.push(digit_char_exec(n));
        assert(v@ =~= seq!['0', digit_char(n as nat)]);
        string_of(v.as_slice())
    } else {
        let v = decimal_exec(n);
        string_of(v.as_slice())
    }
}

/// The entries of `items` whose trigger starts with `part`, in order.
pub open spec fn tail_matches(items: Seq<UnicodeInputItem>, part: Seq<char>) -> Seq<UnicodeInputItem>
    decreases items.len(),
{
    if items.len() == 0 {
        Seq::empty()
    } else {
        let r = tail_matches(items.drop_last(), part);
        if caseless_starts_with(items.last().prefix@, part) {
            r.push(items.last())
        } else {
            r
        }
    }
}

/// The entries matched by the tail of `cp` that starts at `k`, each with
/// the tail's length; none for a tail shorter than `min_len` or longer than
/// `max_len`.
pub open spec fn unicode_segment(
    items: Seq<UnicodeInputItem>,
    cp: Seq<char>,
    k: int,
    min_len: nat,
    max_len: nat,
) -> Seq<(UnicodeInputItem, nat)> {
    let n = (cp.len() - k) as nat;
    if n < min_len || n > max_len {
        Seq::empty()
    } else {
        tail_matches(items, cp.skip(k)).map_values(|e: UnicodeInputItem| (e, n))
    }
}

/// What the tails that start before `k` match, longest tail first.
pub open spec fn unicode_emitted(
    items: Seq<UnicodeInputItem>,
    cp: Seq<char>,
    k: int,
    min_len: nat,
    max_len: nat,
) -> Seq<(UnicodeInputItem, nat)>
    decreases k,
{
    if k <= 0 {
        Seq::empty()
    } else {
        unicode_emitted(items, cp, k - 1, min_len, max_len) + unicode_segment(
            items,
            cp,
            k - 1,
            min_len,
            max_len,
        )
    }
}

/// `it` is the unicode-input item at position `pos` of a response for entry
/// `e` matched by a tail of length `n`: it offers the body, replaces the
/// tail, and filters by the word prefix followed by the trigger.
pub open spec fn is_unicode_item(
    it: CompletionItem,
    pos: nat,
    e: UnicodeInputItem,
    n: nat,
    word_prefix: Seq<char>,
    cursor: Position,
) -> bool {
    &&& it.label@ == e.body@
    &&& it.kind == CompletionKind::Text
    &&& text_of(it.sort_text) == Some(sort_key(pos))
    &&& text_of(it.filter_text) == Some(word_prefix + e.prefix@)
    &&& (it.documentation matches Some(Documentation::PlainText(d)) && d@ == e.prefix@)
    &&& it.inserted() == Some(e.body@)
    &&& it.replaced() == Some(range_before(cursor, n))
    &&& !it.snippet_format
}

/// The smaller of two lengths.
pub open spec fn min_len_of(a: nat, b: nat) -> nat {
    if a < b { a } else { b }
}

/// Unicode-input items for the tails of `chars_prefix`, longest tail first:
/// for each tail no shorter than `min_len` and no longer than `max_len`, the
/// entries whose trigger starts with it, in table order; the first
/// `max_items` of these, each with its position as sort key.
pub fn unicode_input(
    items: &Vec<UnicodeInputItem>,
    word_prefix: &str,
    chars_prefix: &str,
    cursor: Position,
    min_len: usize,
    max_len: usize,
    max_items: usize,
) -> (r: Vec<CompletionItem>)
    ensures
        ({
            let all = unicode_emitted(items@, chars_prefix@, chars_prefix@.len() as int, min_len as nat, max_len as nat);
            &&& r@.len() == min_len_of(all.len(), max_items as nat)
            &&& forall|i: int|
                0 <= i < r@.len() ==> is_unicode_item(
                    #[trigger] r@[i],
                    i as nat,
                    all[i].0,
                    all[i].1,
                    word_prefix@,
                    cursor,
                )
        }),
{
    let cp = chars_of(chars_prefix);
    let ghost ip = items@;
    let ghost mn = min_len as nat;
    let ghost mx = max_len as nat;
    let mut out: Vec<CompletionItem> = Vec::new();
    let mut index: usize = 0;
    while index < cp.len()
        invariant
            cp@ == chars_prefix@,
            ip == items@,
            mn == min_len as nat,
            mx == max_len as nat,
            index <= cp@.len(),
            out@.len() == min_len_of(unicode_emitted(ip, cp@, index as int, mn, mx).len(), max_items as nat),
            forall|i: int|
                0 <= i < out@.len() ==> is_unicode_item(
                    #[trigger] out@[i],
                    i as nat,
                    unicode_emitted(ip, cp@, index as int, mn, mx)[i].0,
                    unicode_emitted(ip, cp@, index as int, mn, mx)[i].1,
                    word_prefix@,
                    cursor,
                ),
        decreases cp.len() - index,
    {
        let ghost done = unicode_emitted(ip, cp@, index as int, mn, mx);
        let ghost next = unicode_emitted(ip, cp@, index + 1, mn, mx);
        let part_len = cp.len() - index;
        let part_chars = crate::snippets::slice_vec(&cp, index, cp.len());
        let part = string_of(part_chars.as_slice());
        assert(part@ == cp@.skip(index as int));
        let active = part_len >= min_len && part_len <= max_len;
        let mut j: usize = 0;
        while j < items.len()
            invariant
                ip == items@,
                mn == min_len as nat,
                mx == max_len as nat,
                index < cp@.len(),
                j <= items@.len(),
                part@ == cp@.skip(index as int),
                part_len == cp@.len() - index,
                active == (part_len >= min_len && part_len <= max_len),
                done == unicode_emitted(ip, cp@, index as int, mn, mx),
                ({
                    let cur = done + if active {
                        tail_matches(ip.take(j as int), part@).map_values(|e: UnicodeInputItem| (e, part_len as nat))
                    } else {
                        Seq::empty()
                    };
                    &&& out@.len() == min_len_of(cur.len(), max_items as nat)
                    &&& forall|i: int|
                        0 <= i < out@.len() ==> is_unicode_item(
                            #[trigger] out@[i],
                            i as nat,
                            cur[i].0,
                            cur[i].1,
                            word_prefix@,
                            cursor,
                        )
                }),
            decreases items.len() - j,
        {
            assert(ip.take(j + 1).drop_last() =~= ip.take(j as int));
            let ghost before = tail_matches(ip.take(j as int), part@).map_values(|e: UnicodeInputItem| (e, part_len as nat));
            let e = &items[j];
            assert(ip.take(j + 1).last() == ip[j as int]);
            if active && starts_with(e.prefix.as_str(), part.as_str()) {
                let ghost cur0 = done + before;
                let ghost after = tail_matches(ip.take(j + 1), part@).map_values(|e: UnicodeInputItem| (e, part_len as nat));
                assert(after =~= before.push((ip[j as int], part_len as nat)));
                assert(done + after =~= cur0.push((ip[j as int], part_len as nat)));
                if out.len() < max_items {
                    let mut filter = word_prefix.to_owned();
                    filter.append(e.prefix.as_str());
                    let pos = out.len();
                    let it = CompletionItem {
                        label: e.body.clone(),
                        kind: CompletionKind::Text,
                        sort_text: Some(sort_key_exec(pos)),
                        filter_text: Some(filter),
                        detail: None,
                        documentation: Some(Documentation::PlainText(e.prefix.clone())),
                        text_edit: Some(
                            TextEdit {
                                range: range_before_exec(cursor, part_len),
                                new_text: e.body.clone(),
                            },
                        ),
                        snippet_format: false,
                    };
                    out.push(it);
                }
            } else if active {
                assert(tail_matches(ip.take(j + 1), part@) == tail_matches(ip.take(j as int), part@));
            }
            j += 1;
        }
        assert(ip.take(j as int) =~= ip);
        assert(next == done + unicode_segment(ip, cp@, index as int, mn, mx));
        proof {
            let seg = unicode_segment(ip, cp@, index as int, mn, mx);
            if active {
                let tm = tail_matches(ip, cp@.skip(index as int));
                assert(seg == tm.map_values(|e: UnicodeInputItem| (e, (cp@.len() - index) as nat)));
                assert(tail_matches(ip.take(j as int), part@) == tm);
                assert(seg =~= tail_matches(ip.take(j as int), part@).map_values(|e: UnicodeInputItem| (e, part_len as nat)));
            } else {
                assert(seg =~= Seq::<(UnicodeInputItem, nat)>::empty());
            }
        }
        index += 1;
    }
    out
}

impl Documentation {
    /// A copy of the documentation.
    pub fn clone_doc(&self) -> (r: Documentation)
        ensures
            r == *self,
    {
        match self {
            Documentation::PlainText(s) => Documentation::PlainText(s.clone()),
            Documentation::Markdown(s) => Documentation::Markdown(s.clone()),
        }
    }
}

fn clone_opt(o: &Option<String>) -> (r: Option<String>)
    ensures
        r == *o,
{
    match o {
        Some(s) => Some(s.clone()),
        None => None,
    }
}

impl CompletionItem {
    /// A copy of the item.
    pub fn clone_item(&self) -> (r: CompletionItem)
        ensures
            r == *self,
    {
        CompletionItem {
            label: self.label.clone(),
            kind: self.kind,
            sort_text: clone_opt(&self.sort_text),
            filter_text: clone_opt(&self.filter_text),
            detail: clone_opt(&self.detail),
            documentation: match &self.documentation {
                Some(d) => Some(d.clone_doc()),
                None => None,
            },
            text_edit: match &self.text_edit {
                Some(e) => Some(TextEdit { range: e.range, new_text: e.new_text.clone() }),
                None => None,
            },
            snippet_format: self.snippet_format,
        }
    }
}

} // verus!
