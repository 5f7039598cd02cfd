//! Citation completion: bibliography paths named in a buffer, and items for
//! the keys of the bibliographies read from them.

use biblatex::Type;
use vstd::prelude::*;
use vstd::string::StringExecFns;
use crate::completion::{CompletionItem, CompletionKind, Documentation, Position, TextEdit, range_before, range_before_exec, text_of};
use crate::matching::{caseless_starts_with, starts_with};
use crate::paths::replace_first;
use crate::snippets::texts;
use crate::strings::{chars_of, string_of};
use crate::text::{TextBuffer, rope_chars};

verus! {

#[verifier::external_type_specification]
#[verifier::external_body]
pub struct ExRegex(regex_cursor::engines::meta::Regex);

#[verifier::external_type_specification]
#[verifier::external_body]
pub struct ExEntry(biblatex::Entry);

/// Whether regex_cursor's meta::Regex::new accepts a pattern.
pub uninterp spec fn regex_compiles(pattern: Seq<char>) -> bool;

/// What the regex compiled from `pattern` captures in `text`: for each
/// match in order, the text of its first group, or none when that group
/// did not take part or its span does not fall on character boundaries.
pub uninterp spec fn regex_groups(pattern: Seq<char>, text: Seq<char>) -> Seq<Option<Seq<char>>>;

/// The keys of the entries that biblatex::Bibliography::parse finds in a
/// source, in order; none when the source does not parse.
pub uninterp spec fn bib_keys(src: Seq<char>) -> Option<Seq<Seq<char>>>;

/// What the Debug format of str writes for a string: it quoted and escaped.
pub uninterp spec fn debug_str(s: Seq<char>) -> Seq<char>;

/// Relies on regex_cursor's meta::Regex::new: the compiled pattern, or none
/// when it is not a valid pattern.
#[verifier::external_body]
fn compile_regex(pattern: &str) -> (r: Option<regex_cursor::engines::meta::Regex>)
    ensures
        r is Some <==> regex_compiles(pattern@),
{
    regex_cursor::engines::meta::Regex::new(pattern).ok()
}

/// A bibliography pattern and the regex compiled from it.
pub struct BibPattern {
    pattern: String,
    regex: regex_cursor::engines::meta::Regex,
}

impl BibPattern {
    /// The pattern's text.
    pub closed spec fn pattern(&self) -> Seq<char> {
        self.pattern@
    }

    /// Compiles `pattern`; none when it is not a valid pattern. This is the
    /// only way to make a `BibPattern`, so its regex is always the one
    /// compiled from its pattern.
    pub fn compile(pattern: &str) -> (r: Option<BibPattern>)
        ensures
            r is Some <==> regex_compiles(pattern@),
            r matches Some(b) ==> b.pattern() == pattern@,
    {
        match compile_regex(pattern) {
            Some(regex) => Some(BibPattern { pattern: pattern.to_owned(), regex }),
            None => None,
        }
    }
}

/// The texts of a list of optional strings.
pub open spec fn opt_texts(v: Seq<Option<String>>) -> Seq<Option<Seq<char>>> {
    v.map_values(|o: Option<String>| match o {
        Some(s) => Some(s@),
        None => None,
    })
}

/// Relies on regex_cursor's meta::Regex::captures_iter over a rope cursor,
/// Captures::get_group and Rope::get_byte_slice: per match, the text of the
/// first group. The regex of a `BibPattern` is compiled from its pattern.
#[verifier::external_body]
fn capture_groups(p: &BibPattern, text: &ropey::Rope) -> (r: Vec<Option<String>>)
    ensures
        opt_texts(r@) == regex_groups(p.pattern(), rope_chars(*text)),
{
    let input = regex_cursor::Input::new(regex_cursor::RopeyCursor::new(text.slice(..)));
    p.regex
        .captures_iter(input)
        .map(|c| c.get_group(1).and_then(|s| text.get_byte_slice(s.start..s.end)).map(|s| s.to_string()))
        .collect()
}

/// Relies on biblatex::Bibliography::parse: the entries of a bibliography,
/// each with its key; none when the source does not parse.
#[verifier::external_body]
fn parse_bibliography(src: &str) -> (r: Option<Vec<(String, biblatex::Entry)>>)
    ensures
        r is Some <==> bib_keys(src@) is Some,
        r matches Some(v) ==> v@.len() == bib_keys(src@)->Some_0.len() && forall|i: int|
            0 <= i < v@.len() ==> #[trigger] v@[i].0@ == bib_keys(src@)->Some_0[i],
{
    biblatex::Bibliography::parse(src).ok().map(|b| b.into_iter().map(|e| (e.key.clone(), e)).collect())
}

/// Relies on biblatex::Entry::title: the title's chunks joined, if present.
#[verifier::external_body]
fn entry_title(e: &biblatex::Entry) -> (r: Option<String>) {
    e.title().ok().map(|t| t.iter().map(|c| c.v.get()).collect::<String>())
}

/// Relies on biblatex::Entry::author: each author as Person displays it, if
/// the field is present.
#[verifier::external_body]
fn entry_authors(e: &biblatex::Entry) -> (r: Option<Vec<String>>) {
    e.author().ok().map(|a| a.iter().map(|p| p.to_string()).collect())
}

/// Relies on biblatex::Entry::date and Type::to_chunks: the date's chunks
/// joined, empty when there is none.
#[verifier::external_body]
fn entry_date(e: &biblatex::Entry) -> (r: String) {
    match e.date() {
        Ok(biblatex::PermissiveType::Typed(d)) => d.to_chunks().iter().map(|c| c.v.get()).collect(),
        Ok(biblatex::PermissiveType::Chunks(v)) => v.iter().map(|c| c.v.get()).collect(),
        Err(_) => String::new(),
    }
}

/// Relies on the Display of biblatex::EntryType: the entry type's name.
#[verifier::external_body]
fn entry_type_name(e: &biblatex::Entry) -> (r: String) {
    e.entry_type.to_string()
}

/// Relies on biblatex::Entry::to_biblatex_string: the entry as BibLaTeX.
#[verifier::external_body]
fn entry_source(e: &biblatex::Entry) -> (r: String) {
    e.to_biblatex_string()
}

/// Relies on the Debug format of str: the string quoted and escaped.
#[verifier::external_body]
fn quoted(s: &str) -> (r: String)
    ensures
        r@ == debug_str(s@),
{
    format!("{s:?}")
}

/// A path with its first `~` replaced by the home directory.
pub open spec fn expand_home_spec(path: Seq<char>, home: Seq<char>) -> Seq<char> {
    replace_first(path, seq!['~'], home)
}

/// The bibliography paths that captured groups name: each group that took
/// part, with `~` expanded.
pub open spec fn paths_of_groups(groups: Seq<Option<Seq<char>>>, home: Seq<char>) -> Seq<Seq<char>>
    decreases groups.len(),
{
    if groups.len() == 0 {
        Seq::empty()
    } else {
        let r = paths_of_groups(groups.drop_last(), home);
        match groups.last() {
            Some(g) => r.push(expand_home_spec(g, home)),
            None => r,
        }
    }
}

/// The bibliography files that the buffer names: the first group of each
/// match of the pattern, with `~` expanded to the home directory.
pub fn bibliography_paths(p: &BibPattern, text: &TextBuffer, home: &str) -> (r: Vec<String>)
    ensures
        texts(r@) == paths_of_groups(regex_groups(p.pattern(), text@), home@),
{
    let groups = capture_groups(p, text.rope());
    let h = chars_of(home);
    let mut tilde: Vec<char> = Vec::new();
    tilde.push('~');
    assert(tilde@ =~= seq!['~']);
    let mut out: Vec<String> = Vec::new();
    let mut i: usize = 0;
    while i < groups.len()
        invariant
            i <= groups@.len(),
            h@ == home@,
            tilde@ == seq!['~'],
            texts(out@) == paths_of_groups(opt_texts(groups@).take(i as int), home@),
        decreases groups.len() - i,
    {
        assert(opt_texts(groups@).take(i + 1).drop_last() =~= opt_texts(groups@).take(i as int));
        let ghost before = out@;
        match &groups[i] {
            Some(g) => {
                let v = chars_of(g.as_str());
                let e = crate::paths::replace_first_exec(&v, &tilde, &h);
                out.push(string_of(e.as_slice()));
                assert(texts(out@) =~= texts(before).push(e@));
            },
            None => {},
        }
        i += 1;
    }
    assert(opt_texts(groups@).take(i as int) =~= opt_texts(groups@));
    out
}

/// Texts joined with commas.
pub open spec fn join_commas(v: Seq<Seq<char>>) -> Seq<char>
    decreases v.len(),
{
    if v.len() == 0 {
        Seq::empty()
    } else if v.len() == 1 {
        v[0]
    } else {
        join_commas(v.drop_last()) + seq![','] + v.last()
    }
}

/// The Markdown that documents an entry: the quoted title as a heading, the
/// authors in italics, then the entry type and the date; the entry's
/// BibLaTeX source when it has no title or no authors.
pub open spec fn markdown_of(
    title: Option<Seq<char>>,
    authors: Option<Seq<Seq<char>>>,
    entry_type: Seq<char>,
    date: Seq<char>,
    source: Seq<char>,
) -> Seq<char> {
    match (title, authors) {
        (Some(t), Some(a)) => "# "@ + debug_str(t) + "\n*"@ + join_commas(a) + "*\n\n"@ + entry_type + if date.len() > 0 {
            ", "@ + date
        } else {
            Seq::empty()
        },
        _ => "'''"@ + source + "'''\n\n*fallback to biblatex format*"@,
    }
}

fn append_str(s: &mut String, t: &str)
    ensures
        final(s)@ == old(s)@ + t@,
{
    s.append(t);
}

/// The Markdown that documents an entry with these fields.
pub fn entry_markdown_from(
    title: &Option<String>,
    authors: &Option<Vec<String>>,
    entry_type: &str,
    date: &str,
    source: &str,
) -> (r: String)
    ensures
        r@ == markdown_of(
            match title { Some(t) => Some(t@), None => None },
            match authors { Some(a) => Some(texts(a@)), None => None },
            entry_type@,
            date@,
            source@,
        ),
{
    match (title, authors) {
        (Some(t), Some(a)) => {
            let mut m = String::from_str("# ");
            let q = quoted(t.as_str());
            append_str(&mut m, q.as_str());
            append_str(&mut m, "\n*");
            let mut i: usize = 0;
            let ghost head = m@;
            while i < a.len()
                invariant
                    i <= a@.len(),
                    m@ == head + join_commas(texts(a@).take(i as int)),
                decreases a.len() - i,
            {
                assert(texts(a@).take(i + 1).drop_last() =~= texts(a@).take(i as int));
                if i > 0 {
                    append_str(&mut m, ",");
                    proof {
                        reveal_strlit(",");
                    }
                } else {
                    assert(texts(a@).take(0) =~= Seq::<Seq<char>>::empty());
                    assert(texts(a@).take(1) =~= seq![a@[0]@]);
                }
                append_str(&mut m, a[i].as_str());
                i += 1;
            }
            assert(texts(a@).take(i as int) =~= texts(a@));
            append_str(&mut m, "*\n\n");
            append_str(&mut m, entry_type);
            if date.unicode_len() > 0 {
                append_str(&mut m, ", ");
                append_str(&mut m, date);
            }
            m
        },
        _ => {
            let mut m = String::from_str("'''");
            append_str(&mut m, source);
            append_str(&mut m, "'''\n\n*fallback to biblatex format*");
            m
        },
    }
}

/// A bibliography entry: its key and the Markdown that documents it.
pub struct BibEntry {
    pub key: String,
    pub documentation: String,
}

/// The keys of a list of entries.
pub open spec fn entry_keys(v: Seq<BibEntry>) -> Seq<Seq<char>> {
    v.map_values(|e: BibEntry| e.key@)
}

/// The keys of the sources one after the other; a source that does not
/// parse adds none.
pub open spec fn all_keys(sources: Seq<Seq<char>>) -> Seq<Seq<char>>
    decreases sources.len(),
{
    if sources.len() == 0 {
        Seq::empty()
    } else {
        all_keys(sources.drop_last()) + match bib_keys(sources.last()) {
            Some(k) => k,
            None => Seq::empty(),
        }
    }
}

/// The entries of the bibliography sources, in order, each documented by
/// `entry_markdown_from` over its fields; a source that does not parse adds
/// none, and every entry of one that does is kept.
pub fn bib_entries(sources: &Vec<String>) -> (r: Vec<BibEntry>)
    ensures
        entry_keys(r@) == all_keys(texts(sources@)),
{
    let mut out: Vec<BibEntry> = Vec::new();
    let mut s: usize = 0;
    while s < sources.len()
        invariant
            s <= sources@.len(),
            entry_keys(out@) == all_keys(texts(sources@).take(s as int)),
        decreases sources.len() - s,
    {
        assert(texts(sources@).take(s + 1).drop_last() =~= texts(sources@).take(s as int));
        let ghost before = entry_keys(out@);
        match parse_bibliography(sources[s].as_str()) {
            Some(entries) => {
                let ghost keys = bib_keys(sources@[s as int]@)->Some_0;
                let mut j: usize = 0;
                while j < entries.len()
                    invariant
                        j <= entries@.len(),
                        entries@.len() == keys.len(),
                        forall|i: int| 0 <= i < entries@.len() ==> #[trigger] entries@[i].0@ == keys[i],
                        entry_keys(out@) == before + keys.take(j as int),
                    decreases entries.len() - j,
                {
                    let e = &entries[j].1;
                    let title = entry_title(e);
                    let authors = entry_authors(e);
                    let ty = entry_type_name(e);
                    let date = entry_date(e);
                    let src = entry_source(e);
                    let documentation = entry_markdown_from(&title, &authors, ty.as_str(), date.as_str(), src.as_str());
                    let ghost prev = out@;
                    out.push(BibEntry { key: entries[j].0.clone(), documentation });
                    assert(entry_keys(out@) =~= entry_keys(prev).push(keys[j as int]));
                    assert(keys.take(j + 1) =~= keys.take(j as int).push(keys[j as int]));
                    j += 1;
                }
                assert(keys.take(j as int) =~= keys);
            },
            None => {
                assert(before + Seq::<Seq<char>>::empty() =~= before);
            },
        }
        s += 1;
    }
    assert(texts(sources@).take(s as int) =~= texts(sources@));
    out
}

/// `it` is the citation item for entry `e`: labelled `@key`, inserting the
/// bare key in place of the word prefix, documented by the entry's Markdown.
pub open spec fn is_citation_item(it: CompletionItem, e: BibEntry, word_prefix: Seq<char>, cursor: Position) -> bool {
    &&& is_key_item(it, e.key@, word_prefix, cursor)
    &&& (it.documentation matches Some(Documentation::Markdown(m)) && m@ == e.documentation@)
}

/// `it` is a citation item for `key`: labelled `@key`, inserting the bare
/// key in place of the word prefix, with Markdown documentation.
pub open spec fn is_key_item(it: CompletionItem, key: Seq<char>, word_prefix: Seq<char>, cursor: Position) -> bool {
    &&& it.label@ == seq!['@'] + key
    &&& it.kind == CompletionKind::Reference
    &&& text_of(it.sort_text) == Some(word_prefix)
    &&& text_of(it.filter_text) == Some(word_prefix)
    &&& it.inserted() == Some(key)
    &&& it.replaced() == Some(range_before(cursor, word_prefix.len()))
    &&& it.documentation matches Some(Documentation::Markdown(_))
    &&& !it.snippet_format
}

/// `it` is a citation item for a key that starts with the word prefix.
pub open spec fn is_citation(it: CompletionItem, word_prefix: Seq<char>, cursor: Position) -> bool {
    exists|k: Seq<char>| caseless_starts_with(k, word_prefix) && is_key_item(it, k, word_prefix, cursor)
}

/// The entries whose key starts with `word_prefix` under caseless matching,
/// in order.
pub open spec fn matching_entries(entries: Seq<BibEntry>, word_prefix: Seq<char>) -> Seq<BibEntry>
    decreases entries.len(),
{
    if entries.len() == 0 {
        Seq::empty()
    } else {
        let r = matching_entries(entries.drop_last(), word_prefix);
        if caseless_starts_with(entries.last().key@, word_prefix) {
            r.push(entries.last())
        } else {
            r
        }
    }
}

/// The keys that start with `word_prefix` under caseless matching, in order.
pub open spec fn matching_keys(keys: Seq<Seq<char>>, word_prefix: Seq<char>) -> Seq<Seq<char>>
    decreases keys.len(),
{
    if keys.len() == 0 {
        Seq::empty()
    } else {
        let r = matching_keys(keys.drop_last(), word_prefix);
        if caseless_starts_with(keys.last(), word_prefix) {
            r.push(keys.last())
        } else {
            r
        }
    }
}

proof fn lemma_matching_keys(entries: Seq<BibEntry>, word_prefix: Seq<char>)
    ensures
        entry_keys(matching_entries(entries, word_prefix)) == matching_keys(entry_keys(entries), word_prefix),
        forall|i: int| 0 <= i < matching_keys(entry_keys(entries), word_prefix).len() ==> caseless_starts_with(
            #[trigger] matching_keys(entry_keys(entries), word_prefix)[i],
            word_prefix,
        ),
    decreases entries.len(),
{
    if entries.len() > 0 {
        lemma_matching_keys(entries.drop_last(), word_prefix);
        assert(entry_keys(entries).drop_last() =~= entry_keys(entries.drop_last()));
        let m = matching_entries(entries.drop_last(), word_prefix);
        assert(entry_keys(m.push(entries.last())) =~= entry_keys(m).push(entries.last().key@));
        let mk = matching_keys(entry_keys(entries.drop_last()), word_prefix);
        let full = matching_keys(entry_keys(entries), word_prefix);
        assert forall|i: int| 0 <= i < full.len() implies caseless_starts_with(#[trigger] full[i], word_prefix) by {
            if i < mk.len() {
                assert(full[i] == mk[i]);
            }
        }
    }
}

/// The items for the entries whose key starts with `word_prefix`, in order,
/// at most `max_items` of them.
pub fn citation_items_from(entries: &Vec<BibEntry>, word_prefix: &str, cursor: Position, max_items: usize) -> (r: Vec<CompletionItem>)
    ensures
        ({
            let m = matching_entries(entries@, word_prefix@);
            &&& r@.len() == if m.len() < max_items { m.len() } else { max_items as nat }
            &&& forall|i: int| 0 <= i < r@.len() ==> is_citation_item(#[trigger] r@[i], m[i], word_prefix@, cursor)
        }),
{
    let n = word_prefix.unicode_len();
    let mut out: Vec<CompletionItem> = Vec::new();
    let mut j: usize = 0;
    while j < entries.len()
        invariant
            j <= entries@.len(),
            n == word_prefix@.len(),
            ({
                let m = matching_entries(entries@.take(j as int), word_prefix@);
                &&& out@.len() == if m.len() < max_items { m.len() } else { max_items as nat }
                &&& forall|i: int| 0 <= i < out@.len() ==> is_citation_item(#[trigger] out@[i], m[i], word_prefix@, cursor)
            }),
        decreases entries.len() - j,
    {
        assert(entries@.take(j + 1).drop_last() =~= entries@.take(j as int));
        let ghost m = matching_entries(entries@.take(j as int), word_prefix@);
        let e = &entries[j];
        if starts_with(e.key.as_str(), word_prefix) && out.len() < max_items {
            let mut label = String::from_str("@");
            append_str(&mut label, e.key.as_str());
            proof {
                reveal_strlit("@");
                assert(label@ =~= seq!['@'] + e.key@);
            }
            let it = CompletionItem {
                label,
                kind: CompletionKind::Reference,
                sort_text: Some(word_prefix.to_owned()),
                filter_text: Some(word_prefix.to_owned()),
                detail: None,
                documentation: Some(Documentation::Markdown(e.documentation.clone())),
                text_edit: Some(TextEdit { range: range_before_exec(cursor, n), new_text: e.key.clone() }),
                snippet_format: false,
            };
            out.push(it);
            let ghost m2 = matching_entries(entries@.take(j + 1), word_prefix@);
            assert(m2 == m.push(entries@[j as int]));
            assert forall|i: int| 0 <= i < out@.len() implies is_citation_item(#[trigger] out@[i], m2[i], word_prefix@, cursor) by {
                if i < out@.len() - 1 {
                    assert(m2[i] == m[i]);
                }
            }
        }
        j += 1;
    }
    assert(entries@.take(j as int) =~= entries@);
    out
}

/// The citation items for the sources: for the keys of the sources that
/// parse, in order, those that start with `word_prefix` under caseless
/// matching, at most `max_items` of them.
pub open spec fn citation_result(r: Seq<CompletionItem>, sources: Seq<Seq<char>>, word_prefix: Seq<char>, cursor: Position, max_items: nat) -> bool {
    let mk = matching_keys(all_keys(sources), word_prefix);
    &&& r.len() == if mk.len() < max_items { mk.len() } else { max_items }
    &&& forall|i: int| 0 <= i < r.len() ==> is_key_item(#[trigger] r[i], mk[i], word_prefix, cursor)
}

/// Items for the keys that start with `word_prefix`, from the bibliography
/// sources in order; a source that does not parse is skipped, and every
/// entry of one that does counts, with or without title and authors.
pub fn citation_items(sources: &Vec<String>, word_prefix: &str, cursor: Position, max_items: usize) -> (r: Vec<CompletionItem>)
    ensures
        citation_result(r@, texts(sources@), word_prefix@, cursor, max_items as nat),
        forall|i: int| 0 <= i < r@.len() ==> is_citation(#[trigger] r@[i], word_prefix@, cursor),
{
    let entries = bib_entries(sources);
    let r = citation_items_from(&entries, word_prefix, cursor, max_items);
    proof {
        lemma_matching_keys(entries@, word_prefix@);
        let m = matching_entries(entries@, word_prefix@);
        let mk = matching_keys(all_keys(texts(sources@)), word_prefix@);
        assert(mk == entry_keys(m));
        assert forall|i: int| 0 <= i < r@.len() implies is_key_item(#[trigger] r@[i], mk[i], word_prefix@, cursor) by {
            assert(is_citation_item(r@[i], m[i], word_prefix@, cursor));
            assert(mk[i] == m[i].key@);
        }
        assert forall|i: int| 0 <= i < r@.len() implies is_citation(#[trigger] r@[i], word_prefix@, cursor) by {
            assert(is_key_item(r@[i], mk[i], word_prefix@, cursor));
            assert(caseless_starts_with(mk[i], word_prefix@));
        }
    }
    r
}

} // verus!
