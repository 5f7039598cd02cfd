//! The engine's state: open documents, settings and tables, and the
//! requests that change it or ask it for completions.

use vstd::prelude::*;
use crate::citations::{BibPattern, bibliography_paths, citation_items, citation_result, is_citation, paths_of_groups, regex_compiles, regex_groups};
use crate::completion::{
    CompletionItem, CompletionKind, Position, Range, is_snippet_item, is_unicode_item,
    matching_snippets, min_len_of, snippet_emitted, snippets, snippets_by_word_tail, unicode_emitted,
    unicode_input,
};
use crate::error::Error;
use crate::matching::is_prefix_char;
use crate::paths::{DirEntry, PathQuery, current_dir_of, is_path_item, kept_entries, logic_of, path_items, path_query, query_spec, trimmed};
use crate::snippets::texts;
use crate::prefix::{char_prefix_at, cursor_of, get_prefix, word_prefix_at};
use crate::search::{ac_builds, ac_searcher, distinct_texts, is_completion_word, search, searched};
use crate::settings::{BackendSettings, PartialBackendSettings, merge};
use crate::snippets::{Snippet, UnicodeInputItem};
use crate::strings::{chars_of, contains_seq, contains_str, str_eq};
use crate::text::{TextBuffer, edited, lf_count, line_start};

verus! {

/// An open document.
pub struct Document {
    pub uri: String,
    /// The file system path that the URI names.
    pub path: String,
    pub language_id: String,
    pub text: TextBuffer,
}

/// One change of a document: the span it replaces, or the whole text when
/// there is none, and the new text.
pub struct TextChange {
    pub range: Option<Range>,
    pub text: String,
}

/// The character index of a position, if it lies within the text.
pub open spec fn resolve(s: Seq<char>, p: Position) -> Option<int> {
    match cursor_of(s, p.line as nat, p.character as nat) {
        Some(c) => if c <= s.len() {
            Some(c)
        } else {
            None
        },
        None => None,
    }
}

/// The text after one change; none when its start lies past its end.
pub open spec fn apply_change(s: Seq<char>, range: Option<Range>, text: Seq<char>) -> Option<Seq<char>> {
    match range {
        None => Some(text),
        Some(r) => match (resolve(s, r.start), resolve(s, r.end)) {
            (Some(a), None) => Some(edited(s, a, s.len() as int, text)),
            (Some(a), Some(b)) => if a <= b {
                Some(edited(s, a, b, text))
            } else {
                None
            },
            (None, _) => Some(text),
        },
    }
}

/// The text after the changes, in order; none when one of them fails.
pub open spec fn apply_changes(s: Seq<char>, changes: Seq<TextChange>) -> Option<Seq<char>>
    decreases changes.len(),
{
    if changes.len() == 0 {
        Some(s)
    } else {
        match apply_changes(s, changes.drop_last()) {
            Some(t) => apply_change(t, changes.last().range, changes.last().text@),
            None => None,
        }
    }
}

/// `new` is `old` with document `i` given other text only: same count, the
/// same URI, path and language at `i`, every other document unchanged.
pub open spec fn only_text_changed(old: Seq<Document>, new: Seq<Document>, i: int) -> bool {
    &&& new.len() == old.len()
    &&& 0 <= i < old.len()
    &&& new[i].uri == old[i].uri
    &&& new[i].path == old[i].path
    &&& new[i].language_id == old[i].language_id
    &&& forall|k: int| 0 <= k < old.len() && k != i ==> new[k] == old[k]
}

/// The index of the document at `uri`: the last one with that URI.
pub open spec fn lookup(docs: Seq<Document>, uri: Seq<char>) -> Option<int>
    decreases docs.len(),
{
    if docs.len() == 0 {
        None
    } else if docs.last().uri@ == uri {
        Some(docs.len() - 1)
    } else {
        lookup(docs.drop_last(), uri)
    }
}

proof fn lemma_lookup(docs: Seq<Document>, uri: Seq<char>)
    ensures
        lookup(docs, uri) matches Some(i) ==> 0 <= i < docs.len() && docs[i].uri@ == uri,
    decreases docs.len(),
{
    if docs.len() > 0 && docs.last().uri@ != uri {
        lemma_lookup(docs.drop_last(), uri);
    }
}

/// The character index of `p` in `text`, if it lies within it.
pub fn resolve_exec(text: &TextBuffer, p: Position) -> (r: Option<usize>)
    ensures
        r matches Some(c) ==> resolve(text@, p) == Some(c as int),
        r is None ==> resolve(text@, p) is None,
{
    let start = match text.line_to_char(p.line) {
        Some(s) => s,
        None => return None,
    };
    let len = text.len_chars();
    if p.character > len || start > len - p.character {
        return None;
    }
    Some(start + p.character)
}

/// What a completion request needs: the document, the cursor and its
/// prefixes, and what must be read from disk to finish it.
pub struct CompletionPlan {
    /// Index of the document.
    pub doc: usize,
    pub cursor: Position,
    pub word_prefix: String,
    pub char_prefix: String,
    /// The response is empty whatever else holds.
    pub empty: bool,
    /// Citations fire and replace every other provider.
    pub citations: bool,
    /// Bibliography files to read when citations fire.
    pub bibliographies: Vec<String>,
    /// The directory to list for paths.
    pub path: Option<PathQuery>,
}

/// The state of the engine.
pub struct BackendState {
    pub home_dir: String,
    pub settings: BackendSettings,
    pub docs: Vec<Document>,
    pub snippets: Vec<Snippet>,
    pub unicode_input: Vec<UnicodeInputItem>,
    /// Length of the longest unicode-input trigger.
    pub max_unicode_input_prefix_len: usize,
    /// Length of the longest snippet trigger.
    pub max_snippet_input_prefix_len: usize,
    /// The compiled bibliography pattern, if it compiled.
    pub citation_bibliography_re: Option<BibPattern>,
}

/// The largest length of the snippet triggers.
pub open spec fn max_snippet_len(v: Seq<Snippet>) -> nat
    decreases v.len(),
{
    if v.len() == 0 {
        0
    } else {
        let m = max_snippet_len(v.drop_last());
        if v.last().prefix@.len() > m { v.last().prefix@.len() } else { m }
    }
}

/// The largest length of the unicode-input triggers.
pub open spec fn max_unicode_len(v: Seq<UnicodeInputItem>) -> nat
    decreases v.len(),
{
    if v.len() == 0 {
        0
    } else {
        let m = max_unicode_len(v.drop_last());
        if v.last().prefix@.len() > m { v.last().prefix@.len() } else { m }
    }
}

/// The response is empty at once: the char prefix is empty or starts with
/// whitespace.
pub open spec fn empty_response(char_prefix: Seq<char>) -> bool {
    char_prefix.len() == 0 || !is_prefix_char(char_prefix[0])
}

/// The items of the providers in merge order: snippets placed first, words,
/// snippets placed last, unicode input, paths.
pub fn merge_items(
    snippets_first: Vec<CompletionItem>,
    words: Vec<CompletionItem>,
    snippets_last: Vec<CompletionItem>,
    unicode: Vec<CompletionItem>,
    paths: Vec<CompletionItem>,
) -> (r: Vec<CompletionItem>)
    ensures
        r@ == snippets_first@ + words@ + snippets_last@ + unicode@ + paths@,
{
    let mut out = snippets_first;
    let mut words = words;
    let mut snippets_last = snippets_last;
    let mut unicode = unicode;
    let mut paths = paths;
    out.append(&mut words);
    out.append(&mut snippets_last);
    out.append(&mut unicode);
    out.append(&mut paths);
    out
}

/// `w` is a completion of `prefix` found in one of the documents.
pub open spec fn found_in_docs(docs: Seq<Document>, prefix: Seq<char>, w: Seq<char>) -> bool {
    exists|d: int| 0 <= d < docs.len() && is_completion_word(#[trigger] docs[d].text@, prefix, w)
}

fn lengths_max_snippets(v: &Vec<Snippet>) -> (m: usize)
    ensures
        m == max_snippet_len(v@),
{
    let mut m: usize = 0;
    let mut i: usize = 0;
    while i < v.len()
        invariant
            i <= v@.len(),
            m == max_snippet_len(v@.take(i as int)),
        decreases v.len() - i,
    {
        assert(v@.take(i + 1).drop_last() =~= v@.take(i as int));
        let n = v[i].prefix.as_str().unicode_len();
        if n > m {
            m = n;
        }
        i += 1;
    }
    assert(v@.take(i as int) =~= v@);
    m
}

fn lengths_max_unicode(v: &Vec<UnicodeInputItem>) -> (m: usize)
    ensures
        m == max_unicode_len(v@),
{
    let mut m: usize = 0;
    let mut i: usize = 0;
    while i < v.len()
        invariant
            i <= v@.len(),
            m == max_unicode_len(v@.take(i as int)),
        decreases v.len() - i,
    {
        assert(v@.take(i + 1).drop_last() =~= v@.take(i as int));
        let n = v[i].prefix.as_str().unicode_len();
        if n > m {
            m = n;
        }
        i += 1;
    }
    assert(v@.take(i as int) =~= v@);
    m
}

/// The item for a word found in the documents.
pub fn word_item(w: String) -> (it: CompletionItem)
    ensures
        it.label@ == w@,
        it.kind == CompletionKind::Text,
        it.text_edit is None,
        it.documentation is None,
        it.sort_text is None,
        it.filter_text is None,
{
    CompletionItem {
        label: w,
        kind: CompletionKind::Text,
        sort_text: None,
        filter_text: None,
        detail: None,
        documentation: None,
        text_edit: None,
        snippet_format: false,
    }
}

impl BackendState {
    /// A state with default settings, no documents and the given tables.
    pub fn new(home_dir: String, snippets: Vec<Snippet>, unicode_input: Vec<UnicodeInputItem>) -> (r: BackendState)
        ensures
            r.home_dir@ == home_dir@,
            r.docs@.len() == 0,
            r.snippets@ == snippets@,
            r.unicode_input@ == unicode_input@,
            r.max_snippet_input_prefix_len == max_snippet_len(snippets@),
            r.max_unicode_input_prefix_len == max_unicode_len(unicode_input@),
            r.settings.max_completion_items == 100,
            r.settings.max_chars_prefix_len == 64,
            r.settings.min_chars_prefix_len == 2,
            !r.settings.snippets_first,
            !r.settings.snippets_inline_by_word_tail,
            r.settings.citation_prefix_trigger@ == crate::settings::DEFAULT_CITATION_TRIGGER@,
            r.settings.citation_bibfile_extract_regexp@ == crate::settings::DEFAULT_BIBFILE_REGEXP@,
            r.settings.feature_words,
            r.settings.feature_snippets,
            r.settings.feature_unicode_input,
            !r.settings.feature_paths,
            !r.settings.feature_citations,
    {
        let settings = BackendSettings::default();
        let re = BibPattern::compile(settings.citation_bibfile_extract_regexp.as_str());
        let ms = lengths_max_snippets(&snippets);
        let mu = lengths_max_unicode(&unicode_input);
        BackendState {
            home_dir,
            settings,
            docs: Vec::new(),
            snippets,
            unicode_input,
            max_unicode_input_prefix_len: mu,
            max_snippet_input_prefix_len: ms,
            citation_bibliography_re: re,
        }
    }

    /// The index of the document at `uri`.
    pub fn find_doc(&self, uri: &str) -> (r: Option<usize>)
        ensures
            r matches Some(i) ==> lookup(self.docs@, uri@) == Some(i as int),
            r is None ==> lookup(self.docs@, uri@) is None,
    {
        let mut n = self.docs.len();
        assert(self.docs@.take(n as int) =~= self.docs@);
        while n > 0
            invariant
                n <= self.docs@.len(),
                lookup(self.docs@, uri@) == lookup(self.docs@.take(n as int), uri@),
            decreases n,
        {
            assert(self.docs@.take(n as int).drop_last() =~= self.docs@.take(n - 1));
            if str_eq(self.docs[n - 1].uri.as_str(), uri) {
                return Some(n - 1);
            }
            n -= 1;
        }
        None
    }

    /// Opens the document at `uri`, replacing one already open there.
    pub fn new_doc(&mut self, uri: String, path: String, language_id: String, text: &str)
        ensures
            lookup(final(self).docs@, uri@) matches Some(i) && final(self).docs@[i].text@ == text@
                && final(self).docs@[i].language_id@ == language_id@,
            final(self).settings == old(self).settings,
            final(self).snippets == old(self).snippets,
            final(self).unicode_input == old(self).unicode_input,
    {
        let doc = Document { uri, path, language_id, text: TextBuffer::from_str(text) };
        let ghost u = doc.uri@;
        match self.find_doc(doc.uri.as_str()) {
            Some(i) => {
                proof {
                    lemma_lookup(self.docs@, u);
                }
                self.docs.set(i, doc);
                proof {
                    lemma_lookup_same(self.docs@, old(self).docs@, u, i as int);
                }
            },
            None => {
                self.docs.push(doc);
                assert(self.docs@.drop_last() =~= old(self).docs@);
            },
        }
    }

    /// Replaces the text of the document at `uri`; `DocumentNotFound` when
    /// none is open there.
    pub fn save_doc(&mut self, uri: &str, text: &str) -> (r: Result<(), Error>)
        ensures
            r is Ok <==> lookup(old(self).docs@, uri@) is Some,
            r matches Err(e) ==> e == Error::DocumentNotFound && final(self).docs@ == old(self).docs@,
            r is Ok ==> lookup(final(self).docs@, uri@) == lookup(old(self).docs@, uri@)
                && final(self).docs@[lookup(old(self).docs@, uri@)->Some_0].text@ == text@
                && only_text_changed(old(self).docs@, final(self).docs@, lookup(old(self).docs@, uri@)->Some_0),
            final(self).settings == old(self).settings,
    {
        match self.find_doc(uri) {
            None => Err(Error::DocumentNotFound),
            Some(i) => {
                proof {
                    lemma_lookup(self.docs@, uri@);
                }
                let ghost u = self.docs@[i as int].uri@;
                let mut doc = self.docs.remove(i);
                doc.text = TextBuffer::from_str(text);
                let ghost d = doc;
                self.docs.insert(i, doc);
                assert(self.docs@ =~= old(self).docs@.update(i as int, d));
                proof {
                    lemma_lookup_same(self.docs@, old(self).docs@, u, i as int);
                }
                Ok(())
            },
        }
    }

    /// Applies `changes` in order to the document at `uri`. Fails with
    /// `DocumentNotFound` when none is open there, and with `BoundsError`
    /// when a change starts past its end.
    pub fn change_doc(&mut self, uri: &str, changes: &Vec<TextChange>) -> (r: Result<(), Error>)
        ensures
            lookup(old(self).docs@, uri@) is None ==> r == Err::<(), Error>(Error::DocumentNotFound)
                && final(self).docs@ == old(self).docs@,
            lookup(old(self).docs@, uri@) matches Some(i) ==> {
                &&& only_text_changed(old(self).docs@, final(self).docs@, i)
                &&& r is Ok <==> apply_changes(old(self).docs@[i].text@, changes@) is Some
                &&& r matches Err(e) ==> e == Error::BoundsError
                &&& r is Ok ==> final(self).docs@[i].text@ == apply_changes(old(self).docs@[i].text@, changes@)->Some_0
                &&& lookup(final(self).docs@, uri@) == Some(i)
            },
            final(self).settings == old(self).settings,
    {
        let i = match self.find_doc(uri) {
            None => return Err(Error::DocumentNotFound),
            Some(i) => i,
        };
        proof {
            lemma_lookup(self.docs@, uri@);
        }
        let ghost u = self.docs@[i as int].uri@;
        let ghost s0 = self.docs@[i as int].text@;
        let ghost d0 = self.docs@[i as int];
        let mut doc = self.docs.remove(i);
        let mut k: usize = 0;
        let mut failed = false;
        while k < changes.len()
            invariant_except_break
                !failed,
            invariant
                k <= changes@.len(),
                doc.uri@ == u,
                doc.uri == d0.uri,
                doc.path == d0.path,
                doc.language_id == d0.language_id,
                !failed ==> apply_changes(s0, changes@.take(k as int)) == Some(doc.text@),
                failed ==> apply_changes(s0, changes@) is None,
            ensures
                doc.uri@ == u,
                doc.uri == d0.uri,
                doc.path == d0.path,
                doc.language_id == d0.language_id,
                !failed ==> k == changes@.len() && apply_changes(s0, changes@.take(k as int)) == Some(doc.text@),
                failed ==> apply_changes(s0, changes@) is None,
            decreases changes.len() - k,
        {
            assert(changes@.take(k + 1).drop_last() =~= changes@.take(k as int));
            let ch = &changes[k];
            let ghost before = doc.text@;
            match ch.range {
                None => {
                    doc.text = TextBuffer::from_str(ch.text.as_str());
                },
                Some(r) => {
                    match (resolve_exec(&doc.text, r.start), resolve_exec(&doc.text, r.end)) {
                        (Some(a), None) => {
                            let len = doc.text.len_chars();
                            doc.text.replace(a, len, ch.text.as_str());
                        },
                        (Some(a), Some(b)) => {
                            if a <= b {
                                doc.text.replace(a, b, ch.text.as_str());
                            } else {
                                proof {
                                    assert(changes@.take(k + 1).last() == changes@[k as int]);
                                    assert(apply_change(before, ch.range, ch.text@) is None);
                                    assert(apply_changes(s0, changes@.take(k as int)) == Some(before));
                                    assert(apply_changes(s0, changes@.take(k + 1)) == apply_change(
                                        before,
                                        changes@[k as int].range,
                                        changes@[k as int].text@,
                                    ));
                                    lemma_changes_stay_failed(s0, changes@, (k + 1) as int);
                                }
                                failed = true;
                                break;
                            }
                        },
                        (None, _) => {
                            doc.text = TextBuffer::from_str(ch.text.as_str());
                        },
                    }
                },
            }
            k += 1;
        }
        if !failed {
            assert(changes@.take(k as int) =~= changes@);
        }
        let ghost d = doc;
        self.docs.insert(i, doc);
        assert(self.docs@ =~= old(self).docs@.update(i as int, d));
        proof {
            lemma_lookup_same(self.docs@, old(self).docs@, u, i as int);
        }
        if failed {
            Err(Error::BoundsError)
        } else {
            Ok(())
        }
    }

    /// Applies a settings update, and compiles the bibliography pattern
    /// again; `ParseError` when that pattern does not compile (the settings
    /// are updated either way).
    pub fn change_configuration(&mut self, settings: PartialBackendSettings) -> (r: Result<(), Error>)
        ensures
            final(self).settings@ == merge(old(self).settings@, settings@),
            final(self).docs == old(self).docs,
            r matches Err(e) ==> e == Error::ParseError,
            r is Ok <==> regex_compiles(final(self).settings.citation_bibfile_extract_regexp@),
            final(self).citation_bibliography_re is Some <==> r is Ok,
            final(self).citation_bibliography_re matches Some(p) ==> p.pattern()
                == final(self).settings.citation_bibfile_extract_regexp@,
    {
        self.settings = self.settings.apply_partial_settings(settings);
        self.citation_bibliography_re = BibPattern::compile(self.settings.citation_bibfile_extract_regexp.as_str());
        if self.citation_bibliography_re.is_none() {
            Err(Error::ParseError)
        } else {
            Ok(())
        }
    }

    /// Words of the documents that complete `prefix`: the search of
    /// document `current` first, then of each other document in order (one
    /// with the same URI is skipped), each adding to what came before until
    /// `max_completion_items` words are held. `SearchError` exactly when the
    /// automaton cannot be built.
    pub fn words(&self, prefix: &str, current: usize) -> (r: Result<Vec<String>, Error>)
        requires
            current < self.docs@.len(),
        ensures
            r is Ok <==> ac_builds(prefix@),
            r matches Err(e) ==> e == Error::SearchError,
            r matches Ok(v) ==> {
                &&& words_found(self.docs@, current as int, prefix@, self.settings.max_completion_items as nat, texts(v@))
                &&& distinct_texts(v@)
                &&& self.settings.max_completion_items > 0 ==> v@.len() <= self.settings.max_completion_items
                &&& forall|i: int| 0 <= i < v@.len() ==> found_in_docs(self.docs@, prefix@, #[trigger] v@[i]@)
            },
    {
        let ac = ac_searcher(prefix)?;
        let max = self.settings.max_completion_items;
        let ghost mx = max as nat;
        let ghost n = self.docs@.len();
        let ghost c = current as int;
        let mut result: Vec<String> = Vec::new();
        assert(texts(result@) =~= Seq::<Seq<char>>::empty());
        let _ = search(prefix, &self.docs[current].text, &ac, max, &mut result);
        assert forall|i: int| 0 <= i < result@.len() implies found_in_docs(self.docs@, prefix@, #[trigger] result@[i]@) by {
            assert(is_completion_word(self.docs@[current as int].text@, prefix@, result@[i]@));
        }
        let ghost mut rs: Seq<Seq<Seq<char>>> = seq![texts(result@)];
        if result.len() >= max {
            proof {
                let r0 = texts(result@);
                let all = Seq::new((n + 1) as nat, |k: int| r0);
                assert forall|d: int| 0 <= d < n implies #[trigger] step_ok(self.docs@, c, prefix@, mx, all, d) by {
                    assert(all[d] == r0 && all[d + 1] == r0);
                }
                assert(all.len() == n + 1);
                assert(all[n as int] == r0);
                assert(all[0] == r0);
                assert(searched(Seq::empty(), self.docs@[c].text@, prefix@, mx, all[0]));
                assert(words_found(self.docs@, c, prefix@, mx, r0));
            }
            return Ok(result);
        }
        let mut d: usize = 0;
        while d < self.docs.len()
            invariant
                d <= self.docs@.len(),
                n == self.docs@.len(),
                c == current,
                mx == max,
                ac_builds(prefix@),
                current < self.docs@.len(),
                ac.pattern() == prefix@,
                max == self.settings.max_completion_items,
                distinct_texts(result@),
                result@.len() < max,
                forall|i: int| 0 <= i < result@.len() ==> found_in_docs(self.docs@, prefix@, #[trigger] result@[i]@),
                rs.len() == d + 1,
                searched(Seq::empty(), self.docs@[c].text@, prefix@, mx, rs[0]),
                forall|k: int| 0 <= k < d ==> #[trigger] step_ok(self.docs@, c, prefix@, mx, rs, k),
                rs[d as int] == texts(result@),
            decreases self.docs.len() - d,
        {
            let ghost old_rs = rs;
            if d != current && !str_eq(self.docs[d].uri.as_str(), self.docs[current].uri.as_str()) {
                let ghost before = result@;
                let _ = search(prefix, &self.docs[d].text, &ac, max, &mut result);
                assert forall|i: int| 0 <= i < result@.len() implies found_in_docs(self.docs@, prefix@, #[trigger] result@[i]@) by {
                    if i < before.len() {
                        assert(result@.take(before.len() as int)[i] == before[i]);
                    } else {
                        assert(is_completion_word(self.docs@[d as int].text@, prefix@, result@[i]@));
                    }
                }
                proof {
                    rs = rs.push(texts(result@));
                    assert forall|k: int| 0 <= k < d + 1 implies #[trigger] step_ok(self.docs@, c, prefix@, mx, rs, k) by {
                        if k < d {
                            assert(step_ok(self.docs@, c, prefix@, mx, old_rs, k));
                            assert(rs[k] == old_rs[k] && rs[k + 1] == old_rs[k + 1]);
                        }
                    }
                }
                if result.len() >= max {
                    proof {
                        let rl = texts(result@);
                        let all = rs + Seq::new((n - d - 1) as nat, |k: int| rl);
                        assert forall|k: int| 0 <= k < n implies #[trigger] step_ok(self.docs@, c, prefix@, mx, all, k) by {
                            if k <= d {
                                assert(step_ok(self.docs@, c, prefix@, mx, rs, k));
                                assert(all[k] == rs[k] && all[k + 1] == rs[k + 1]);
                            } else {
                                assert(all[k] == rl && all[k + 1] == rl);
                            }
                        }
                        assert(all[0] == rs[0]);
                        assert(all.len() == n + 1);
                        assert(all[n as int] == rl);
                        assert(searched(Seq::empty(), self.docs@[c].text@, prefix@, mx, all[0]));
                        assert(words_found(self.docs@, c, prefix@, mx, rl));
                    }
                    return Ok(result);
                }
            } else {
                proof {
                    rs = rs.push(texts(result@));
                    assert forall|k: int| 0 <= k < d + 1 implies #[trigger] step_ok(self.docs@, c, prefix@, mx, rs, k) by {
                        if k < d {
                            assert(step_ok(self.docs@, c, prefix@, mx, old_rs, k));
                            assert(rs[k] == old_rs[k] && rs[k + 1] == old_rs[k + 1]);
                        }
                    }
                }
            }
            d += 1;
        }
        assert(rs.len() == n + 1);
        assert(words_found(self.docs@, c, prefix@, mx, texts(result@)));
        Ok(result)
    }
}

/// Document `d` is searched after the current one: it is another document,
/// at another URI.
pub open spec fn other_doc(docs: Seq<Document>, current: int, d: int) -> bool {
    d != current && docs[d].uri@ != docs[current].uri@
}

/// Step `d` of the word search over the documents: an other document
/// searched while fewer than `max` words are held adds its words; else
/// nothing changes.
pub open spec fn step_ok(docs: Seq<Document>, current: int, prefix: Seq<char>, max: nat, rs: Seq<Seq<Seq<char>>>, d: int) -> bool {
    if other_doc(docs, current, d) && rs[d].len() < max {
        searched(rs[d], docs[d].text@, prefix, max, rs[d + 1])
    } else {
        rs[d + 1] == rs[d]
    }
}

/// `out` is what the word search over the documents gives: the document at
/// `current` first, then the others in order, each adding to what came
/// before until `max` words are held.
pub open spec fn words_found(docs: Seq<Document>, current: int, prefix: Seq<char>, max: nat, out: Seq<Seq<char>>) -> bool {
    exists|rs: Seq<Seq<Seq<char>>>|
        #![trigger rs.len()]
        rs.len() == docs.len() + 1
        && searched(Seq::empty(), docs[current].text@, prefix, max, rs[0])
        && (forall|d: int| 0 <= d < docs.len() ==> #[trigger] step_ok(docs, current, prefix, max, rs, d))
        && out == rs[docs.len() as int]
}

/// The labels of a list of items.
pub open spec fn labels(v: Seq<CompletionItem>) -> Seq<Seq<char>> {
    v.map_values(|it: CompletionItem| it.label@)
}

/// `seg` is what the snippet provider gives for the plan: by the tails of
/// the char prefix when that mode is on, else by the word prefix (exact
/// when snippets come first), else nothing.
pub open spec fn snippet_part(seg: Seq<CompletionItem>, st: BackendState, plan: CompletionPlan) -> bool {
    let lang = st.docs@[plan.doc as int].language_id@;
    let max = st.settings.max_completion_items as nat;
    if st.settings.snippets_inline_by_word_tail {
        let all = snippet_emitted(
            st.snippets@,
            plan.char_prefix@,
            plan.char_prefix@.len() as int,
            lang,
            st.settings.min_chars_prefix_len as nat,
            st.max_snippet_input_prefix_len as nat,
        );
        &&& seg.len() == min_len_of(all.len(), max)
        &&& forall|i: int| 0 <= i < seg.len() ==> is_snippet_item(
            #[trigger] seg[i],
            all[i].0,
            all[i].1,
            plan.char_prefix@,
            lang,
            plan.cursor,
        )
    } else if plan.word_prefix@.len() > 0 {
        let m = matching_snippets(st.snippets@, plan.word_prefix@, st.settings.snippets_first, lang);
        &&& seg.len() == min_len_of(m.len(), max)
        &&& forall|i: int| 0 <= i < seg.len() ==> is_snippet_item(
            #[trigger] seg[i],
            m[i],
            plan.word_prefix@.len(),
            Seq::empty(),
            lang,
            plan.cursor,
        )
    } else {
        seg.len() == 0
    }
}

/// `r` is the merge of the providers' items in order: snippets placed
/// first, words, snippets placed last, unicode input, paths. Each segment
/// is empty unless its provider is on, and otherwise is what the provider
/// gives (words: whole words of the documents that complete the word
/// prefix, none repeated).
pub open spec fn merged(r: Seq<CompletionItem>, st: BackendState, plan: CompletionPlan, entries: Seq<DirEntry>) -> bool {
    let settings = st.settings;
    exists|a: Seq<CompletionItem>, b: Seq<CompletionItem>, c: Seq<CompletionItem>, d: Seq<CompletionItem>, e: Seq<CompletionItem>|
        #![trigger a + b + c + d + e]
        r == a + b + c + d + e
        && (if settings.feature_snippets && settings.snippets_first { snippet_part(a, st, plan) } else { a.len() == 0 })
        && (if settings.feature_words && plan.word_prefix@.len() > 0 {
            &&& (forall|i: int| 0 <= i < b.len() ==> (#[trigger] b[i]).kind == CompletionKind::Text
                && b[i].text_edit is None && found_in_docs(st.docs@, plan.word_prefix@, b[i].label@))
            &&& ac_builds(plan.word_prefix@) ==> words_found(
                st.docs@,
                plan.doc as int,
                plan.word_prefix@,
                settings.max_completion_items as nat,
                labels(b),
            )
            &&& !ac_builds(plan.word_prefix@) ==> b.len() == 0
        } else {
            b.len() == 0
        })
        && (if settings.feature_snippets && !settings.snippets_first { snippet_part(c, st, plan) } else { c.len() == 0 })
        && (if settings.feature_unicode_input {
            let all = unicode_emitted(
                st.unicode_input@,
                plan.char_prefix@,
                plan.char_prefix@.len() as int,
                settings.min_chars_prefix_len as nat,
                st.max_unicode_input_prefix_len as nat,
            );
            &&& d.len() == min_len_of(all.len(), settings.max_completion_items as nat)
            &&& forall|i: int| 0 <= i < d.len() ==> is_unicode_item(
                #[trigger] d[i],
                i as nat,
                all[i].0,
                all[i].1,
                plan.word_prefix@,
                plan.cursor,
            )
        } else {
            d.len() == 0
        })
        && (if settings.feature_paths && plan.path is Some {
            let q = plan.path->Some_0;
            let k = kept_entries(entries, q.name_prefix@);
            &&& e.len() == min_len_of(k.len(), settings.max_completion_items as nat)
            &&& forall|i: int| 0 <= i < e.len() ==> is_path_item(#[trigger] e[i], k[i], q, plan.word_prefix@, plan.cursor)
        } else {
            e.len() == 0
        })
}

impl BackendState {
    /// Prepares a completion at (`line`, `col`) of the document at `uri`:
    /// derives the prefixes and decides which providers run and what they
    /// need read. Fails with `DocumentNotFound` when no document is open
    /// there, and with `BoundsError` when the position is not in it.
    pub fn plan_completion(&self, uri: &str, line: usize, col: usize) -> (r: Result<CompletionPlan, Error>)
        ensures
            lookup(self.docs@, uri@) is None ==> r == Err::<CompletionPlan, Error>(Error::DocumentNotFound),
            lookup(self.docs@, uri@) matches Some(i) ==> {
                let s = self.docs@[i].text@;
                &&& r is Ok <==> (cursor_of(s, line as nat, col as nat) matches Some(c) && c <= s.len())
                &&& r matches Err(e) ==> e == Error::BoundsError
                &&& r matches Ok(p) ==> {
                    let c = cursor_of(s, line as nat, col as nat)->Some_0;
                    &&& p.doc == i
                    &&& p.cursor == Position { line, character: col }
                    &&& p.word_prefix@ == word_prefix_at(s, c)
                    &&& p.char_prefix@ == char_prefix_at(s, c, self.settings.max_chars_prefix_len as nat)
                    &&& p.empty == empty_response(p.char_prefix@)
                    &&& p.citations == (!p.empty && self.settings.feature_citations && contains_seq(
                        p.char_prefix@,
                        self.settings.citation_prefix_trigger@,
                    ))
                    &&& !p.citations ==> p.bibliographies@.len() == 0
                    &&& p.citations ==> texts(p.bibliographies@) == match self.citation_bibliography_re {
                        Some(bp) => paths_of_groups(regex_groups(bp.pattern(), s), self.home_dir@),
                        None => Seq::empty(),
                    }
                    &&& (p.empty || p.citations || !self.settings.feature_paths) ==> p.path is None
                    &&& !(p.empty || p.citations || !self.settings.feature_paths) ==> {
                        let qs = query_spec(p.char_prefix@, self.home_dir@, self.docs@[i].path@);
                        &&& (p.path is Some <==> qs is Some)
                        &&& p.path matches Some(q) ==> {
                            &&& q.dir@ == qs->Some_0.0
                            &&& q.name_prefix@ == qs->Some_0.1
                            &&& q.replace_len == qs->Some_0.2
                            &&& q.state.logic == logic_of(trimmed(p.char_prefix@))
                            &&& q.state.home_dir@ == self.home_dir@
                            &&& q.state.current_dir@ == current_dir_of(self.docs@[i].path@)
                        }
                    }
                }
            },
    {
        let i = match self.find_doc(uri) {
            None => return Err(Error::DocumentNotFound),
            Some(i) => i,
        };
        proof {
            lemma_lookup(self.docs@, uri@);
        }
        let doc = &self.docs[i];
        let p = get_prefix(&doc.text, line, col, self.settings.max_chars_prefix_len)?;
        let cp = chars_of(p.char_prefix.as_str());
        let empty = cp.len() == 0 || !crate::matching::char_is_char_prefix(cp[0]);
        let citations = !empty && self.settings.feature_citations && contains_str(
            p.char_prefix.as_str(),
            self.settings.citation_prefix_trigger.as_str(),
        );
        let bibliographies = if citations {
            match &self.citation_bibliography_re {
                Some(p) => bibliography_paths(p, &doc.text, self.home_dir.as_str()),
                None => {
                    let v = Vec::new();
                    assert(texts(v@) =~= Seq::<Seq<char>>::empty());
                    v
                },
            }
        } else {
            Vec::new()
        };
        let path = if !empty && !citations && self.settings.feature_paths {
            path_query(p.char_prefix.as_str(), self.home_dir.as_str(), doc.path.as_str())
        } else {
            None
        };
        Ok(CompletionPlan {
            doc: i,
            cursor: Position { line, character: col },
            word_prefix: p.word_prefix,
            char_prefix: p.char_prefix,
            empty,
            citations,
            bibliographies,
            path,
        })
    }

    /// Finishes a completion from its plan, the entries of the directory that
    /// the plan names and the sources of its bibliography files. An empty
    /// plan gives no items; when citations fire, the items are citations
    /// only; otherwise the providers that the settings turn on are merged in
    /// order.
    pub fn finish_completion(&self, plan: &CompletionPlan, entries: &Vec<DirEntry>, sources: &Vec<String>) -> (r: Vec<CompletionItem>)
        requires
            plan.doc < self.docs@.len(),
        ensures
            plan.empty ==> r@.len() == 0,
            !plan.empty && plan.citations ==> {
                &&& citation_result(r@, texts(sources@), plan.word_prefix@, plan.cursor, self.settings.max_completion_items as nat)
                &&& r@.len() <= self.settings.max_completion_items
                &&& forall|i: int| 0 <= i < r@.len() ==> is_citation(#[trigger] r@[i], plan.word_prefix@, plan.cursor)
            },
            !plan.empty && !plan.citations ==> merged(r@, *self, *plan, entries@),
    {
        if plan.empty {
            return Vec::new();
        }
        let max = self.settings.max_completion_items;
        if plan.citations {
            return citation_items(sources, plan.word_prefix.as_str(), plan.cursor, max);
        }
        let doc = &self.docs[plan.doc];
        let lang = doc.language_id.as_str();
        let has_word = plan.word_prefix.as_str().unicode_len() > 0;
        let snips: Vec<CompletionItem> = if !self.settings.feature_snippets {
            Vec::new()
        } else if self.settings.snippets_inline_by_word_tail {
            snippets_by_word_tail(
                &self.snippets,
                plan.char_prefix.as_str(),
                lang,
                plan.cursor,
                self.settings.min_chars_prefix_len,
                self.max_snippet_input_prefix_len,
                max,
            )
        } else if has_word {
            snippets(
                &self.snippets,
                plan.word_prefix.as_str(),
                "",
                self.settings.snippets_first,
                lang,
                plan.cursor,
                max,
            )
        } else {
            Vec::new()
        };
        proof {
            reveal_strlit("");
            assert(""@ =~= Seq::<char>::empty());
        }
        assert(self.settings.feature_snippets ==> snippet_part(snips@, *self, *plan));
        let mut words: Vec<CompletionItem> = Vec::new();
        if self.settings.feature_words && has_word {
            if let Ok(found) = self.words(plan.word_prefix.as_str(), plan.doc) {
                let mut k: usize = 0;
                while k < found.len()
                    invariant
                        k <= found@.len(),
                        words@.len() == k,
                        labels(words@) == texts(found@).take(k as int),
                        forall|i: int| 0 <= i < found@.len() ==> found_in_docs(self.docs@, plan.word_prefix@, #[trigger] found@[i]@),
                        forall|i: int| 0 <= i < words@.len() ==> (#[trigger] words@[i]).kind == CompletionKind::Text
                            && words@[i].text_edit is None && found_in_docs(self.docs@, plan.word_prefix@, words@[i].label@),
                    decreases found.len() - k,
                {
                    let ghost prev = words@;
                    words.push(word_item(found[k].clone()));
                    assert(labels(words@) =~= labels(prev).push(found@[k as int]@));
                    assert(texts(found@).take(k + 1) =~= texts(found@).take(k as int).push(found@[k as int]@));
                    k += 1;
                }
                assert(texts(found@).take(k as int) =~= texts(found@));
            }
        }
        let unicode: Vec<CompletionItem> = if self.settings.feature_unicode_input {
            unicode_input(
                &self.unicode_input,
                plan.word_prefix.as_str(),
                plan.char_prefix.as_str(),
                plan.cursor,
                self.settings.min_chars_prefix_len,
                self.max_unicode_input_prefix_len,
                max,
            )
        } else {
            Vec::new()
        };
        let paths: Vec<CompletionItem> = match &plan.path {
            Some(q) => {
                if self.settings.feature_paths {
                    path_items(q, entries, plan.word_prefix.as_str(), plan.cursor, max)
                } else {
                    Vec::new()
                }
            },
            None => Vec::new(),
        };
        let ghost sn = snips@;
        let ghost wo = words@;
        let ghost un = unicode@;
        let ghost pa = paths@;
        if self.settings.snippets_first {
            let r = merge_items(snips, words, Vec::new(), unicode, paths);
            assert(merged(r@, *self, *plan, entries@)) by {
                assert(r@ == sn + wo + Seq::<CompletionItem>::empty() + un + pa);
            }
            r
        } else {
            let r = merge_items(Vec::new(), words, snips, unicode, paths);
            assert(merged(r@, *self, *plan, entries@)) by {
                assert(r@ == Seq::<CompletionItem>::empty() + wo + sn + un + pa);
            }
            r
        }
    }
}

proof fn lemma_line_start_of_line(s: Seq<char>, p: int)
    requires
        0 <= p <= s.len(),
    ensures
        line_start(s, lf_count(s.take(p))) <= p,
        lf_count(s.take(p)) <= lf_count(s),
        forall|k: int| line_start(s, lf_count(s.take(p))) <= k < p ==> s[k] != '\n',
    decreases s.len(),
{
    if p > 0 {
        let rest = s.drop_first();
        assert(s.take(p).drop_first() =~= rest.take(p - 1));
        lemma_line_start_of_line(rest, p - 1);
        assert(s.take(p)[0] == s[0]);
        let l = lf_count(s.take(p));
        assert forall|k: int| line_start(s, l) <= k < p implies s[k] != '\n' by {
            if k > 0 {
                assert(s[k] == rest[k - 1]);
            }
        }
    }
}

/// Replacing `[a, b)` of a text of length `L` by `ins` gives a text of
/// length `L - (b - a) + |ins|`, and the position right after the inserted
/// text, taken as (line, column) and back, is the same character index; the
/// column stays within its line.
pub proof fn law_edit_round_trip(s: Seq<char>, a: int, b: int, ins: Seq<char>)
    requires
        0 <= a <= b <= s.len(),
    ensures
        edited(s, a, b, ins).len() == s.len() - (b - a) + ins.len(),
        ({
            let t = edited(s, a, b, ins);
            let p = a + ins.len();
            let line = lf_count(t.take(p));
            let col = p - line_start(t, line);
            &&& col >= 0
            &&& cursor_of(t, line, col as nat) == Some(p)
            &&& forall|k: int| line_start(t, line) <= k < p ==> t[k] != '\n'
        }),
{
    let t = edited(s, a, b, ins);
    let p = a + ins.len();
    lemma_line_start_of_line(t, p);
}

proof fn lemma_lookup_same(new_docs: Seq<Document>, old_docs: Seq<Document>, u: Seq<char>, i: int)
    requires
        lookup(old_docs, u) == Some(i),
        new_docs.len() == old_docs.len(),
        new_docs[i].uri@ == u,
        forall|k: int| 0 <= k < new_docs.len() && k != i ==> new_docs[k] == old_docs[k],
    ensures
        lookup(new_docs, u) == Some(i),
    decreases new_docs.len(),
{
    if new_docs.len() - 1 != i {
        lemma_lookup(old_docs, u);
        lemma_lookup_same(new_docs.drop_last(), old_docs.drop_last(), u, i);
    }
}

proof fn lemma_changes_stay_failed(s: Seq<char>, changes: Seq<TextChange>, k: int)
    requires
        0 <= k <= changes.len(),
        apply_changes(s, changes.take(k)) is None,
    ensures
        apply_changes(s, changes) is None,
    decreases changes.len() - k,
{
    if k < changes.len() {
        assert(changes.take(k + 1).drop_last() =~= changes.take(k));
        lemma_changes_stay_failed(s, changes, k + 1);
    } else {
        assert(changes.take(k) =~= changes);
    }
}

} // verus!
