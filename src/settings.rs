//! Typed configuration with defaults and partial updates.

use vstd::prelude::*;
use vstd::string::StringExecFns;

verus! {

/// The engine's configuration.
pub struct BackendSettings {
    /// Cap on the number of items of one completion response.
    pub max_completion_items: usize,
    /// Largest length of the char prefix.
    pub max_chars_prefix_len: usize,
    /// Smallest tail length that the tail-based providers consider.
    pub min_chars_prefix_len: usize,
    /// Snippets before words in the merged output.
    pub snippets_first: bool,
    /// Snippets matched by the tails of the char prefix.
    pub snippets_inline_by_word_tail: bool,
    /// Text in the char prefix that turns citations on.
    pub citation_prefix_trigger: String,
    /// Pattern whose first group is the path of a bibliography file.
    pub citation_bibfile_extract_regexp: String,
    pub feature_words: bool,
    pub feature_snippets: bool,
    pub feature_unicode_input: bool,
    pub feature_paths: bool,
    pub feature_citations: bool,
}

/// A settings update: each field that is set replaces the current value.
pub struct PartialBackendSettings {
    pub max_completion_items: Option<usize>,
    pub max_chars_prefix_len: Option<usize>,
    pub min_chars_prefix_len: Option<usize>,
    pub snippets_first: Option<bool>,
    pub snippets_inline_by_word_tail: Option<bool>,
    pub citation_prefix_trigger: Option<String>,
    pub citation_bibfile_extract_regexp: Option<String>,
    pub feature_words: Option<bool>,
    pub feature_snippets: Option<bool>,
    pub feature_unicode_input: Option<bool>,
    pub feature_paths: Option<bool>,
    pub feature_citations: Option<bool>,
}

/// The value of settings, with texts as character sequences.
pub struct SettingsView {
    pub max_completion_items: usize,
    pub max_chars_prefix_len: usize,
    pub min_chars_prefix_len: usize,
    pub snippets_first: bool,
    pub snippets_inline_by_word_tail: bool,
    pub citation_prefix_trigger: Seq<char>,
    pub citation_bibfile_extract_regexp: Seq<char>,
    pub feature_words: bool,
    pub feature_snippets: bool,
    pub feature_unicode_input: bool,
    pub feature_paths: bool,
    pub feature_citations: bool,
}

/// The value of a settings update.
pub struct PartialView {
    pub max_completion_items: Option<usize>,
    pub max_chars_prefix_len: Option<usize>,
    pub min_chars_prefix_len: Option<usize>,
    pub snippets_first: Option<bool>,
    pub snippets_inline_by_word_tail: Option<bool>,
    pub citation_prefix_trigger: Option<Seq<char>>,
    pub citation_bibfile_extract_regexp: Option<Seq<char>>,
    pub feature_words: Option<bool>,
    pub feature_snippets: Option<bool>,
    pub feature_unicode_input: Option<bool>,
    pub feature_paths: Option<bool>,
    pub feature_citations: Option<bool>,
}

/// The value in `o`, or `d` when it is not set.
pub open spec fn or_else<T>(o: Option<T>, d: T) -> T {
    match o {
        Some(v) => v,
        None => d,
    }
}

/// The text of an optional string.
pub open spec fn opt_view(o: Option<String>) -> Option<Seq<char>> {
    match o {
        Some(s) => Some(s@),
        None => None,
    }
}

/// `s` updated field by field with the fields that `p` sets.
pub open spec fn merge(s: SettingsView, p: PartialView) -> SettingsView {
    SettingsView {
        max_completion_items: or_else(p.max_completion_items, s.max_completion_items),
        max_chars_prefix_len: or_else(p.max_chars_prefix_len, s.max_chars_prefix_len),
        min_chars_prefix_len: or_else(p.min_chars_prefix_len, s.min_chars_prefix_len),
        snippets_first: or_else(p.snippets_first, s.snippets_first),
        snippets_inline_by_word_tail: or_else(
            p.snippets_inline_by_word_tail,
            s.snippets_inline_by_word_tail,
        ),
        citation_prefix_trigger: or_else(p.citation_prefix_trigger, s.citation_prefix_trigger),
        citation_bibfile_extract_regexp: or_else(
            p.citation_bibfile_extract_regexp,
            s.citation_bibfile_extract_regexp,
        ),
        feature_words: or_else(p.feature_words, s.feature_words),
        feature_snippets: or_else(p.feature_snippets, s.feature_snippets),
        feature_unicode_input: or_else(p.feature_unicode_input, s.feature_unicode_input),
        feature_paths: or_else(p.feature_paths, s.feature_paths),
        feature_citations: or_else(p.feature_citations, s.feature_citations),
    }
}

/// The update that sets nothing.
pub open spec fn empty_partial() -> PartialView {
    PartialView {
        max_completion_items: None,
        max_chars_prefix_len: None,
        min_chars_prefix_len: None,
        snippets_first: None,
        snippets_inline_by_word_tail: None,
        citation_prefix_trigger: None,
        citation_bibfile_extract_regexp: None,
        feature_words: None,
        feature_snippets: None,
        feature_unicode_input: None,
        feature_paths: None,
        feature_citations: None,
    }
}

impl View for BackendSettings {
    type V = SettingsView;

    open spec fn view(&self) -> SettingsView {
        SettingsView {
            max_completion_items: self.max_completion_items,
            max_chars_prefix_len: self.max_chars_prefix_len,
            min_chars_prefix_len: self.min_chars_prefix_len,
            snippets_first: self.snippets_first,
            snippets_inline_by_word_tail: self.snippets_inline_by_word_tail,
            citation_prefix_trigger: self.citation_prefix_trigger@,
            citation_bibfile_extract_regexp: self.citation_bibfile_extract_regexp@,
            feature_words: self.feature_words,
            feature_snippets: self.feature_snippets,
            feature_unicode_input: self.feature_unicode_input,
            feature_paths: self.feature_paths,
            feature_citations: self.feature_citations,
        }
    }
}

impl View for PartialBackendSettings {
    type V = PartialView;

    open spec fn view(&self) -> PartialView {
        PartialView {
            max_completion_items: self.max_completion_items,
            max_chars_prefix_len: self.max_chars_prefix_len,
            min_chars_prefix_len: self.min_chars_prefix_len,
            snippets_first: self.snippets_first,
            snippets_inline_by_word_tail: self.snippets_inline_by_word_tail,
            citation_prefix_trigger: opt_view(self.citation_prefix_trigger),
            citation_bibfile_extract_regexp: opt_view(self.citation_bibfile_extract_regexp),
            feature_words: self.feature_words,
            feature_snippets: self.feature_snippets,
            feature_unicode_input: self.feature_unicode_input,
            feature_paths: self.feature_paths,
            feature_citations: self.feature_citations,
        }
    }
}

/// The default pattern for bibliography paths: `bibliography:` followed by
/// an optionally quoted or bracketed path, which is its first group.
pub const DEFAULT_BIBFILE_REGEXP: &'static str = r#"bibliography:\s*['"\[]*([~\w\./\\-]*)['"\]]*"#;

/// The default citation trigger.
pub const DEFAULT_CITATION_TRIGGER: &'static str = "@";

impl Default for BackendSettings {
    fn default() -> (s: Self)
        ensures
            s.max_completion_items == 100,
            s.max_chars_prefix_len == 64,
            s.min_chars_prefix_len == 2,
            !s.snippets_first,
            !s.snippets_inline_by_word_tail,
            s.citation_prefix_trigger@ == DEFAULT_CITATION_TRIGGER@,
            s.citation_bibfile_extract_regexp@ == DEFAULT_BIBFILE_REGEXP@,
            s.feature_words,
            s.feature_snippets,
            s.feature_unicode_input,
            !s.feature_paths,
            !s.feature_citations,
    {
        BackendSettings {
            max_completion_items: 100,
            max_chars_prefix_len: 64,
            min_chars_prefix_len: 2,
            snippets_first: false,
            snippets_inline_by_word_tail: false,
            citation_prefix_trigger: String::from_str(DEFAULT_CITATION_TRIGGER),
            citation_bibfile_extract_regexp: String::from_str(DEFAULT_BIBFILE_REGEXP),
            feature_words: true,
            feature_snippets: true,
            feature_unicode_input: true,
            feature_paths: false,
            feature_citations: false,
        }
    }
}

impl Default for PartialBackendSettings {
    fn default() -> (p: Self)
        ensures
            p@ == empty_partial(),
    {
        PartialBackendSettings {
            max_completion_items: None,
            max_chars_prefix_len: None,
            min_chars_prefix_len: None,
                snippets_first: None,
            snippets_inline_by_word_tail: None,
            citation_prefix_trigger: None,
            citation_bibfile_extract_regexp: None,
            feature_words: None,
            feature_snippets: None,
            feature_unicode_input: None,
            feature_paths: None,
            feature_citations: None,
        }
    }
}

fn or_string(o: Option<String>, d: &String) -> (r: String)
    ensures
        r@ == or_else(opt_view(o), d@),
{
    match o {
        Some(v) => v,
        None => d.clone(),
    }
}

impl BackendSettings {
    /// These settings with each field that `settings` sets replaced.
    pub fn apply_partial_settings(&self, settings: PartialBackendSettings) -> (r: Self)
        ensures
            r@ == merge(self@, settings@),
    {
        BackendSettings {
            max_completion_items: settings.max_completion_items.unwrap_or(
                self.max_completion_items,
            ),
            max_chars_prefix_len: settings.max_chars_prefix_len.unwrap_or(self.max_chars_prefix_len),
            min_chars_prefix_len: settings.min_chars_prefix_len.unwrap_or(
                self.min_chars_prefix_len,
            ),
            snippets_first: settings.snippets_first.unwrap_or(self.snippets_first),
            snippets_inline_by_word_tail: settings.snippets_inline_by_word_tail.unwrap_or(
                self.snippets_inline_by_word_tail,
            ),
            citation_prefix_trigger: or_string(
                settings.citation_prefix_trigger,
                &self.citation_prefix_trigger,
            ),
            citation_bibfile_extract_regexp: or_string(
                settings.citation_bibfile_extract_regexp,
                &self.citation_bibfile_extract_regexp,
            ),
            feature_words: settings.feature_words.unwrap_or(self.feature_words),
            feature_snippets: settings.feature_snippets.unwrap_or(self.feature_snippets),
            feature_unicode_input: settings.feature_unicode_input.unwrap_or(
                self.feature_unicode_input,
            ),
            feature_paths: settings.feature_paths.unwrap_or(self.feature_paths),
            feature_citations: settings.feature_citations.unwrap_or(self.feature_citations),
        }
    }
}

/// Applying an update that sets nothing leaves settings as they are; so
/// applying an update and then an empty one is the same as applying the
/// update once.
pub proof fn law_merge_empty_is_identity(s: SettingsView, p: PartialView)
    ensures
        merge(s, empty_partial()) == s,
        merge(merge(s, p), empty_partial()) == merge(s, p),
{
}

/// Each field that an update leaves unset keeps its current value, and
/// applying the same update twice is the same as applying it once.
pub proof fn law_merge_preserves_unset(s: SettingsView, p: PartialView)
    ensures
        p.max_completion_items is None ==> merge(s, p).max_completion_items
            == s.max_completion_items,
        p.max_chars_prefix_len is None ==> merge(s, p).max_chars_prefix_len
            == s.max_chars_prefix_len,
        p.min_chars_prefix_len is None ==> merge(s, p).min_chars_prefix_len
            == s.min_chars_prefix_len,
        p.snippets_first is None ==> merge(s, p).snippets_first == s.snippets_first,
        p.snippets_inline_by_word_tail is None ==> merge(s, p).snippets_inline_by_word_tail
            == s.snippets_inline_by_word_tail,
        p.citation_prefix_trigger is None ==> merge(s, p).citation_prefix_trigger
            == s.citation_prefix_trigger,
        p.citation_bibfile_extract_regexp is None ==> merge(s, p).citation_bibfile_extract_regexp
            == s.citation_bibfile_extract_regexp,
        p.feature_words is None ==> merge(s, p).feature_words == s.feature_words,
        p.feature_snippets is None ==> merge(s, p).feature_snippets == s.feature_snippets,
        p.feature_unicode_input is None ==> merge(s, p).feature_unicode_input
            == s.feature_unicode_input,
        p.feature_paths is None ==> merge(s, p).feature_paths == s.feature_paths,
        p.feature_citations is None ==> merge(s, p).feature_citations == s.feature_citations,
        merge(merge(s, p), p) == merge(s, p),
{
}

} // verus!
