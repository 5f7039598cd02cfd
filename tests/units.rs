use simple_completion_language_server::backend::{BackendState, TextChange};
use simple_completion_language_server::citations::{bib_entries, citation_items, citation_items_from, entry_markdown_from, BibEntry};
use simple_completion_language_server::search::add_candidates_exec;
use simple_completion_language_server::snippets::{
    add_scope, file_scope, lex_le_exec, sort_snippets, with_source_name, Snippet,
};
use simple_completion_language_server::completion::{sort_key_exec, Position, Range};
use simple_completion_language_server::error::Error;
use simple_completion_language_server::matching::{char_is_char_prefix, char_is_word, starts_with};
use simple_completion_language_server::prefix::get_prefix;
use simple_completion_language_server::reader::{read_chunks, RopeReader};
use simple_completion_language_server::search::{ac_searcher, search, word_at};
use simple_completion_language_server::settings::{BackendSettings, PartialBackendSettings};
use simple_completion_language_server::snippets::{
    join_lines_exec, sort_unicode_input, split_commas_exec, SnippetSource, VSCodeSnippet,
    VSCodeSnippetValue,
};
use simple_completion_language_server::paths::{path_query, PathLogic, PathState};
use simple_completion_language_server::text::TextBuffer;

#[test]
fn word_and_prefix_characters() {
    assert!(char_is_word('a'));
    assert!(char_is_word('é'));
    assert!(char_is_word('7'));
    assert!(char_is_word('_'));
    assert!(char_is_word('-'));
    assert!(!char_is_word('.'));
    assert!(!char_is_word(' '));
    assert!(char_is_char_prefix('@'));
    assert!(!char_is_char_prefix(' '));
    assert!(!char_is_char_prefix('\t'));
    assert!(!char_is_char_prefix('\n'));
}

#[test]
fn caseless_prefix_match() {
    assert!(starts_with("Hello", "he"));
    assert!(starts_with("STRASSE", "stra"));
    assert!(!starts_with("he", "hello"));
    assert!(!starts_with("world", "wa"));
    assert!(starts_with("anything", ""));
}

#[test]
fn buffer_conversions() {
    let t = TextBuffer::from_str("aé\nβc\n");
    assert_eq!(t.len_chars(), 6);
    assert_eq!(t.len_bytes(), 8);
    assert_eq!(t.line_to_char(0), Some(0));
    assert_eq!(t.line_to_char(1), Some(3));
    assert_eq!(t.line_to_char(2), Some(6));
    assert_eq!(t.line_to_char(3), Some(6));
    assert_eq!(t.line_to_char(4), None);
    assert_eq!(t.char_to_byte(2), Some(3));
    assert_eq!(t.char_to_byte(7), None);
    assert_eq!(t.byte_to_char(2), Some(1));
    assert_eq!(t.byte_to_char(8), Some(6));
    assert_eq!(t.byte_to_char(9), None);
    assert_eq!(t.char_to_line(4), Some(1));
    assert_eq!(t.get_char(3), Some('β'));
    assert_eq!(t.get_char(6), None);
    assert_eq!(t.slice(1, 4).as_deref(), Some("é\nβ"));
    assert_eq!(t.slice(4, 2), None);
}

#[test]
fn only_line_feeds_break_lines() {
    let t = TextBuffer::from_str("a\rb\u{2028}c\nd");
    assert_eq!(t.line_to_char(1), Some(6));
    assert_eq!(t.line_to_char(2), Some(7));
    assert_eq!(t.line_to_char(3), None);
    assert_eq!(t.char_to_line(5), Some(0));
}

#[test]
fn edit_round_trip() {
    let mut t = TextBuffer::from_str("hello\nworld");
    assert!(t.replace(2, 8, "XY\nZ"));
    assert_eq!(t.slice(0, t.len_chars()).unwrap(), "heXY\nZrld");
    assert_eq!(t.len_chars(), 11 - 6 + 4);
    let p = 2 + 4;
    let line = t.char_to_line(p).unwrap();
    let col = p - t.line_to_char(line).unwrap();
    assert_eq!((line, col), (1, 1));
    assert_eq!(t.line_to_char(line).unwrap() + col, p);
    assert!(!t.replace(5, 3, "x"));
    assert!(!t.replace(0, 100, "x"));
}

#[test]
fn prefixes_at_cursor() {
    let t = TextBuffer::from_str("foo bar_baz\n  x.y-z");
    let p = get_prefix(&t, 0, 11, 64).unwrap();
    assert_eq!(p.word_prefix, "bar_baz");
    assert_eq!(p.char_prefix, "bar_baz");
    let p = get_prefix(&t, 1, 7, 64).unwrap();
    assert_eq!(p.word_prefix, "y-z");
    assert_eq!(p.char_prefix, "x.y-z");
    let p = get_prefix(&t, 1, 7, 3).unwrap();
    assert_eq!(p.char_prefix, "y-z");
    let p = get_prefix(&t, 0, 0, 64).unwrap();
    assert_eq!(p.word_prefix, "");
    assert!(matches!(get_prefix(&t, 5, 0, 64), Err(Error::BoundsError)));
    assert!(matches!(get_prefix(&t, 1, 50, 64), Err(Error::BoundsError)));
}

#[test]
fn chunks_rebuild_the_buffer() {
    let mut text = String::new();
    for i in 0..3000 {
        text.push_str(&format!("word{i} ünïcode_{i}-x, "));
    }
    let t = TextBuffer::from_str(&text);
    let chunks = read_chunks(&t);
    assert!(chunks.len() > 1);
    assert_eq!(chunks.concat(), text);
    let mut end = 0;
    for c in &chunks[..chunks.len() - 1] {
        end += c.chars().count();
        let next = text.chars().nth(end).unwrap();
        assert!(!char_is_word(next));
    }
    let mut reader = RopeReader::new(&t);
    assert_eq!(reader.next_chunk().map(|(st, _)| st), Some(0));
}

#[test]
fn chunks_of_empty_buffer() {
    let t = TextBuffer::from_str("");
    assert!(read_chunks(&t).is_empty());
}

#[test]
fn search_finds_whole_words_and_skips_the_prefix() {
    let t = TextBuffer::from_str("Hello he hex xhello help-me");
    let ac = ac_searcher("he").unwrap();
    let mut result = Vec::new();
    assert!(search("he", &t, &ac, 100, &mut result).is_ok());
    assert_eq!(result, vec!["Hello", "hex", "help-me"]);
    let mut capped = Vec::new();
    assert!(search("he", &t, &ac, 2, &mut capped).is_ok());
    assert_eq!(capped.len(), 2);
}

#[test]
fn word_at_boundaries() {
    let t = TextBuffer::from_str("ab cd-e,f");
    assert_eq!(word_at(&t, 3).as_deref(), Some("cd-e"));
    assert_eq!(word_at(&t, 4), None);
    assert_eq!(word_at(&t, 8).as_deref(), Some("f"));
    assert_eq!(word_at(&t, 9), None);
    assert_eq!(word_at(&t, 10), None);
    let u = TextBuffer::from_str("a,");
    assert_eq!(word_at(&u, 2).as_deref(), Some(""));
}

#[test]
fn settings_defaults_and_partial_updates() {
    let s = BackendSettings::default();
    assert_eq!(s.max_completion_items, 100);
    assert_eq!(s.max_chars_prefix_len, 64);
    assert_eq!(s.min_chars_prefix_len, 2);
    assert_eq!(s.citation_prefix_trigger, "@");
    assert!(s.feature_words && s.feature_snippets && s.feature_unicode_input);
    assert!(!s.feature_paths && !s.feature_citations);

    let mut p = PartialBackendSettings::default();
    p.max_completion_items = Some(5);
    p.citation_bibfile_extract_regexp = Some("bib: (.*)".to_string());
    p.feature_paths = Some(true);
    let updated = s.apply_partial_settings(p);
    assert_eq!(updated.max_completion_items, 5);
    assert_eq!(updated.citation_bibfile_extract_regexp, "bib: (.*)");
    assert_eq!(updated.citation_prefix_trigger, "@");
    assert!(updated.feature_paths);
    assert_eq!(updated.max_chars_prefix_len, 64);

    let again = updated.apply_partial_settings(PartialBackendSettings::default());
    assert_eq!(again.max_completion_items, 5);
    assert_eq!(again.citation_bibfile_extract_regexp, "bib: (.*)");
    assert!(again.feature_paths);

    let mut q = PartialBackendSettings::default();
    q.max_chars_prefix_len = Some(10);
    assert_eq!(again.apply_partial_settings(q).max_chars_prefix_len, 10);
}

#[test]
fn bad_bibliography_pattern_is_a_parse_error() {
    let mut state = BackendState::new(String::new(), Vec::new(), Vec::new());
    let mut p = PartialBackendSettings::default();
    p.citation_bibfile_extract_regexp = Some("(".to_string());
    assert_eq!(state.change_configuration(p), Err(Error::ParseError));
}

fn pos(line: usize, character: usize) -> Position {
    Position { line, character }
}

#[test]
fn incremental_changes() {
    let mut state = BackendState::new(String::new(), Vec::new(), Vec::new());
    state.new_doc("file:///a".to_string(), "/a".to_string(), "text".to_string(), "hello\nworld");
    let changes = vec![
        TextChange { range: Some(Range { start: pos(0, 1), end: pos(0, 5) }), text: "ey".to_string() },
        TextChange { range: Some(Range { start: pos(1, 0), end: pos(9, 0) }), text: "there".to_string() },
    ];
    assert_eq!(state.change_doc("file:///a", &changes), Ok(()));
    let i = state.find_doc("file:///a").unwrap();
    let t = &state.docs[i].text;
    assert_eq!(t.slice(0, t.len_chars()).unwrap(), "hey\nthere");

    let full = vec![TextChange { range: None, text: "new".to_string() }];
    assert_eq!(state.change_doc("file:///a", &full), Ok(()));
    let t = &state.docs[i].text;
    assert_eq!(t.slice(0, t.len_chars()).unwrap(), "new");

    let unresolved = vec![TextChange { range: Some(Range { start: pos(7, 0), end: pos(8, 0) }), text: "all".to_string() }];
    assert_eq!(state.change_doc("file:///a", &unresolved), Ok(()));
    let t = &state.docs[i].text;
    assert_eq!(t.slice(0, t.len_chars()).unwrap(), "all");

    let backwards = vec![TextChange { range: Some(Range { start: pos(0, 2), end: pos(0, 1) }), text: "x".to_string() }];
    assert_eq!(state.change_doc("file:///a", &backwards), Err(Error::BoundsError));
    assert_eq!(state.change_doc("file:///missing", &full), Err(Error::DocumentNotFound));
}

#[test]
fn save_and_reopen_replace_text() {
    let mut state = BackendState::new(String::new(), Vec::new(), Vec::new());
    state.new_doc("file:///a".to_string(), "/a".to_string(), "text".to_string(), "one");
    assert_eq!(state.save_doc("file:///a", "two"), Ok(()));
    state.new_doc("file:///a".to_string(), "/a".to_string(), "rust".to_string(), "three");
    assert_eq!(state.docs.len(), 1);
    let i = state.find_doc("file:///a").unwrap();
    assert_eq!(state.docs[i].language_id, "rust");
    assert_eq!(state.save_doc("file:///b", "x"), Err(Error::DocumentNotFound));
    assert!(matches!(state.plan_completion("file:///b", 0, 0), Err(Error::DocumentNotFound)));
    assert!(matches!(state.plan_completion("file:///a", 3, 0), Err(Error::BoundsError)));
}

#[test]
fn vscode_snippets_expand_per_prefix() {
    let s = VSCodeSnippet {
        scope: Some("python,rust".to_string()),
        prefix: Some(VSCodeSnippetValue::List(vec!["a".to_string(), "b".to_string()])),
        body: VSCodeSnippetValue::List(vec!["line1".to_string(), "line2".to_string()]),
        description: Some(VSCodeSnippetValue::Single("d".to_string())),
    };
    let v = s.into_snippets();
    assert_eq!(v.len(), 2);
    assert_eq!(v[1].prefix, "b");
    assert_eq!(v[0].body, "line1\nline2");
    assert_eq!(v[0].scope, Some(vec!["python".to_string(), "rust".to_string()]));
    assert_eq!(v[0].description.as_deref(), Some("d"));

    let none = VSCodeSnippet { scope: None, prefix: None, body: VSCodeSnippetValue::Single("x".to_string()), description: None };
    assert!(none.into_snippets().is_empty());
    let named = VSCodeSnippet { scope: None, prefix: None, body: VSCodeSnippetValue::Single("x".to_string()), description: None }
        .prefix("name".to_string());
    assert_eq!(named.into_snippets()[0].prefix, "name");
}

#[test]
fn split_and_join() {
    assert_eq!(split_commas_exec("a,,b"), vec!["a", "", "b"]);
    assert_eq!(split_commas_exec(""), vec![""]);
    assert_eq!(join_lines_exec(&vec!["x".to_string(), "y".to_string()]), "x\ny");
    assert_eq!(join_lines_exec(&Vec::new()), "");
}

#[test]
fn source_destination_path() {
    let s = SnippetSource { name: None, git: "https://github.com/a/b?x=1".to_string(), paths: Vec::new() };
    assert_eq!(s.destination_path(), Ok("github.com/a/b".to_string()));
    let bad = SnippetSource { name: None, git: "github.com/a/b".to_string(), paths: Vec::new() };
    assert_eq!(bad.destination_path(), Err(Error::ParseError));
}

#[test]
fn unicode_table_longest_first() {
    let v = sort_unicode_input(vec![
        ("ab".to_string(), "1".to_string()),
        ("abcd".to_string(), "2".to_string()),
        ("abc".to_string(), "3".to_string()),
    ]);
    let prefixes: Vec<&str> = v.iter().map(|i| i.prefix.as_str()).collect();
    assert_eq!(prefixes, vec!["abcd", "abc", "ab"]);
}

#[test]
fn sort_keys_are_zero_padded() {
    assert_eq!(sort_key_exec(0), "00");
    assert_eq!(sort_key_exec(7), "07");
    assert_eq!(sort_key_exec(42), "42");
    assert_eq!(sort_key_exec(123), "123");
}

#[test]
fn path_expansion_and_folding() {
    let st = PathState::new("../x/", "/home/u", "/p/q/doc.md");
    assert_eq!(st.logic, PathLogic::RelativeParent);
    let e = st.expand(&"../x/".chars().collect());
    assert_eq!(e.iter().collect::<String>(), "/p/x/");
    let f = st.fold(&"/p/x/y".chars().collect());
    assert_eq!(f.iter().collect::<String>(), "../x/y");

    let q = path_query("(./Su", "/home/u", "/p/q/doc.md").unwrap();
    assert_eq!(q.dir, "/p/q");
    assert_eq!(q.name_prefix, "su");
    assert_eq!(q.replace_len, 4);
    assert!(path_query("abc", "/home/u", "/p/q/doc.md").is_none());
}

#[test]
fn error_messages() {
    assert_eq!(Error::BoundsError.message(), "bounds error");
    assert_eq!(Error::DocumentNotFound.message(), "document not found");
    assert_eq!(Error::IoError.message(), "io error");
}

#[test]
fn citation_entries_and_items() {
    let bib = "@book{brown_2020, author = {Brown, Alice}, title = {Tales}, year = {2020}}\n@book{Bryce_2021, title = {No authors}, year = {2021}}\n@book{smith_2020, author = {Smith, Bob}, title = {U}, year = {2020}}";
    let entries = bib_entries(&vec![bib.to_string(), "@@@ not a bib {".to_string()]);
    let keys: Vec<&str> = entries.iter().map(|e| e.key.as_str()).collect();
    assert_eq!(keys, vec!["brown_2020", "Bryce_2021", "smith_2020"]);
    assert!(entries[0].documentation.starts_with("# \"Tales\"\n*"));
    assert!(entries[0].documentation.contains("Brown"));
    assert!(entries[0].documentation.contains("book"));
    assert!(entries[1].documentation.starts_with("'''"));
    assert!(entries[1].documentation.ends_with("'''\n\n*fallback to biblatex format*"));

    let cursor = simple_completion_language_server::completion::Position { line: 3, character: 4 };
    let items = citation_items_from(&entries, "br", cursor, 10);
    let labels: Vec<String> = items.iter().map(|i| i.label.clone()).collect();
    assert_eq!(labels, vec!["@brown_2020", "@Bryce_2021"]);
    let edit = items[0].text_edit.as_ref().unwrap();
    assert_eq!(edit.new_text, "brown_2020");
    assert_eq!(edit.range.start.character, 2);
    assert_eq!(items[0].filter_text.as_deref(), Some("br"));
    let capped = citation_items_from(&entries, "br", cursor, 1);
    assert_eq!(capped.len(), 1);
    let none = citation_items_from(&vec![BibEntry { key: "x".to_string(), documentation: String::new() }], "br", cursor, 5);
    assert!(none.is_empty());
}

#[test]
fn loader_rules() {
    assert_eq!(file_scope("snippets"), None);
    assert_eq!(file_scope("python"), Some(vec!["python".to_string()]));
    let s = |scope: Option<Vec<String>>, prefix: &str, description: Option<&str>| Snippet {
        scope,
        prefix: prefix.to_string(),
        body: "b".to_string(),
        description: description.map(|d| d.to_string()),
    };
    let scoped = add_scope(vec![s(None, "a", None), s(Some(vec!["c".to_string()]), "b", None)], &vec!["rust".to_string()]);
    assert_eq!(scoped[0].scope, Some(vec!["rust".to_string()]));
    assert_eq!(scoped[1].scope, Some(vec!["c".to_string(), "rust".to_string()]));
    let named = with_source_name(vec![s(None, "a", Some("d")), s(None, "b", None)], "repo");
    assert_eq!(named[0].description.as_deref(), Some("repo\n\nd"));
    assert_eq!(named[1].description.as_deref(), Some("repo\n\n"));
    assert!(lex_le_exec("ab", "abc"));
    assert!(lex_le_exec("B", "a"));
    assert!(!lex_le_exec("b", "a"));
    let sorted = sort_snippets(vec![s(None, "fn", None), s(None, "Zz", None), s(None, "for", None), s(None, "a", None)]);
    let prefixes: Vec<&str> = sorted.iter().map(|x| x.prefix.as_str()).collect();
    assert_eq!(prefixes, vec!["Zz", "a", "fn", "for"]);
}

#[test]
fn candidate_starts_add_whole_words_once() {
    let t = TextBuffer::from_str("help Hello he xhelp help");
    let mut result = Vec::new();
    add_candidates_exec(&t, &vec![0, 5, 11, 15, 20, 99], "he", 10, &mut result);
    assert_eq!(result, vec!["help", "Hello"]);
    let mut capped = Vec::new();
    add_candidates_exec(&t, &vec![0, 5], "he", 1, &mut capped);
    assert_eq!(capped, vec!["help"]);
}

#[test]
fn entry_markdown_from_fields() {
    let m = entry_markdown_from(
        &Some("A \"quoted\" title".to_string()),
        &Some(vec!["Ann Lee".to_string(), "Bo Wu".to_string()]),
        "article",
        "2024-08-01",
        "@article{k}",
    );
    assert_eq!(m, "# \"A \\\"quoted\\\" title\"\n*Ann Lee,Bo Wu*\n\narticle, 2024-08-01");
    let no_date = entry_markdown_from(&Some("T".to_string()), &Some(vec!["X".to_string()]), "book", "", "src");
    assert_eq!(no_date, "# \"T\"\n*X*\n\nbook");
    let fallback = entry_markdown_from(&Some("T".to_string()), &None, "book", "2020", "@book{k}");
    assert_eq!(fallback, "'''@book{k}'''\n\n*fallback to biblatex format*");
}

#[test]
fn failing_sources_add_no_citations() {
    let good = "@book{beta_1, author = {A, B}, title = {T}, year = {2001}}\n@book{alpha_2, title = {U}, year = {2002}}";
    let cursor = simple_completion_language_server::completion::Position { line: 0, character: 1 };
    let items = citation_items(&vec!["@@@ {".to_string(), good.to_string(), good.to_string()], "b", cursor, 10);
    let keys: Vec<String> = items.iter().map(|i| i.text_edit.as_ref().unwrap().new_text.clone()).collect();
    assert_eq!(keys, vec!["beta_1", "beta_1"]);
    let all = citation_items(&vec![good.to_string()], "", cursor, 10);
    assert_eq!(all.len(), 2);
}
