use simple_completion_language_server::backend::BackendState;
use simple_completion_language_server::completion::CompletionItem;
use simple_completion_language_server::paths::DirEntry;
use simple_completion_language_server::settings::PartialBackendSettings;
use simple_completion_language_server::snippets::{sort_unicode_input, Snippet, UnicodeInputItem};

fn complete(
    state: &BackendState,
    uri: &str,
    line: usize,
    col: usize,
    entries: &Vec<DirEntry>,
    sources: &Vec<String>,
) -> Vec<CompletionItem> {
    let plan = state.plan_completion(uri, line, col).expect("plan");
    state.finish_completion(&plan, entries, sources)
}

fn inserted(items: Vec<CompletionItem>) -> Vec<String> {
    items.into_iter().filter_map(|i| i.text_edit.map(|e| e.new_text)).collect()
}

fn open(state: &mut BackendState, uri: &str, lang: &str, text: &str) {
    let path = uri.trim_start_matches("file://").to_string();
    state.new_doc(uri.to_string(), path, lang.to_string(), text);
}

#[test]
fn completion() {
    let mut state = BackendState::new(String::new(), Vec::new(), Vec::new());
    open(&mut state, "file:///tmp/main.py", "python", "hello\nhe");
    let items = complete(&state, "file:///tmp/main.py", 1, 2, &Vec::new(), &Vec::new());
    assert_eq!(items.len(), 1);
    assert_eq!(items.into_iter().map(|i| i.label).collect::<Vec<_>>(), vec!["hello"]);

    open(&mut state, "file:///tmp/main2.py", "python", "hello\nel");
    let items = complete(&state, "file:///tmp/main2.py", 1, 2, &Vec::new(), &Vec::new());
    assert_eq!(items.len(), 0);
}

#[test]
fn snippets() {
    let snippets = vec![
        Snippet {
            scope: Some(vec!["python".to_string()]),
            prefix: "ma".to_string(),
            body: "def main(): pass".to_string(),
            description: None,
        },
        Snippet {
            scope: Some(vec!["c".to_string()]),
            prefix: "ma".to_string(),
            body: "malloc".to_string(),
            description: None,
        },
    ];
    let mut state = BackendState::new(String::new(), snippets, Vec::new());
    open(&mut state, "file:///tmp/main.py", "python", "ma");
    let items = complete(&state, "file:///tmp/main.py", 0, 2, &Vec::new(), &Vec::new());
    assert_eq!(items.len(), 1);
    match &items[0].documentation {
        Some(simple_completion_language_server::completion::Documentation::Markdown(m)) => {
            assert_eq!(m, "```python\ndef main(): pass\n```")
        }
        _ => panic!("markdown expected"),
    }
    assert_eq!(inserted(items), vec!["def main(): pass"]);
}

#[test]
fn unicode_input() {
    let table = sort_unicode_input(vec![
        ("alpha".to_string(), "α".to_string()),
        ("betta".to_string(), "β".to_string()),
    ]);
    let mut state = BackendState::new(String::new(), Vec::new(), table);
    open(&mut state, "file:///tmp/main.py", "python", "α+bet");
    let items = complete(&state, "file:///tmp/main.py", 0, 5, &Vec::new(), &Vec::new());
    assert_eq!(inserted(items), vec!["β"]);
}

fn enable_paths(state: &mut BackendState) {
    let mut p = PartialBackendSettings::default();
    p.feature_paths = Some(true);
    assert!(state.change_configuration(p).is_ok());
}

fn sub_folder() -> Vec<DirEntry> {
    vec![DirEntry {
        name: "sub-folder".to_string(),
        path: "/tmp/scls-test/sub-folder".to_string(),
        is_dir: true,
    }]
}

#[test]
fn paths() {
    let mut state = BackendState::new("/tmp".to_string(), Vec::new(), Vec::new());
    enable_paths(&mut state);

    open(&mut state, "file:///tmp/main.py", "python", "/tmp/scls-test/");
    let plan = state.plan_completion("file:///tmp/main.py", 0, 15).unwrap();
    assert_eq!(plan.path.as_ref().unwrap().dir, "/tmp/scls-test/");
    let items = state.finish_completion(&plan, &sub_folder(), &Vec::new());
    assert_eq!(inserted(items), vec!["/tmp/scls-test/sub-folder"]);

    open(&mut state, "file:///tmp/main2.py", "python", "/tmp/scls-test/su");
    let plan = state.plan_completion("file:///tmp/main2.py", 0, 17).unwrap();
    assert_eq!(plan.path.as_ref().unwrap().dir, "/tmp/scls-test");
    assert_eq!(plan.path.as_ref().unwrap().name_prefix, "su");
    let items = state.finish_completion(&plan, &sub_folder(), &Vec::new());
    assert_eq!(inserted(items), vec!["/tmp/scls-test/sub-folder"]);

    open(&mut state, "file:///tmp/main3.py", "python", "~/scls-test/su");
    let plan = state.plan_completion("file:///tmp/main3.py", 0, 14).unwrap();
    assert_eq!(plan.path.as_ref().unwrap().dir, "/tmp/scls-test");
    let items = state.finish_completion(&plan, &sub_folder(), &Vec::new());
    assert_eq!(inserted(items), vec!["~/scls-test/sub-folder"]);
}

const CITATION_DOC: &str = r#"
---
bibliography: "/tmp/scls-test-citation/test.bib" # could also be surrounded by brackets instead of quotation marks
---

# Heading      
@b
"#;

const CITATION_BIB: &str = r#"
@online{irfanullah_open_acces_global_south_2021,
	author = {Irfanullah, Haseeb},
	title = {{Open Access and Global South}},
	subtitle = {It is More Than a Matter of Inclusion},
	date = {2021-02-08},
	urldate = {2024-08-04},
	language = {english},
	url = {https://web.archive.org/web/20240303223926/https://scholarlykitchen.sspnet.org/2021/01/28/open-access-and-global-south-it-is-more-than-a-matter-of-inclusion/},
}

@article{brainard_pay-to-publ_model_open_acces_2024,
	author = {Brainard, Jeffrey},
	title = {{Is the pay-to-publish model for open access pricing scientists
	         out?}},
	journal = {American Association for the Advancement of Science},
	volume = {385},
	issue = {6708},
	date = {2024-08-01},
	urldate = {2024-08-04},
	doi = {10.1126/science.zp80ua9},
}

@article{brembs_replacing_academic_journals_2023,
	author = {Brembs, Björn and Huneman, Philippe and Schönbrodt, Felix and
	          Nilsonne, Gustav and Susi, Toma and Siems, Renke and Perakakis,
	          Pandelis and Trachana, Varvara and Ma, Lai and Rodriguez-Cuadrado,
	          Sara},
	title = {Replacing academic journals},
	year = {2023},
	month = may,
	doi = {10.5281/zenodo.7974116},
} 
    "#;

#[test]
fn citations() {
    let mut state = BackendState::new(String::new(), Vec::new(), Vec::new());
    let mut p = PartialBackendSettings::default();
    p.feature_citations = Some(true);
    p.feature_words = Some(false);
    p.feature_snippets = Some(false);
    p.feature_unicode_input = Some(false);
    p.feature_paths = Some(false);
    assert!(state.change_configuration(p).is_ok());
    open(&mut state, "file:///tmp/doc.md", "markdown", CITATION_DOC);
    let line = CITATION_DOC.lines().count() - 1;
    let plan = state.plan_completion("file:///tmp/doc.md", line, 2).unwrap();
    assert!(plan.citations);
    assert_eq!(plan.bibliographies, vec!["/tmp/scls-test-citation/test.bib".to_string()]);
    let items = state.finish_completion(&plan, &Vec::new(), &vec![CITATION_BIB.to_string()]);
    assert_eq!(items.len(), 2);
    assert!(items.iter().all(|i| i.label.starts_with('@')));
    assert_eq!(
        inserted(items),
        vec![
            "brainard_pay-to-publ_model_open_acces_2024",
            "brembs_replacing_academic_journals_2023"
        ]
    );
}

#[test]
fn citations_replace_other_providers() {
    let snippets = vec![Snippet {
        scope: None,
        prefix: "br".to_string(),
        body: "break".to_string(),
        description: None,
    }];
    let mut state = BackendState::new(String::new(), snippets, Vec::new());
    let mut p = PartialBackendSettings::default();
    p.feature_citations = Some(true);
    assert!(state.change_configuration(p).is_ok());
    open(&mut state, "file:///tmp/doc.md", "markdown", "bibliography: b.bib\nbrown\n@br");
    let plan = state.plan_completion("file:///tmp/doc.md", 2, 3).unwrap();
    assert!(plan.citations);
    assert_eq!(plan.bibliographies, vec!["b.bib".to_string()]);
    let bib = "@book{brown_2020, author = {Brown, A}, title = {T}, year = {2020}}\n@book{smith_2020, author = {Smith, B}, title = {U}, year = {2020}}";
    let items = state.finish_completion(&plan, &Vec::new(), &vec![bib.to_string()]);
    assert_eq!(items.iter().map(|i| i.label.clone()).collect::<Vec<_>>(), vec!["@brown_2020"]);
}

#[test]
fn unicode_item_sort_keys_follow_emission_order() {
    let table: Vec<UnicodeInputItem> = sort_unicode_input(vec![
        ("alpha".to_string(), "α".to_string()),
        ("aleph".to_string(), "ℵ".to_string()),
    ]);
    let mut state = BackendState::new(String::new(), Vec::new(), table);
    open(&mut state, "file:///tmp/u.txt", "text", "al");
    let items = complete(&state, "file:///tmp/u.txt", 0, 2, &Vec::new(), &Vec::new());
    let keys: Vec<String> = items.iter().filter_map(|i| i.sort_text.clone()).collect();
    assert_eq!(keys, vec!["00", "01"]);
    assert_eq!(items[0].filter_text.as_deref(), Some("alalpha"));
}

#[test]
fn snippets_first_puts_exact_snippets_before_words() {
    let snippets = vec![
        Snippet { scope: None, prefix: "fo".to_string(), body: "for x in y:".to_string(), description: Some("loop".to_string()) },
        Snippet { scope: None, prefix: "foo".to_string(), body: "foo()".to_string(), description: None },
    ];
    let mut state = BackendState::new(String::new(), snippets, Vec::new());
    let mut p = PartialBackendSettings::default();
    p.snippets_first = Some(true);
    assert!(state.change_configuration(p).is_ok());
    open(&mut state, "file:///tmp/a.py", "python", "food\nfo");
    let items = complete(&state, "file:///tmp/a.py", 1, 2, &Vec::new(), &Vec::new());
    let labels: Vec<String> = items.iter().map(|i| i.label.clone()).collect();
    assert_eq!(labels, vec!["fo", "food"]);
    match &items[0].documentation {
        Some(simple_completion_language_server::completion::Documentation::Markdown(m)) => {
            assert_eq!(m, "loop\n```python\nfor x in y:\n```")
        }
        _ => panic!("markdown expected"),
    }
}

#[test]
fn snippets_by_tail_match_tails_of_the_char_prefix() {
    let snippets = vec![Snippet { scope: None, prefix: "->".to_string(), body: "→".to_string(), description: None }];
    let mut state = BackendState::new(String::new(), snippets, Vec::new());
    let mut p = PartialBackendSettings::default();
    p.snippets_inline_by_word_tail = Some(true);
    assert!(state.change_configuration(p).is_ok());
    open(&mut state, "file:///tmp/a.txt", "text", "x ab->");
    let items = complete(&state, "file:///tmp/a.txt", 0, 6, &Vec::new(), &Vec::new());
    assert_eq!(inserted(items), vec!["→"]);
}

#[test]
fn empty_char_prefix_gives_no_items() {
    let mut state = BackendState::new(String::new(), Vec::new(), Vec::new());
    open(&mut state, "file:///tmp/a.txt", "text", "hello ");
    let plan = state.plan_completion("file:///tmp/a.txt", 0, 6).unwrap();
    assert!(plan.empty);
    assert!(state.finish_completion(&plan, &Vec::new(), &Vec::new()).is_empty());
}

#[test]
fn words_come_from_every_document_without_repeats() {
    let mut state = BackendState::new(String::new(), Vec::new(), Vec::new());
    open(&mut state, "file:///tmp/a.txt", "text", "apple apricot\nap");
    open(&mut state, "file:///tmp/b.txt", "text", "apple April");
    let plan = state.plan_completion("file:///tmp/a.txt", 1, 2).unwrap();
    let items = state.finish_completion(&plan, &Vec::new(), &Vec::new());
    let labels: Vec<String> = items.iter().map(|i| i.label.clone()).collect();
    assert_eq!(labels, vec!["apple", "apricot", "April"]);
}

#[test]
fn max_completion_items_caps_words() {
    let mut state = BackendState::new(String::new(), Vec::new(), Vec::new());
    let mut p = PartialBackendSettings::default();
    p.max_completion_items = Some(2);
    assert!(state.change_configuration(p).is_ok());
    open(&mut state, "file:///tmp/a.txt", "text", "aa ab ac ad\na");
    let items = complete(&state, "file:///tmp/a.txt", 1, 1, &Vec::new(), &Vec::new());
    assert_eq!(items.len(), 2);
}
