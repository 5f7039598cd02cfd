//! Snippet and unicode-input records, and the conversions that loaders
//! apply to what they read.

use vstd::prelude::*;
use crate::error::Error;
use crate::strings::{string_of, chars_of};

verus! {

/// A snippet: a trigger prefix, a body to expand, the languages it is for
/// (none or empty: all) and an optional description.
#[derive(Debug, Clone)]
pub struct Snippet {
    pub scope: Option<Vec<String>>,
    pub prefix: String,
    pub body: String,
    pub description: Option<String>,
}

/// A snippet file in TOML form.
pub struct SnippetsConfig {
    pub snippets: Vec<Snippet>,
}

/// A string or a list of strings, as VSCode snippet files write them.
pub enum VSCodeSnippetValue {
    Single(String),
    List(Vec<String>),
}

/// The prefix of a VSCode snippet: one string or several.
pub type VSCodeSnippetPrefix = VSCodeSnippetValue;

/// A snippet as VSCode snippet files write it.
pub struct VSCodeSnippet {
    /// Languages, separated by commas.
    pub scope: Option<String>,
    pub prefix: Option<VSCodeSnippetValue>,
    pub body: VSCodeSnippetValue,
    pub description: Option<VSCodeSnippetValue>,
}

/// A VSCode snippet file: snippets by name.
pub struct VSSnippetsConfig {
    pub snippets: Vec<(String, VSCodeSnippet)>,
}

/// A unicode-input entry: typing `prefix` offers `body`.
#[derive(Debug, Clone)]
pub struct UnicodeInputItem {
    pub prefix: String,
    pub body: String,
}

/// A unicode-input file: bodies by prefix.
pub struct UnicodeInputConfig {
    pub inner: Vec<(String, String)>,
}

/// Where external snippets come from.
pub struct ExternalSnippets {
    pub sources: Vec<SnippetSource>,
}

/// A git repository of snippets.
pub struct SnippetSource {
    pub name: Option<String>,
    pub git: String,
    pub paths: Vec<SourcePath>,
}

/// A path inside a snippet repository, with the languages it is for.
pub struct SourcePath {
    pub scope: Option<Vec<String>>,
    pub path: String,
}

/// Lines joined with LF.
pub open spec fn join_lines(v: Seq<Seq<char>>) -> Seq<char>
    decreases v.len(),
{
    if v.len() == 0 {
        Seq::empty()
    } else if v.len() == 1 {
        v[0]
    } else {
        join_lines(v.drop_last()) + seq!['\n'] + v.last()
    }
}

/// The texts of a list of strings.
pub open spec fn texts(v: Seq<String>) -> Seq<Seq<char>> {
    v.map_values(|s: String| s@)
}

/// `s` split at each comma.
pub open spec fn split_commas(s: Seq<char>) -> Seq<Seq<char>>
    decreases s.len(),
{
    if s.len() == 0 {
        seq![Seq::empty()]
    } else {
        let r = split_commas(s.drop_last());
        if s.last() == ',' {
            r.push(Seq::empty())
        } else {
            r.update(r.len() - 1, r.last().push(s.last()))
        }
    }
}

/// The parts of `s` between commas.
pub fn split_commas_exec(s: &str) -> (r: Vec<String>)
    ensures
        texts(r@) == split_commas(s@),
{
    let cs = chars_of(s);
    let mut parts: Vec<String> = Vec::new();
    let mut cur: Vec<char> = Vec::new();
    let mut i: usize = 0;
    while i < cs.len()
        invariant
            cs@ == s@,
            i <= cs@.len(),
            texts(parts@).push(cur@) == split_commas(cs@.take(i as int)),
        decreases cs.len() - i,
    {
        let ghost before = cs@.take(i as int);
        assert(cs@.take(i + 1).drop_last() =~= before);
        let c = cs[i];
        if c == ',' {
            let part = string_of(cur.as_slice());
            parts.push(part);
            cur = Vec::new();
            assert(texts(parts@).push(cur@) =~= texts(parts@.drop_last()).push(part@).push(
                Seq::empty(),
            ));
            assert(parts@.drop_last() =~= parts@.take(parts@.len() - 1));
        } else {
            let ghost old_parts = texts(parts@);
            let ghost old_cur = cur@;
            cur.push(c);
            assert(texts(parts@).push(cur@) =~= old_parts.push(old_cur).update(
                old_parts.len() as int,
                old_cur.push(c),
            ));
        }
        i += 1;
    }
    assert(cs@.take(i as int) =~= cs@);
    let last = string_of(cur.as_slice());
    parts.push(last);
    assert(texts(parts@) =~= texts(parts@.drop_last()).push(last@));
    parts
}

/// Lines joined with LF.
pub fn join_lines_exec(v: &Vec<String>) -> (r: String)
    ensures
        r@ == join_lines(texts(v@)),
{
    let mut out: Vec<char> = Vec::new();
    let mut i: usize = 0;
    while i < v.len()
        invariant
            i <= v@.len(),
            out@ == join_lines(texts(v@).take(i as int)),
        decreases v.len() - i,
    {
        let ghost prev = out@;
        let line = chars_of(v[i].as_str());
        if i > 0 {
            out.push('\n');
        }
        let mut k: usize = 0;
        let ghost mid = out@;
        while k < line.len()
            invariant
                k <= line@.len(),
                out@ == mid + line@.take(k as int),
            decreases line.len() - k,
        {
            out.push(line[k]);
            assert(line@.take(k + 1) =~= line@.take(k as int).push(line@[k as int]));
            k += 1;
        }
        assert(line@.take(k as int) =~= line@);
        assert(texts(v@).take(i + 1).drop_last() =~= texts(v@).take(i as int));
        if i == 0 {
            assert(texts(v@).take(1) =~= seq![v@[0]@]);
        }
        i += 1;
    }
    assert(texts(v@).take(i as int) =~= texts(v@));
    string_of(out.as_slice())
}

impl VSCodeSnippetValue {
    /// The value as text: a list is joined with LF.
    pub open spec fn text(&self) -> Seq<char> {
        match self {
            VSCodeSnippetValue::Single(s) => s@,
            VSCodeSnippetValue::List(v) => join_lines(texts(v@)),
        }
    }

    /// The value as text: a list is joined with LF.
    pub fn to_text(&self) -> (r: String)
        ensures
            r@ == self.text(),
    {
        match self {
            VSCodeSnippetValue::Single(s) => s.clone(),
            VSCodeSnippetValue::List(v) => join_lines_exec(v),
        }
    }
}

/// The prefixes that a VSCode snippet is triggered by.
pub open spec fn prefixes_of(p: Option<VSCodeSnippetValue>) -> Seq<Seq<char>> {
    match p {
        Some(VSCodeSnippetValue::Single(s)) => seq![s@],
        Some(VSCodeSnippetValue::List(v)) => texts(v@),
        None => Seq::empty(),
    }
}

fn opt_text(v: &Option<VSCodeSnippetValue>) -> (r: Option<String>)
    ensures
        r is Some <==> v is Some,
        r matches Some(s) ==> s@ == v->Some_0.text(),
{
    match v {
        Some(x) => Some(x.to_text()),
        None => None,
    }
}

impl VSCodeSnippet {
    /// The same snippet with the single prefix `prefix`.
    pub fn prefix(self, prefix: String) -> (r: Self)
        ensures
            r.prefix == Some(VSCodeSnippetValue::Single(prefix)),
            r.scope == self.scope,
            r.body == self.body,
            r.description == self.description,
    {
        VSCodeSnippet { prefix: Some(VSCodeSnippetValue::Single(prefix)), ..self }
    }

    /// One snippet per prefix, each with the body and description as text
    /// and the scope split at commas.
    pub fn into_snippets(self) -> (r: Vec<Snippet>)
        ensures
            r@.len() == prefixes_of(self.prefix).len(),
            forall|i: int|
                0 <= i < r@.len() ==> {
                    &&& (#[trigger] r@[i]).prefix@ == prefixes_of(self.prefix)[i]
                    &&& r@[i].body@ == self.body.text()
                    &&& r@[i].description is Some <==> self.description is Some
                    &&& r@[i].description matches Some(d) ==> d@
                        == self.description->Some_0.text()
                    &&& r@[i].scope is Some <==> self.scope is Some
                    &&& r@[i].scope matches Some(v) ==> texts(v@) == split_commas(
                        self.scope->Some_0@,
                    )
                },
    {
        let scope = match &self.scope {
            Some(s) => Some(split_commas_exec(s.as_str())),
            None => None,
        };
        let body = self.body.to_text();
        let description = opt_text(&self.description);
        let prefixes: Vec<String> = match self.prefix {
            Some(VSCodeSnippetValue::Single(p)) => {
                let mut v = Vec::new();
                v.push(p);
                v
            },
            Some(VSCodeSnippetValue::List(v)) => v,
            None => Vec::new(),
        };
        assert(texts(prefixes@) =~= prefixes_of(self.prefix));
        let mut out: Vec<Snippet> = Vec::new();
        let mut i: usize = 0;
        while i < prefixes.len()
            invariant
                i <= prefixes@.len(),
                out@.len() == i,
                texts(prefixes@) == prefixes_of(self.prefix),
                body@ == self.body.text(),
                description is Some <==> self.description is Some,
                description matches Some(d) ==> d@ == self.description->Some_0.text(),
                scope is Some <==> self.scope is Some,
                scope matches Some(v) ==> texts(v@) == split_commas(self.scope->Some_0@),
                forall|k: int|
                    0 <= k < i ==> {
                        &&& (#[trigger] out@[k]).prefix@ == prefixes_of(self.prefix)[k]
                        &&& out@[k].body@ == self.body.text()
                        &&& out@[k].description is Some <==> self.description is Some
                        &&& out@[k].description matches Some(d) ==> d@
                            == self.description->Some_0.text()
                        &&& out@[k].scope is Some <==> self.scope is Some
                        &&& out@[k].scope matches Some(v) ==> texts(v@) == split_commas(
                            self.scope->Some_0@,
                        )
                    },
            decreases prefixes.len() - i,
        {
            let sc = match &scope {
                Some(v) => Some(clone_strings(v)),
                None => None,
            };
            let d = match &description {
                Some(d) => Some(d.clone()),
                None => None,
            };
            out.push(Snippet { scope: sc, prefix: prefixes[i].clone(), body: body.clone(), description: d });
            i += 1;
        }
        out
    }
}

/// A copy of a list of strings.
pub fn clone_strings(v: &Vec<String>) -> (r: Vec<String>)
    ensures
        texts(r@) == texts(v@),
{
    let mut out: Vec<String> = Vec::new();
    let mut i: usize = 0;
    while i < v.len()
        invariant
            i <= v@.len(),
            texts(out@) == texts(v@).take(i as int),
        decreases v.len() - i,
    {
        let ghost before = out@;
        out.push(v[i].clone());
        assert(out@ =~= before.push(v@[i as int]));
        assert(texts(v@).take(i + 1) =~= texts(v@).take(i as int).push(v@[i as int]@));
        assert(texts(out@) =~= texts(before).push(v@[i as int]@));
        i += 1;
    }
    assert(texts(v@).take(i as int) =~= texts(v@));
    out
}

/// Whether `pat` occurs in `s` at `i`.
pub open spec fn occurs_at(s: Seq<char>, pat: Seq<char>, i: int) -> bool {
    0 <= i && i + pat.len() <= s.len() && s.subrange(i, i + pat.len()) == pat
}

/// The first place at or after `i` where `pat` occurs in `s`.
pub open spec fn first_from(s: Seq<char>, pat: Seq<char>, i: int) -> Option<int>
    decreases s.len() + 1 - i,
{
    if i < 0 || i + pat.len() > s.len() {
        None
    } else if occurs_at(s, pat, i) {
        Some(i)
    } else {
        first_from(s, pat, i + 1)
    }
}

/// Whether `pat` occurs in `s` at `i`.
pub fn matches_at(s: &Vec<char>, pat: &Vec<char>, i: usize) -> (r: bool)
    ensures
        r == occurs_at(s@, pat@, i as int),
{
    if pat.len() > s.len() || i > s.len() - pat.len() {
        return false;
    }
    let n = s.len();
    let mut k: usize = 0;
    while k < pat.len()
        invariant
            n == s@.len(),
            k <= pat@.len(),
            i + pat@.len() <= s@.len(),
            forall|m: int| 0 <= m < k ==> s@[i + m] == pat@[m],
        decreases pat.len() - k,
    {
        if s[i + k] != pat[k] {
            assert(s@.subrange(i as int, i + pat@.len())[k as int] != pat@[k as int]);
            return false;
        }
        k += 1;
    }
    assert(s@.subrange(i as int, i + pat@.len()) =~= pat@);
    true
}

/// Where `pat` first occurs in `s` at or after `from`.
pub fn find_from(s: &Vec<char>, pat: &Vec<char>, from: usize) -> (r: Option<usize>)
    ensures
        r matches Some(i) ==> Some(i as int) == first_from(s@, pat@, from as int) && from <= i
            && i + pat@.len() <= s@.len() && occurs_at(s@, pat@, i as int),
        r is None ==> first_from(s@, pat@, from as int) is None,
{
    if pat.len() > s.len() || from > s.len() - pat.len() {
        return None;
    }
    let last = s.len() - pat.len();
    let mut i = from;
    loop
        invariant
            from <= i <= last,
            last + pat@.len() == s@.len(),
            first_from(s@, pat@, from as int) == first_from(s@, pat@, i as int),
        decreases last - i,
    {
        if matches_at(s, pat, i) {
            return Some(i);
        }
        if i == last {
            assert(first_from(s@, pat@, i + 1) is None);
            return None;
        }
        i += 1;
    }
}

/// Text after the first `://` in the part of `git` before the first `?`, up
/// to the next `://`.
pub open spec fn destination_of(git: Seq<char>) -> Option<Seq<char>> {
    let url = match first_from(git, seq!['?'], 0) {
        Some(q) => git.take(q),
        None => git,
    };
    match first_from(url, seq![':', '/', '/'], 0) {
        None => None,
        Some(p) => {
            let rest = url.skip(p + 3);
            match first_from(rest, seq![':', '/', '/'], 0) {
                Some(e) => Some(rest.take(e)),
                None => Some(rest),
            }
        },
    }
}

impl SnippetSource {
    /// The relative directory that the repository is checked out to: its URL
    /// without the scheme and the query. `ParseError` when the URL has no
    /// `://`.
    pub fn destination_path(&self) -> (r: Result<String, Error>)
        ensures
            r is Ok <==> destination_of(self.git@) is Some,
            r matches Ok(p) ==> p@ == destination_of(self.git@)->Some_0,
            r matches Err(e) ==> e == Error::ParseError,
    {
        let git = chars_of(self.git.as_str());
        let mut question: Vec<char> = Vec::new();
        question.push('?');
        let mut sep: Vec<char> = Vec::new();
        sep.push(':');
        sep.push('/');
        sep.push('/');
        assert(question@ =~= seq!['?']);
        assert(sep@ =~= seq![':', '/', '/']);
        let url: Vec<char> = match find_from(&git, &question, 0) {
            Some(q) => slice_vec(&git, 0, q),
            None => slice_vec(&git, 0, git.len()),
        };
        assert(git@.take(git@.len() as int) =~= git@);
        let p = match find_from(&url, &sep, 0) {
            Some(p) => p,
            None => return Err(Error::ParseError),
        };
        let rest = slice_vec(&url, p + 3, url.len());
        assert(rest@ =~= url@.skip(p + 3));
        let out = match find_from(&rest, &sep, 0) {
            Some(e) => slice_vec(&rest, 0, e),
            None => slice_vec(&rest, 0, rest.len()),
        };
        assert(rest@.take(rest@.len() as int) =~= rest@);
        Ok(string_of(out.as_slice()))
    }
}

/// The characters of `v` in `[a, b)`.
pub fn slice_vec(v: &Vec<char>, a: usize, b: usize) -> (r: Vec<char>)
    requires
        a <= b <= v@.len(),
    ensures
        r@ == v@.subrange(a as int, b as int),
{
    let mut out: Vec<char> = Vec::new();
    let mut i = a;
    while i < b
        invariant
            a <= i <= b,
            b <= v@.len(),
            out@ == v@.subrange(a as int, i as int),
        decreases b - i,
    {
        out.push(v[i]);
        assert(v@.subrange(a as int, i + 1) =~= v@.subrange(a as int, i as int).push(v@[i as int]));
        i += 1;
    }
    out
}

/// The entries of a unicode-input table ordered by prefix length, longest
/// first; entries of equal length keep their order. Each entry of the
/// table appears once in the result.
pub fn sort_unicode_input(items: Vec<(String, String)>) -> (r: Vec<UnicodeInputItem>)
    ensures
        r@.len() == items@.len(),
        forall|i: int, j: int| 0 <= i < j < r@.len() ==> #[trigger] r@[i].prefix@.len() >= #[trigger] r@[j].prefix@.len(),
        exists|src: Seq<int>|
            #![trigger src.len()]
            src.len() == r@.len()
            && (forall|a: int, b: int| 0 <= a < b < src.len() ==> src[a] != src[b])
            && forall|m: int| 0 <= m < r@.len() ==> 0 <= #[trigger] src[m] < items@.len()
                && r@[m].prefix == items@[src[m]].0 && r@[m].body == items@[src[m]].1,
{
    let mut out: Vec<UnicodeInputItem> = Vec::new();
    let mut lens: Vec<usize> = Vec::new();
    let ghost mut src: Seq<int> = Seq::empty();
    let mut i: usize = 0;
    while i < items.len()
        invariant
            i <= items@.len(),
            out@.len() == i,
            lens@.len() == i,
            src.len() == i,
            forall|a: int, b: int| 0 <= a < b < src.len() ==> src[a] != src[b],
            forall|m: int| 0 <= m < out@.len() ==> 0 <= #[trigger] src[m] < i
                && out@[m].prefix == items@[src[m]].0 && out@[m].body == items@[src[m]].1,
            forall|k: int| 0 <= k < i ==> #[trigger] lens@[k] == out@[k].prefix@.len(),
            forall|a: int, b: int| 0 <= a < b < i ==> #[trigger] out@[a].prefix@.len() >= #[trigger] out@[b].prefix@.len(),
        decreases items.len() - i,
    {
        let (p, b) = (items[i].0.clone(), items[i].1.clone());
        let n = p.as_str().unicode_len();
        // place after every entry at least as long
        let mut at: usize = 0;
        while at < lens.len() && lens[at] >= n
            invariant
                at <= lens@.len(),
                lens@.len() == out@.len(),
                forall|k: int| 0 <= k < at ==> lens@[k] >= n,
            decreases lens.len() - at,
        {
            at += 1;
        }
        let ghost old_out = out@;
        let ghost old_lens = lens@;
        let ghost old_src = src;
        out.insert(at, UnicodeInputItem { prefix: p, body: b });
        lens.insert(at, n);
        proof {
            src = old_src.insert(at as int, i as int);
        }
        assert forall|k: int| 0 <= k < out@.len() implies #[trigger] lens@[k] == out@[k].prefix@.len() by {
            if k < at {
                assert(lens@[k] == old_lens[k]);
                assert(out@[k] == old_out[k]);
            } else if k > at {
                assert(lens@[k] == old_lens[k - 1]);
                assert(out@[k] == old_out[k - 1]);
            }
        }
        assert forall|m: int| 0 <= m < out@.len() implies 0 <= #[trigger] src[m] < i + 1
            && out@[m].prefix == items@[src[m]].0 && out@[m].body == items@[src[m]].1 by {
            if m < at {
                assert(out@[m] == old_out[m] && src[m] == old_src[m]);
            } else if m > at {
                assert(out@[m] == old_out[m - 1] && src[m] == old_src[m - 1]);
            }
        }
        assert forall|a: int, c: int| 0 <= a < c < src.len() implies src[a] != src[c] by {
            if a < at && c < at {
                assert(src[a] == old_src[a] && src[c] == old_src[c]);
            } else if a < at && c > at {
                assert(src[a] == old_src[a] && src[c] == old_src[c - 1]);
            } else if a > at {
                assert(src[a] == old_src[a - 1] && src[c] == old_src[c - 1]);
            } else if a == at {
                assert(src[c] == old_src[c - 1]);
            } else {
                assert(src[a] == old_src[a]);
            }
        }
        assert forall|a: int, c: int| 0 <= a < c < out@.len() implies #[trigger] out@[a].prefix@.len() >= #[trigger] out@[c].prefix@.len() by {
            assert(lens@[a] == out@[a].prefix@.len());
            assert(lens@[c] == out@[c].prefix@.len());
            if a < at && c > at {
                assert(old_lens[a] >= n);
                assert(lens@[c] == old_lens[c - 1]);
                assert(old_lens[c - 1] == old_out[c - 1].prefix@.len());
                assert(old_out[a].prefix@.len() >= old_out[c - 1].prefix@.len());
            } else if a < at && c == at {
            } else if a == at && c > at {
                if c - 1 >= at + 0 && at < old_lens.len() {
                    assert(!(old_lens[at as int] >= n) || at == old_lens.len());
                    assert(old_out[at as int].prefix@.len() >= old_out[c - 1].prefix@.len() || c - 1 == at);
                }
            } else if a > at {
                assert(old_out[a - 1].prefix@.len() >= old_out[c - 1].prefix@.len());
            } else {
                assert(old_out[a].prefix@.len() >= old_out[c].prefix@.len());
            }
        }
        i += 1;
    }
    assert(src.len() == out@.len());
    out
}

/// The scope that a snippet file's stem implies: the stem itself, unless it
/// is `snippets`.
pub fn file_scope(stem: &str) -> (r: Option<Vec<String>>)
    ensures
        r is None <==> stem@ == "snippets"@,
        r matches Some(v) ==> texts(v@) == seq![stem@],
{
    if crate::strings::str_eq(stem, "snippets") {
        None
    } else {
        let mut v = Vec::new();
        v.push(stem.to_owned());
        assert(texts(v@) =~= seq![stem@]);
        Some(v)
    }
}

/// The scope of a snippet after `scope` is added to it.
pub open spec fn scoped(old: Option<Vec<String>>, scope: Seq<Seq<char>>) -> Seq<Seq<char>> {
    match old {
        Some(v) => texts(v@) + scope,
        None => scope,
    }
}

/// Each snippet with `scope` added to its own.
pub fn add_scope(snippets: Vec<Snippet>, scope: &Vec<String>) -> (r: Vec<Snippet>)
    ensures
        r@.len() == snippets@.len(),
        forall|i: int| 0 <= i < r@.len() ==> {
            &&& (#[trigger] r@[i]).prefix == snippets@[i].prefix
            &&& r@[i].body == snippets@[i].body
            &&& r@[i].description == snippets@[i].description
            &&& r@[i].scope matches Some(v) && texts(v@) == scoped(snippets@[i].scope, texts(scope@))
        },
{
    let mut out: Vec<Snippet> = Vec::new();
    let mut i: usize = 0;
    while i < snippets.len()
        invariant
            i <= snippets@.len(),
            out@.len() == i,
            forall|k: int| 0 <= k < i ==> {
                &&& (#[trigger] out@[k]).prefix == snippets@[k].prefix
                &&& out@[k].body == snippets@[k].body
                &&& out@[k].description == snippets@[k].description
                &&& out@[k].scope matches Some(v) && texts(v@) == scoped(snippets@[k].scope, texts(scope@))
            },
        decreases snippets.len() - i,
    {
        let s = &snippets[i];
        let mut v = match &s.scope {
            Some(old) => clone_strings(old),
            None => Vec::new(),
        };
        let ghost head = texts(v@);
        let extra = clone_strings(scope);
        let mut k: usize = 0;
        while k < extra.len()
            invariant
                k <= extra@.len(),
                texts(extra@) == texts(scope@),
                texts(v@) == head + texts(extra@).take(k as int),
            decreases extra.len() - k,
        {
            let ghost before = v@;
            v.push(extra[k].clone());
            assert(texts(v@) =~= texts(before).push(extra@[k as int]@));
            assert(texts(extra@).take(k + 1) =~= texts(extra@).take(k as int).push(extra@[k as int]@));
            k += 1;
        }
        assert(texts(extra@).take(k as int) =~= texts(extra@));
        proof {
            if s.scope is None {
                assert(head =~= Seq::<Seq<char>>::empty());
                assert(texts(v@) =~= texts(scope@));
            }
        }
        let desc = match &s.description {
            Some(d) => Some(d.clone()),
            None => None,
        };
        out.push(Snippet { scope: Some(v), prefix: s.prefix.clone(), body: s.body.clone(), description: desc });
        i += 1;
    }
    out
}

/// The texts of an optional list of strings.
pub open spec fn scope_texts(o: Option<Vec<String>>) -> Option<Seq<Seq<char>>> {
    match o {
        Some(v) => Some(texts(v@)),
        None => None,
    }
}

/// Each snippet's description led by the name of the source it came from.
pub fn with_source_name(snippets: Vec<Snippet>, name: &str) -> (r: Vec<Snippet>)
    ensures
        r@.len() == snippets@.len(),
        forall|i: int| 0 <= i < r@.len() ==> {
            &&& (#[trigger] r@[i]).prefix == snippets@[i].prefix
            &&& r@[i].body == snippets@[i].body
            &&& scope_texts(r@[i].scope) == scope_texts(snippets@[i].scope)
            &&& r@[i].description matches Some(d) && d@ == name@ + seq!['\n', '\n'] + match snippets@[i].description {
                Some(old) => old@,
                None => Seq::empty(),
            }
        },
{
    let mut out: Vec<Snippet> = Vec::new();
    let mut i: usize = 0;
    while i < snippets.len()
        invariant
            i <= snippets@.len(),
            out@.len() == i,
            forall|k: int| 0 <= k < i ==> {
                &&& (#[trigger] out@[k]).prefix == snippets@[k].prefix
                &&& out@[k].body == snippets@[k].body
                &&& scope_texts(out@[k].scope) == scope_texts(snippets@[k].scope)
                &&& out@[k].description matches Some(d) && d@ == name@ + seq!['\n', '\n'] + match snippets@[k].description {
                    Some(old) => old@,
                    None => Seq::empty(),
                }
            },
        decreases snippets.len() - i,
    {
        let s = &snippets[i];
        let mut d = name.to_owned();
        d.append("\n\n");
        match &s.description {
            Some(old) => d.append(old.as_str()),
            None => {},
        }
        proof {
            reveal_strlit("\n\n");
            assert("\n\n"@ =~= seq!['\n', '\n']);
        }
        let scope = match &s.scope {
            Some(v) => Some(clone_strings(v)),
            None => None,
        };
        let snippet = Snippet { scope, prefix: s.prefix.clone(), body: s.body.clone(), description: Some(d) };
        out.push(snippet);
        i += 1;
    }
    out
}

/// `a` comes before or equals `b` in the order of characters.
pub open spec fn lex_le(a: Seq<char>, b: Seq<char>) -> bool
    decreases a.len(),
{
    if a.len() == 0 {
        true
    } else if b.len() == 0 {
        false
    } else if a[0] != b[0] {
        a[0] < b[0]
    } else {
        lex_le(a.drop_first(), b.drop_first())
    }
}

/// Whether `a` comes before or equals `b` in the order of characters.
pub fn lex_le_exec(a: &str, b: &str) -> (r: bool)
    ensures
        r == lex_le(a@, b@),
{
    let va = chars_of(a);
    let vb = chars_of(b);
    let mut i: usize = 0;
    assert(a@.skip(0) =~= a@);
    assert(b@.skip(0) =~= b@);
    while i < va.len() && i < vb.len() && va[i] == vb[i]
        invariant
            i <= va@.len(),
            i <= vb@.len(),
            va@ == a@,
            vb@ == b@,
            lex_le(a@, b@) == lex_le(a@.skip(i as int), b@.skip(i as int)),
        decreases va.len() - i,
    {
        assert(a@.skip(i as int).drop_first() =~= a@.skip(i + 1));
        assert(b@.skip(i as int).drop_first() =~= b@.skip(i + 1));
        i += 1;
    }
    if i == va.len() {
        true
    } else if i == vb.len() {
        false
    } else {
        assert(a@.skip(i as int)[0] == va@[i as int]);
        assert(b@.skip(i as int)[0] == vb@[i as int]);
        va[i] < vb[i]
    }
}

proof fn lemma_lex_total(a: Seq<char>, b: Seq<char>)
    ensures
        lex_le(a, b) || lex_le(b, a),
    decreases a.len(),
{
    if a.len() > 0 && b.len() > 0 {
        if a[0] == b[0] {
            lemma_lex_total(a.drop_first(), b.drop_first());
        }
    }
}

proof fn lemma_lex_trans(a: Seq<char>, b: Seq<char>, c: Seq<char>)
    requires
        lex_le(a, b),
        lex_le(b, c),
    ensures
        lex_le(a, c),
    decreases a.len(),
{
    if a.len() > 0 && b.len() > 0 && c.len() > 0 && a[0] == b[0] && b[0] == c[0] {
        lemma_lex_trans(a.drop_first(), b.drop_first(), c.drop_first());
    }
}

/// The snippets ordered by trigger, in the order of characters. Each
/// snippet of the input appears once in the result.
pub fn sort_snippets(snippets: Vec<Snippet>) -> (r: Vec<Snippet>)
    ensures
        r@.len() == snippets@.len(),
        forall|i: int, j: int| 0 <= i < j < r@.len() ==> lex_le(#[trigger] r@[i].prefix@, #[trigger] r@[j].prefix@),
        exists|src: Seq<int>|
            #![trigger src.len()]
            src.len() == r@.len()
            && (forall|a: int, b: int| 0 <= a < b < src.len() ==> src[a] != src[b])
            && forall|m: int| 0 <= m < r@.len() ==> 0 <= #[trigger] src[m] < snippets@.len()
                && r@[m] == snippets@[src[m]],
{
    let ghost all = snippets@;
    let mut input = snippets;
    let mut out: Vec<Snippet> = Vec::new();
    let ghost mut src: Seq<int> = Seq::empty();
    while input.len() > 0
        invariant
            input@ == all.take(input@.len() as int),
            input@.len() <= all.len(),
            out@.len() + input@.len() == all.len(),
            src.len() == out@.len(),
            forall|a: int, b: int| 0 <= a < b < src.len() ==> src[a] != src[b],
            forall|m: int| 0 <= m < out@.len() ==> input@.len() <= #[trigger] src[m] < all.len()
                && out@[m] == all[src[m]],
            forall|a: int, b: int| 0 <= a < b < out@.len() ==> lex_le(#[trigger] out@[a].prefix@, #[trigger] out@[b].prefix@),
        decreases input.len(),
    {
        let ghost idx = input@.len() - 1;
        let s = input.pop().unwrap();
        assert(s == all[idx]);
        assert(input@ =~= all.take(idx));
        let mut at: usize = 0;
        while at < out.len() && !lex_le_exec(s.prefix.as_str(), out[at].prefix.as_str())
            invariant
                at <= out@.len(),
                forall|k: int| 0 <= k < at ==> !lex_le(s.prefix@, #[trigger] out@[k].prefix@),
            decreases out.len() - at,
        {
            at += 1;
        }
        let ghost old_out = out@;
        let ghost old_src = src;
        out.insert(at, s);
        proof {
            src = old_src.insert(at as int, idx);
            assert forall|a: int, b: int| 0 <= a < b < out@.len() implies lex_le(#[trigger] out@[a].prefix@, #[trigger] out@[b].prefix@) by {
                if a < at && b < at {
                    assert(out@[a] == old_out[a] && out@[b] == old_out[b]);
                } else if a > at {
                    assert(out@[a] == old_out[a - 1] && out@[b] == old_out[b - 1]);
                } else if a < at {
                    assert(out@[a] == old_out[a]);
                    lemma_lex_total(s.prefix@, old_out[a].prefix@);
                    if b > at {
                        assert(out@[b] == old_out[b - 1]);
                        assert(lex_le(s.prefix@, old_out[at as int].prefix@));
                        if b - 1 > at {
                            assert(lex_le(old_out[at as int].prefix@, old_out[b - 1].prefix@));
                            lemma_lex_trans(s.prefix@, old_out[at as int].prefix@, old_out[b - 1].prefix@);
                        }
                        lemma_lex_trans(old_out[a].prefix@, s.prefix@, old_out[b - 1].prefix@);
                    }
                } else {
                    assert(a == at);
                    assert(out@[b] == old_out[b - 1]);
                    assert(lex_le(s.prefix@, old_out[at as int].prefix@));
                    if b - 1 > at {
                        assert(lex_le(old_out[at as int].prefix@, old_out[b - 1].prefix@));
                        lemma_lex_trans(s.prefix@, old_out[at as int].prefix@, old_out[b - 1].prefix@);
                    }
                }
            }
            assert forall|m: int| 0 <= m < out@.len() implies input@.len() <= #[trigger] src[m] < all.len()
                && out@[m] == all[src[m]] by {
                if m < at {
                    assert(out@[m] == old_out[m] && src[m] == old_src[m]);
                } else if m > at {
                    assert(out@[m] == old_out[m - 1] && src[m] == old_src[m - 1]);
                }
            }
            assert forall|a: int, c: int| 0 <= a < c < src.len() implies src[a] != src[c] by {
                if a < at && c < at {
                    assert(src[a] == old_src[a] && src[c] == old_src[c]);
                } else if a < at && c > at {
                    assert(src[a] == old_src[a] && src[c] == old_src[c - 1]);
                } else if a > at {
                    assert(src[a] == old_src[a - 1] && src[c] == old_src[c - 1]);
                } else if a == at {
                    assert(src[c] == old_src[c - 1]);
                } else {
                    assert(src[a] == old_src[a]);
                }
            }
        }
    }
    assert(src.len() == out@.len());
    out
}

} // verus!
