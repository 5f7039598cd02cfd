//! Path completion: which directory to list for a path-like prefix, and the
//! items for the entries found there.

use vstd::prelude::*;
use crate::completion::{CompletionItem, CompletionKind, Position, TextEdit, range_before, range_before_exec, text_of};
use crate::snippets::{first_from, find_from, slice_vec};
use crate::strings::{chars_of, string_of, lowercase, lower_of, has_prefix};

verus! {

/// The path separator.
pub const SEPARATOR: char = '/';

/// What char::is_alphabetic returns for a character.
pub uninterp spec fn alphabetic(c: char) -> bool;

/// Relies on char::is_alphabetic: the Unicode Alphabetic property.
#[verifier::external_body]
fn is_alphabetic(c: char) -> (r: bool)
    ensures
        r == alphabetic(c),
{
    c.is_alphabetic()
}

/// How a path prefix is expanded.
#[derive(Debug, Clone, Copy, PartialEq, Eq, Structural)]
pub enum PathLogic {
    /// Used as it stands.
    Full,
    /// `~/`: relative to the home directory.
    Tilde,
    /// `./`: relative to the directory of the document.
    RelativeCurrent,
    /// `../`: relative to the parent of that directory.
    RelativeParent,
}

/// Whether `s` starts with `p`.
pub open spec fn begins(s: Seq<char>, p: Seq<char>) -> bool {
    p.len() <= s.len() && s.take(p.len() as int) == p
}

/// The expansion that the start of `s` calls for.
pub open spec fn logic_of(s: Seq<char>) -> PathLogic {
    if begins(s, seq!['~', '/']) {
        PathLogic::Tilde
    } else if begins(s, seq!['.', '/']) {
        PathLogic::RelativeCurrent
    } else if begins(s, seq!['.', '.', '/']) {
        PathLogic::RelativeParent
    } else {
        PathLogic::Full
    }
}

/// The index of the last separator of `s`.
pub open spec fn last_sep(s: Seq<char>) -> Option<int>
    decreases s.len(),
{
    if s.len() == 0 {
        None
    } else if s.last() == SEPARATOR {
        Some(s.len() - 1)
    } else {
        last_sep(s.drop_last())
    }
}

/// The directory that holds `p`: what comes before its last separator (the
/// root for a path right under it); none for the root and for a path with no
/// separator.
pub open spec fn parent_of(p: Seq<char>) -> Option<Seq<char>> {
    match last_sep(p) {
        None => None,
        Some(i) => if i == 0 {
            if p.len() == 1 {
                None
            } else {
                Some(seq![SEPARATOR])
            }
        } else {
            Some(p.take(i))
        },
    }
}

/// `s` with the first occurrence of `pat` replaced by `to`.
pub open spec fn replace_first(s: Seq<char>, pat: Seq<char>, to: Seq<char>) -> Seq<char> {
    match first_from(s, pat, 0) {
        Some(i) => s.take(i) + to + s.skip(i + pat.len()),
        None => s,
    }
}

proof fn lemma_last_sep(s: Seq<char>)
    ensures
        last_sep(s) matches Some(i) ==> 0 <= i < s.len() && s[i] == SEPARATOR,
    decreases s.len(),
{
    if s.len() > 0 && s.last() != SEPARATOR {
        lemma_last_sep(s.drop_last());
    }
}

/// The index of the last separator of `v`.
pub fn last_sep_exec(v: &Vec<char>) -> (r: Option<usize>)
    ensures
        r matches Some(i) ==> last_sep(v@) == Some(i as int),
        r is None ==> last_sep(v@) is None,
{
    let mut n = v.len();
    assert(v@.take(n as int) =~= v@);
    while n > 0
        invariant
            n <= v@.len(),
            last_sep(v@) == last_sep(v@.take(n as int)),
        decreases n,
    {
        assert(v@.take(n as int).drop_last() =~= v@.take(n - 1));
        if v[n - 1] == SEPARATOR {
            return Some(n - 1);
        }
        n -= 1;
    }
    None
}

/// The directory that holds `p`.
pub fn parent_exec(p: &Vec<char>) -> (r: Option<Vec<char>>)
    ensures
        r matches Some(d) ==> parent_of(p@) == Some(d@),
        r is None ==> parent_of(p@) is None,
{
    proof {
        lemma_last_sep(p@);
    }
    match last_sep_exec(p) {
        None => None,
        Some(i) => {
            if i == 0 {
                if p.len() == 1 {
                    None
                } else {
                    let mut v = Vec::new();
                    v.push(SEPARATOR);
                    assert(v@ =~= seq![SEPARATOR]);
                    Some(v)
                }
            } else {
                Some(slice_vec(p, 0, i))
            }
        },
    }
}

/// `s` with the first occurrence of `pat` replaced by `to`.
pub fn replace_first_exec(s: &Vec<char>, pat: &Vec<char>, to: &Vec<char>) -> (r: Vec<char>)
    ensures
        r@ == replace_first(s@, pat@, to@),
{
    let sl = s.len();
    match find_from(s, pat, 0) {
        None => slice_vec(s, 0, sl),
        Some(i) => {
            let mut out = slice_vec(s, 0, i);
            let tail = slice_vec(s, i + pat.len(), s.len());
            let mut k: usize = 0;
            let ghost head = out@;
            while k < to.len()
                invariant
                    k <= to@.len(),
                    out@ == head + to@.take(k as int),
                decreases to.len() - k,
            {
                out.push(to[k]);
                assert(to@.take(k + 1) =~= to@.take(k as int).push(to@[k as int]));
                k += 1;
            }
            let mut k: usize = 0;
            let ghost mid = out@;
            while k < tail.len()
                invariant
                    k <= tail@.len(),
                    out@ == mid + tail@.take(k as int),
                decreases tail.len() - k,
            {
                out.push(tail[k]);
                assert(tail@.take(k + 1) =~= tail@.take(k as int).push(tail@[k as int]));
                k += 1;
            }
            assert(to@.take(to@.len() as int) =~= to@);
            assert(tail@.take(tail@.len() as int) =~= tail@);
            assert(out@ =~= s@.take(i as int) + to@ + s@.skip(i + pat@.len()));
            out
        },
    }
}

impl PathLogic {
    /// The expansion that the start of `s` calls for.
    pub fn from_prefix(s: &str) -> (r: PathLogic)
        ensures
            r == logic_of(s@),
    {
        let v = chars_of(s);
        let n = v.len();
        if n >= 2 && v[0] == '~' && v[1] == '/' {
            assert(v@.take(2) =~= seq!['~', '/']);
            PathLogic::Tilde
        } else if n >= 2 && v[0] == '.' && v[1] == '/' {
            assert(!begins(s@, seq!['~', '/']));
            assert(v@.take(2) =~= seq!['.', '/']);
            PathLogic::RelativeCurrent
        } else if n >= 3 && v[0] == '.' && v[1] == '.' && v[2] == '/' {
            assert(!begins(s@, seq!['~', '/']));
            assert(!begins(s@, seq!['.', '/']));
            assert(v@.take(3) =~= seq!['.', '.', '/']);
            PathLogic::RelativeParent
        } else {
            assert(!begins(s@, seq!['~', '/']) && !begins(s@, seq!['.', '/'])) by {
                if n >= 2 {
                    assert(s@.take(2)[0] == v@[0] && s@.take(2)[1] == v@[1]);
                }
            }
            assert(!begins(s@, seq!['.', '.', '/'])) by {
                if n >= 3 {
                    assert(s@.take(3)[0] == v@[0] && s@.take(3)[1] == v@[1] && s@.take(3)[2] == v@[2]);
                }
            }
            PathLogic::Full
        }
    }
}

/// How to expand and fold back one path prefix.
pub struct PathState {
    pub logic: PathLogic,
    pub home_dir: Vec<char>,
    /// The directory of the document.
    pub current_dir: Vec<char>,
    /// Its parent, for `../`.
    pub parent_dir: Option<Vec<char>>,
}

/// The directory of the document at `document_path`: its parent, or the path
/// itself when it has none.
pub open spec fn current_dir_of(document_path: Seq<char>) -> Seq<char> {
    match parent_of(document_path) {
        Some(d) => d,
        None => document_path,
    }
}

/// `s` expanded to an absolute path.
pub open spec fn expand_spec(logic: PathLogic, s: Seq<char>, home: Seq<char>, current: Seq<char>, parent: Option<Seq<char>>) -> Seq<char> {
    match logic {
        PathLogic::Full => s,
        PathLogic::Tilde => replace_first(s, seq!['~'], home),
        PathLogic::RelativeCurrent => replace_first(s, seq!['.'], current),
        PathLogic::RelativeParent => match parent {
            Some(p) => replace_first(s, seq!['.', '.'], p),
            None => s,
        },
    }
}

/// An absolute path `s` written back in the form the user typed.
pub open spec fn fold_spec(logic: PathLogic, s: Seq<char>, home: Seq<char>, current: Seq<char>, parent: Option<Seq<char>>) -> Seq<char> {
    match logic {
        PathLogic::Full => s,
        PathLogic::Tilde => replace_first(s, home, seq!['~']),
        PathLogic::RelativeCurrent => replace_first(s, current, seq!['.']),
        PathLogic::RelativeParent => match parent {
            Some(p) => replace_first(s, p, seq!['.', '.']),
            None => s,
        },
    }
}

impl PathState {
    pub open spec fn parent_view(&self) -> Option<Seq<char>> {
        match self.parent_dir {
            Some(p) => Some(p@),
            None => None,
        }
    }

    /// The state for prefix `s` typed in the document at `document_path`.
    pub fn new(s: &str, home_dir: &str, document_path: &str) -> (r: PathState)
        ensures
            r.logic == logic_of(s@),
            r.home_dir@ == home_dir@,
            r.current_dir@ == current_dir_of(document_path@),
            r.parent_view() == if r.logic == PathLogic::RelativeParent {
                parent_of(current_dir_of(document_path@))
            } else {
                None
            },
    {
        let logic = PathLogic::from_prefix(s);
        let doc = chars_of(document_path);
        let current_dir = match parent_exec(&doc) {
            Some(d) => d,
            None => doc,
        };
        let parent_dir = if logic == PathLogic::RelativeParent {
            parent_exec(&current_dir)
        } else {
            None
        };
        PathState { logic, home_dir: chars_of(home_dir), current_dir, parent_dir }
    }

    /// `s` expanded to an absolute path.
    pub fn expand(&self, s: &Vec<char>) -> (r: Vec<char>)
        ensures
            r@ == expand_spec(self.logic, s@, self.home_dir@, self.current_dir@, self.parent_view()),
    {
        match self.logic {
            PathLogic::Full => slice_vec(s, 0, s.len()),
            PathLogic::Tilde => {
                let mut pat = Vec::new();
                pat.push('~');
                assert(pat@ =~= seq!['~']);
                replace_first_exec(s, &pat, &self.home_dir)
            },
            PathLogic::RelativeCurrent => {
                let mut pat = Vec::new();
                pat.push('.');
                assert(pat@ =~= seq!['.']);
                replace_first_exec(s, &pat, &self.current_dir)
            },
            PathLogic::RelativeParent => match &self.parent_dir {
                Some(p) => {
                    let mut pat = Vec::new();
                    pat.push('.');
                    pat.push('.');
                    assert(pat@ =~= seq!['.', '.']);
                    replace_first_exec(s, &pat, p)
                },
                None => slice_vec(s, 0, s.len()),
            },
        }
    }

    /// An absolute path written back in the form the user typed.
    pub fn fold(&self, s: &Vec<char>) -> (r: Vec<char>)
        ensures
            r@ == fold_spec(self.logic, s@, self.home_dir@, self.current_dir@, self.parent_view()),
    {
        match self.logic {
            PathLogic::Full => slice_vec(s, 0, s.len()),
            PathLogic::Tilde => {
                let mut to = Vec::new();
                to.push('~');
                assert(to@ =~= seq!['~']);
                replace_first_exec(s, &self.home_dir, &to)
            },
            PathLogic::RelativeCurrent => {
                let mut to = Vec::new();
                to.push('.');
                assert(to@ =~= seq!['.']);
                replace_first_exec(s, &self.current_dir, &to)
            },
            PathLogic::RelativeParent => match &self.parent_dir {
                Some(p) => {
                    let mut to = Vec::new();
                    to.push('.');
                    to.push('.');
                    assert(to@ =~= seq!['.', '.']);
                    replace_first_exec(s, p, &to)
                },
                None => slice_vec(s, 0, s.len()),
            },
        }
    }
}

/// What to list for a path prefix, and how to match and fold what is found.
pub struct PathQuery {
    pub state: PathState,
    /// The directory to list.
    pub dir: String,
    /// The start of the entry name, lowercased; empty to keep every entry.
    pub name_prefix: String,
    /// Length of the prefix that an item replaces.
    pub replace_len: usize,
}

/// The prefix with one leading character dropped when it cannot start a
/// path (not alphabetic, a separator, `~` or `.`).
pub open spec fn trimmed(s: Seq<char>) -> Seq<char> {
    if s.len() > 0 && !(alphabetic(s[0]) || s[0] == SEPARATOR || s[0] == '~' || s[0] == '.') {
        s.skip(1)
    } else {
        s
    }
}

/// The query for `chars_prefix`, if it names a path: it holds a separator,
/// and the expanded path ends in a separator (list that directory, keep
/// everything) or has a parent (list it, keep names that start with the
/// lowercased last component).
pub open spec fn query_spec(chars_prefix: Seq<char>, home: Seq<char>, document_path: Seq<char>) -> Option<(Seq<char>, Seq<char>, nat)> {
    if !chars_prefix.contains(SEPARATOR) {
        None
    } else {
        let t = trimmed(chars_prefix);
        let logic = logic_of(t);
        let current = current_dir_of(document_path);
        let parent = if logic == PathLogic::RelativeParent { parent_of(current) } else { None };
        let e = expand_spec(logic, t, home, current, parent);
        if chars_prefix.last() == SEPARATOR {
            Some((e, Seq::empty(), t.len()))
        } else {
            match (last_sep(e), parent_of(e)) {
                (Some(i), Some(d)) => Some((d, lower_of(e.skip(i + 1)), t.len())),
                _ => None,
            }
        }
    }
}

/// The query for a path-like char prefix typed in the document at
/// `document_path`; `None` when the prefix names no directory to list.
pub fn path_query(chars_prefix: &str, home_dir: &str, document_path: &str) -> (r: Option<PathQuery>)
    ensures
        r is Some <==> query_spec(chars_prefix@, home_dir@, document_path@) is Some,
        r matches Some(q) ==> {
            let (d, n, l) = query_spec(chars_prefix@, home_dir@, document_path@)->Some_0;
            &&& q.dir@ == d
            &&& q.name_prefix@ == n
            &&& q.replace_len == l
            &&& q.state.logic == logic_of(trimmed(chars_prefix@))
            &&& q.state.home_dir@ == home_dir@
            &&& q.state.current_dir@ == current_dir_of(document_path@)
            &&& q.state.parent_view() == if q.state.logic == PathLogic::RelativeParent {
                parent_of(current_dir_of(document_path@))
            } else {
                None
            }
        },
{
    let cp = chars_of(chars_prefix);
    let mut has_sep = false;
    let mut i: usize = 0;
    while i < cp.len()
        invariant
            i <= cp@.len(),
            has_sep == exists|k: int| 0 <= k < i && cp@[k] == SEPARATOR,
        decreases cp.len() - i,
    {
        if cp[i] == SEPARATOR {
            has_sep = true;
        }
        i += 1;
    }
    if !has_sep {
        assert(!chars_prefix@.contains(SEPARATOR));
        return None;
    }
    assert(chars_prefix@.contains(SEPARATOR));
    let first = cp[0];
    let last = cp[cp.len() - 1];
    let t = if is_alphabetic(first) || first == SEPARATOR || first == '~' || first == '.' {
        slice_vec(&cp, 0, cp.len())
    } else {
        slice_vec(&cp, 1, cp.len())
    };
    assert(t@ == trimmed(chars_prefix@));
    let ts = string_of(t.as_slice());
    let state = PathState::new(ts.as_str(), home_dir, document_path);
    let e = state.expand(&t);
    if last == SEPARATOR {
        return Some(PathQuery { state, dir: string_of(e.as_slice()), name_prefix: String::new(), replace_len: t.len() });
    }
    proof {
        lemma_last_sep(e@);
    }
    let i = match last_sep_exec(&e) {
        Some(i) => i,
        None => return None,
    };
    let d = match parent_exec(&e) {
        Some(d) => d,
        None => return None,
    };
    let el = e.len();
    let name = slice_vec(&e, i + 1, el);
    let name_s = string_of(name.as_slice());
    let lower = lowercase(name_s.as_str());
    assert(name@ == e@.skip(i + 1));
    Some(PathQuery { state, dir: string_of(d.as_slice()), name_prefix: lower, replace_len: t.len() })
}

/// An entry of a listed directory.
pub struct DirEntry {
    /// The entry's name.
    pub name: String,
    /// The directory joined with the name.
    pub path: String,
    pub is_dir: bool,
}

/// The entry is kept: the name prefix is empty, or the lowercased name
/// starts with it.
pub open spec fn entry_kept(e: DirEntry, name_prefix: Seq<char>) -> bool {
    name_prefix.len() == 0 || begins(lower_of(e.name@), name_prefix)
}

/// The kept entries, in order.
pub open spec fn kept_entries(entries: Seq<DirEntry>, name_prefix: Seq<char>) -> Seq<DirEntry>
    decreases entries.len(),
{
    if entries.len() == 0 {
        Seq::empty()
    } else {
        let r = kept_entries(entries.drop_last(), name_prefix);
        if entry_kept(entries.last(), name_prefix) {
            r.push(entries.last())
        } else {
            r
        }
    }
}

/// `it` is the item for entry `e`: labelled with its folded path, which it
/// inserts in place of the prefix.
pub open spec fn is_path_item(it: CompletionItem, e: DirEntry, q: PathQuery, word_prefix: Seq<char>, cursor: Position) -> bool {
    let folded = fold_spec(q.state.logic, e.path@, q.state.home_dir@, q.state.current_dir@, q.state.parent_view());
    &&& it.label@ == folded
    &&& text_of(it.sort_text) == Some(folded)
    &&& text_of(it.filter_text) == Some(word_prefix + folded)
    &&& it.kind == if e.is_dir { CompletionKind::Folder } else { CompletionKind::File }
    &&& it.inserted() == Some(folded)
    &&& it.replaced() == Some(range_before(cursor, q.replace_len as nat))
    &&& it.documentation is None
    &&& !it.snippet_format
}

/// The items for the entries of the listed directory that the query keeps,
/// in order, at most `max_items` of them.
pub fn path_items(q: &PathQuery, entries: &Vec<DirEntry>, word_prefix: &str, cursor: Position, max_items: usize) -> (r: Vec<CompletionItem>)
    ensures
        ({
            let k = kept_entries(entries@, q.name_prefix@);
            &&& r@.len() == if k.len() < max_items { k.len() } else { max_items as nat }
            &&& forall|i: int| 0 <= i < r@.len() ==> is_path_item(#[trigger] r@[i], k[i], *q, word_prefix@, cursor)
        }),
{
    let mut out: Vec<CompletionItem> = Vec::new();
    let mut i: usize = 0;
    let empty_prefix = q.name_prefix.as_str().unicode_len() == 0;
    while i < entries.len()
        invariant
            i <= entries@.len(),
            empty_prefix == (q.name_prefix@.len() == 0),
            ({
                let k = kept_entries(entries@.take(i as int), q.name_prefix@);
                &&& out@.len() == if k.len() < max_items { k.len() } else { max_items as nat }
                &&& forall|j: int| 0 <= j < out@.len() ==> is_path_item(#[trigger] out@[j], k[j], *q, word_prefix@, cursor)
            }),
        decreases entries.len() - i,
    {
        assert(entries@.take(i + 1).drop_last() =~= entries@.take(i as int));
        let ghost k = kept_entries(entries@.take(i as int), q.name_prefix@);
        let e = &entries[i];
        let keep = empty_prefix || {
            let lower = lowercase(e.name.as_str());
            has_prefix(lower.as_str(), q.name_prefix.as_str())
        };
        if keep && out.len() < max_items {
            let path = chars_of(e.path.as_str());
            let folded_v = q.state.fold(&path);
            let folded = string_of(folded_v.as_slice());
            let mut filter = word_prefix.to_owned();
            filter.append(folded.as_str());
            let it = CompletionItem {
                label: folded.clone(),
                kind: if e.is_dir { CompletionKind::Folder } else { CompletionKind::File },
                sort_text: Some(folded.clone()),
                filter_text: Some(filter),
                detail: None,
                documentation: None,
                text_edit: Some(TextEdit { range: range_before_exec(cursor, q.replace_len), new_text: folded }),
                snippet_format: false,
            };
            out.push(it);
            let ghost k2 = kept_entries(entries@.take(i + 1), q.name_prefix@);
            assert(k2 == k.push(entries@[i as int]));
            assert forall|j: int| 0 <= j < out@.len() implies is_path_item(#[trigger] out@[j], k2[j], *q, word_prefix@, cursor) by {
                if j < out@.len() - 1 {
                    assert(k2[j] == k[j]);
                }
            }
        }
        i += 1;
    }
    assert(entries@.take(i as int) =~= entries@);
    out
}

} // verus!
