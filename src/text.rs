//! The text buffer: a rope of characters with three parallel indexing
//! spaces (bytes, characters, lines separated by LF).

use vstd::prelude::*;

verus! {

#[verifier::external_type_specification]
#[verifier::external_body]
pub struct ExRope(ropey::Rope);

/// The characters that a rope holds.
pub uninterp spec fn rope_chars(r: ropey::Rope) -> Seq<char>;

/// Number of line feeds in `s`.
pub open spec fn lf_count(s: Seq<char>) -> nat
    decreases s.len(),
{
    if s.len() == 0 {
        0
    } else {
        (if s[0] == '\n' { 1nat } else { 0nat }) + lf_count(s.drop_first())
    }
}

/// Character index at which line `line` starts; for the line after the last
/// one this is the length of `s`.
pub open spec fn line_start(s: Seq<char>, line: nat) -> nat
    decreases s.len(),
{
    if line == 0 || s.len() == 0 {
        0
    } else if s[0] == '\n' {
        1 + line_start(s.drop_first(), (line - 1) as nat)
    } else {
        1 + line_start(s.drop_first(), line)
    }
}

/// Number of bytes that UTF-8 takes for `c`.
pub open spec fn utf8_width(c: char) -> nat {
    if (c as u32) < 0x80 {
        1
    } else if (c as u32) < 0x800 {
        2
    } else if (c as u32) < 0x10000 {
        3
    } else {
        4
    }
}

/// Number of bytes that UTF-8 takes for `s`.
pub open spec fn byte_len(s: Seq<char>) -> nat
    decreases s.len(),
{
    if s.len() == 0 {
        0
    } else {
        byte_len(s.drop_last()) + utf8_width(s.last())
    }
}

/// The index of the character that byte `b` of the UTF-8 text belongs to;
/// the length of `s` for the byte one past the end.
pub open spec fn char_at_byte(s: Seq<char>, b: int) -> int
    decreases s.len(),
{
    if s.len() == 0 {
        0
    } else if b >= byte_len(s) {
        s.len() as int
    } else if b >= byte_len(s.drop_last()) {
        s.len() - 1
    } else {
        char_at_byte(s.drop_last(), b)
    }
}

/// `s` with the characters in `[a, b)` replaced by `ins`.
pub open spec fn edited(s: Seq<char>, a: int, b: int, ins: Seq<char>) -> Seq<char> {
    s.subrange(0, a) + ins + s.subrange(b, s.len() as int)
}

/// Relies on ropey::Rope::from_str: the rope holds the characters of `s`.
#[verifier::external_body]
fn rope_from_str(s: &str) -> (r: ropey::Rope)
    ensures
        rope_chars(r) == s@,
{
    ropey::Rope::from_str(s)
}

/// Relies on ropey::Rope::len_chars: the number of characters.
#[verifier::external_body]
fn rope_len_chars(r: &ropey::Rope) -> (n: usize)
    ensures
        n == rope_chars(*r).len(),
{
    r.len_chars()
}

/// Relies on ropey::Rope::len_bytes: the UTF-8 length of the text.
#[verifier::external_body]
fn rope_len_bytes(r: &ropey::Rope) -> (n: usize)
    ensures
        n == byte_len(rope_chars(*r)),
{
    r.len_bytes()
}

/// Relies on ropey::Rope::try_line_to_char: the start of a line, or an error
/// past one-past-the-last line (lines end at LF only, as the crate is built
/// without its `unicode_lines` and `cr_lines` features).
#[verifier::external_body]
fn rope_line_to_char(r: &ropey::Rope, line: usize) -> (c: Option<usize>)
    ensures
        c.is_some() <==> line <= lf_count(rope_chars(*r)) + 1,
        c.is_some() ==> c.unwrap() == line_start(rope_chars(*r), line as nat),
{
    r.try_line_to_char(line).ok()
}

/// Relies on ropey::Rope::char_to_line: the number of line feeds before a
/// character index.
#[verifier::external_body]
fn rope_char_to_line(r: &ropey::Rope, c: usize) -> (line: usize)
    requires
        c <= rope_chars(*r).len(),
    ensures
        line == lf_count(rope_chars(*r).take(c as int)),
{
    r.char_to_line(c)
}

/// Relies on ropey::Rope::char_to_byte: the byte offset of a character.
#[verifier::external_body]
fn rope_char_to_byte(r: &ropey::Rope, c: usize) -> (b: usize)
    requires
        c <= rope_chars(*r).len(),
    ensures
        b == byte_len(rope_chars(*r).take(c as int)),
{
    r.char_to_byte(c)
}

/// Relies on ropey::Rope::try_byte_to_char: the character that a byte belongs
/// to (one past the end for the length in bytes), or an error past the end.
#[verifier::external_body]
fn rope_byte_to_char(r: &ropey::Rope, b: usize) -> (c: Option<usize>)
    ensures
        c.is_some() <==> b <= byte_len(rope_chars(*r)),
        c.is_some() ==> {
            let s = rope_chars(*r);
            let i = c.unwrap() as int;
            &&& i <= s.len()
            &&& byte_len(s.take(i)) <= b
            &&& i < s.len() ==> b < byte_len(s.take(i + 1))
            &&& i == char_at_byte(s, b as int)
        },
{
    r.try_byte_to_char(b).ok()
}

/// Relies on ropey::Rope::char: the character at an index.
#[verifier::external_body]
fn rope_char(r: &ropey::Rope, i: usize) -> (c: char)
    requires
        i < rope_chars(*r).len(),
    ensures
        c == rope_chars(*r)[i as int],
{
    r.char(i)
}

/// Relies on ropey::Rope::slice: the characters in a range, as a string.
#[verifier::external_body]
fn rope_slice(r: &ropey::Rope, a: usize, b: usize) -> (s: String)
    requires
        a <= b <= rope_chars(*r).len(),
    ensures
        s@ == rope_chars(*r).subrange(a as int, b as int),
{
    r.slice(a..b).to_string()
}

/// Relies on ropey::Rope::chunk_at_char: the internal chunk that holds a
/// character (the last chunk for one past the end), and the index of its
/// first character.
#[verifier::external_body]
fn rope_chunk_at_char(r: &ropey::Rope, i: usize) -> (res: (Vec<char>, usize))
    requires
        i <= rope_chars(*r).len(),
    ensures
        res.1 <= i,
        res.1 + res.0@.len() <= rope_chars(*r).len(),
        res.0@ == rope_chars(*r).subrange(res.1 as int, res.1 + res.0@.len()),
        i < rope_chars(*r).len() ==> i < res.1 + res.0@.len(),
{
    let (chunk, _, start, _) = r.chunk_at_char(i);
    (chunk.chars().collect(), start)
}

/// Relies on ropey::Rope::remove: the characters in `[a, b)` are taken out.
#[verifier::external_body]
fn rope_remove(r: &mut ropey::Rope, a: usize, b: usize)
    requires
        a <= b <= rope_chars(*old(r)).len(),
    ensures
        rope_chars(*final(r)) == edited(rope_chars(*old(r)), a as int, b as int, Seq::empty()),
{
    r.remove(a..b)
}

/// Relies on ropey::Rope::insert: the characters of `s` are put in at `a`.
#[verifier::external_body]
fn rope_insert(r: &mut ropey::Rope, a: usize, s: &str)
    requires
        a <= rope_chars(*old(r)).len(),
    ensures
        rope_chars(*final(r)) == edited(rope_chars(*old(r)), a as int, a as int, s@),
{
    r.insert(a, s)
}

/// A mutable text buffer. Its view is the sequence of its characters.
pub struct TextBuffer {
    rope: ropey::Rope,
}

impl View for TextBuffer {
    type V = Seq<char>;

    closed spec fn view(&self) -> Seq<char> {
        rope_chars(self.rope)
    }
}

impl TextBuffer {
    /// The rope that holds the text.
    pub(crate) fn rope(&self) -> (r: &ropey::Rope)
        ensures
            rope_chars(*r) == self@,
    {
        &self.rope
    }

    /// A buffer that holds the characters of `s`.
    pub fn from_str(s: &str) -> (t: TextBuffer)
        ensures
            t@ == s@,
    {
        TextBuffer { rope: rope_from_str(s) }
    }

    /// Number of characters.
    pub fn len_chars(&self) -> (n: usize)
        ensures
            n == self@.len(),
    {
        rope_len_chars(&self.rope)
    }

    /// Number of bytes of the UTF-8 text.
    pub fn len_bytes(&self) -> (n: usize)
        ensures
            n == byte_len(self@),
    {
        rope_len_bytes(&self.rope)
    }

    /// Character index of the start of `line`; `None` past the line after the
    /// last line feed.
    pub fn line_to_char(&self, line: usize) -> (c: Option<usize>)
        ensures
            c.is_some() <==> line <= lf_count(self@) + 1,
            c.is_some() ==> c.unwrap() == line_start(self@, line as nat),
    {
        rope_line_to_char(&self.rope, line)
    }

    /// Line index of a character index; `None` past the end.
    pub fn char_to_line(&self, c: usize) -> (line: Option<usize>)
        ensures
            line.is_some() <==> c <= self@.len(),
            line.is_some() ==> line.unwrap() == lf_count(self@.take(c as int)),
    {
        if c <= rope_len_chars(&self.rope) {
            Some(rope_char_to_line(&self.rope, c))
        } else {
            None
        }
    }

    /// Byte offset of a character index; `None` past the end.
    pub fn char_to_byte(&self, c: usize) -> (b: Option<usize>)
        ensures
            b.is_some() <==> c <= self@.len(),
            b.is_some() ==> b.unwrap() == byte_len(self@.take(c as int)),
    {
        if c <= rope_len_chars(&self.rope) {
            Some(rope_char_to_byte(&self.rope, c))
        } else {
            None
        }
    }

    /// Index of the character that byte `b` belongs to; `None` past the end.
    pub fn byte_to_char(&self, b: usize) -> (c: Option<usize>)
        ensures
            c.is_some() <==> b <= byte_len(self@),
            c.is_some() ==> {
                let i = c.unwrap() as int;
                &&& i <= self@.len()
                &&& byte_len(self@.take(i)) <= b
                &&& i < self@.len() ==> b < byte_len(self@.take(i + 1))
                &&& i == char_at_byte(self@, b as int)
            },
    {
        rope_byte_to_char(&self.rope, b)
    }

    /// The character at index `i`; `None` past the end.
    pub fn get_char(&self, i: usize) -> (c: Option<char>)
        ensures
            c.is_some() <==> i < self@.len(),
            c.is_some() ==> c.unwrap() == self@[i as int],
    {
        if i < rope_len_chars(&self.rope) {
            Some(rope_char(&self.rope, i))
        } else {
            None
        }
    }

    /// The characters in `[a, b)`; `None` unless `a <= b <= len`.
    pub fn slice(&self, a: usize, b: usize) -> (s: Option<String>)
        ensures
            s.is_some() <==> a <= b <= self@.len(),
            s.is_some() ==> s.unwrap()@ == self@.subrange(a as int, b as int),
    {
        if a <= b && b <= rope_len_chars(&self.rope) {
            Some(rope_slice(&self.rope, a, b))
        } else {
            None
        }
    }

    /// The internal chunk that holds character `i`, and the index of its first
    /// character.
    pub fn chunk_at_char(&self, i: usize) -> (res: (Vec<char>, usize))
        requires
            i <= self@.len(),
        ensures
            res.1 <= i,
            res.1 + res.0@.len() <= self@.len(),
            res.0@ == self@.subrange(res.1 as int, res.1 + res.0@.len()),
            i < self@.len() ==> i < res.1 + res.0@.len(),
    {
        rope_chunk_at_char(&self.rope, i)
    }

    /// Replaces the characters in `[a, b)` by `s`; returns `false` and leaves
    /// the buffer as it was unless `a <= b <= len`.
    pub fn replace(&mut self, a: usize, b: usize, s: &str) -> (ok: bool)
        ensures
            ok <==> a <= b <= old(self)@.len(),
            ok ==> final(self)@ == edited(old(self)@, a as int, b as int, s@),
            !ok ==> final(self)@ == old(self)@,
    {
        if a <= b && b <= rope_len_chars(&self.rope) {
            rope_remove(&mut self.rope, a, b);
            rope_insert(&mut self.rope, a, s);
            assert(edited(edited(old(self)@, a as int, b as int, Seq::empty()), a as int, a as int, s@)
                =~= edited(old(self)@, a as int, b as int, s@));
            true
        } else {
            false
        }
    }
}

} // verus!
