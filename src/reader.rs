//! A chunked view of a buffer that never splits a run of word characters.

use vstd::prelude::*;
use crate::matching::{char_is_word, is_word_char};
use crate::text::TextBuffer;

verus! {

/// Reads a buffer chunk by chunk. Each chunk ends at the end of the buffer
/// or right before a character that is not a word character.
pub struct RopeReader<'a> {
    text: &'a TextBuffer,
    /// Characters handed out so far.
    emitted: usize,
    /// Characters taken from the buffer so far; those past `emitted` wait to
    /// be handed out with the next chunk.
    pos: usize,
}

/// All chunks one after the other.
pub open spec fn concat(chunks: Seq<Seq<char>>) -> Seq<char>
    decreases chunks.len(),
{
    if chunks.len() == 0 {
        Seq::empty()
    } else {
        concat(chunks.drop_last()) + chunks.last()
    }
}

/// The texts of a list of strings.
pub open spec fn views(chunks: Seq<String>) -> Seq<Seq<char>> {
    chunks.map_values(|c: String| c@)
}

/// Where chunk `i` ends within the concatenation.
pub open spec fn chunk_end(chunks: Seq<String>, i: int) -> int {
    concat(views(chunks).take(i + 1)).len() as int
}

impl<'a> RopeReader<'a> {
    /// The characters of the buffer being read.
    pub closed spec fn text(&self) -> Seq<char> {
        self.text@
    }

    /// How many characters have been handed out.
    pub closed spec fn emitted(&self) -> nat {
        self.emitted as nat
    }

    pub closed spec fn wf(&self) -> bool {
        self.emitted <= self.pos <= self.text@.len()
    }

    pub proof fn lemma_emitted_bound(&self)
        requires
            self.wf(),
        ensures
            self.emitted() <= self.text().len(),
    {
    }

    /// A reader at the start of `text`.
    pub fn new(text: &'a TextBuffer) -> (r: RopeReader<'a>)
        ensures
            r.wf(),
            r.text() == text@,
            r.emitted() == 0,
    {
        RopeReader { text, emitted: 0, pos: 0 }
    }

    /// The next chunk, with the index of its first character; `None` once
    /// the whole buffer has been handed out.
    pub fn next_chunk(&mut self) -> (r: Option<(usize, String)>)
        requires
            old(self).wf(),
        ensures
            final(self).wf(),
            final(self).text() == old(self).text(),
            r.is_none() <==> old(self).emitted() == old(self).text().len(),
            r.is_none() ==> final(self).emitted() == old(self).emitted(),
            r matches Some((st, c)) ==> {
                &&& st == old(self).emitted()
                &&& c@.len() > 0
                &&& final(self).emitted() == st + c@.len()
                &&& c@ == old(self).text().subrange(st as int, final(self).emitted() as int)
                &&& final(self).emitted() < old(self).text().len() ==> !is_word_char(
                    old(self).text()[final(self).emitted() as int],
                )
            },
    {
        let len = self.text.len_chars();
        if self.emitted == len {
            return None;
        }
        loop
            invariant
                self.text == old(self).text,
                self.emitted == old(self).emitted,
                self.emitted <= self.pos <= len,
                len == self.text@.len(),
                self.emitted < len,
            decreases len - self.pos,
        {
            if self.pos == len {
                let st = self.emitted;
                let c = self.text.slice(st, len).unwrap();
                self.emitted = len;
                return Some((st, c));
            }
            let (raw, start) = self.text.chunk_at_char(self.pos);
            let end = start + raw.len();
            // the last character of the new part that is not a word character
            let mut j: usize = end;
            let mut found = false;
            while j > self.pos
                invariant_except_break
                    !found,
                invariant
                    raw@ == self.text@.subrange(start as int, start + raw@.len()),
                    start <= self.pos < end,
                    end == start + raw@.len(),
                    end <= self.text@.len(),
                    self.pos <= j <= end,
                ensures
                    self.pos <= j <= end,
                    found ==> j > self.pos && !is_word_char(self.text@[j - 1]),
                decreases j,
            {
                if !char_is_word(raw[j - 1 - start]) {
                    assert(raw@[j - 1 - start] == self.text@[j - 1]);
                    found = true;
                    break;
                }
                j -= 1;
            }
            self.pos = end;
            if found && j - 1 > self.emitted {
                let st = self.emitted;
                let q = j - 1;
                let c = self.text.slice(st, q).unwrap();
                self.emitted = q;
                return Some((st, c));
            }
        }
    }
}

/// Reads `text` to its end and returns the chunks: together they are the
/// whole buffer, none is empty, and each one but the last ends right before a
/// character that is not a word character, so no run of word characters is
/// ever split.
pub fn read_chunks(text: &TextBuffer) -> (chunks: Vec<String>)
    ensures
        concat(views(chunks@)) == text@,
        forall|i: int| 0 <= i < chunks@.len() ==> #[trigger] chunks@[i]@.len() > 0,
        forall|i: int|
            0 <= i < chunks@.len() - 1 ==> !is_word_char(
                text@[#[trigger] chunk_end(chunks@, i)],
            ),
{
    let mut reader = RopeReader::new(text);
    let mut chunks: Vec<String> = Vec::new();
    loop
        invariant
            reader.wf(),
            reader.text() == text@,
            concat(views(chunks@)) == text@.take(reader.emitted() as int),
            forall|i: int| 0 <= i < chunks@.len() ==> #[trigger] chunks@[i]@.len() > 0,
            forall|i: int|
                0 <= i < chunks@.len() - 1 ==> !is_word_char(
                    text@[#[trigger] chunk_end(chunks@, i)],
                ),
            chunks@.len() > 0 && reader.emitted() < text@.len() ==> !is_word_char(text@[reader.emitted() as int]),
        decreases text@.len() - reader.emitted(),
    {
        let ghost before = views(chunks@);
        let ghost old_chunks = chunks@;
        let ghost old_emitted = reader.emitted();
        match reader.next_chunk() {
            None => {
                assert(text@.take(reader.emitted() as int) =~= text@);
                return chunks;
            }
            Some((st, c)) => {
                chunks.push(c);
                let ghost after = views(chunks@);
                assert(after.drop_last() =~= before);
                assert(text@.take(reader.emitted() as int) =~= text@.take(st as int) + c@);
                assert forall|i: int| 0 <= i < after.len() - 1 implies !is_word_char(
                    text@[#[trigger] chunk_end(chunks@, i)],
                ) by {
                    assert(after.take(i + 1) =~= before.take(i + 1));
                    assert(views(old_chunks).take(i + 1) =~= before.take(i + 1));
                    if i == after.len() - 2 {
                        assert(before.take(i + 1) =~= before);
                        assert(chunk_end(chunks@, i) == old_emitted);
                    } else {
                        assert(chunk_end(chunks@, i) == chunk_end(old_chunks, i));
                    }
                }
            }
        }
    }
}

} // verus!
