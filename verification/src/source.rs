//! The text of a document, read line by line.

use vstd::prelude::*;
use vstd::slice::slice_subrange;
use crate::text::{
    append_chars, closing_line, find_char, lemma_line_end, lemma_without_appended_line, line_at,
    line_content, line_end, line_says, pop_line, text_eq, to_chars, trim,
};

verus! {

/// A text and a place in it. Reading moves the place forward by one line;
/// nothing ever moves it back.
pub struct Lines {
    text: Vec<char>,
    pos: usize,
}

impl Lines {
    #[verifier::type_invariant]
    spec fn inv(self) -> bool {
        self.pos <= self.text.len()
    }

    /// The whole text, read or not.
    pub closed spec fn text(&self) -> Seq<char> {
        self.text@
    }

    /// How many characters have been read.
    pub closed spec fn pos(&self) -> int {
        self.pos as int
    }

    /// A source that holds `text`, with nothing read.
    pub fn new(text: &str) -> (r: Lines)
        ensures
            r.text() == text@,
            r.pos() == 0,
    {
        Lines { text: to_chars(text), pos: 0 }
    }

    /// How many characters have been read.
    pub fn position(&self) -> (p: usize)
        ensures
            p == self.pos(),
            p <= self.text().len(),
    {
        proof {
            use_type_invariant(self);
        }
        self.pos
    }

    /// Whether the whole text has been read.
    pub fn at_end(&self) -> (b: bool)
        ensures
            b == (self.pos() >= self.text().len()),
    {
        proof {
            use_type_invariant(self);
        }
        self.pos >= self.text.len()
    }

    /// Reads the next line, with its line feed where it has one. At the end
    /// of the text the line is empty.
    pub fn read_line(&mut self) -> (line: Vec<char>)
        ensures
            final(self).text() == old(self).text(),
            final(self).pos() == line_end(old(self).text(), old(self).pos()),
            line@ == old(self).text().subrange(old(self).pos(), final(self).pos()),
            0 <= old(self).pos() <= final(self).pos() <= old(self).text().len(),
            (line@.len() == 0) == (old(self).pos() == old(self).text().len()),
    {
        proof {
            use_type_invariant(&*self);
        }
        let start = self.pos;
        let feed = find_char(self.text.as_slice(), '\n', start);
        let end = if feed < self.text.len() {
            feed + 1
        } else {
            feed
        };
        let line = vstd::slice::slice_to_vec(slice_subrange(self.text.as_slice(), start, end));
        self.pos = end;
        line
    }
}

/// Reads lines up to the first one that says `tag`, and hands back what
/// stands before that line. Where `trim_lines` is set, white space around
/// the tag is of no account. Where the text ends before such a line, all of it
/// is read and nothing is handed back.
pub fn read_until(stream: &mut Lines, tag: &str, trim_lines: bool) -> (r: Option<String>)
    ensures
        final(stream).text() == old(stream).text(),
        old(stream).pos() <= final(stream).pos() <= old(stream).text().len(),
        ({
            let s = old(stream).text();
            let close = closing_line(s, old(stream).pos(), trim_lines, tag@);
            if close < s.len() {
                &&& r is Some
                &&& r->0@ == s.subrange(old(stream).pos(), close)
                &&& final(stream).pos() == line_end(s, close)
            } else {
                &&& r is None
                &&& final(stream).pos() == s.len()
            }
        }),
{
    let ghost s = stream.text();
    let ghost from = stream.pos();
    let _ = stream.position();  // the position lies within the text
    let mut info = String::new();
    loop
        invariant_except_break
            info@ == s.subrange(from, stream.pos()),
            closing_line(s, from, trim_lines, tag@) == closing_line(
                s,
                stream.pos(),
                trim_lines,
                tag@,
            ),
            stream.pos() == from || stream.pos() == s.len() || s[stream.pos() - 1] == '\n',
        invariant
            stream.text() == s,
            s == old(stream).text(),
            from == old(stream).pos(),
            0 <= from <= stream.pos() <= s.len(),
        ensures
            closing_line(s, from, trim_lines, tag@) < s.len(),
            stream.pos() == line_end(s, closing_line(s, from, trim_lines, tag@)),
            info@ == s.subrange(from, closing_line(s, from, trim_lines, tag@)),
        decreases s.len() - stream.pos(),
    {
        let ghost start = stream.pos();
        let ghost before = info@;
        proof {
            lemma_line_end(s, start);
        }
        let line = stream.read_line();
        if line.len() == 0 {
            return None;
        }
        append_chars(&mut info, line.as_slice());
        let said = if trim_lines {
            trim(line_content(line.as_slice()))
        } else {
            line_content(line.as_slice())
        };
        if text_eq(said, tag) {
            proof {
                assert(line@ == line_at(s, start));
                assert forall|j: int| 0 <= j < line@.len() - 1 implies line@[j] != '\n' by {
                    assert(line@[j] == s[start + j]);
                }
                if before.len() > 0 {
                    assert(before.last() == s[start - 1]);
                }
                lemma_without_appended_line(before, line@);
            }
            pop_line(&mut info);
            break ;
        }
        proof {
            assert(info@ =~= s.subrange(from, stream.pos()));
        }
    }
    Some(info)
}

} // verus!
