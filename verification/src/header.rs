//! The first line of a document and its header.

use vstd::prelude::*;
use vstd::slice::slice_subrange;
use vstd::string::StringExecFns;
use crate::error::{
    Fault, ParseError, COMMENT_END, COMMENT_START, HEADER_END, HEADER_START, INIT_START,
    LHEF_TAG_OPEN,
};
use crate::source::Lines;
use crate::text::{
    append_chars, closing_line, ends_with_line, find, find_char, lemma_closing_line_bounds,
    lemma_closing_line_with_more, lemma_find_first, lemma_line_end, lemma_line_with_more, lemma_without_appended_line, line_at, line_content, line_end, line_says,
    pop_line, string_of, text_eq, trim, trimmed,
};

verus! {

/// Whether `version` is a version of the format that is understood.
pub open spec fn supported_version(version: Seq<char>) -> bool {
    version == "1.0"@ || version == "2.0"@ || version == "3.0"@
}

/// The version that the first line of a document states. The line, once
/// trimmed, is cut at its double quotes: before the first one stands the
/// opening of the root element, between the first two the version, and
/// between the second and the third, or the end, the closing bracket.
pub open spec fn version_of(line: Seq<char>) -> Result<Seq<char>, Fault> {
    let t = trimmed(line);
    let q1 = find(t, '"', 0);
    let q2 = find(t, '"', q1 + 1);
    let q3 = find(t, '"', q2 + 1);
    let version = t.subrange(q1 + 1, q2);
    if t.take(q1) != LHEF_TAG_OPEN@ {
        Err(Fault::BadFirstLine(line))
    } else if q1 >= t.len() {
        Err(Fault::MissingVersion)
    } else if !supported_version(version) {
        Err(Fault::UnsupportedVersion(version))
    } else if q2 >= t.len() || t.subrange(q2 + 1, q3) != ">"@ {
        Err(Fault::BadFirstLine(line))
    } else {
        Ok(version)
    }
}

/// Where a block of the header ends that was opened before `i` and is
/// closed by a line that says `tag`: behind that line. Where no line
/// closes it, the header has no end.
pub open spec fn header_block_end(s: Seq<char>, i: int, tag: Seq<char>) -> Option<int> {
    let close = closing_line(s, i, true, tag);
    if close < s.len() {
        Some(line_end(s, close))
    } else {
        None
    }
}

/// What reading the header from `i` on gives: where the line starts that
/// opens the run information, and where it ends; or the first fault.
/// Comment blocks and structured blocks are passed over, in any number and
/// order. Where the text ends, the fault holds what the line read last
/// said, which is `last`.
pub open spec fn header_at(s: Seq<char>, i: int, last: Seq<char>) -> Result<(int, int), Fault>
    decreases s.len() - i,
    via header_at_decreases
{
    if i < 0 || i >= s.len() {
        Err(Fault::BadHeaderStart(last))
    } else {
        let said = line_says(line_at(s, i), true);
        let next = line_end(s, i);
        if said == COMMENT_START@ {
            match header_block_end(s, next, COMMENT_END@) {
                Some(end) => header_at(s, end, COMMENT_END@),
                None => Err(Fault::EndOfFile("header"@)),
            }
        } else if said == HEADER_START@ {
            match header_block_end(s, next, HEADER_END@) {
                Some(end) => header_at(s, end, HEADER_END@),
                None => Err(Fault::EndOfFile("header"@)),
            }
        } else if said == INIT_START@ {
            Ok((i, next))
        } else {
            Err(Fault::BadHeaderStart(said))
        }
    }
}

#[via_fn]
proof fn header_at_decreases(s: Seq<char>, i: int, last: Seq<char>) {
    if 0 <= i < s.len() {
        lemma_header_block_end(s, i, COMMENT_END@);
        lemma_header_block_end(s, i, HEADER_END@);
    }
}

/// A block that is closed ends behind the line that opened it.
proof fn lemma_header_block_end(s: Seq<char>, i: int, tag: Seq<char>)
    requires
        0 <= i < s.len(),
    ensures
        header_block_end(s, line_end(s, i), tag) is Some ==> i < line_end(s, i)
            <= closing_line(s, line_end(s, i), true, tag) < header_block_end(
            s,
            line_end(s, i),
            tag,
        )->0 <= s.len(),
{
    lemma_line_end(s, i);
    let next = line_end(s, i);
    lemma_closing_line_bounds(s, next, true, tag);
    let close = closing_line(s, next, true, tag);
    if close < s.len() {
        lemma_line_end(s, close);
    }
}

/// A block of the header that is closed is passed over, whatever it holds:
/// reading the header goes on behind the line that closes it.
pub proof fn lemma_header_passes_blocks(s: Seq<char>, i: int, last: Seq<char>)
    requires
        0 <= i < s.len(),
    ensures
        line_says(line_at(s, i), true) == COMMENT_START@ && header_block_end(
            s,
            line_end(s, i),
            COMMENT_END@,
        ) is Some ==> header_at(s, i, last) == header_at(
            s,
            header_block_end(s, line_end(s, i), COMMENT_END@)->0,
            COMMENT_END@,
        ),
        line_says(line_at(s, i), true) == HEADER_START@ && header_block_end(
            s,
            line_end(s, i),
            HEADER_END@,
        ) is Some ==> header_at(s, i, last) == header_at(
            s,
            header_block_end(s, line_end(s, i), HEADER_END@)->0,
            HEADER_END@,
        ),
{
    reveal_strlit("<!--");
    reveal_strlit("<header>");
    assert(COMMENT_START@.len() != HEADER_START@.len());
}

/// The header is the text between where reading began and the line that
/// opens the run information.
pub proof fn lemma_header_bounds(s: Seq<char>, i: int, last: Seq<char>)
    requires
        0 <= i <= s.len(),
        header_at(s, i, last) is Ok,
    ensures
        i <= header_at(s, i, last)->Ok_0.0 < header_at(s, i, last)->Ok_0.1 <= s.len(),
        header_at(s, i, last)->Ok_0.1 == line_end(s, header_at(s, i, last)->Ok_0.0),
        line_says(line_at(s, header_at(s, i, last)->Ok_0.0), true) == INIT_START@,
    decreases s.len() - i,
{
    let said = line_says(line_at(s, i), true);
    lemma_line_end(s, i);
    if said == COMMENT_START@ {
        lemma_header_block_end(s, i, COMMENT_END@);
        lemma_header_bounds(s, header_block_end(s, line_end(s, i), COMMENT_END@)->0, COMMENT_END@);
    } else if said == HEADER_START@ {
        lemma_header_block_end(s, i, HEADER_END@);
        lemma_header_bounds(s, header_block_end(s, line_end(s, i), HEADER_END@)->0, HEADER_END@);
    }
}

/// A header that is read without fault in a text that ends where a line
/// ends is read in the same way with more text behind the text.
pub proof fn lemma_header_with_more(s: Seq<char>, more: Seq<char>, i: int, last: Seq<char>)
    requires
        ends_with_line(s),
        0 <= i <= s.len(),
        header_at(s, i, last) is Ok,
    ensures
        header_at(s + more, i, last) == header_at(s, i, last),
    decreases s.len() - i,
{
    let said = line_says(line_at(s, i), true);
    let next = line_end(s, i);
    lemma_line_with_more(s, more, i);
    if said == COMMENT_START@ {
        lemma_header_block_with_more(s, more, i, COMMENT_END@);
        lemma_header_with_more(s, more, header_block_end(s, next, COMMENT_END@)->0, COMMENT_END@);
    } else if said == HEADER_START@ {
        lemma_header_block_with_more(s, more, i, HEADER_END@);
        lemma_header_with_more(s, more, header_block_end(s, next, HEADER_END@)->0, HEADER_END@);
    }
}

/// A block of the header that is closed in a text that ends where a line
/// ends is closed by the same line with more text behind the text.
proof fn lemma_header_block_with_more(s: Seq<char>, more: Seq<char>, i: int, tag: Seq<char>)
    requires
        ends_with_line(s),
        0 <= i < s.len(),
        header_block_end(s, line_end(s, i), tag) is Some,
    ensures
        header_block_end(s + more, line_end(s, i), tag) == header_block_end(
            s,
            line_end(s, i),
            tag,
        ),
        i < header_block_end(s, line_end(s, i), tag)->0 <= s.len(),
{
    let next = line_end(s, i);
    lemma_header_block_end(s, i, tag);
    lemma_closing_line_with_more(s, more, next, true, tag);
    lemma_line_with_more(s, more, closing_line(s, next, true, tag));
}

/// A first line that opens the root element and quotes a version other
/// than 1.0, 2.0 and 3.0 is reported as an unsupported version, with the
/// version that it quotes, whatever follows the closing quote.
pub proof fn lemma_unsupported_version(line: Seq<char>, version: Seq<char>, rest: Seq<char>)
    requires
        trimmed(line) == LHEF_TAG_OPEN@ + seq!['"'] + version + seq!['"'] + rest,
        !version.contains('"'),
        !supported_version(version),
    ensures
        version_of(line) == Err::<Seq<char>, Fault>(Fault::UnsupportedVersion(version)),
{
    reveal_strlit("<LesHouchesEvents version=");
    let tag = LHEF_TAG_OPEN@;
    let t = trimmed(line);
    let q1 = tag.len() as int;
    let q2 = q1 + 1 + version.len();
    assert forall|k: int| 0 <= k < q1 implies t[k] != '"' by {
        assert(t[k] == tag[k]);
    }
    lemma_find_first(t, '"', 0, q1);
    assert forall|k: int| q1 + 1 <= k < q2 implies t[k] != '"' by {
        assert(t[k] == version[k - q1 - 1]);
        assert(version.contains(version[k - q1 - 1]));
    }
    lemma_find_first(t, '"', q1 + 1, q2);
    assert(t.take(q1) =~= tag);
    assert(t.subrange(q1 + 1, q2) =~= version);
}

/// Reads the first line of a document and hands back the version that it
/// states.
pub fn parse_version(stream: &mut Lines) -> (r: Result<&'static str, ParseError>)
    ensures
        final(stream).text() == old(stream).text(),
        final(stream).pos() == line_end(old(stream).text(), old(stream).pos()),
        old(stream).pos() <= final(stream).pos() <= old(stream).text().len(),
        match version_of(line_at(old(stream).text(), old(stream).pos())) {
            Ok(version) => r is Ok && r->Ok_0@ == version,
            Err(fault) => r is Err && r->Err_0@ == fault,
        },
{
    let first_line = stream.read_line();
    let t = trim(first_line.as_slice());
    let q1 = find_char(t, '"', 0);
    if !text_eq(slice_subrange(t, 0, q1), LHEF_TAG_OPEN) {
        return Err(ParseError::BadFirstLine(string_of(first_line.as_slice())));
    }
    if q1 >= t.len() {
        return Err(ParseError::MissingVersion);
    }
    let q2 = find_char(t, '"', q1 + 1);
    let entry = slice_subrange(t, q1 + 1, q2);
    let version = if text_eq(entry, "1.0") {
        "1.0"
    } else if text_eq(entry, "2.0") {
        "2.0"
    } else if text_eq(entry, "3.0") {
        "3.0"
    } else {
        return Err(ParseError::UnsupportedVersion(string_of(entry)));
    };
    if q2 >= t.len() {
        return Err(ParseError::BadFirstLine(string_of(first_line.as_slice())));
    }
    let q3 = find_char(t, '"', q2 + 1);
    if !text_eq(slice_subrange(t, q2 + 1, q3), ">") {
        return Err(ParseError::BadFirstLine(string_of(first_line.as_slice())));
    }
    Ok(version)
}

/// Reads the lines of a block of the header up to the line that says
/// `tag`, and puts them behind `header`.
fn parse_header_block(stream: &mut Lines, header: &mut String, tag: &str) -> (r: Result<
    (),
    ParseError,
>)
    ensures
        final(stream).text() == old(stream).text(),
        old(stream).pos() <= final(stream).pos() <= old(stream).text().len(),
        final(header)@ == old(header)@ + old(stream).text().subrange(
            old(stream).pos(),
            final(stream).pos(),
        ),
        match header_block_end(old(stream).text(), old(stream).pos(), tag@) {
            Some(end) => r is Ok && final(stream).pos() == end,
            None => r is Err && r->Err_0@ == Fault::EndOfFile("header"@) && final(stream).pos()
                == old(stream).text().len(),
        },
{
    let ghost s = stream.text();
    let ghost from = stream.pos();
    let _ = stream.position();  // the position lies within the text
    loop
        invariant
            stream.text() == s,
            s == old(stream).text(),
            from == old(stream).pos(),
            0 <= from <= stream.pos() <= s.len(),
            header@ == old(header)@ + s.subrange(from, stream.pos()),
            closing_line(s, from, true, tag@) == closing_line(s, stream.pos(), true, tag@),
        decreases s.len() - stream.pos(),
    {
        let ghost start = stream.pos();
        proof {
            lemma_line_end(s, start);
        }
        let line = stream.read_line();
        if line.len() == 0 {
            return Err(ParseError::EndOfFile("header"));
        }
        append_chars(header, line.as_slice());
        proof {
            assert(header@ =~= old(header)@ + s.subrange(from, stream.pos()));
        }
        if text_eq(trim(line_content(line.as_slice())), tag) {
            return Ok(());
        }
    }
}

/// Reads a comment block of the header, whose opening line has been read,
/// up to the line that closes it, and puts what it reads behind `header`.
pub fn parse_comment_header(stream: &mut Lines, header: &mut String) -> (r: Result<(), ParseError>)
    ensures
        final(stream).text() == old(stream).text(),
        old(stream).pos() <= final(stream).pos() <= old(stream).text().len(),
        final(header)@ == old(header)@ + old(stream).text().subrange(
            old(stream).pos(),
            final(stream).pos(),
        ),
        match header_block_end(old(stream).text(), old(stream).pos(), COMMENT_END@) {
            Some(end) => r is Ok && final(stream).pos() == end,
            None => r is Err && r->Err_0@ == Fault::EndOfFile("header"@) && final(stream).pos()
                == old(stream).text().len(),
        },
{
    parse_header_block(stream, header, COMMENT_END)
}

/// Reads the structured block of the header, whose opening line has been
/// read, up to the line that closes it, and puts what it reads behind
/// `header`. What the block holds is not looked at.
pub fn parse_structured_header(stream: &mut Lines, header: &mut String) -> (r: Result<
    (),
    ParseError,
>)
    ensures
        final(stream).text() == old(stream).text(),
        old(stream).pos() <= final(stream).pos() <= old(stream).text().len(),
        final(header)@ == old(header)@ + old(stream).text().subrange(
            old(stream).pos(),
            final(stream).pos(),
        ),
        match header_block_end(old(stream).text(), old(stream).pos(), HEADER_END@) {
            Some(end) => r is Ok && final(stream).pos() == end,
            None => r is Err && r->Err_0@ == Fault::EndOfFile("header"@) && final(stream).pos()
                == old(stream).text().len(),
        },
{
    parse_header_block(stream, header, HEADER_END)
}

/// Reads the header of a document, up to and with the line that opens the
/// run information, and hands back the header as it was written, without
/// that line.
pub fn parse_header(stream: &mut Lines) -> (r: Result<String, ParseError>)
    ensures
        final(stream).text() == old(stream).text(),
        old(stream).pos() <= final(stream).pos() <= old(stream).text().len(),
        match header_at(old(stream).text(), old(stream).pos(), ""@) {
            Ok((init, next)) => {
                &&& r is Ok
                &&& r->Ok_0@ == old(stream).text().subrange(old(stream).pos(), init)
                &&& final(stream).pos() == next
            },
            Err(fault) => r is Err && r->Err_0@ == fault,
        },
{
    let ghost s = stream.text();
    let ghost from = stream.pos();
    let _ = stream.position();  // the position lies within the text
    let mut header = String::new();
    let mut last: &'static str = "";
    loop
        invariant
            stream.text() == s,
            s == old(stream).text(),
            from == old(stream).pos(),
            0 <= from <= stream.pos() <= s.len(),
            header@ == s.subrange(from, stream.pos()),
            header_at(s, from, ""@) == header_at(s, stream.pos(), last@),
            stream.pos() == from || stream.pos() == s.len() || s[stream.pos() - 1] == '\n',
        decreases s.len() - stream.pos(),
    {
        let ghost start = stream.pos();
        let ghost before = header@;
        proof {
            lemma_line_end(s, start);
        }
        let line = stream.read_line();
        if line.len() == 0 {
            return Err(ParseError::BadHeaderStart(String::from_str(last)));
        }
        append_chars(&mut header, line.as_slice());
        proof {
            assert(header@ =~= s.subrange(from, stream.pos()));
        }
        let said = trim(line_content(line.as_slice()));
        if text_eq(said, COMMENT_START) {
            match parse_comment_header(stream, &mut header) {
                Ok(()) => {},
                Err(e) => {
                    return Err(e);
                },
            }
            last = COMMENT_END;
        } else if text_eq(said, HEADER_START) {
            match parse_structured_header(stream, &mut header) {
                Ok(()) => {},
                Err(e) => {
                    return Err(e);
                },
            }
            last = HEADER_END;
        } else if text_eq(said, INIT_START) {
            proof {
                assert forall|j: int| 0 <= j < line@.len() - 1 implies line@[j] != '\n' by {
                    assert(line@[j] == s[start + j]);
                }
                if before.len() > 0 {
                    assert(before.last() == s[start - 1]);
                }
                lemma_without_appended_line(before, line@);
            }
            pop_line(&mut header);
            return Ok(header);
        } else {
            return Err(ParseError::BadHeaderStart(string_of(said)));
        }
        proof {
            lemma_line_end(s, start);
            lemma_closing_line_bounds(s, line_end(s, start), true, last@);
            lemma_line_end(s, closing_line(s, line_end(s, start), true, last@));
            assert(header@ =~= s.subrange(from, stream.pos()));
        }
    }
}

} // verus!
