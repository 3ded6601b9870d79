//! Reading a document: its version, header and run information once, and
//! then its events one by one.

use vstd::prelude::*;
use crate::error::{Fault, ParseError, EVENT_START, LHEF_LAST_LINE};
use crate::event::{event_at, lemma_event_with_more, parse_event};
use crate::header::{
    header_at, lemma_header_bounds, lemma_header_with_more, parse_header, parse_version, version_of,
};
use crate::init::{init_at, lemma_init_with_more, parse_init};
use crate::record::{EventRecord, RunInfo, HEPEUP, HEPRUP};
use crate::source::Lines;
use crate::text::{
    ends_with_line, lemma_line_end, lemma_line_with_more, line_at, line_end, string_of, text_eq,
    trim, trimmed,
};

verus! {

/// What the opening of a document states, and where its events begin.
pub struct Opening {
    /// The version of the format.
    pub version: Seq<char>,
    /// The header, as it was written.
    pub header: Seq<char>,
    /// The run information.
    pub run: RunInfo,
    /// The position behind the run information.
    pub events: int,
}

/// What opening the document that starts at `i` gives: the first line
/// states the version, the header follows up to the line that opens the
/// run information, and the run information up to the line that closes it.
pub open spec fn document_at(s: Seq<char>, i: int) -> Result<Opening, Fault> {
    let top = line_end(s, i);
    match version_of(line_at(s, i)) {
        Err(fault) => Err(fault),
        Ok(version) => match header_at(s, top, ""@) {
            Err(fault) => Err(fault),
            Ok((init, first)) => match init_at(s, first) {
                Err(fault) => Err(fault),
                Ok((run, events)) => Ok(
                    Opening { version, header: s.subrange(top, init), run, events },
                ),
            },
        },
    }
}

/// What stands at `i`, between two events: an event, which is handed out
/// with the position behind it, or the line that closes the document,
/// behind which nothing is handed out; anything else is a fault.
pub open spec fn step_at(s: Seq<char>, i: int) -> Result<(Option<EventRecord>, int), Fault> {
    let line = line_at(s, i);
    if trimmed(line) == EVENT_START@ {
        match event_at(s, line_end(s, i)) {
            Ok((event, next)) => Ok((Some(event), next)),
            Err(fault) => Err(fault),
        }
    } else if trimmed(line) == LHEF_LAST_LINE@ {
        Ok((None, line_end(s, i)))
    } else {
        Err(Fault::BadEventStart(line))
    }
}

/// What stands between two events of a text that ends where a line ends,
/// and is read without fault, is read in the same way with more text
/// behind the text.
pub proof fn lemma_step_with_more(s: Seq<char>, more: Seq<char>, i: int)
    requires
        ends_with_line(s),
        0 <= i <= s.len(),
        step_at(s, i) is Ok,
    ensures
        step_at(s + more, i) == step_at(s, i),
{
    reveal_strlit("<event>");
    reveal_strlit("</LesHouchesEvents>");
    if i >= s.len() {
        assert(line_at(s, i).len() == 0);
        assert(trimmed(line_at(s, i)).len() == 0);
    } else {
        lemma_line_with_more(s, more, i);
        if trimmed(line_at(s, i)) == EVENT_START@ {
            lemma_event_with_more(s, more, line_end(s, i));
        }
    }
}

/// A document that opens without fault in a text that ends where a line
/// ends opens in the same way with more text behind the text.
pub proof fn lemma_document_with_more(s: Seq<char>, more: Seq<char>, i: int)
    requires
        ends_with_line(s),
        0 <= i <= s.len(),
        document_at(s, i) is Ok,
    ensures
        document_at(s + more, i) == document_at(s, i),
{
    let t = s + more;
    let top = line_end(s, i);
    lemma_line_end(s, i);
    if i < s.len() {
        lemma_line_with_more(s, more, i);
    } else {
        assert(header_at(s, top, ""@) is Err);
    }
    lemma_header_with_more(s, more, top, ""@);
    lemma_header_bounds(s, top, ""@);
    let init = header_at(s, top, ""@)->Ok_0.0;
    let first = header_at(s, top, ""@)->Ok_0.1;
    lemma_init_with_more(s, more, first);
    assert(t.subrange(top, init) =~= s.subrange(top, init));
}

/// A reader as plain values.
pub struct ReaderState {
    /// The version of the format.
    pub version: Seq<char>,
    /// The header, as it was written.
    pub header: Seq<char>,
    /// The run information.
    pub run: RunInfo,
    /// The text of the document.
    pub text: Seq<char>,
    /// How much of the text has been read.
    pub pos: int,
    /// Whether the line that closes the document has been read.
    pub done: bool,
}

impl ReaderState {
    /// What the next request for an event gives. Once the document is
    /// closed, every request gives the end of the events.
    pub open spec fn next(self) -> Result<Option<EventRecord>, Fault> {
        if self.done {
            Ok(None)
        } else {
            match step_at(self.text, self.pos) {
                Ok((event, _)) => Ok(event),
                Err(fault) => Err(fault),
            }
        }
    }

    /// The reader after a request that gave no fault.
    pub open spec fn advance(self) -> ReaderState {
        if self.done {
            self
        } else {
            match step_at(self.text, self.pos) {
                Ok((Some(_), next)) => ReaderState { pos: next, ..self },
                Ok((None, next)) => ReaderState { pos: next, done: true, ..self },
                Err(_) => self,
            }
        }
    }

    /// The reader after `n` requests that gave no fault.
    pub open spec fn advance_by(self, n: nat) -> ReaderState
        decreases n,
    {
        if n == 0 {
            self
        } else {
            self.advance_by((n - 1) as nat).advance()
        }
    }

    /// Whether the reader stands before exactly `k` well-formed events and
    /// then the end of the document.
    pub open spec fn holds_events(self, k: nat) -> bool
        decreases k,
    {
        if self.done {
            k == 0
        } else {
            match step_at(self.text, self.pos) {
                Ok((Some(_), next)) => k > 0 && (ReaderState { pos: next, ..self }).holds_events(
                    (k - 1) as nat,
                ),
                Ok((None, _)) => k == 0,
                Err(_) => false,
            }
        }
    }
}

/// After `n` of `k` events, `k - n` are left.
proof fn lemma_events_left(reader: ReaderState, k: nat, n: nat)
    requires
        reader.holds_events(k),
        n <= k,
    ensures
        reader.advance_by(n).holds_events((k - n) as nat),
    decreases n,
{
    if n > 0 {
        lemma_events_left(reader, k, (n - 1) as nat);
    }
}

/// After more requests than there are events, the document is closed.
proof fn lemma_done_after(reader: ReaderState, k: nat, n: nat)
    requires
        reader.holds_events(k),
        n > k,
    ensures
        reader.advance_by(n).done,
    decreases n,
{
    if n == k + 1 {
        lemma_events_left(reader, k, k);
    } else {
        lemma_done_after(reader, k, (n - 1) as nat);
    }
}

/// A reader that stands before `k` events and the end of the document
/// hands out an event at each of the first `k` requests, and the end of
/// the events at every request after them.
pub proof fn lemma_events_then_end(reader: ReaderState, k: nat, n: nat)
    requires
        reader.holds_events(k),
    ensures
        n < k ==> reader.advance_by(n).next() is Ok && reader.advance_by(n).next()->Ok_0 is Some,
        n >= k ==> reader.advance_by(n).next() == Ok::<Option<EventRecord>, Fault>(None),
{
    if n <= k {
        lemma_events_left(reader, k, n);
    } else {
        lemma_done_after(reader, k, n);
    }
}

/// Run information that decoding gave: it has as many entries in each
/// column as it says it has subprocesses.
struct Run {
    heprup: HEPRUP,
}

impl Run {
    #[verifier::type_invariant]
    spec fn inv(self) -> bool {
        self.heprup@.wf()
    }
}

/// Reader for the LHEF format
pub struct Reader {
    stream: Lines,
    version: &'static str,
    header: String,
    run: Run,
    done: bool,
}

impl View for Reader {
    type V = ReaderState;

    closed spec fn view(&self) -> ReaderState {
        ReaderState {
            version: self.version@,
            header: self.header@,
            run: self.run.heprup@,
            text: self.stream.text(),
            pos: self.stream.pos(),
            done: self.done,
        }
    }
}

impl Reader {
    /// Create a new LHEF reader: reads the first line, the header and the
    /// run information of the document that `stream` holds.
    pub fn new(stream: Lines) -> (r: Result<Reader, ParseError>)
        ensures
            match document_at(stream.text(), stream.pos()) {
                Ok(opening) => r is Ok && r->Ok_0@ == (ReaderState {
                    version: opening.version,
                    header: opening.header,
                    run: opening.run,
                    text: stream.text(),
                    pos: opening.events,
                    done: false,
                }),
                Err(fault) => r is Err && r->Err_0@ == fault,
            },
            r is Ok ==> r->Ok_0@.run.wf(),
    {
        let mut stream = stream;
        let version = parse_version(&mut stream)?;
        let header = parse_header(&mut stream)?;
        let heprup = parse_init(&mut stream)?;
        Ok(Reader { stream, version, header, run: Run { heprup }, done: false })
    }

    /// Get the LHEF version
    pub fn version(&self) -> (r: &str)
        ensures
            r@ == self@.version,
    {
        self.version
    }

    /// Get the LHEF header
    pub fn header(&self) -> (r: &str)
        ensures
            r@ == self@.header,
    {
        self.header.as_str()
    }

    /// Get the LHEF run information
    pub fn heprup(&self) -> (r: &HEPRUP)
        ensures
            r@ == self@.run,
            r@.wf(),
    {
        proof {
            use_type_invariant(&self.run);
        }
        &self.run.heprup
    }

    /// Whether the line that closes the document has been read.
    pub fn is_done(&self) -> (r: bool)
        ensures
            r == self@.done,
    {
        self.done
    }

    /// Goes on reading from `stream`, which holds the next part of the
    /// document.
    pub fn refill(&mut self, stream: Lines)
        ensures
            final(self)@ == (ReaderState { text: stream.text(), pos: stream.pos(), ..old(self)@ }),
    {
        self.stream = stream;
    }

    /// Get the next event, or nothing at the end of the events. After the
    /// end every further request gives nothing again.
    pub fn event(&mut self) -> (r: Result<Option<HEPEUP>, ParseError>)
        ensures
            match old(self)@.next() {
                Ok(Some(event)) => r is Ok && r->Ok_0 is Some && r->Ok_0->0@ == event,
                Ok(None) => r is Ok && r->Ok_0 is None,
                Err(fault) => r is Err && r->Err_0@ == fault,
            },
            r is Ok ==> final(self)@ == old(self)@.advance(),
            final(self)@.text == old(self)@.text,
            final(self)@.version == old(self)@.version,
            final(self)@.header == old(self)@.header,
            final(self)@.run == old(self)@.run,
            r is Ok && r->Ok_0 is Some ==> r->Ok_0->0@.wf(),
    {
        if self.done {
            return Ok(None);
        }
        match read_event(&mut self.stream) {
            Ok(Some(event)) => Ok(Some(event)),
            Ok(None) => {
                self.done = true;
                Ok(None)
            },
            Err(e) => Err(e),
        }
    }
}

/// Reads what stands between two events: the line that opens an event and
/// the event, which is handed out, or the line that closes the document,
/// behind which nothing is handed out.
pub fn read_event(stream: &mut Lines) -> (r: Result<Option<HEPEUP>, ParseError>)
    ensures
        final(stream).text() == old(stream).text(),
        old(stream).pos() <= final(stream).pos() <= old(stream).text().len(),
        match step_at(old(stream).text(), old(stream).pos()) {
            Ok((Some(event), next)) => {
                &&& r is Ok
                &&& r->Ok_0 is Some
                &&& r->Ok_0->0@ == event
                &&& final(stream).pos() == next
            },
            Ok((None, next)) => r is Ok && r->Ok_0 is None && final(stream).pos() == next,
            Err(fault) => r is Err && r->Err_0@ == fault,
        },
        r is Ok && r->Ok_0 is Some ==> r->Ok_0->0@.wf(),
        r is Err && r->Err_0@ == Fault::EndOfFile("event"@) ==> final(stream).pos() == old(
            stream,
        ).text().len(),
{
    let line = stream.read_line();
    let said = trim(line.as_slice());
    if text_eq(said, EVENT_START) {
        match parse_event(stream) {
            Ok(event) => Ok(Some(event)),
            Err(e) => Err(e),
        }
    } else if text_eq(said, LHEF_LAST_LINE) {
        Ok(None)
    } else {
        Err(ParseError::BadEventStart(string_of(line.as_slice())))
    }
}

} // verus!
