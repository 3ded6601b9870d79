//! Taking a document in line by line, block by block.
//!
//! A document need not be held as a whole. Its lines are fed to an
//! [`Intake`] one by one, which says after each line whether the lines
//! fed so far make up a block that can be decoded: the opening of the
//! document up to the end of the run information, and then what stands
//! between two events together with the event that follows.

use vstd::prelude::*;
use vstd::string::StringExecFns;
use crate::error::{
    COMMENT_END, COMMENT_START, EVENT_END, EVENT_START, HEADER_END, HEADER_START, INIT_END,
    INIT_START,
};
use crate::source::Lines;
use crate::text::{content, line_content, line_says, text_eq, to_chars, trim, trimmed};

verus! {

/// Where in a document the line stands that is fed next.
#[derive(Debug, Clone, Copy)]
pub enum Phase {
    /// It is the first line of the document.
    FirstLine,
    /// In the header, outside its blocks.
    Top,
    /// In a comment block of the header.
    Comment,
    /// In the structured block of the header.
    Structured,
    /// In the run information.
    Init,
    /// Between two events, or behind the last one.
    Between,
    /// In an event.
    Event,
}

/// What a line does to the phase, and whether it is the last line of a
/// block. A block ends with the line that closes the run information or an
/// event, or with a line that neither opens nor closes anything where
/// something has to be opened.
pub open spec fn phase_after(phase: Phase, line: Seq<char>) -> (Phase, bool) {
    let said = line_says(line, true);
    match phase {
        Phase::FirstLine => (Phase::Top, false),
        Phase::Top => if said == COMMENT_START@ {
            (Phase::Comment, false)
        } else if said == HEADER_START@ {
            (Phase::Structured, false)
        } else if said == INIT_START@ {
            (Phase::Init, false)
        } else {
            (Phase::Top, true)
        },
        Phase::Comment => if said == COMMENT_END@ {
            (Phase::Top, false)
        } else {
            (Phase::Comment, false)
        },
        Phase::Structured => if said == HEADER_END@ {
            (Phase::Top, false)
        } else {
            (Phase::Structured, false)
        },
        Phase::Init => if content(line) == INIT_END@ {
            (Phase::Between, true)
        } else {
            (Phase::Init, false)
        },
        Phase::Between => if trimmed(line) == EVENT_START@ {
            (Phase::Event, false)
        } else {
            (Phase::Between, true)
        },
        Phase::Event => if said == EVENT_END@ {
            (Phase::Between, true)
        } else {
            (Phase::Event, false)
        },
    }
}

/// The lines of the block that is being taken in, and the phase of the
/// line that comes next.
pub struct Intake {
    phase: Phase,
    block: String,
}

impl Intake {
    /// The phase of the line that comes next.
    pub closed spec fn phase(&self) -> Phase {
        self.phase
    }

    /// The lines that were fed and not yet taken.
    pub closed spec fn block(&self) -> Seq<char> {
        self.block@
    }

    /// An intake before the first line of a document.
    pub fn new() -> (r: Intake)
        ensures
            r.phase() == Phase::FirstLine,
            r.block() == Seq::<char>::empty(),
    {
        Intake { phase: Phase::FirstLine, block: String::new() }
    }

    /// Takes in one line, with its line feed where it has one, and says
    /// whether it is the last line of a block.
    pub fn feed(&mut self, line: &str) -> (whole: bool)
        ensures
            final(self).block() == old(self).block() + line@,
            (final(self).phase(), whole) == phase_after(old(self).phase(), line@),
    {
        let chars = to_chars(line);
        let said = trim(line_content(chars.as_slice()));
        self.block.append(line);
        match self.phase {
            Phase::FirstLine => {
                self.phase = Phase::Top;
                false
            },
            Phase::Top => {
                if text_eq(said, COMMENT_START) {
                    self.phase = Phase::Comment;
                    false
                } else if text_eq(said, HEADER_START) {
                    self.phase = Phase::Structured;
                    false
                } else if text_eq(said, INIT_START) {
                    self.phase = Phase::Init;
                    false
                } else {
                    true
                }
            },
            Phase::Comment => {
                if text_eq(said, COMMENT_END) {
                    self.phase = Phase::Top;
                }
                false
            },
            Phase::Structured => {
                if text_eq(said, HEADER_END) {
                    self.phase = Phase::Top;
                }
                false
            },
            Phase::Init => {
                if text_eq(line_content(chars.as_slice()), INIT_END) {
                    self.phase = Phase::Between;
                    true
                } else {
                    false
                }
            },
            Phase::Between => {
                if text_eq(trim(chars.as_slice()), EVENT_START) {
                    self.phase = Phase::Event;
                    false
                } else {
                    true
                }
            },
            Phase::Event => {
                if text_eq(said, EVENT_END) {
                    self.phase = Phase::Between;
                    true
                } else {
                    false
                }
            },
        }
    }

    /// Hands out the lines that were fed, to be decoded, and keeps none.
    pub fn take(&mut self) -> (lines: Lines)
        ensures
            lines.text() == old(self).block(),
            lines.pos() == 0,
            final(self).block() == Seq::<char>::empty(),
            final(self).phase() == old(self).phase(),
    {
        let lines = Lines::new(self.block.as_str());
        self.block = String::new();
        lines
    }
}

} // verus!
