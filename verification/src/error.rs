//! The ways in which a document can fail to decode.

use vstd::prelude::*;
use vstd::string::StringExecFns;

verus! {

/// Opens the root element, up to the quoted version.
pub const LHEF_TAG_OPEN: &'static str = "<LesHouchesEvents version=";

/// Opens a comment block of the header.
pub const COMMENT_START: &'static str = "<!--";

/// Closes a comment block of the header.
pub const COMMENT_END: &'static str = "-->";

/// Opens the structured block of the header.
pub const HEADER_START: &'static str = "<header>";

/// Closes the structured block of the header.
pub const HEADER_END: &'static str = "</header>";

/// Opens the run information.
pub const INIT_START: &'static str = "<init>";

/// Closes the run information.
pub const INIT_END: &'static str = "</init>";

/// Opens an event.
pub const EVENT_START: &'static str = "<event>";

/// Closes an event.
pub const EVENT_END: &'static str = "</event>";

/// Closes the root element.
pub const LHEF_LAST_LINE: &'static str = "</LesHouchesEvents>";

/// Why decoding stopped.
#[derive(Debug, Clone, PartialEq, Eq)]
pub enum ParseError {
    /// The first line does not open the root element; holds that line.
    BadFirstLine(String),
    /// A line of the header opens neither a header block nor the run
    /// information; holds the line, trimmed.
    BadHeaderStart(String),
    /// A line between events opens no event and does not close the root
    /// element; holds that line.
    BadEventStart(String),
    /// A line has no field at the place of the named entry.
    MissingEntry(String),
    /// A field is not a number of the kind its entry asks for; holds the
    /// field.
    ConversionError(String),
    /// The version is none of 1.0, 2.0 and 3.0; holds the version.
    UnsupportedVersion(String),
    /// The first line holds no quoted version.
    MissingVersion,
    /// The text ends inside the named block.
    EndOfFile(&'static str),
}

/// A `ParseError` with its texts as sequences of characters.
pub enum Fault {
    BadFirstLine(Seq<char>),
    BadHeaderStart(Seq<char>),
    BadEventStart(Seq<char>),
    MissingEntry(Seq<char>),
    ConversionError(Seq<char>),
    UnsupportedVersion(Seq<char>),
    MissingVersion,
    EndOfFile(Seq<char>),
}

impl View for ParseError {
    type V = Fault;

    open spec fn view(&self) -> Fault {
        match self {
            ParseError::BadFirstLine(line) => Fault::BadFirstLine(line@),
            ParseError::BadHeaderStart(line) => Fault::BadHeaderStart(line@),
            ParseError::BadEventStart(line) => Fault::BadEventStart(line@),
            ParseError::MissingEntry(name) => Fault::MissingEntry(name@),
            ParseError::ConversionError(field) => Fault::ConversionError(field@),
            ParseError::UnsupportedVersion(version) => Fault::UnsupportedVersion(version@),
            ParseError::MissingVersion => Fault::MissingVersion,
            ParseError::EndOfFile(block) => Fault::EndOfFile(block@),
        }
    }
}

/// The sentence that describes a fault.
pub open spec fn rendering(fault: Fault) -> Seq<char> {
    match fault {
        Fault::BadFirstLine(line) => "First line '"@ + line + "' in input does start with '"@
            + LHEF_TAG_OPEN@ + "'"@,
        Fault::BadHeaderStart(line) => "Encountered unrecognized line '"@ + line
            + "', expected a header starting with '"@ + COMMENT_START@ + "', '"@ + HEADER_START@
            + "', or the init block starting with '"@ + INIT_START@ + "'"@,
        Fault::BadEventStart(line) => "Encountered unrecognized line '"@ + line
            + "', expected an event starting with '"@ + EVENT_START@ + "'"@,
        Fault::UnsupportedVersion(version) => "Unsupported version "@ + version
            + ", only 1.0, 2.0, 3.0 are supported"@,
        Fault::MissingVersion => "Version information missing"@,
        Fault::MissingEntry(name) => "Missing entry '"@ + name + "'"@,
        Fault::ConversionError(field) => "Failed to convert to number: '"@ + field + "'"@,
        Fault::EndOfFile(block) => "Encountered '"@ + block + "' block without closing tag"@,
    }
}

/// The outcome of checking the parts of a block in order: the first fault
/// that was met, if any.
pub struct Check(pub Option<Fault>);

impl Check {
    /// Nothing checked yet.
    pub open spec fn start() -> Check {
        Check(None)
    }

    /// Goes on with the next part, whose fault is `next`. A fault met
    /// before stands.
    pub open spec fn and_then(self, next: Option<Fault>) -> Check {
        if self.0 is Some {
            self
        } else {
            Check(next)
        }
    }
}

impl ParseError {
    /// Describes the error in a sentence.
    pub fn message(&self) -> (s: String)
        ensures
            s@ == rendering(self@),
    {
        match self {
            ParseError::BadFirstLine(line) => {
                let mut s = String::from_str("First line '");
                s.append(line.as_str());
                s.append("' in input does start with '");
                s.append(LHEF_TAG_OPEN);
                s.append("'");
                s
            },
            ParseError::BadHeaderStart(line) => {
                let mut s = String::from_str("Encountered unrecognized line '");
                s.append(line.as_str());
                s.append("', expected a header starting with '");
                s.append(COMMENT_START);
                s.append("', '");
                s.append(HEADER_START);
                s.append("', or the init block starting with '");
                s.append(INIT_START);
                s.append("'");
                s
            },
            ParseError::BadEventStart(line) => {
                let mut s = String::from_str("Encountered unrecognized line '");
                s.append(line.as_str());
                s.append("', expected an event starting with '");
                s.append(EVENT_START);
                s.append("'");
                s
            },
            ParseError::UnsupportedVersion(version) => {
                let mut s = String::from_str("Unsupported version ");
                s.append(version.as_str());
                s.append(", only 1.0, 2.0, 3.0 are supported");
                s
            },
            ParseError::MissingVersion => String::from_str("Version information missing"),
            ParseError::MissingEntry(name) => {
                let mut s = String::from_str("Missing entry '");
                s.append(name.as_str());
                s.append("'");
                s
            },
            ParseError::ConversionError(field) => {
                let mut s = String::from_str("Failed to convert to number: '");
                s.append(field.as_str());
                s.append("'");
                s
            },
            ParseError::EndOfFile(block) => {
                let mut s = String::from_str("Encountered '");
                s.append(block);
                s.append("' block without closing tag");
                s
            },
        }
    }
}

} // verus!
