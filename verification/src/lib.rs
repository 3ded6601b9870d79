//! A reader for Les Houches Event Files, a line-oriented text format for
//! samples of particle-physics events.
//!
//! A document opens with a line that states the version of the format. A
//! header of comment blocks and structured blocks follows, then the run
//! information, then the events, and at last the line that closes the
//! document. [`Reader`] decodes a document in that order: the opening
//! once, and then one event for each request. A document that is not at
//! hand as a whole is fed line by line to an [`Intake`], which says when
//! the lines that it holds make up the next block to decode.
//!
//! Every function that decodes states what it returns over the text as a
//! sequence of characters. A real number is kept as the literal that was
//! read ([`Real`]); this library never computes with it.

pub mod error;
pub mod event;
pub mod header;
pub mod init;
pub mod intake;
pub mod number;
pub mod reader;
pub mod record;
pub mod source;
pub mod text;

pub use error::ParseError;
pub use header::{parse_comment_header, parse_header, parse_structured_header, parse_version};
pub use intake::Intake;
pub use number::{parse, Real};
pub use reader::Reader;
pub use record::{HEPEUP, HEPRUP};
pub use source::Lines;
pub use text::pop_line;
