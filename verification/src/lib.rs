//! Recognizer and streaming tokenizer for ANSI/VT100 terminal escape
//! sequences.
//!
//! The library splits a text stream into typed tokens: literal text runs
//! and structured escape-sequence values. All the basic escape sequences
//! are recognized:
//! + Cursor Position
//! + Cursor {Up, Down, Forward, Backward}
//! + Cursor {Save, Restore}
//! + Erase Display
//! + Erase Line
//! + Set Graphics mode
//! + Set and Reset Text Mode
//!
//! Parsing is done through a pull-based tokenizer: every recognized ANSI
//! sequence becomes an [`AnsiSequence`] value and the input string is split
//! at every location where a sequence was found.

mod enums;
mod laws;
mod parsers;
mod traits;

pub use enums::AnsiSequence;
pub use enums::GraphicsModes;
pub use enums::Output;
pub use parsers::parse_escape;
pub use parsers::ParsedEscape;
pub use traits::AnsiParseIterator;
pub use traits::AnsiParser;
