//! A lexical scanner for a small Pascal-like teaching language.
//!
//! The scanner turns source text into a sequence of classified tokens:
//! identifiers, reserved keywords, unsigned integer literals, quoted
//! string literals, operators and punctuation.  Whitespace and two styles
//! of comment (brace-delimited and `/* ... */`) separate tokens and never
//! appear in any token's span.  Positions are byte offsets into the
//! UTF-8 source text.  Every public operation carries a contract that
//! pins its result down against a mathematical model of the scan.

pub mod classify;
pub mod laws;
pub mod lexer;
pub mod model;
pub mod token;

pub use lexer::Lexer;
pub use token::{Kind, ScanError, Token, TokenValue};
