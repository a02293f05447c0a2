//! A small line matcher: a pattern source is compiled into a sequence of
//! atoms, and an input line is scanned for the first start offset from
//! which the whole sequence can be walked.
//!
//! The pattern language has literal characters, the wildcard `.`, the
//! classes `\d` and `\w`, sets such as `[abc]` and `[^abc]`, the anchors
//! `^` and `$`, and the quantifiers `+` and `?` after a literal
//! character.
//!
//! Three conventions are deliberate and stated in the contracts:
//!
//! - A walk never gives back what an atom has taken. A quantified atom
//!   takes the whole run of its character; `?` is satisfied by a run of
//!   none or one and refuses a longer one.
//! - An anchor acts only at the edge of the pattern. A start anchor acts
//!   when it records position 0. An end anchor acts when it records the
//!   last position of the source, counted in source characters; after an
//!   atom that was read from two or more source characters it records an
//!   earlier position than that, and is passed over like any other
//!   anchor away from the edge.
//! - Start offsets are one unit of storage apart, one byte of UTF-8. A
//!   scan goes from one offset to the next only over a single-byte
//!   character; where it would have to go on inside a wider character
//!   it answers [`MatchError::MisalignedOffset`].

pub mod atom;
pub mod compile;
pub mod cursor;
pub mod error;
pub mod laws;
pub mod matcher;
pub mod storage;

pub use atom::{Atom, PatternKind};
pub use compile::Regex;
pub use error::{CompileError, GrepError, MatchError};
pub use matcher::match_pattern;
