//! A parser-combinator engine over character input.
//!
//! Parsers are values: a parser reads a [`ContinuationState`] cursor and
//! either produces a span-annotated [`Token`] together with the advanced
//! cursor, or a structured [`Error`] describing what was expected at the
//! point of failure.  Combinators build larger parsers out of smaller ones
//! without shared mutable state, so failure simply means discarding the
//! attempt and retrying an alternative from the original cursor.
//!
//! [`ContinuationState`]: parser_combinator::ContinuationState
//! [`Token`]: parser_combinator::Token
//! [`Error`]: parser_combinator::Error

pub mod parser_combinator;
pub mod untyped_language;
