//! A parser wrapped around a plain parsing function.

use vstd::prelude::*;

use crate::parser_combinator::continuation::ContinuationState;
use crate::parser_combinator::parser::ParseResult;

verus! {

/// Wraps a function from cursor to parse result, so that a hand-written
/// parsing function can be carried around as a parser value.  Its contract
/// is exactly the function's own: `parse` returns whatever the function may
/// return on that cursor.
pub struct ClosureParser<F> {
    pub parser: F,
}

impl<F> ClosureParser<F> {
    /// Calls the wrapped function on `input`.
    pub fn parse<'a, Output>(&self, input: ContinuationState<'a>) -> (r: ParseResult<'a, Output>)
        where
            F: Fn(ContinuationState<'a>) -> ParseResult<'a, Output>,

        requires
            call_requires(&self.parser, (input,)),
        ensures
            call_ensures(&self.parser, (input,), r),
    {
        (self.parser)(input)
    }
}

/// Wraps `parser`, a function from cursor to parse result, as a parser
/// value.
pub fn parser_from_fn<F>(parser: F) -> (r: ClosureParser<F>)
    ensures
        r == (ClosureParser { parser }),
{
    ClosureParser { parser }
}

} // verus!
