//! Optional parse: failure is never an error and never consumes input.

use vstd::prelude::*;

use crate::parser_combinator::continuation::ContinuationState;
use crate::parser_combinator::continuation::CursorView;
use crate::parser_combinator::parser::ParseResult;
use crate::parser_combinator::parser::Parser;
use crate::parser_combinator::parser::SpecParseResult;
use crate::parser_combinator::token::Token;
use crate::parser_combinator::token::TokenView;

verus! {

/// Tries the wrapped parser; success wraps the value in `Some`, failure
/// yields `Ok` with `None`, a zero-length token and the original, unadvanced
/// cursor.
pub struct OptionalParser<P> {
    pub parser: P,
}

impl<P: Parser> Parser for OptionalParser<P> {
    type Value = Option<P::Value>;

    type Output = Option<P::Output>;

    open spec fn wf(&self) -> bool {
        self.parser.wf()
    }

    open spec fn spec_parse(&self, input: CursorView) -> SpecParseResult<Self::Value> {
        match self.parser.spec_parse(input) {
            Ok((t, c)) => Ok(
                (TokenView { value: Some(t.value), start: t.start, length: t.length }, c),
            ),
            Err(_) => Ok(
                (TokenView { value: None, start: input.position, length: 0 }, input),
            ),
        }
    }

    proof fn lemma_parse_bounds(&self, input: CursorView) {
        self.parser.lemma_parse_bounds(input);
        if self.parser.spec_parse(input) is Err {
            assert(input.remaining =~= input.remaining.skip(0));
        }
    }

    fn parse<'a>(&self, input: ContinuationState<'a>) -> (r: ParseResult<'a, Self::Output>) {
        match self.parser.parse(input) {
            Ok((token, state)) => Ok(
                (
                    Token { value: Some(token.value), start: token.start, length: token.length },
                    state,
                ),
            ),
            Err(_) => Ok((Token { value: None, start: input.position, length: 0 }, input)),
        }
    }
}

/// An optional parse of `parser`: never fails, never consumes on failure.
pub fn poptional<P: Parser>(parser: P) -> (r: OptionalParser<P>)
    ensures
        r == (OptionalParser { parser }),
{
    OptionalParser { parser }
}

} // verus!
