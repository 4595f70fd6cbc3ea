//! Projection keeping the second token of a pair.

use core::marker::PhantomData;

use vstd::prelude::*;

use crate::parser_combinator::continuation::ContinuationState;
use crate::parser_combinator::continuation::CursorView;
use crate::parser_combinator::parser::pair_within_bounds;
use crate::parser_combinator::parser::ParseResult;
use crate::parser_combinator::parser::Parser;
use crate::parser_combinator::parser::SpecParseResult;
use crate::parser_combinator::token::Token;
use crate::parser_combinator::token::TokenView;

verus! {

/// Runs a pair-valued parser and keeps only the second component's token,
/// discarding the first (its consumption still advances the cursor).
pub struct RightParser<Left, Right, P> {
    pub parser: P,
    pub _phantom: PhantomData<(Left, Right)>,
}

impl<
    Left: DeepView,
    Right: DeepView,
    P: Parser<
        Value = (TokenView<Left::V>, TokenView<Right::V>),
        Output = (Token<Left>, Token<Right>),
    >,
> Parser for RightParser<Left, Right, P> {
    type Value = Right::V;

    type Output = Right;

    open spec fn wf(&self) -> bool {
        &&& self.parser.wf()
        &&& forall|input: CursorView|
            #[trigger] pair_within_bounds(input, self.parser.spec_parse(input))
    }

    open spec fn spec_parse(&self, input: CursorView) -> SpecParseResult<Self::Value> {
        match self.parser.spec_parse(input) {
            Ok((t, c)) => Ok((t.value.1, c)),
            Err(e) => Err(e),
        }
    }

    proof fn lemma_parse_bounds(&self, input: CursorView) {
        self.parser.lemma_parse_bounds(input);
        assert(pair_within_bounds(input, self.parser.spec_parse(input)));
    }

    fn parse<'a>(&self, input: ContinuationState<'a>) -> (r: ParseResult<'a, Self::Output>) {
        match self.parser.parse(input) {
            Ok((token, cont)) => Ok((token.value.1, cont)),
            Err(e) => Err(e),
        }
    }
}

/// Keeps only the second component's token of a pair-valued parser.
pub fn pright<
    Left: DeepView,
    Right: DeepView,
    P: Parser<
        Value = (TokenView<Left::V>, TokenView<Right::V>),
        Output = (Token<Left>, Token<Right>),
    >,
>(parser: P) -> (r: RightParser<Left, Right, P>)
    ensures
        r == (RightParser::<Left, Right, P> { parser, _phantom: PhantomData }),
{
    RightParser { parser, _phantom: PhantomData }
}

} // verus!
