//! The at-least-one check over a sequence-valued parser.

use core::marker::PhantomData;

use vstd::prelude::*;
use vstd::string::StringExecFns;

use crate::parser_combinator::continuation::ContinuationState;
use crate::parser_combinator::continuation::CursorView;
use crate::parser_combinator::error::Error;
use crate::parser_combinator::error::ErrorView;
use crate::parser_combinator::error::Expected;
use crate::parser_combinator::error::ExpectedView;
use crate::parser_combinator::parser::ParseResult;
use crate::parser_combinator::parser::Parser;
use crate::parser_combinator::parser::SpecParseResult;
use crate::parser_combinator::token::Token;
use crate::parser_combinator::token::TokenView;

verus! {

/// Passes the wrapped parser's result through, except that a token of
/// length zero (no elements matched) becomes an error expecting "1 or more",
/// whose actual text is the input left at that point.
pub struct AtLeastOneParser<P, Output> {
    pub parser: P,
    pub _phantom: PhantomData<Output>,
}

impl<
    Output: DeepView,
    P: Parser<Value = Seq<TokenView<Output::V>>, Output = Vec<Token<Output>>>,
> Parser for AtLeastOneParser<P, Output> {
    type Value = Seq<TokenView<Output::V>>;

    type Output = Vec<Token<Output>>;

    open spec fn wf(&self) -> bool {
        self.parser.wf()
    }

    open spec fn spec_parse(&self, input: CursorView) -> SpecParseResult<Self::Value> {
        match self.parser.spec_parse(input) {
            Ok((t, c)) => {
                if t.length == 0 {
                    Err(spec_1_or_more_error(input, c))
                } else {
                    Ok((t, c))
                }
            },
            Err(e) => Err(e),
        }
    }

    proof fn lemma_parse_bounds(&self, input: CursorView) {
        self.parser.lemma_parse_bounds(input);
    }

    fn parse<'a>(&self, input: ContinuationState<'a>) -> (r: ParseResult<'a, Self::Output>) {
        match self.parser.parse(input) {
            Ok((token, cont)) => {
                if token.length == 0 {
                    let e = Error {
                        expected: Expected::String(String::from_str("1 or more")),
                        actual: cont.remaining.to_owned(),
                        position: input.position,
                        line_number: input.line_number,
                        line_position: input.line_position,
                    };
                    proof {
                        reveal_strlit("1 or more");
                        assert(e@ =~= spec_1_or_more_error(input@, cont@));
                    }
                    Err(e)
                } else {
                    Ok((token, cont))
                }
            },
            Err(err) => Err(err),
        }
    }
}

/// The error reported when a repetition that had to match at least once
/// matched nothing.
pub open spec fn spec_1_or_more_error(input: CursorView, c: CursorView) -> ErrorView {
    ErrorView {
        expected: ExpectedView::Str("1 or more"@),
        actual: c.remaining,
        position: input.position,
        line_number: input.line_number,
        line_position: input.line_position,
    }
}

/// Fails with "1 or more" when `parser` produced no elements.
pub fn p1<
    Output: DeepView,
    P: Parser<Value = Seq<TokenView<Output::V>>, Output = Vec<Token<Output>>>,
>(parser: P) -> (r: AtLeastOneParser<P, Output>)
    ensures
        r == (AtLeastOneParser { parser, _phantom: PhantomData::<Output> }),
{
    AtLeastOneParser { parser, _phantom: PhantomData }
}

} // verus!
