//! Ordered alternation of two parsers with error combination.

use vstd::prelude::*;

use crate::parser_combinator::continuation::ContinuationState;
use crate::parser_combinator::continuation::CursorView;
use crate::parser_combinator::error::combine_error;
use crate::parser_combinator::error::spec_combine_error;
use crate::parser_combinator::parser::ParseResult;
use crate::parser_combinator::parser::Parser;
use crate::parser_combinator::parser::SpecParseResult;

verus! {

/// Tries `parser1`; on failure tries `parser2` against the *original*
/// cursor, never the failed state.  When both fail, the error combines the
/// two expectations and keeps the second attempt's text and position.
pub struct OrParser<P1, P2> {
    pub parser1: P1,
    pub parser2: P2,
}

impl<P1: Parser, P2: Parser<Value = P1::Value, Output = P1::Output>> Parser for OrParser<P1, P2> {
    type Value = P1::Value;

    type Output = P1::Output;

    open spec fn wf(&self) -> bool {
        self.parser1.wf() && self.parser2.wf()
    }

    open spec fn spec_parse(&self, input: CursorView) -> SpecParseResult<Self::Value> {
        match self.parser1.spec_parse(input) {
            Ok(r) => Ok(r),
            Err(e1) => match self.parser2.spec_parse(input) {
                Ok(r) => Ok(r),
                Err(e2) => Err(spec_combine_error(e1, e2)),
            },
        }
    }

    proof fn lemma_parse_bounds(&self, input: CursorView) {
        self.parser1.lemma_parse_bounds(input);
        self.parser2.lemma_parse_bounds(input);
    }

    fn parse<'a>(&self, input: ContinuationState<'a>) -> (r: ParseResult<'a, Self::Output>) {
        match self.parser1.parse(input) {
            Ok(r) => Ok(r),
            Err(error1) => match self.parser2.parse(input) {
                Ok(r) => Ok(r),
                Err(error2) => Err(combine_error(error1, error2)),
            },
        }
    }
}

/// Ordered alternation: `parser1`, or `parser2` from the same cursor.
pub fn por<P1: Parser, P2: Parser<Value = P1::Value, Output = P1::Output>>(
    parser1: P1,
    parser2: P2,
) -> (r: OrParser<P1, P2>)
    ensures
        r == (OrParser { parser1, parser2 }),
{
    OrParser { parser1, parser2 }
}

} // verus!
