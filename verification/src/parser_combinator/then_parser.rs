//! Sequencing: one parser, then another on what remains.

use vstd::prelude::*;

use crate::parser_combinator::continuation::ContinuationState;
use crate::parser_combinator::continuation::CursorView;
use crate::parser_combinator::parser::pair_within_bounds;
use crate::parser_combinator::parser::ParseResult;
use crate::parser_combinator::parser::Parser;
use crate::parser_combinator::parser::SpecParseResult;
use crate::parser_combinator::token::Token;
use crate::parser_combinator::token::TokenView;

verus! {

/// Runs `parser1`, then `parser2` on the remaining input; the token holds
/// both sub-tokens, starts at the first one's start and spans through the
/// end of the second one, covering any gap between them.  If `parser1`
/// fails, `parser2` is never run and the failure is passed through.
pub struct ThenParser<P1, P2> {
    pub parser1: P1,
    pub parser2: P2,
}

impl<P1: Parser, P2: Parser> Parser for ThenParser<P1, P2> {
    type Value = (TokenView<P1::Value>, TokenView<P2::Value>);

    type Output = (Token<P1::Output>, Token<P2::Output>);

    open spec fn wf(&self) -> bool {
        self.parser1.wf() && self.parser2.wf()
    }

    open spec fn spec_parse(&self, input: CursorView) -> SpecParseResult<Self::Value> {
        match self.parser1.spec_parse(input) {
            Ok((t1, c1)) => match self.parser2.spec_parse(c1) {
                Ok((t2, c2)) => Ok(
                    (
                        TokenView {
                            value: (t1, t2),
                            start: t1.start,
                            length: t2.start + t2.length - t1.start,
                        },
                        c2,
                    ),
                ),
                Err(e) => Err(e),
            },
            Err(e) => Err(e),
        }
    }

    proof fn lemma_parse_bounds(&self, input: CursorView) {
        self.parser1.lemma_parse_bounds(input);
        if let Ok((t1, c1)) = self.parser1.spec_parse(input) {
            self.parser2.lemma_parse_bounds(c1);
            if let Ok((t2, c2)) = self.parser2.spec_parse(c1) {
                assert(c2.remaining =~= input.remaining.skip(
                    input.remaining.len() - c2.remaining.len(),
                ));
            }
        }
    }

    fn parse<'a>(&self, input: ContinuationState<'a>) -> (r: ParseResult<'a, Self::Output>) {
        proof {
            self.parser1.lemma_parse_bounds(input@);
        }
        match self.parser1.parse(input) {
            Ok((token1, state1)) => {
                proof {
                    self.parser2.lemma_parse_bounds(state1@);
                }
                match self.parser2.parse(state1) {
                    Ok((token2, state2)) => {
                        let start = token1.start;
                        let length = token2.start + token2.length - token1.start;
                        let token = Token { value: (token1, token2), start, length };
                        proof {
                            let st = self.spec_parse(input@);
                            assert(st is Ok);
                            let (t1, c1) = self.parser1.spec_parse(input@)->Ok_0;
                            let (t2, c2) = self.parser2.spec_parse(c1)->Ok_0;
                            assert(t1 == token1.deep_view());
                            assert(t2 == token2.deep_view());
                            assert(token.deep_view().value == (t1, t2));
                            assert(token.deep_view().start == t1.start);
                            assert(token.deep_view().length == t2.start + t2.length - t1.start);
                            assert(st->Ok_0.0 == token.deep_view());
                            assert(st->Ok_0.1 == state2@);
                        }
                        Ok((token, state2))
                    },
                    Err(e) => Err(e),
                }
            },
            Err(e) => Err(e),
        }
    }
}

/// Proves that both components of a sequence's pair lie inside the consumed
/// region, so the pair can be handed to `left` or `right`.
pub proof fn lemma_then_pair_within_bounds<P1: Parser, P2: Parser>(
    p: ThenParser<P1, P2>,
    input: CursorView,
)
    requires
        p.wf(),
    ensures
        pair_within_bounds(input, p.spec_parse(input)),
{
    p.parser1.lemma_parse_bounds(input);
    if let Ok((t1, c1)) = p.parser1.spec_parse(input) {
        p.parser2.lemma_parse_bounds(c1);
    }
}

/// Sequencing: `parser1`, then `parser2` on what remains.
pub fn pthen<P1: Parser, P2: Parser>(parser1: P1, parser2: P2) -> (r: ThenParser<P1, P2>)
    ensures
        r == (ThenParser { parser1, parser2 }),
{
    ThenParser { parser1, parser2 }
}

} // verus!
