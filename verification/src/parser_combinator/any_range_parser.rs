//! Matcher for one character inside an inclusive range.

use vstd::prelude::*;
use vstd::string::StrSliceExecFns;
use vstd::string::StringExecFns;

use crate::parser_combinator::continuation::ContinuationState;
use crate::parser_combinator::continuation::CursorView;
use crate::parser_combinator::error::Error;
use crate::parser_combinator::error::ErrorView;
use crate::parser_combinator::error::Expected;
use crate::parser_combinator::error::ExpectedView;
use crate::parser_combinator::parser::ParseResult;
use crate::parser_combinator::parser::Parser;
use crate::parser_combinator::parser::SpecParseResult;
use crate::parser_combinator::token::Token;
use crate::parser_combinator::token::TokenView;

verus! {

/// `c` lies between `lo` and `hi` inclusive, by code point.
pub open spec fn char_in_range(lo: char, hi: char, c: char) -> bool {
    lo as u32 <= c as u32 && c as u32 <= hi as u32
}

/// What matching a character range yields: the next character when it lies
/// in the range, or an error naming the range, whose actual text is the
/// mismatching character, or nothing at end of input.
pub open spec fn spec_pany_range(lo: char, hi: char, input: CursorView) -> SpecParseResult<char> {
    if input.remaining.len() > 0 && char_in_range(lo, hi, input.remaining[0]) {
        Ok(
            (
                TokenView { value: input.remaining[0], start: input.position, length: 1 },
                input.advanced(1, input.remaining[0] == '\n'),
            ),
        )
    } else {
        Err(ErrorView {
            expected: ExpectedView::Range(lo, hi),
            actual: if input.remaining.len() > 0 {
                seq![input.remaining[0]]
            } else {
                Seq::empty()
            },
            position: input.position,
            line_number: input.line_number,
            line_position: input.line_position,
        })
    }
}

/// Matches any character between `lo` and `hi` inclusive.
pub struct AnyRangeParser {
    pub lo: char,
    pub hi: char,
}

impl Parser for AnyRangeParser {
    type Value = char;

    type Output = char;

    open spec fn spec_parse(&self, input: CursorView) -> SpecParseResult<char> {
        spec_pany_range(self.lo, self.hi, input)
    }

    proof fn lemma_parse_bounds(&self, input: CursorView) {
        if input.remaining.len() > 0 && char_in_range(self.lo, self.hi, input.remaining[0]) {
            assert(input.advanced(1, input.remaining[0] == '\n').remaining =~= input.remaining.skip(
                1,
            ));
        }
    }

    fn parse<'a>(&self, input: ContinuationState<'a>) -> (r: ParseResult<'a, char>) {
        if !input.remaining.is_empty() {
            let c0 = input.remaining.get_char(0);
            if self.lo as u32 <= c0 as u32 && c0 as u32 <= self.hi as u32 {
                let next = input.advance(1, c0 == '\n');
                return Ok((Token { value: c0, start: input.position, length: 1 }, next));
            }
            let actual = input.remaining.substring_char(0, 1).to_owned();
            let e = Error {
                expected: Expected::Range(self.lo, self.hi),
                actual,
                position: input.position,
                line_number: input.line_number,
                line_position: input.line_position,
            };
            proof {
                assert(e@.actual =~= seq![input@.remaining[0]]);
                assert(e@ =~= spec_pany_range(self.lo, self.hi, input@)->Err_0);
            }
            Err(e)
        } else {
            let e = Error {
                expected: Expected::Range(self.lo, self.hi),
                actual: String::new(),
                position: input.position,
                line_number: input.line_number,
                line_position: input.line_position,
            };
            proof {
                assert(e@ =~= spec_pany_range(self.lo, self.hi, input@)->Err_0);
            }
            Err(e)
        }
    }
}

/// A parser that matches any character between `lo` and `hi` inclusive.
pub fn pany_range(lo: char, hi: char) -> (r: AnyRangeParser)
    ensures
        r == (AnyRangeParser { lo, hi }),
{
    AnyRangeParser { lo, hi }
}

} // verus!
