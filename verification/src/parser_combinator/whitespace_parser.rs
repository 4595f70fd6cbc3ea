//! Matcher for a single whitespace character.

use vstd::prelude::*;
use vstd::string::StrSliceExecFns;
use vstd::string::StringExecFns;

use crate::parser_combinator::continuation::ContinuationState;
use crate::parser_combinator::continuation::CursorView;
use crate::parser_combinator::error::Error;
use crate::parser_combinator::error::ErrorView;
use crate::parser_combinator::error::Expected;
use crate::parser_combinator::error::ExpectedView;
use crate::parser_combinator::parser::ParseResult;
use crate::parser_combinator::parser::Parser;
use crate::parser_combinator::parser::SpecParseResult;
use crate::parser_combinator::token::Token;
use crate::parser_combinator::token::TokenView;

verus! {

/// `c` has the Unicode `White_Space` property.
pub open spec fn is_whitespace_char(c: char) -> bool {
    ||| 0x9 <= c as u32 && c as u32 <= 0xD
    ||| c as u32 == 0x20
    ||| c as u32 == 0x85
    ||| c as u32 == 0xA0
    ||| c as u32 == 0x1680
    ||| 0x2000 <= c as u32 && c as u32 <= 0x200A
    ||| c as u32 == 0x2028
    ||| c as u32 == 0x2029
    ||| c as u32 == 0x202F
    ||| c as u32 == 0x205F
    ||| c as u32 == 0x3000
}

/// Decides the Unicode `White_Space` property by code point.
pub fn is_space(c: char) -> (r: bool)
    ensures
        r == is_whitespace_char(c),
{
    let u = c as u32;
    (0x9 <= u && u <= 0xD) || u == 0x20 || u == 0x85 || u == 0xA0 || u == 0x1680 || (0x2000 <= u
        && u <= 0x200A) || u == 0x2028 || u == 0x2029 || u == 0x202F || u == 0x205F || u == 0x3000
}

/// What matching one whitespace character yields: the consumed character is
/// reported as the unit value; a mismatch reports a space as expected, with
/// the mismatching character (or nothing at end of input) as the actual
/// text.
pub open spec fn spec_pws(input: CursorView) -> SpecParseResult<()> {
    if input.remaining.len() > 0 && is_whitespace_char(input.remaining[0]) {
        Ok(
            (
                TokenView { value: (), start: input.position, length: 1 },
                input.advanced(1, input.remaining[0] == '\n'),
            ),
        )
    } else {
        Err(ErrorView {
            expected: ExpectedView::Char(' '),
            actual: if input.remaining.len() > 0 {
                seq![input.remaining[0]]
            } else {
                Seq::empty()
            },
            position: input.position,
            line_number: input.line_number,
            line_position: input.line_position,
        })
    }
}

/// Matches a single whitespace character.
pub struct WhitespaceParser;

impl Parser for WhitespaceParser {
    type Value = ();

    type Output = ();

    open spec fn spec_parse(&self, input: CursorView) -> SpecParseResult<()> {
        spec_pws(input)
    }

    proof fn lemma_parse_bounds(&self, input: CursorView) {
        if input.remaining.len() > 0 && is_whitespace_char(input.remaining[0]) {
            assert(input.advanced(1, input.remaining[0] == '\n').remaining =~= input.remaining.skip(
                1,
            ));
        }
    }

    fn parse<'a>(&self, input: ContinuationState<'a>) -> (r: ParseResult<'a, ()>) {
        if !input.remaining.is_empty() {
            let c0 = input.remaining.get_char(0);
            if is_space(c0) {
                let next = input.advance(1, c0 == '\n');
                return Ok((Token { value: (), start: input.position, length: 1 }, next));
            }
            let actual = input.remaining.substring_char(0, 1).to_owned();
            let e = Error {
                expected: Expected::Char(' '),
                actual,
                position: input.position,
                line_number: input.line_number,
                line_position: input.line_position,
            };
            proof {
                assert(e@.actual =~= seq![input@.remaining[0]]);
                assert(e@ =~= spec_pws(input@)->Err_0);
            }
            Err(e)
        } else {
            let e = Error {
                expected: Expected::Char(' '),
                actual: String::new(),
                position: input.position,
                line_number: input.line_number,
                line_position: input.line_position,
            };
            proof {
                assert(e@ =~= spec_pws(input@)->Err_0);
            }
            Err(e)
        }
    }
}

/// A parser that matches a single whitespace character.
pub fn pws() -> (r: WhitespaceParser)
    ensures
        r == WhitespaceParser,
{
    WhitespaceParser
}

} // verus!
