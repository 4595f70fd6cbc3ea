//! Literal character matcher.

use vstd::prelude::*;
use vstd::string::StrSliceExecFns;

use crate::parser_combinator::continuation::ContinuationState;
use crate::parser_combinator::continuation::CursorView;
use crate::parser_combinator::error::Error;
use crate::parser_combinator::error::ErrorView;
use crate::parser_combinator::error::Expected;
use crate::parser_combinator::error::ExpectedView;
use crate::parser_combinator::parser::parse_bounds_ok;
use crate::parser_combinator::parser::parse_result_matches;
use crate::parser_combinator::parser::ParseResult;
use crate::parser_combinator::parser::Parser;
use crate::parser_combinator::parser::SpecParseResult;
use crate::parser_combinator::token::Token;
use crate::parser_combinator::token::TokenView;

verus! {

/// What matching a single literal character yields: on a match, a token of
/// length 1 and the cursor advanced one character (line-aware); otherwise an
/// error naming the character, with the mismatching character (or nothing,
/// at end of input) as the actual text.
pub open spec fn spec_pchar(c: char, input: CursorView) -> SpecParseResult<char> {
    if input.remaining.len() == 0 {
        Err(ErrorView {
            expected: ExpectedView::Char(c),
            actual: Seq::empty(),
            position: input.position,
            line_number: input.line_number,
            line_position: input.line_position,
        })
    } else if input.remaining[0] == c {
        Ok(
            (
                TokenView { value: c, start: input.position, length: 1 },
                input.advanced(1, c == '\n'),
            ),
        )
    } else {
        Err(ErrorView {
            expected: ExpectedView::Char(c),
            actual: seq![input.remaining[0]],
            position: input.position,
            line_number: input.line_number,
            line_position: input.line_position,
        })
    }
}

/// Matches the single character `c` at the cursor.
pub(crate) fn pchar_impl<'a>(c: char, input: ContinuationState<'a>) -> (r: ParseResult<'a, char>)
    requires
        input@.wf(),
    ensures
        parse_result_matches::<char>(spec_pchar(c, input@), r),
{
    if input.remaining.is_empty() {
        let e = Error {
            expected: Expected::Char(c),
            actual: String::new(),
            position: input.position,
            line_number: input.line_number,
            line_position: input.line_position,
        };
        proof {
            assert(e@ =~= spec_pchar(c, input@)->Err_0);
        }
        Err(e)
    } else {
        let letter = input.remaining.get_char(0);
        if letter == c {
            let next = input.advance(1, c == '\n');
            Ok((Token { value: c, start: input.position, length: 1 }, next))
        } else {
            let actual = input.remaining.substring_char(0, 1).to_owned();
            let e = Error {
                expected: Expected::Char(c),
                actual,
                position: input.position,
                line_number: input.line_number,
                line_position: input.line_position,
            };
            proof {
                assert(e@.actual =~= seq![input@.remaining[0]]);
                assert(e@ =~= spec_pchar(c, input@)->Err_0);
            }
            Err(e)
        }
    }
}

/// Matches a single literal character.
pub struct CharParser {
    pub value: char,
}

impl Parser for CharParser {
    type Value = char;

    type Output = char;

    open spec fn spec_parse(&self, input: CursorView) -> SpecParseResult<char> {
        spec_pchar(self.value, input)
    }

    proof fn lemma_parse_bounds(&self, input: CursorView) {
        if input.remaining.len() > 0 && input.remaining[0] == self.value {
            assert(input.advanced(1, self.value == '\n').remaining =~= input.remaining.skip(1));
        }
    }

    fn parse<'a>(&self, input: ContinuationState<'a>) -> (r: ParseResult<'a, char>) {
        pchar_impl(self.value, input)
    }
}

/// A parser that matches the single character `value`.
pub fn pchar(value: char) -> (r: CharParser)
    ensures
        r == (CharParser { value }),
{
    CharParser { value }
}

} // verus!
