//! Matcher for one character out of a fixed set.

use vstd::prelude::*;
use vstd::slice::slice_to_vec;
use vstd::string::StrSliceExecFns;

use crate::parser_combinator::continuation::ContinuationState;
use crate::parser_combinator::continuation::CursorView;
use crate::parser_combinator::error::Error;
use crate::parser_combinator::error::ErrorView;
use crate::parser_combinator::error::Expected;
use crate::parser_combinator::error::ExpectedView;
use crate::parser_combinator::parser::ParseResult;
use crate::parser_combinator::parser::Parser;
use crate::parser_combinator::parser::SpecParseResult;
use crate::parser_combinator::token::Token;
use crate::parser_combinator::token::TokenView;

verus! {

/// What matching one of a set of characters yields: the next character when
/// it is a member, or an error naming the whole set, whose actual text is
/// the mismatching character, or nothing at end of input.
pub open spec fn spec_pany(chars: Seq<char>, input: CursorView) -> SpecParseResult<char> {
    if input.remaining.len() > 0 && chars.contains(input.remaining[0]) {
        Ok(
            (
                TokenView { value: input.remaining[0], start: input.position, length: 1 },
                input.advanced(1, input.remaining[0] == '\n'),
            ),
        )
    } else {
        Err(ErrorView {
            expected: ExpectedView::Any(chars),
            actual: if input.remaining.len() > 0 {
                seq![input.remaining[0]]
            } else {
                Seq::empty()
            },
            position: input.position,
            line_number: input.line_number,
            line_position: input.line_position,
        })
    }
}

/// Matches any one of `valid_chars`, tried in order.
pub struct AnyParser {
    pub valid_chars: Vec<char>,
}

impl Parser for AnyParser {
    type Value = char;

    type Output = char;

    open spec fn spec_parse(&self, input: CursorView) -> SpecParseResult<char> {
        spec_pany(self.valid_chars@, input)
    }

    proof fn lemma_parse_bounds(&self, input: CursorView) {
        if input.remaining.len() > 0 && self.valid_chars@.contains(input.remaining[0]) {
            assert(input.advanced(1, input.remaining[0] == '\n').remaining =~= input.remaining.skip(
                1,
            ));
        }
    }

    fn parse<'a>(&self, input: ContinuationState<'a>) -> (r: ParseResult<'a, char>) {
        if !input.remaining.is_empty() {
            let c0 = input.remaining.get_char(0);
            let mut i: usize = 0;
            while i < self.valid_chars.len()
                invariant
                    input@.wf(),
                    input@.remaining.len() > 0,
                    i <= self.valid_chars@.len(),
                    c0 == input@.remaining[0],
                    forall|j: int| 0 <= j < i ==> self.valid_chars@[j] != c0,
                decreases self.valid_chars@.len() - i,
            {
                if self.valid_chars[i] == c0 {
                    let next = input.advance(1, c0 == '\n');
                    return Ok((Token { value: c0, start: input.position, length: 1 }, next));
                }
                i = i + 1;
            }
            proof {
                assert(!self.valid_chars@.contains(input@.remaining[0]));
            }
            let actual = input.remaining.substring_char(0, 1).to_owned();
            let e = Error {
                expected: Expected::Any(self.valid_chars.clone()),
                actual,
                position: input.position,
                line_number: input.line_number,
                line_position: input.line_position,
            };
            proof {
                assert(e@.actual =~= seq![input@.remaining[0]]);
                assert(e@ =~= spec_pany(self.valid_chars@, input@)->Err_0);
            }
            Err(e)
        } else {
            let e = Error {
                expected: Expected::Any(self.valid_chars.clone()),
                actual: String::new(),
                position: input.position,
                line_number: input.line_number,
                line_position: input.line_position,
            };
            proof {
                assert(e@ =~= spec_pany(self.valid_chars@, input@)->Err_0);
            }
            Err(e)
        }
    }
}

/// A parser that matches any one of `valid_chars`.
pub fn pany(valid_chars: &[char]) -> (r: AnyParser)
    ensures
        r.valid_chars@ == valid_chars@,
{
    AnyParser { valid_chars: slice_to_vec(valid_chars) }
}

} // verus!
