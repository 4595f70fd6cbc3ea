//! Literal string matcher.

use vstd::prelude::*;

use crate::parser_combinator::continuation::col_after;
use crate::parser_combinator::continuation::newline_count;
use vstd::string::StrSliceExecFns;
use vstd::string::StringExecFns;

use crate::parser_combinator::char_parser::pchar_impl;
use crate::parser_combinator::char_parser::spec_pchar;
use crate::parser_combinator::continuation::ContinuationState;
use crate::parser_combinator::continuation::CursorView;
use crate::parser_combinator::error::Error;
use crate::parser_combinator::error::ErrorView;
use crate::parser_combinator::error::Expected;
use crate::parser_combinator::error::ExpectedView;
use crate::parser_combinator::parser::ParseResult;
use crate::parser_combinator::parser::Parser;
use crate::parser_combinator::parser::SpecParseResult;
use crate::parser_combinator::token::Token;
use crate::parser_combinator::token::TokenView;

verus! {

/// The cursor after matching every character of `value` in order, or the
/// single-character error at the first mismatch.
pub open spec fn spec_pstring_rest(value: Seq<char>, cur: CursorView) -> Result<
    CursorView,
    ErrorView,
>
    decreases value.len(),
{
    if value.len() == 0 {
        Ok(cur)
    } else {
        match spec_pchar(value[0], cur) {
            Ok((_t, c2)) => spec_pstring_rest(value.skip(1), c2),
            Err(e) => Err(e),
        }
    }
}

/// What matching a literal string yields: on success, a token holding the
/// whole literal with its span; on a mismatch anywhere inside, an error that
/// names the whole literal and shows the input consumed by this attempt
/// through the mismatching character.
pub open spec fn spec_pstring(value: Seq<char>, input: CursorView) -> SpecParseResult<Seq<char>> {
    match spec_pstring_rest(value, input) {
        Ok(c2) => Ok(
            (
                TokenView { value, start: input.position, length: value.len() as int },
                c2,
            ),
        ),
        Err(e) => {
            let matched = e.position - input.position;
            Err(ErrorView {
                expected: ExpectedView::Str(value),
                actual: if matched + 1 <= input.remaining.len() {
                    input.remaining.take(matched + 1)
                } else {
                    input.remaining
                },
                position: e.position,
                line_number: e.line_number,
                line_position: e.line_position,
            })
        },
    }
}

/// Matches a literal string; the caller always backtracks to the position
/// before the whole attempt on failure.
pub struct StringParser {
    pub value: String,
}

impl Parser for StringParser {
    type Value = Seq<char>;

    type Output = String;

    open spec fn spec_parse(&self, input: CursorView) -> SpecParseResult<Seq<char>> {
        spec_pstring(self.value@, input)
    }

    proof fn lemma_parse_bounds(&self, input: CursorView) {
        lemma_pstring_rest_bounds(self.value@, input);
        assert(input.remaining =~= input.remaining.skip(0));
    }

    fn parse<'a>(&self, input: ContinuationState<'a>) -> (r: ParseResult<'a, String>) {
        let n = self.value.as_str().unicode_len();
        let mut i: usize = 0;
        let mut cont = input;
        let mut failure: Option<Error> = None;
        proof {
            assert(self.value@.skip(0) =~= self.value@);
            assert(input@.remaining.skip(0) =~= input@.remaining);
        }
        while i < n && failure.is_none()
            invariant
                i <= n,
                n == self.value@.len(),
                cont@.wf(),
                cont@.position == input@.position + i,
                cont@.remaining == input@.remaining.skip(i as int),
                cont@.remaining.len() == input@.remaining.len() - i,
                failure matches Option::None ==> spec_pstring_rest(self.value@, input@)
                    == spec_pstring_rest(self.value@.skip(i as int), cont@),
                failure matches Option::Some(e) ==> spec_pstring_rest(self.value@, input@)
                    == Err::<CursorView, ErrorView>(e@) && input@.position <= e@.position
                    && e@.position <= input@.position + input@.remaining.len(),
            decreases n - i, (if failure is None { 1int } else { 0int }),
        {
            let c = self.value.as_str().get_char(i);
            let ghost prev = cont@;
            match pchar_impl(c, cont) {
                Ok((_t, c2)) => {
                    proof {
                        assert(self.value@.skip(i as int)[0] == self.value@[i as int]);
                        assert(self.value@.skip(i as int).skip(1) =~= self.value@.skip(
                            i as int + 1,
                        ));
                        assert(prev.remaining.skip(1) =~= input@.remaining.skip(i as int + 1));
                    }
                    cont = c2;
                    i = i + 1;
                },
                Err(e) => {
                    proof {
                        assert(self.value@.skip(i as int)[0] == self.value@[i as int]);
                    }
                    failure = Some(e);
                },
            }
        }
        match failure {
            Some(e) => {
                let matched = e.position - input.position;
                let actual = if matched < input.remaining.unicode_len() {
                    input.remaining.substring_char(0, matched + 1).to_owned()
                } else {
                    input.remaining.to_owned()
                };
                let err = Error {
                    expected: Expected::String(self.value.clone()),
                    actual,
                    position: e.position,
                    line_number: e.line_number,
                    line_position: e.line_position,
                };
                proof {
                    assert(err@.actual =~= spec_pstring(self.value@, input@)->Err_0.actual);
                    assert(err@ =~= spec_pstring(self.value@, input@)->Err_0);
                }
                Err(err)
            },
            None => {
                proof {
                    assert(self.value@.skip(n as int) =~= Seq::<char>::empty());
                }
                Ok((Token { value: self.value.clone(), start: input.position, length: n }, cont))
            },
        }
    }
}

/// A successful string match consumes exactly the literal; a failure points
/// inside the attempted region.
pub proof fn lemma_pstring_rest_bounds(value: Seq<char>, cur: CursorView)
    ensures
        spec_pstring_rest(value, cur) matches Ok(c2) ==> {
            &&& c2.remaining.len() <= cur.remaining.len()
            &&& c2.remaining == cur.remaining.skip(cur.remaining.len() - c2.remaining.len())
            &&& c2.position == cur.position + cur.remaining.len() - c2.remaining.len()
            &&& cur.remaining.len() - c2.remaining.len() == value.len()
            &&& (cur.wf() ==> c2.wf())
        },
        spec_pstring_rest(value, cur) matches Err(e) ==> cur.position <= e.position
            <= cur.position + cur.remaining.len(),
    decreases value.len(),
{
    assert(cur.remaining =~= cur.remaining.skip(0));
    if value.len() > 0 {
        if let Ok((_t, c)) = spec_pchar(value[0], cur) {
            lemma_pstring_rest_bounds(value.skip(1), c);
            assert(c.remaining =~= cur.remaining.skip(1));
            if let Ok(c2) = spec_pstring_rest(value.skip(1), c) {
                assert(c2.remaining =~= cur.remaining.skip(
                    cur.remaining.len() - c2.remaining.len(),
                ));
            }
        }
    }
}

/// A string match succeeds exactly when the literal is a prefix of the
/// remaining input, and then consumes exactly the literal.
pub proof fn lemma_pstring_matches_prefix(value: Seq<char>, input: CursorView)
    ensures
        spec_pstring(value, input) is Ok <==> value.len() <= input.remaining.len()
            && input.remaining.take(value.len() as int) == value,
        spec_pstring(value, input) matches Ok((t, c)) ==> {
            &&& t.value == value
            &&& t.start == input.position
            &&& t.length == value.len()
            &&& c.remaining == input.remaining.skip(value.len() as int)
            &&& c.position == input.position + value.len()
            &&& c.line_number == input.line_number + newline_count(value)
            &&& c.line_position == col_after(input.line_position, value)
        },
{
    lemma_pstring_rest_prefix(value, input);
    lemma_pstring_rest_lines(value, input);
    if let Ok(c2) = spec_pstring_rest(value, input) {
        lemma_pstring_rest_bounds(value, input);
        assert(c2.remaining =~= input.remaining.skip(value.len() as int));
    }
}

/// Matching a literal advances the line and column through every character
/// of the literal.
proof fn lemma_pstring_rest_lines(value: Seq<char>, cur: CursorView)
    ensures
        spec_pstring_rest(value, cur) matches Ok(c2) ==> {
            &&& c2.line_number == cur.line_number + newline_count(value)
            &&& c2.line_position == col_after(cur.line_position, value)
        },
    decreases value.len(),
{
    if value.len() == 0 {
    } else {
        if cur.remaining.len() > 0 && cur.remaining[0] == value[0] {
            let c = cur.advanced(1, value[0] == '\n');
            lemma_pstring_rest_lines(value.skip(1), c);
        }
    }
}

proof fn lemma_pstring_rest_prefix(value: Seq<char>, cur: CursorView)
    ensures
        spec_pstring_rest(value, cur) is Ok <==> value.len() <= cur.remaining.len()
            && cur.remaining.take(value.len() as int) == value,
    decreases value.len(),
{
    if value.len() == 0 {
        assert(cur.remaining.take(0) =~= value);
    } else {
        if cur.remaining.len() > 0 && cur.remaining[0] == value[0] {
            let c2 = cur.advanced(1, value[0] == '\n');
            lemma_pstring_rest_prefix(value.skip(1), c2);
            if spec_pstring_rest(value, cur) is Ok {
                assert(cur.remaining.take(value.len() as int) =~= value) by {
                    assert forall|i: int| 0 <= i < value.len() implies cur.remaining.take(
                        value.len() as int,
                    )[i] == value[i] by {
                        if i > 0 {
                            assert(c2.remaining.take(value.len() - 1)[i - 1] == value.skip(1)[i
                                - 1]);
                        }
                    }
                }
            } else {
                if value.len() <= cur.remaining.len() && cur.remaining.take(value.len() as int)
                    == value {
                    assert(c2.remaining.take(value.len() - 1) =~= value.skip(1));
                }
            }
        } else {
            if value.len() <= cur.remaining.len() && cur.remaining.take(value.len() as int)
                == value {
                assert(cur.remaining.take(value.len() as int)[0] == value[0]);
            }
        }
    }
}

/// A parser that matches the literal string `value`.
pub fn pstring(value: &str) -> (r: StringParser)
    ensures
        r.value@ == value@,
{
    StringParser { value: String::from_str(value) }
}

} // verus!
