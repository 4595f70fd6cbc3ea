//! The engine's backtracking and span laws, stated and proved once for all
//! parsers.

use core::marker::PhantomData;

use vstd::prelude::*;

use crate::parser_combinator::at_least_one_parser::AtLeastOneParser;
use crate::parser_combinator::char_parser::spec_pchar;
use crate::parser_combinator::continuation::CursorView;
use crate::parser_combinator::error::spec_combine_error;
use crate::parser_combinator::error::ErrorView;
use crate::parser_combinator::many_parser::spec_many_items;
use crate::parser_combinator::many_parser::ManyParser;
use crate::parser_combinator::optional_parser::OptionalParser;
use crate::parser_combinator::or_parser::OrParser;
use crate::parser_combinator::parser::Parser;
use crate::parser_combinator::then_parser::ThenParser;
use crate::parser_combinator::token::TokenView;

verus! {

/// No progress on failure: a failed attempt yields only an error and no
/// cursor, so the alternation tries its second parser on the very cursor the
/// first one saw — position, line and column unchanged — and when both fail,
/// the combined error keeps the second attempt's text and position.
pub proof fn lemma_or_backtracks_to_original<P1: Parser, P2: Parser<
    Value = P1::Value,
    Output = P1::Output,
>>(p1: P1, p2: P2, input: CursorView)
    requires
        p1.spec_parse(input) is Err,
    ensures
        (OrParser { parser1: p1, parser2: p2 }).spec_parse(input) == (match p2.spec_parse(input) {
            Ok(r) => Ok(r),
            Err(e2) => Err(spec_combine_error(p1.spec_parse(input)->Err_0, e2)),
        }),
{
}

/// No progress on failure, for repetition: when an element attempt fails,
/// the repetition ends at the cursor after the last success, never at the
/// failed attempt's state.
pub proof fn lemma_many_stops_at_last_success<P: Parser>(p: P, input: CursorView)
    requires
        p.spec_parse(input) is Err,
    ensures
        spec_many_items(p, input) == (Seq::<TokenView<P::Value>>::empty(), input),
{
}

/// Optional never fails: it always returns `Ok`, and on the wrapped
/// parser's failure it returns `None` with the untouched cursor.
pub proof fn lemma_optional_never_fails<P: Parser>(p: P, input: CursorView)
    ensures
        (OptionalParser { parser: p }).spec_parse(input) is Ok,
        p.spec_parse(input) is Err ==> (OptionalParser { parser: p }).spec_parse(input)
            == Ok::<_, ErrorView>(
            (TokenView { value: None::<P::Value>, start: input.position, length: 0 }, input),
        ),
{
}

/// Repetition never fails: `many` returns `Ok` on every input.
pub proof fn lemma_many_never_fails<P: Parser>(p: P, input: CursorView)
    ensures
        (ManyParser { parser: p }).spec_parse(input) is Ok,
{
}

/// `many1` fails exactly when `many` produced zero tokens.
pub proof fn lemma_many1_err_iff_no_tokens<P: Parser>(p: P, input: CursorView)
    ensures
        ({
            let many1 = AtLeastOneParser::<ManyParser<P>, P::Output> {
                parser: (ManyParser { parser: p }),
                _phantom: PhantomData,
            };
            many1.spec_parse(input) is Err <==> spec_many_items(p, input).0.len() == 0
        }),
{
}

/// Span coverage: a successful sequence's token starts where the first
/// sub-token starts and its length is exactly the end of the second
/// sub-token minus that start, covering any gap between the two.
pub proof fn lemma_then_span_coverage<P1: Parser, P2: Parser>(
    p: ThenParser<P1, P2>,
    input: CursorView,
)
    ensures
        p.spec_parse(input) matches Ok((t, _c)) ==> {
            &&& t.start == t.value.0.start
            &&& t.length == (t.value.1.start + t.value.1.length) - t.value.0.start
        },
{
}

/// Round trip for the character matcher: on input `c` followed by `rest` it
/// produces the token `(c, 0, 1)` and a cursor holding `rest` at offset 1,
/// on the next line when `c` was a line break.
pub proof fn lemma_char_round_trip(c: char, rest: Seq<char>)
    ensures
        spec_pchar(
            c,
            CursorView {
                remaining: seq![c] + rest,
                position: 0,
                line_number: 0,
                line_position: 0,
            },
        ) == Ok::<_, ErrorView>(
            (
                TokenView { value: c, start: 0, length: 1 },
                CursorView {
                    remaining: rest,
                    position: 1,
                    line_number: if c == '\n' {
                        1int
                    } else {
                        0int
                    },
                    line_position: if c == '\n' {
                        0int
                    } else {
                        1int
                    },
                },
            ),
        ),
{
    let input = CursorView {
        remaining: seq![c] + rest,
        position: 0,
        line_number: 0,
        line_position: 0,
    };
    assert((seq![c] + rest)[0] == c);
    assert(input.advanced(1, c == '\n').remaining =~= rest);
    assert(input.advanced(1, c == '\n') =~= CursorView {
        remaining: rest,
        position: 1,
        line_number: if c == '\n' {
            1int
        } else {
            0int
        },
        line_position: if c == '\n' {
            0int
        } else {
            1int
        },
    });
}

} // verus!
