//! Scan-ahead: skip characters until another parser matches.

use vstd::prelude::*;
use vstd::string::StrSliceExecFns;

use crate::parser_combinator::char_parser::CharParser;
use crate::parser_combinator::continuation::advances;
use crate::parser_combinator::continuation::col_after;
use crate::parser_combinator::continuation::newline_count;
use crate::parser_combinator::continuation::ContinuationState;
use crate::parser_combinator::continuation::CursorView;
use crate::parser_combinator::parser::ParseResult;
use crate::parser_combinator::parser::Parser;
use crate::parser_combinator::parser::SpecParseResult;
use crate::parser_combinator::token::Token;
use crate::parser_combinator::token::TokenView;

verus! {

/// Scanning from `start`, currently at `cur`: when `until` matches at `cur`,
/// the result is the text from `start` up to (not including) `cur`, with the
/// cursor placed after `until`'s match.  Otherwise one character is skipped
/// (line-aware) and the scan goes on; at end of input the scan stops with
/// `until`'s own error there, so an unterminated scan is an error rather
/// than an endless search.
pub open spec fn spec_take_until<U: Parser>(
    until: U,
    start: CursorView,
    cur: CursorView,
) -> SpecParseResult<Seq<char>>
    decreases cur.remaining.len(),
{
    match until.spec_parse(cur) {
        Ok((_t, c2)) => Ok(
            (
                TokenView {
                    value: start.remaining.take(cur.position - start.position),
                    start: start.position,
                    length: cur.position - start.position,
                },
                c2,
            ),
        ),
        Err(e) => {
            if cur.remaining.len() == 0 {
                Err(e)
            } else {
                spec_take_until(until, start, cur.advanced(1, cur.remaining[0] == '\n'))
            }
        },
    }
}

/// Skips forward until the wrapped parser matches; the token holds the
/// skipped text, and the cursor ends up after the match.
pub struct TakeUntilParser<U> {
    pub until: U,
}

impl<U: Parser> Parser for TakeUntilParser<U> {
    type Value = Seq<char>;

    type Output = String;

    open spec fn wf(&self) -> bool {
        self.until.wf()
    }

    open spec fn spec_parse(&self, input: CursorView) -> SpecParseResult<Seq<char>> {
        spec_take_until(self.until, input, input)
    }

    proof fn lemma_parse_bounds(&self, input: CursorView) {
        assert(input.remaining =~= input.remaining.skip(0));
        lemma_take_until_bounds(self.until, input, input);
    }

    fn parse<'a>(&self, input: ContinuationState<'a>) -> (r: ParseResult<'a, String>) {
        let mut cur = input;
        loop
            invariant
                self.wf(),
                input@.wf(),
                cur@.wf(),
                input@.position <= cur@.position,
                cur@.position - input@.position <= input@.remaining.len(),
                cur@.remaining == input@.remaining.skip(cur@.position - input@.position),
                spec_take_until(self.until, input@, cur@) == spec_take_until(
                    self.until,
                    input@,
                    input@,
                ),
            decreases cur@.remaining.len(),
        {
            proof {
                self.until.lemma_parse_bounds(cur@);
            }
            match self.until.parse(cur) {
                Ok((_t, c2)) => {
                    let len = cur.position - input.position;
                    let text = input.remaining.substring_char(0, len).to_owned();
                    proof {
                        assert(text@ =~= input@.remaining.take(len as int));
                    }
                    return Ok((Token { value: text, start: input.position, length: len }, c2));
                },
                Err(e) => {
                    if cur.remaining.is_empty() {
                        return Err(e);
                    }
                    let c0 = cur.remaining.get_char(0);
                    let ghost prev = cur@;
                    cur = cur.advance(1, c0 == '\n');
                    proof {
                        assert(cur@.remaining =~= input@.remaining.skip(
                            cur@.position - input@.position,
                        ));
                    }
                },
            }
        }
    }
}

/// The scan's result token covers exactly the skipped region, and the final
/// cursor lies after it.
proof fn lemma_take_until_bounds<U: Parser>(until: U, start: CursorView, cur: CursorView)
    requires
        until.wf(),
        start.position <= cur.position,
        cur.position - start.position <= start.remaining.len(),
        cur.remaining == start.remaining.skip(cur.position - start.position),
        start.wf() ==> cur.wf(),
    ensures
        crate::parser_combinator::parser::parse_bounds_ok(
            start,
            spec_take_until(until, start, cur),
        ),
    decreases cur.remaining.len(),
{
    until.lemma_parse_bounds(cur);
    match until.spec_parse(cur) {
        Ok((_t, c2)) => {
            assert(c2.remaining =~= start.remaining.skip(
                start.remaining.len() - c2.remaining.len(),
            ));
        },
        Err(_) => {
            if cur.remaining.len() > 0 {
                let next = cur.advanced(1, cur.remaining[0] == '\n');
                assert(next.remaining =~= start.remaining.skip(next.position - start.position));
                lemma_take_until_bounds(until, start, next);
            }
        },
    }
}

/// The index of the first occurrence of `q` in `s`, or the length of `s`
/// when it never occurs.
pub open spec fn first_occurrence(s: Seq<char>, q: char) -> nat
    decreases s.len(),
{
    if s.len() == 0 {
        0
    } else if s[0] == q {
        0
    } else {
        1 + first_occurrence(s.skip(1), q)
    }
}

/// The first occurrence lies inside the text exactly when the character
/// occurs at all.
pub proof fn lemma_first_occurrence_bound(s: Seq<char>, q: char)
    ensures
        first_occurrence(s, q) <= s.len(),
        s.contains(q) <==> first_occurrence(s, q) < s.len(),
        first_occurrence(s, q) < s.len() ==> s[first_occurrence(s, q) as int] == q,
        forall|j: int| 0 <= j < first_occurrence(s, q) ==> s[j] != q,
    decreases s.len(),
{
    if s.len() == 0 {
    } else if s[0] == q {
    } else {
        lemma_first_occurrence_bound(s.skip(1), q);
        let i = first_occurrence(s, q);
        if s.contains(q) {
            let w = choose|w: int| 0 <= w < s.len() && s[w] == q;
            assert(s.skip(1)[w - 1] == q);
            assert(s.skip(1).contains(q));
        }
        if first_occurrence(s.skip(1), q) < s.skip(1).len() {
            assert(s[i as int] == s.skip(1)[i - 1]);
        }
        assert forall|j: int| 0 <= j < i implies s[j] != q by {
            if j > 0 {
                assert(s.skip(1)[j - 1] != q);
            }
        }
    }
}

/// Scanning for a single character succeeds exactly when that character
/// still occurs; the token then holds the text before its first occurrence,
/// the cursor ends up just past it with the line and column following every
/// line break in the consumed text, and an exhausted scan reports the
/// character with nothing as the actual text, at the end of the input.
pub proof fn lemma_take_until_char(q: char, input: CursorView)
    ensures
        spec_take_until((CharParser { value: q }), input, input) is Ok <==> input.remaining.contains(
            q,
        ),
        spec_take_until((CharParser { value: q }), input, input) matches Ok((t, c)) ==> ({
            let i = first_occurrence(input.remaining, q);
            &&& t.value == input.remaining.take(i as int)
            &&& t.start == input.position
            &&& t.length == i
            &&& c.remaining == input.remaining.skip(i + 1 as int)
            &&& c.position == input.position + i + 1
            &&& c.line_number == input.line_number + newline_count(input.remaining.take(i + 1 as int))
            &&& c.line_position == col_after(input.line_position, input.remaining.take(i + 1 as int))
        }),
        spec_take_until((CharParser { value: q }), input, input) matches Err(e) ==> e
            == (crate::parser_combinator::error::ErrorView {
            expected: crate::parser_combinator::error::ExpectedView::Char(q),
            actual: Seq::empty(),
            position: input.position + input.remaining.len(),
            line_number: input.line_number + newline_count(input.remaining),
            line_position: col_after(input.line_position, input.remaining),
        }),
{
    assert(input.remaining =~= input.remaining.skip(0));
    lemma_take_until_char_rec(q, input, input);
}

proof fn lemma_take_until_char_rec(q: char, start: CursorView, cur: CursorView)
    requires
        advances(start, cur),
    ensures
        spec_take_until((CharParser { value: q }), start, cur) is Ok <==> cur.remaining.contains(q),
        spec_take_until((CharParser { value: q }), start, cur) matches Ok((t, c)) ==> ({
            let i = first_occurrence(cur.remaining, q);
            let k = cur.position - start.position;
            &&& t.value == start.remaining.take(k + i)
            &&& t.start == start.position
            &&& t.length == k + i
            &&& c.remaining == cur.remaining.skip(i + 1 as int)
            &&& c.position == cur.position + i + 1
            &&& c.line_number == cur.line_number + newline_count(cur.remaining.take(i + 1 as int))
            &&& c.line_position == col_after(cur.line_position, cur.remaining.take(i + 1 as int))
        }),
        spec_take_until((CharParser { value: q }), start, cur) matches Err(e) ==> e
            == (crate::parser_combinator::error::ErrorView {
            expected: crate::parser_combinator::error::ExpectedView::Char(q),
            actual: Seq::empty(),
            position: cur.position + cur.remaining.len(),
            line_number: cur.line_number + newline_count(cur.remaining),
            line_position: col_after(cur.line_position, cur.remaining),
        }),
    decreases cur.remaining.len(),
{
    let p = CharParser { value: q };
    lemma_first_occurrence_bound(cur.remaining, q);
    if cur.remaining.len() == 0 {
        assert(cur.remaining.take(0) =~= Seq::<char>::empty());
    } else if cur.remaining[0] == q {
        assert(cur.remaining.contains(q));
        assert(cur.advanced(1, q == '\n').remaining =~= cur.remaining.skip(1));
        assert(cur.remaining.take(1)[0] == q);
        assert(cur.remaining.take(1).skip(1) =~= Seq::<char>::empty());
        assert(newline_count(Seq::<char>::empty()) == 0);
        assert(col_after(
            if q == '\n' {
                0int
            } else {
                cur.line_position + 1
            },
            Seq::<char>::empty(),
        ) == (if q == '\n' {
            0int
        } else {
            cur.line_position + 1
        }));
        assert(newline_count(cur.remaining.take(1)) == (if q == '\n' {
            1nat
        } else {
            0nat
        }));
        assert(col_after(cur.line_position, cur.remaining.take(1)) == (if q == '\n' {
            0int
        } else {
            cur.line_position + 1
        }));
    } else {
        let c2 = cur.advanced(1, cur.remaining[0] == '\n');
        assert(c2.remaining =~= start.remaining.skip(start.remaining.len() - c2.remaining.len()));
        lemma_take_until_char_rec(q, start, c2);
        if cur.remaining.contains(q) {
            let w = choose|w: int| 0 <= w < cur.remaining.len() && cur.remaining[w] == q;
            assert(cur.remaining.skip(1)[w - 1] == q);
            assert(c2.remaining.contains(q));
        }
        if c2.remaining.contains(q) {
            let w = choose|w: int| 0 <= w < c2.remaining.len() && c2.remaining[w] == q;
            assert(cur.remaining[w + 1] == q);
            assert(cur.remaining.contains(q));
        }
        if let Ok((t, c)) = spec_take_until(p, start, c2) {
            lemma_first_occurrence_bound(c2.remaining, q);
            let i = first_occurrence(cur.remaining, q);
            let i2 = first_occurrence(c2.remaining, q);
            assert(i == 1 + i2);
            assert(c.remaining =~= cur.remaining.skip(i + 1 as int));
            assert(cur.remaining.take(i + 1 as int)[0] == cur.remaining[0]);
            assert(cur.remaining.take(i + 1 as int).skip(1) =~= c2.remaining.take(i2 + 1 as int));
            assert(newline_count(cur.remaining.take(i + 1 as int)) == (if cur.remaining[0] == '\n' {
                1nat
            } else {
                0nat
            }) + newline_count(c2.remaining.take(i2 + 1 as int)));
            assert(col_after(cur.line_position, cur.remaining.take(i + 1 as int)) == col_after(
                c2.line_position,
                c2.remaining.take(i2 + 1 as int),
            ));
        } else {
            assert(cur.remaining.skip(1) =~= c2.remaining);
        }
    }
}

/// Scans forward until `until` matches; yields the skipped text.
pub fn ptake_until<U: Parser>(until: U) -> (r: TakeUntilParser<U>)
    ensures
        r == (TakeUntilParser { until }),
{
    TakeUntilParser { until }
}

} // verus!
