//! The toy language's grammar productions, written as ordinary clients of
//! the combinator engine by recursive descent.  The leaf productions state
//! exactly when they succeed and what they produce; the mutually recursive
//! grammar rules promise the engine's boundary guarantees: on success the
//! cursor has consumed a prefix of the input, the token's span lies inside
//! it, and the counters keep their headroom.

use vstd::prelude::*;
use vstd::string::StrSliceExecFns;
use vstd::string::StringExecFns;

use crate::parser_combinator::continuation::advances;
use crate::parser_combinator::continuation::col_after;
use crate::parser_combinator::continuation::lemma_no_line_break_run;
use crate::parser_combinator::continuation::newline_count;
use crate::parser_combinator::continuation::lemma_advances_trans;
use crate::parser_combinator::continuation::ContinuationState;
use crate::parser_combinator::continuation::CursorView;
use crate::parser_combinator::error::combine_error;
use crate::parser_combinator::error::Error;
use crate::parser_combinator::error::ErrorView;
use crate::parser_combinator::error::Expected;
use crate::parser_combinator::error::ExpectedView;
use crate::parser_combinator::any_range_parser::char_in_range;
use crate::parser_combinator::any_range_parser::pany_range;
use crate::parser_combinator::any_range_parser::AnyRangeParser;
use crate::parser_combinator::char_parser::CharParser;
use crate::parser_combinator::many_parser::spec_many_items;
use crate::parser_combinator::many_parser::ManyParser;
use crate::parser_combinator::or_parser::OrParser;
use crate::parser_combinator::char_parser::pchar;
use crate::parser_combinator::many_parser::pmany;
use crate::parser_combinator::parser::Combining;
use crate::parser_combinator::parser::ParseResult;
use crate::parser_combinator::parser::Parser;
use crate::parser_combinator::error::spec_combine_error;
use crate::parser_combinator::string_parser::lemma_pstring_matches_prefix;
use crate::parser_combinator::string_parser::pstring;
use crate::parser_combinator::string_parser::spec_pstring;
use crate::parser_combinator::take_until_parser::first_occurrence;
use crate::parser_combinator::take_until_parser::lemma_take_until_char;
use crate::parser_combinator::take_until_parser::ptake_until;
use crate::parser_combinator::then_parser::pthen;
use crate::parser_combinator::token::Token;
use crate::parser_combinator::token::TokenView;
use crate::parser_combinator::whitespace_parser::is_whitespace_char;
use crate::parser_combinator::whitespace_parser::pws;
use crate::parser_combinator::whitespace_parser::WhitespaceParser;
use crate::untyped_language::ast::Expr;
use crate::untyped_language::ast::ExprOrStatement;
use crate::untyped_language::ast::Fun;
use crate::untyped_language::ast::Parameter;
use crate::untyped_language::ast::Statement;
use crate::untyped_language::ast::Value;

verus! {

/// The engine's boundary guarantee, seen on an executable result: success
/// consumes a prefix, the token's span lies inside it, and the new cursor
/// keeps its counter headroom.
pub open spec fn client_ok_bounds<'a, O>(input: CursorView, r: ParseResult<'a, O>) -> bool {
    r matches Ok((t, c)) ==> {
        &&& advances(input, c@)
        &&& input.position <= t.start as int
        &&& t.start + t.length <= c@.position
        &&& c@.wf()
    }
}

/// Runs a combinator and surfaces the boundary guarantees on the executable
/// result.
fn run_parser<'a, P: Parser>(p: &P, input: ContinuationState<'a>) -> (r: ParseResult<
    'a,
    P::Output,
>)
    requires
        p.wf(),
        input@.wf(),
    ensures
        crate::parser_combinator::parser::parse_result_matches::<P::Output>(
            p.spec_parse(input@),
            r,
        ),
        client_ok_bounds(input@, r),
{
    proof {
        p.lemma_parse_bounds(input@);
    }
    let r = p.parse(input);
    proof {
        if r is Ok {
            let (t, c) = r->Ok_0;
            assert(t.deep_view().start == t.start as int);
            assert(t.deep_view().length == t.length as int);
        }
    }
    r
}

/// The number of whitespace characters at the front of `s`.
pub open spec fn ws_run_len(s: Seq<char>) -> nat
    decreases s.len(),
{
    if s.len() == 0 || !is_whitespace_char(s[0]) {
        0
    } else {
        1 + ws_run_len(s.skip(1))
    }
}

/// Repeating the whitespace parser consumes exactly the run of whitespace,
/// with the line and column following every line break in it.
proof fn lemma_ws_run(cur: CursorView)
    ensures
        ({
            let fin = spec_many_items(WhitespaceParser, cur).1;
            let run = cur.remaining.take(ws_run_len(cur.remaining) as int);
            &&& fin.position == cur.position + ws_run_len(cur.remaining)
            &&& fin.remaining == cur.remaining.skip(ws_run_len(cur.remaining) as int)
            &&& fin.line_number == cur.line_number + newline_count(run)
            &&& fin.line_position == col_after(cur.line_position, run)
        }),
    decreases cur.remaining.len(),
{
    let w = ws_run_len(cur.remaining) as int;
    let run = cur.remaining.take(w);
    if cur.remaining.len() > 0 && is_whitespace_char(cur.remaining[0]) {
        let c2 = cur.advanced(1, cur.remaining[0] == '\n');
        lemma_ws_run(c2);
        lemma_ws_run_len_bound(cur.remaining.skip(1));
        assert(cur.remaining.skip(1).skip(ws_run_len(cur.remaining.skip(1)) as int)
            =~= cur.remaining.skip(1 + ws_run_len(cur.remaining.skip(1)) as int));
        assert(run[0] == cur.remaining[0]);
        assert(run.skip(1) =~= c2.remaining.take(ws_run_len(c2.remaining) as int));
    } else {
        assert(cur.remaining =~= cur.remaining.skip(0));
        assert(run =~= Seq::<char>::empty());
    }
}

/// A run of whitespace is never longer than the text itself.
proof fn lemma_ws_run_len_bound(s: Seq<char>)
    ensures
        ws_run_len(s) <= s.len(),
    decreases s.len(),
{
    if s.len() > 0 && is_whitespace_char(s[0]) {
        lemma_ws_run_len_bound(s.skip(1));
    }
}

/// Consumes exactly the run of whitespace at the cursor.
fn skip_spaces<'a>(input: ContinuationState<'a>) -> (r: ContinuationState<'a>)
    requires
        input@.wf(),
    ensures
        advances(input@, r@),
        r@.wf(),
        r@.remaining == input@.remaining.skip(ws_run_len(input@.remaining) as int),
        r@.position == input@.position + ws_run_len(input@.remaining),
        r@.line_number == input@.line_number + newline_count(
            input@.remaining.take(ws_run_len(input@.remaining) as int),
        ),
        r@.line_position == col_after(
            input@.line_position,
            input@.remaining.take(ws_run_len(input@.remaining) as int),
        ),
{
    let p = pmany(pws());
    proof {
        p.lemma_parse_bounds(input@);
        lemma_ws_run(input@);
        assert(input@.remaining.skip(0) =~= input@.remaining);
    }
    match p.parse(input) {
        Ok((_t, c)) => c,
        // repetition never fails; the identity keeps the function total
        Err(_) => input,
    }
}

/// A decimal digit.
pub open spec fn is_digit(c: char) -> bool {
    char_in_range('0', '9', c)
}

/// The number of decimal digits at the front of `s`.
pub open spec fn digit_run_len(s: Seq<char>) -> nat
    decreases s.len(),
{
    if s.len() == 0 || !is_digit(s[0]) {
        0
    } else {
        1 + digit_run_len(s.skip(1))
    }
}

/// The numeric value of one digit character.
pub open spec fn digit_of(c: char) -> int {
    c as u32 - 0x30
}

/// The number written by a run of digits, most significant first.
pub open spec fn digits_value(s: Seq<char>) -> int
    decreases s.len(),
{
    if s.len() == 0 {
        0
    } else {
        digits_value(s.take(s.len() - 1)) * 10 + digit_of(s[s.len() - 1])
    }
}

/// `s` begins like an integer literal: an optional minus sign followed by
/// at least one digit.
pub open spec fn int_literal_shape(s: Seq<char>) -> bool {
    let ds: int = if s.len() > 0 && s[0] == '-' {
        1
    } else {
        0
    };
    ds < s.len() && is_digit(s[ds])
}

/// The count of characters the integer literal at the front of `s` covers.
pub open spec fn int_literal_len(s: Seq<char>) -> int {
    let ds: int = if s.len() > 0 && s[0] == '-' {
        1
    } else {
        0
    };
    ds + digit_run_len(s.skip(ds))
}

/// The signed value of the integer literal at the front of `s`.
pub open spec fn int_literal_value(s: Seq<char>) -> int {
    let ds: int = if s.len() > 0 && s[0] == '-' {
        1
    } else {
        0
    };
    let n = digit_run_len(s.skip(ds));
    let magnitude = digits_value(s.skip(ds).take(n as int));
    if ds == 1 {
        -magnitude
    } else {
        magnitude
    }
}

/// A run of digits is never longer than the text itself.
proof fn lemma_digit_run_len_bound(s: Seq<char>)
    ensures
        digit_run_len(s) <= s.len(),
        forall|j: int| 0 <= j < digit_run_len(s) ==> is_digit(s[j]),
    decreases s.len(),
{
    if s.len() > 0 && is_digit(s[0]) {
        lemma_digit_run_len_bound(s.skip(1));
        assert forall|j: int| 0 <= j < digit_run_len(s) implies is_digit(s[j]) by {
            if j > 0 {
                assert(is_digit(s.skip(1)[j - 1]));
            }
        }
    }
}

/// A number written in digits is never negative.
proof fn lemma_digits_value_nonneg(s: Seq<char>)
    requires
        forall|j: int| 0 <= j < s.len() ==> is_digit(#[trigger] s[j]),
    ensures
        digits_value(s) >= 0,
    decreases s.len(),
{
    if s.len() > 0 {
        assert(forall|j: int| 0 <= j < s.len() - 1 ==> is_digit(#[trigger] s.take(s.len() - 1)[j]));
        lemma_digits_value_nonneg(s.take(s.len() - 1));
    }
}

/// Repeating the digit parser consumes exactly the run of digits, one
/// single-character token per digit, crossing no line break.
proof fn lemma_digit_run(cur: CursorView)
    ensures
        ({
            let (items, fin) = spec_many_items((AnyRangeParser { lo: '0', hi: '9' }), cur);
            let n = digit_run_len(cur.remaining);
            &&& items.len() == n
            &&& forall|j: int|
                0 <= j < n ==> #[trigger] items[j] == (TokenView {
                    value: cur.remaining[j],
                    start: cur.position + j,
                    length: 1int,
                })
            &&& fin.position == cur.position + n
            &&& fin.remaining == cur.remaining.skip(n as int)
            &&& fin.line_number == cur.line_number
            &&& fin.line_position == cur.line_position + n
        }),
    decreases cur.remaining.len(),
{
    if cur.remaining.len() > 0 && is_digit(cur.remaining[0]) {
        assert(cur.remaining[0] != '\n');
        let c2 = cur.advanced(1, false);
        lemma_digit_run(c2);
        lemma_digit_run_len_bound(cur.remaining.skip(1));
        let n = digit_run_len(cur.remaining);
        assert(cur.remaining.skip(1).skip(digit_run_len(cur.remaining.skip(1)) as int)
            =~= cur.remaining.skip(n as int));
        let (items2, _fin2) = spec_many_items((AnyRangeParser { lo: '0', hi: '9' }), c2);
        let (items, _fin) = spec_many_items((AnyRangeParser { lo: '0', hi: '9' }), cur);
        assert forall|j: int|
            0 <= j < n implies #[trigger] items[j] == (TokenView {
                value: cur.remaining[j],
                start: cur.position + j,
                length: 1int,
            }) by {
            if j > 0 {
                assert(items[j] == items2[j - 1]);
                assert(c2.remaining[j - 1] == cur.remaining[j]);
            }
        }
    } else {
        assert(cur.remaining =~= cur.remaining.skip(0));
    }
}

/// Matches an integer literal: an optional minus sign followed by one or
/// more decimal digits.  A literal outside the 32-bit signed range is
/// rejected with an error rather than wrapped.
pub struct IntParser;

/// The error for an integer literal that does not fit in 32 bits.
fn int_range_error(input: ContinuationState<'_>) -> (r: Error)
    ensures
        r@ == (ErrorView {
            expected: ExpectedView::Str("integer"@),
            actual: Seq::empty(),
            position: input@.position,
            line_number: input@.line_number,
            line_position: input@.line_position,
        }),
{
    let r = Error {
        expected: Expected::String(String::from_str("integer")),
        actual: String::new(),
        position: input.position,
        line_number: input.line_number,
        line_position: input.line_position,
    };
    proof {
        assert(r@ =~= ErrorView {
            expected: ExpectedView::Str("integer"@),
            actual: Seq::empty(),
            position: input@.position,
            line_number: input@.line_number,
            line_position: input@.line_position,
        });
    }
    r
}

impl IntParser {
    pub fn parse<'a>(&self, input: ContinuationState<'a>) -> (r: ParseResult<'a, Value>)
        requires
            input@.wf(),
        ensures
            client_ok_bounds(input@, r),
            r is Ok <==> int_literal_shape(input@.remaining) && i32::MIN <= int_literal_value(
                input@.remaining,
            ) <= i32::MAX,
            r matches Ok((t, c)) ==> ({
                let n = int_literal_len(input@.remaining);
                &&& t.value matches Value::Number(v) && v as int == int_literal_value(
                    input@.remaining,
                )
                &&& t.start == input@.position
                &&& t.length == n
                &&& c@ == (CursorView {
                    remaining: input@.remaining.skip(n),
                    position: input@.position + n,
                    line_number: input@.line_number,
                    line_position: input@.line_position + n,
                })
            }),
            r matches Err(e) ==> e@ == (if int_literal_shape(input@.remaining) {
                ErrorView {
                    expected: ExpectedView::Str("integer"@),
                    actual: Seq::empty(),
                    position: input@.position,
                    line_number: input@.line_number,
                    line_position: input@.line_position,
                }
            } else {
                ({
                    let ds: int = if input@.remaining.len() > 0 && input@.remaining[0] == '-' {
                        1
                    } else {
                        0
                    };
                    ErrorView {
                        expected: ExpectedView::Str("1 or more"@),
                        actual: input@.remaining.skip(ds),
                        position: input@.position + ds,
                        line_number: input@.line_number,
                        line_position: input@.line_position + ds,
                    }
                })
            }),
    {
        let p = pthen(pchar('-').optional(), pany_range('0', '9').many1());
        let ghost has_minus = input@.remaining.len() > 0 && input@.remaining[0] == '-';
        let ghost ds: int = if has_minus {
            1
        } else {
            0
        };
        let ghost mid = if has_minus {
            input@.advanced(1, false)
        } else {
            input@
        };
        let ghost dchars = mid.remaining.take(digit_run_len(mid.remaining) as int);
        proof {
            lemma_digit_run(mid);
            lemma_digit_run_len_bound(mid.remaining);
            lemma_digits_value_nonneg(dchars);
            if has_minus {
                assert(mid.remaining =~= input@.remaining.skip(1));
            } else {
                assert(mid.remaining =~= input@.remaining.skip(0));
            }
            assert(mid.remaining.skip(digit_run_len(mid.remaining) as int) =~= input@.remaining.skip(
                ds + digit_run_len(mid.remaining),
            ));
        }
        let (tok, cur) = match run_parser(&p, input) {
            Ok(x) => x,
            Err(e) => {
                proof {
                    assert(digit_run_len(mid.remaining) == 0);
                    assert(!int_literal_shape(input@.remaining));
                    let fin = spec_many_items((AnyRangeParser { lo: '0', hi: '9' }), mid).1;
                    assert(mid.remaining.skip(0) =~= mid.remaining);
                    assert(fin =~= mid);
                }
                return Err(e);
            },
        };
        let (neg, digits) = tok.value;
        let ghost items = spec_many_items((AnyRangeParser { lo: '0', hi: '9' }), mid).0;
        proof {
            assert(int_literal_shape(input@.remaining));
            assert(has_minus <==> neg.value is Some);
            assert(int_literal_len(input@.remaining) == ds + digit_run_len(mid.remaining));
            assert(int_literal_value(input@.remaining) == (if has_minus {
                -digits_value(dchars)
            } else {
                digits_value(dchars)
            }));
            assert(digits.value.deep_view() == items);
            assert forall|j: int| 0 <= j < digits.value@.len() implies #[trigger] digits.value@[j].value
                == dchars[j] by {
                assert(digits.value@[j].deep_view() == items[j]);
            }
        }
        let mut acc: u64 = 0;
        let mut i: usize = 0;
        while i < digits.value.len()
            invariant
                i <= digits.value@.len(),
                digits.value@.len() == dchars.len(),
                forall|j: int| 0 <= j < dchars.len() ==> is_digit(#[trigger] dchars[j]),
                forall|j: int| 0 <= j < digits.value@.len() ==> #[trigger] digits.value@[j].value
                    == dchars[j],
                0 <= acc <= 10_000_000_000u64,
                acc as int == (if digits_value(dchars.take(i as int)) <= 10_000_000_000 {
                    digits_value(dchars.take(i as int))
                } else {
                    10_000_000_000int
                }),
            decreases digits.value@.len() - i,
        {
            let u = digits.value[i].value as u32;
            let d: u64 = if 0x30 <= u && u <= 0x39 {
                (u - 0x30) as u64
            } else {
                0
            };
            proof {
                assert(is_digit(dchars[i as int]));
                assert(d as int == digit_of(dchars[i as int]));
                assert(dchars.take(i + 1).take(i as int) =~= dchars.take(i as int));
                assert(dchars.take(i + 1)[i as int] == dchars[i as int]);
                assert(forall|j: int|
                    0 <= j < i ==> is_digit(#[trigger] dchars.take(i as int)[j]));
                lemma_digits_value_nonneg(dchars.take(i as int));
            }
            acc = acc * 10 + d;
            if acc > 10_000_000_000u64 {
                acc = 10_000_000_000u64;
            }
            i = i + 1;
        }
        proof {
            assert(dchars.take(dchars.len() as int) =~= dchars);
        }
        let ghost magnitude = digits_value(dchars);
        proof {
            if magnitude > 10_000_000_000 {
                assert(acc == 10_000_000_000u64);
            } else {
                assert(acc as int == magnitude);
            }
        }
        let number: i32 = match neg.value {
            Some(_) => {
                if acc > 0x8000_0000u64 {
                    proof {
                        assert(magnitude > 0x8000_0000);
                        assert(int_literal_value(input@.remaining) < i32::MIN);
                    }
                    return Err(int_range_error(input));
                }
                proof {
                    assert(acc as int == magnitude);
                }
                (-(acc as i64)) as i32
            },
            None => {
                if acc > 0x7FFF_FFFFu64 {
                    proof {
                        assert(magnitude > 0x7FFF_FFFF);
                        assert(int_literal_value(input@.remaining) > i32::MAX);
                    }
                    return Err(int_range_error(input));
                }
                proof {
                    assert(acc as int == magnitude);
                }
                acc as i32
            },
        };
        proof {
            assert(number as int == int_literal_value(input@.remaining));
        }
        Ok((Token { value: Value::Number(number), start: tok.start, length: tok.length }, cur))
    }
}

/// An integer literal parser.
pub fn pint() -> (r: IntParser)
    ensures
        r == IntParser,
{
    IntParser
}

/// `prefix` is what the text starts with.
pub open spec fn starts_with(s: Seq<char>, prefix: Seq<char>) -> bool {
    prefix.len() <= s.len() && s.take(prefix.len() as int) == prefix
}

/// Matches `true` or `false`.
pub struct BoolParser;

impl BoolParser {
    pub fn parse<'a>(&self, input: ContinuationState<'a>) -> (r: ParseResult<'a, Value>)
        requires
            input@.wf(),
        ensures
            client_ok_bounds(input@, r),
            r is Ok <==> starts_with(input@.remaining, "true"@) || starts_with(
                input@.remaining,
                "false"@,
            ),
            r matches Ok((t, c)) ==> ({
                let b = starts_with(input@.remaining, "true"@);
                let n: int = if b {
                    4
                } else {
                    5
                };
                &&& t.value == Value::Bool(b)
                &&& t.start == input@.position
                &&& t.length == n
                &&& c@.remaining == input@.remaining.skip(n)
                &&& c@.position == input@.position + n
                &&& c@.line_number == input@.line_number
                &&& c@.line_position == input@.line_position + n
            }),
            r matches Err(e) ==> e@ == spec_combine_error(
                spec_pstring("true"@, input@)->Err_0,
                spec_pstring("false"@, input@)->Err_0,
            ),
    {
        proof {
            reveal_strlit("true");
            reveal_strlit("false");
            lemma_pstring_matches_prefix("true"@, input@);
            lemma_pstring_matches_prefix("false"@, input@);
            assert(forall|j: int| 0 <= j < "true"@.len() ==> "true"@[j] != '\n');
            assert(forall|j: int| 0 <= j < "false"@.len() ==> "false"@[j] != '\n');
            lemma_no_line_break_run(input@.line_position, "true"@);
            lemma_no_line_break_run(input@.line_position, "false"@);
            if starts_with(input@.remaining, "true"@) && starts_with(input@.remaining, "false"@) {
                assert(input@.remaining.take(4)[0] == input@.remaining.take(5)[0]);
                assert(false);
            }
        }
        match run_parser(&pstring("true"), input) {
            Ok((t, cur)) => Ok(
                (Token { value: Value::Bool(true), start: t.start, length: t.length }, cur),
            ),
            Err(e1) => match run_parser(&pstring("false"), input) {
                Ok((t, cur)) => Ok(
                    (Token { value: Value::Bool(false), start: t.start, length: t.length }, cur),
                ),
                Err(e2) => Err(combine_error(e1, e2)),
            },
        }
    }
}

/// A boolean literal parser.
pub fn pbool() -> (r: BoolParser)
    ensures
        r == BoolParser,
{
    BoolParser
}

/// Matches a double-quoted string; the token holds the text between the
/// quotes and spans exactly that text.
pub struct QuotedStringParser;

impl QuotedStringParser {
    pub fn parse<'a>(&self, input: ContinuationState<'a>) -> (r: ParseResult<'a, Value>)
        requires
            input@.wf(),
        ensures
            client_ok_bounds(input@, r),
            r is Ok <==> input@.remaining.len() > 0 && input@.remaining[0] == '"'
                && input@.remaining.skip(1).contains('"'),
            r matches Ok((t, c)) ==> ({
                let i = first_occurrence(input@.remaining.skip(1), '"');
                &&& t.value matches Value::String(text) && text@ == input@.remaining.skip(1).take(
                    i as int,
                )
                &&& t.start == input@.position + 1
                &&& t.length == i
                &&& c@.remaining == input@.remaining.skip(i + 2 as int)
                &&& c@.position == input@.position + i + 2
                &&& c@.line_number == input@.line_number + newline_count(
                    input@.remaining.skip(1).take(i + 1 as int),
                )
                &&& c@.line_position == col_after(
                    input@.line_position + 1,
                    input@.remaining.skip(1).take(i + 1 as int),
                )
            }),
            r matches Err(e) ==> e@ == (if input@.remaining.len() > 0 && input@.remaining[0]
                == '"' {
                ErrorView {
                    expected: ExpectedView::Char('"'),
                    actual: Seq::empty(),
                    position: input@.position + input@.remaining.len(),
                    line_number: input@.line_number + newline_count(input@.remaining.skip(1)),
                    line_position: col_after(input@.line_position + 1, input@.remaining.skip(1)),
                }
            } else {
                ErrorView {
                    expected: ExpectedView::Char('"'),
                    actual: (if input@.remaining.len() > 0 {
                        seq![input@.remaining[0]]
                    } else {
                        Seq::empty()
                    }),
                    position: input@.position,
                    line_number: input@.line_number,
                    line_position: input@.line_position,
                }
            }),
    {
        let (_q, cur) = match run_parser(&pchar('"'), input) {
            Ok(x) => x,
            Err(e) => {
                proof {
                    lemma_take_until_char('"', input@.advanced(1, false));
                }
                return Err(e);
            },
        };
        proof {
            lemma_take_until_char('"', cur@);
            assert(cur@.remaining =~= input@.remaining.skip(1));
        }
        let (text, cur2) = match run_parser(&ptake_until(pchar('"')), cur) {
            Ok(x) => x,
            Err(e) => {
                return Err(e);
            },
        };
        proof {
            lemma_advances_trans(input@, cur@, cur2@);
            let i = first_occurrence(input@.remaining.skip(1), '"');
            assert(cur2@.remaining =~= input@.remaining.skip(i + 2 as int));
        }
        let start = text.start;
        let length = text.length;
        Ok((Token { value: Value::String(text.value), start, length }, cur2))
    }
}

/// A quoted string literal parser.
pub fn pquoted_string() -> (r: QuotedStringParser)
    ensures
        r == QuotedStringParser,
{
    QuotedStringParser
}

/// Matches any literal value: an integer, a boolean or a quoted string,
/// tried in that order.
pub struct ValueParser;

impl ValueParser {
    pub fn parse<'a>(&self, input: ContinuationState<'a>) -> (r: ParseResult<'a, Value>)
        requires
            input@.wf(),
        ensures
            client_ok_bounds(input@, r),
            r is Ok <==> (int_literal_shape(input@.remaining) && i32::MIN <= int_literal_value(
                input@.remaining,
            ) <= i32::MAX) || starts_with(input@.remaining, "true"@) || starts_with(
                input@.remaining,
                "false"@,
            ) || (input@.remaining.len() > 0 && input@.remaining[0] == '"'
                && input@.remaining.skip(1).contains('"')),
    {
        match IntParser.parse(input) {
            Ok(x) => Ok(x),
            Err(e1) => {
                let rest = match BoolParser.parse(input) {
                    Ok(x) => Ok(x),
                    Err(e2) => match QuotedStringParser.parse(input) {
                        Ok(x) => Ok(x),
                        Err(e3) => Err(combine_error(e2, e3)),
                    },
                };
                match rest {
                    Ok(x) => Ok(x),
                    Err(e23) => Err(combine_error(e1, e23)),
                }
            },
        }
    }
}

/// A literal value parser.
pub fn pvalue() -> (r: ValueParser)
    ensures
        r == ValueParser,
{
    ValueParser
}

/// A character that may start an identifier: a letter or an underscore.
pub open spec fn is_ident_start(c: char) -> bool {
    char_in_range('a', 'z', c) || char_in_range('A', 'Z', c) || c == '_'
}

/// A character that may continue an identifier: a letter, a digit or an
/// underscore.
pub open spec fn is_ident_char(c: char) -> bool {
    is_ident_start(c) || char_in_range('0', '9', c)
}

/// The number of identifier characters at the front of `s`.
pub open spec fn ident_run_len(s: Seq<char>) -> nat
    decreases s.len(),
{
    if s.len() == 0 || !is_ident_char(s[0]) {
        0
    } else {
        1 + ident_run_len(s.skip(1))
    }
}

/// The parser for one character that may continue an identifier.
pub open spec fn ident_rest_elem() -> OrParser<
    OrParser<OrParser<AnyRangeParser, AnyRangeParser>, AnyRangeParser>,
    CharParser,
> {
    OrParser {
        parser1: OrParser {
            parser1: OrParser {
                parser1: AnyRangeParser { lo: 'a', hi: 'z' },
                parser2: AnyRangeParser { lo: 'A', hi: 'Z' },
            },
            parser2: AnyRangeParser { lo: '0', hi: '9' },
        },
        parser2: CharParser { value: '_' },
    }
}

/// A run of identifier characters is never longer than the text itself.
proof fn lemma_ident_run_len_bound(s: Seq<char>)
    ensures
        ident_run_len(s) <= s.len(),
    decreases s.len(),
{
    if s.len() > 0 && is_ident_char(s[0]) {
        lemma_ident_run_len_bound(s.skip(1));
    }
}

/// Repeating the identifier-character parser consumes exactly the run of
/// identifier characters, one token each, crossing no line break.
proof fn lemma_ident_run(cur: CursorView)
    ensures
        ({
            let (items, fin) = spec_many_items(ident_rest_elem(), cur);
            &&& items.len() == ident_run_len(cur.remaining)
            &&& fin.position == cur.position + ident_run_len(cur.remaining)
            &&& fin.remaining == cur.remaining.skip(ident_run_len(cur.remaining) as int)
            &&& fin.line_number == cur.line_number
            &&& fin.line_position == cur.line_position + ident_run_len(cur.remaining)
        }),
    decreases cur.remaining.len(),
{
    let elem = ident_rest_elem();
    if cur.remaining.len() > 0 && is_ident_char(cur.remaining[0]) {
        assert(cur.remaining[0] != '\n');
        let c2 = cur.advanced(1, false);
        lemma_ident_run(c2);
        lemma_ident_run_len_bound(cur.remaining.skip(1));
        assert(cur.remaining.skip(1).skip(ident_run_len(cur.remaining.skip(1)) as int)
            =~= cur.remaining.skip(1 + ident_run_len(cur.remaining.skip(1)) as int));
    } else {
        assert(cur.remaining =~= cur.remaining.skip(0));
    }
}

/// Matches an identifier: a letter or underscore followed by any run of
/// letters, digits and underscores.
pub struct IdentifierParser;

impl IdentifierParser {
    pub fn parse<'a>(&self, input: ContinuationState<'a>) -> (r: ParseResult<'a, String>)
        requires
            input@.wf(),
        ensures
            client_ok_bounds(input@, r),
            r is Ok <==> input@.remaining.len() > 0 && is_ident_start(input@.remaining[0]),
            r matches Ok((t, c)) ==> ({
                let n = 1 + ident_run_len(input@.remaining.skip(1));
                &&& t.value@ == input@.remaining.take(n as int)
                &&& t.start == input@.position
                &&& t.length == n
                &&& c@ == (CursorView {
                    remaining: input@.remaining.skip(n as int),
                    position: input@.position + n,
                    line_number: input@.line_number,
                    line_position: input@.line_position + n,
                })
            }),
            r matches Err(e) ==> e@ == (ErrorView {
                expected: ExpectedView::Or(
                    Box::new(
                        ExpectedView::Or(
                            Box::new(ExpectedView::Range('a', 'z')),
                            Box::new(ExpectedView::Range('A', 'Z')),
                        ),
                    ),
                    Box::new(ExpectedView::Char('_')),
                ),
                actual: (if input@.remaining.len() > 0 {
                    seq![input@.remaining[0]]
                } else {
                    Seq::empty()
                }),
                position: input@.position,
                line_number: input@.line_number,
                line_position: input@.line_position,
            }),
    {
        let first = pany_range('a', 'z').or(pany_range('A', 'Z')).or(pchar('_'));
        let (ftok, cur1) = match run_parser(&first, input) {
            Ok(x) => x,
            Err(e) => {
                return Err(e);
            },
        };
        proof {
            assert(ftok.length as int == 1);
        }
        let rest = pmany(
            pany_range('a', 'z').or(pany_range('A', 'Z')).or(pany_range('0', '9')).or(pchar('_')),
        );
        let (rtok, cur2) = match run_parser(&rest, cur1) {
            Ok(x) => x,
            Err(e) => {
                return Err(e);
            },
        };
        proof {
            lemma_advances_trans(input@, cur1@, cur2@);
            assert(rest == (ManyParser { parser: ident_rest_elem() }));
            lemma_ident_run(cur1@);
            assert(input@.remaining[0] != '\n');
            assert(cur1@.remaining =~= input@.remaining.skip(1));
        }
        let delta = cur2.position - input.position;
        let text = input.remaining.substring_char(0, delta).to_owned();
        let length = rtok.start + rtok.length - ftok.start;
        proof {
            let n = 1 + ident_run_len(input@.remaining.skip(1));
            assert(cur2@.remaining =~= input@.remaining.skip(n as int));
        }
        Ok((Token { value: text, start: ftok.start, length }, cur2))
    }
}

/// An identifier parser.
pub fn pidentifier() -> (r: IdentifierParser)
    ensures
        r == IdentifierParser,
{
    IdentifierParser
}

/// Matches a statement terminator: a semicolon and any trailing whitespace.
pub struct TerminatorParser;

impl TerminatorParser {
    pub fn parse<'a>(&self, input: ContinuationState<'a>) -> (r: ParseResult<'a, ()>)
        requires
            input@.wf(),
        ensures
            client_ok_bounds(input@, r),
            r is Ok <==> input@.remaining.len() > 0 && input@.remaining[0] == ';',
            r matches Ok((t, c)) ==> ({
                let n = 1 + ws_run_len(input@.remaining.skip(1));
                let run = input@.remaining.skip(1).take(ws_run_len(input@.remaining.skip(1)) as int);
                &&& t.value == ()
                &&& t.start == input@.position
                &&& t.length == 1
                &&& c@.remaining == input@.remaining.skip(n as int)
                &&& c@.position == input@.position + n
                &&& c@.line_number == input@.line_number + newline_count(run)
                &&& c@.line_position == col_after(input@.line_position + 1, run)
            }),
            r matches Err(e) ==> e@ == (ErrorView {
                expected: ExpectedView::Char(';'),
                actual: (if input@.remaining.len() > 0 {
                    seq![input@.remaining[0]]
                } else {
                    Seq::empty()
                }),
                position: input@.position,
                line_number: input@.line_number,
                line_position: input@.line_position,
            }),
    {
        let (t, cur) = match run_parser(&pchar(';'), input) {
            Ok(x) => x,
            Err(e) => {
                return Err(e);
            },
        };
        let cur2 = skip_spaces(cur);
        proof {
            lemma_advances_trans(input@, cur@, cur2@);
            lemma_ws_run_len_bound(cur@.remaining);
            assert(cur@.remaining =~= input@.remaining.skip(1));
            assert(cur2@.remaining =~= input@.remaining.skip(
                1 + ws_run_len(input@.remaining.skip(1)) as int,
            ));
        }
        Ok((Token { value: (), start: t.start, length: t.length }, cur2))
    }
}

/// A terminator parser.
pub fn pterminator() -> (r: TerminatorParser)
    ensures
        r == TerminatorParser,
{
    TerminatorParser
}

/// The characters an identifier at the front of `s` covers.
pub open spec fn ident_token_len(s: Seq<char>) -> int {
    1 + ident_run_len(s.skip(1)) as int
}

/// Where a parameter's colon stands in `s`: after the name and the
/// whitespace that follows it.
pub open spec fn param_colon_at(s: Seq<char>) -> int {
    let n1 = ident_token_len(s);
    n1 + ws_run_len(s.skip(n1)) as int
}

/// Where a parameter's type name starts in `s`: after the colon and the
/// whitespace that follows it.
pub open spec fn param_type_at(s: Seq<char>) -> int {
    let c = param_colon_at(s);
    c + 1 + ws_run_len(s.skip(c + 1)) as int
}

/// `s` begins like a `name : type` parameter.
pub open spec fn param_shape(s: Seq<char>) -> bool {
    &&& s.len() > 0 && is_ident_start(s[0])
    &&& param_colon_at(s) < s.len() && s[param_colon_at(s)] == ':'
    &&& param_type_at(s) < s.len() && is_ident_start(s[param_type_at(s)])
}

/// Matches one `name : type` parameter, with whitespace around the colon and
/// after the type.
pub struct ParamParser;

impl ParamParser {
    pub fn parse<'a>(&self, input: ContinuationState<'a>) -> (r: ParseResult<'a, Parameter>)
        requires
            input@.wf(),
        ensures
            client_ok_bounds(input@, r),
            r is Ok <==> param_shape(input@.remaining),
            r matches Ok((t, c)) ==> ({
                let s = input@.remaining;
                let n1 = ident_token_len(s);
                let ca = param_colon_at(s);
                let ta = param_type_at(s);
                let n2 = ident_token_len(s.skip(ta));
                let end = ta + n2 + ws_run_len(s.skip(ta + n2)) as int;
                let run1 = s.skip(n1).take(ws_run_len(s.skip(n1)) as int);
                let run2 = s.skip(ca + 1).take(ws_run_len(s.skip(ca + 1)) as int);
                let run3 = s.skip(ta + n2).take(ws_run_len(s.skip(ta + n2)) as int);
                &&& t.value.0.value@ == s.take(n1)
                &&& t.value.0.start == input@.position
                &&& t.value.0.length == n1
                &&& t.value.1.value@ == s.skip(ta).take(n2)
                &&& t.value.1.start == input@.position + ta
                &&& t.value.1.length == n2
                &&& t.start == input@.position
                &&& t.length == ta + n2
                &&& c@.remaining == s.skip(end)
                &&& c@.position == input@.position + end
                &&& c@.line_number == input@.line_number + newline_count(run1) + newline_count(
                    run2,
                ) + newline_count(run3)
                &&& c@.line_position == col_after(
                    col_after(col_after(input@.line_position + n1, run1) + 1, run2) + n2,
                    run3,
                )
            }),
            r is Ok ==> r->Ok_0.1@.remaining.len() < input@.remaining.len(),
    {
        let ghost s = input@.remaining;
        let (name, cur) = match IdentifierParser.parse(input) {
            Ok(x) => x,
            Err(e) => {
                return Err(e);
            },
        };
        let cur1 = skip_spaces(cur);
        proof {
            lemma_advances_trans(input@, cur@, cur1@);
            assert(cur1@.remaining =~= s.skip(param_colon_at(s)));
        }
        let (_colon, cur2) = match run_parser(&pchar(':'), cur1) {
            Ok(x) => x,
            Err(e) => {
                proof {
                    if param_colon_at(s) < s.len() {
                        assert(s[param_colon_at(s)] == cur1@.remaining[0]);
                    }
                }
                return Err(e);
            },
        };
        let cur3 = skip_spaces(cur2);
        proof {
            lemma_advances_trans(input@, cur1@, cur2@);
            lemma_advances_trans(input@, cur2@, cur3@);
            assert(s[param_colon_at(s)] == cur1@.remaining[0]);
            assert(cur2@.remaining =~= s.skip(param_colon_at(s) + 1));
            assert(cur3@.remaining =~= s.skip(param_type_at(s)));
        }
        let (ty, cur4) = match IdentifierParser.parse(cur3) {
            Ok(x) => x,
            Err(e) => {
                return Err(e);
            },
        };
        let cur5 = skip_spaces(cur4);
        proof {
            lemma_advances_trans(input@, cur3@, cur4@);
            lemma_advances_trans(input@, cur4@, cur5@);
            let ta = param_type_at(s);
            let n2 = ident_token_len(s.skip(ta));
            assert(cur4@.remaining =~= s.skip(ta + n2));
            assert(cur5@.remaining =~= s.skip(ta + n2 + ws_run_len(s.skip(ta + n2)) as int));
            assert(name.value@ =~= s.take(ident_token_len(s)));
            assert(ty.value@ =~= s.skip(ta).take(n2));
        }
        let start = name.start;
        let length = ty.start + ty.length - name.start;
        Ok((Token { value: Parameter(name, ty), start, length }, cur5))
    }
}

/// A parameter parser.
pub fn pparam() -> (r: ParamParser)
    ensures
        r == ParamParser,
{
    ParamParser
}

/// Matches a parenthesised, comma-separated parameter list; the token holds
/// the parameters and spans from the first to the end of the last.
pub struct ParamsParser;

impl ParamsParser {
    pub fn parse<'a>(&self, input: ContinuationState<'a>) -> (r: ParseResult<
        'a,
        Vec<Token<Parameter>>,
    >)
        requires
            input@.wf(),
        ensures
            client_ok_bounds(input@, r),
    {
        let (_l, cur) = match run_parser(&pchar('('), input) {
            Ok(x) => x,
            Err(e) => {
                return Err(e);
            },
        };
        let list_start = skip_spaces(cur);
        proof {
            lemma_advances_trans(input@, cur@, list_start@);
        }
        let mut elems: Vec<Token<Parameter>> = Vec::new();
        let mut cur2 = list_start;
        proof {
            assert(list_start@.remaining.skip(0) =~= list_start@.remaining);
        }
        loop
            invariant
                input@.wf(),
                list_start@.wf(),
                cur2@.wf(),
                advances(input@, list_start@),
                advances(list_start@, cur2@),
            ensures
                cur2@.wf(),
                advances(list_start@, cur2@),
            decreases cur2@.remaining.len(),
        {
            match ParamParser.parse(cur2) {
                Ok((ptok, mid)) => {
                    match run_parser(&pchar(','), mid) {
                        Ok((_c, after0)) => {
                            let after = skip_spaces(after0);
                            if after.remaining.unicode_len() < cur2.remaining.unicode_len() {
                                proof {
                                    lemma_advances_trans(cur2@, mid@, after0@);
                                    lemma_advances_trans(cur2@, after0@, after@);
                                    lemma_advances_trans(list_start@, cur2@, after@);
                                }
                                elems.push(ptok);
                                cur2 = after;
                            } else {
                                break ;
                            }
                        },
                        Err(_) => {
                            break ;
                        },
                    }
                },
                Err(_) => {
                    break ;
                },
            }
        }
        let (last, cur3) = match ParamParser.parse(cur2) {
            Ok(x) => x,
            Err(e) => {
                return Err(e);
            },
        };
        proof {
            lemma_advances_trans(list_start@, cur2@, cur3@);
        }
        let t_start = list_start.position;
        let t_length = last.start + last.length - t_start;
        elems.push(last);
        let (_r, cur4) = match run_parser(&pchar(')'), cur3) {
            Ok(x) => x,
            Err(e) => {
                return Err(e);
            },
        };
        let cur5 = skip_spaces(cur4);
        proof {
            lemma_advances_trans(list_start@, cur3@, cur4@);
            lemma_advances_trans(list_start@, cur4@, cur5@);
            lemma_advances_trans(input@, list_start@, cur5@);
        }
        Ok((Token { value: elems, start: t_start, length: t_length }, cur5))
    }
}

/// A parameter list parser.
pub fn pparams() -> (r: ParamsParser)
    ensures
        r == ParamsParser,
{
    ParamsParser
}


/// Matches a range expression: `start .. end` with whitespace around the
/// dots.
pub struct RangeParser;

impl RangeParser {
    pub fn parse<'a>(&self, input: ContinuationState<'a>) -> (r: ParseResult<'a, Expr>)
        requires
            input@.wf(),
        ensures
            client_ok_bounds(input@, r),
        decreases input@.remaining.len(), 4int,
    {
        let (start_tok, cur) = match ExprParser.parse(input) {
            Ok(x) => x,
            Err(e) => {
                return Err(e);
            },
        };
        let cur1 = skip_spaces(cur);
        let (dots, cur2) = match run_parser(&pstring(".."), cur1) {
            Ok(x) => x,
            Err(e) => {
                return Err(e);
            },
        };
        let cur3 = skip_spaces(cur2);
        proof {
            lemma_advances_trans(input@, cur@, cur1@);
            lemma_advances_trans(input@, cur1@, cur2@);
            lemma_advances_trans(input@, cur2@, cur3@);
        }
        let (end_tok, cur4) = match ExprParser.parse(cur3) {
            Ok(x) => x,
            Err(e) => {
                return Err(e);
            },
        };
        let cur5 = skip_spaces(cur4);
        proof {
            lemma_advances_trans(input@, cur3@, cur4@);
            lemma_advances_trans(input@, cur4@, cur5@);
        }
        let t_start = start_tok.start;
        let t_length = end_tok.start + end_tok.length - start_tok.start;
        Ok(
            (
                Token {
                    value: Expr::Range(Box::new(start_tok), Box::new(end_tok)),
                    start: t_start,
                    length: t_length,
                },
                cur5,
            ),
        )
    }
}

/// A range expression parser.
pub fn prange() -> (r: RangeParser)
    ensures
        r == RangeParser,
{
    RangeParser
}

/// Matches a let binding: `let name = expression`.
pub struct LetParser;

impl LetParser {
    pub fn parse<'a>(&self, input: ContinuationState<'a>) -> (r: ParseResult<'a, Statement>)
        requires
            input@.wf(),
        ensures
            client_ok_bounds(input@, r),
        decreases input@.remaining.len(), 1int,
    {
        let (kw, cur) = match run_parser(&pstring("let"), input) {
            Ok(x) => x,
            Err(e) => {
                return Err(e);
            },
        };
        proof {
            reveal_strlit("let");
            assert(kw.length as int == 3);
        }
        let cur1 = skip_spaces(cur);
        proof {
            lemma_advances_trans(input@, cur@, cur1@);
        }
        let (name, cur2) = match IdentifierParser.parse(cur1) {
            Ok(x) => x,
            Err(e) => {
                return Err(e);
            },
        };
        let cur3 = skip_spaces(cur2);
        let (_eq, cur4) = match run_parser(&pchar('='), cur3) {
            Ok(x) => x,
            Err(e) => {
                return Err(e);
            },
        };
        let cur5 = skip_spaces(cur4);
        proof {
            lemma_advances_trans(input@, cur1@, cur2@);
            lemma_advances_trans(input@, cur2@, cur3@);
            lemma_advances_trans(input@, cur3@, cur4@);
            lemma_advances_trans(input@, cur4@, cur5@);
            assert(cur5@.remaining.len() < input@.remaining.len());
        }
        let (value_tok, cur6) = match ExprParser.parse(cur5) {
            Ok(x) => x,
            Err(e) => {
                return Err(e);
            },
        };
        let cur7 = skip_spaces(cur6);
        proof {
            lemma_advances_trans(input@, cur5@, cur6@);
            lemma_advances_trans(input@, cur6@, cur7@);
        }
        let t_start = name.start;
        let t_length = value_tok.start + value_tok.length - name.start;
        Ok((Token { value: Statement::Let(name, value_tok), start: t_start, length: t_length }, cur7))
    }
}

/// A let-binding parser.
pub fn plet() -> (r: LetParser)
    ensures
        r == LetParser,
{
    LetParser
}

/// Matches a for loop: `for name = range body`.
pub struct ForParser;

impl ForParser {
    pub fn parse<'a>(&self, input: ContinuationState<'a>) -> (r: ParseResult<'a, Statement>)
        requires
            input@.wf(),
        ensures
            client_ok_bounds(input@, r),
        decreases input@.remaining.len(), 5int,
    {
        let (_kw, cur) = match run_parser(&pstring("for"), input) {
            Ok(x) => x,
            Err(e) => {
                return Err(e);
            },
        };
        let cur1 = skip_spaces(cur);
        let (name, cur2) = match IdentifierParser.parse(cur1) {
            Ok(x) => x,
            Err(e) => {
                return Err(e);
            },
        };
        let cur3 = skip_spaces(cur2);
        let (_eq, cur4) = match run_parser(&pchar('='), cur3) {
            Ok(x) => x,
            Err(e) => {
                return Err(e);
            },
        };
        let cur5 = skip_spaces(cur4);
        proof {
            lemma_advances_trans(input@, cur@, cur1@);
            lemma_advances_trans(input@, cur1@, cur2@);
            lemma_advances_trans(input@, cur2@, cur3@);
            lemma_advances_trans(input@, cur3@, cur4@);
            lemma_advances_trans(input@, cur4@, cur5@);
        }
        let (range_tok, cur6) = match RangeParser.parse(cur5) {
            Ok(x) => x,
            Err(e) => {
                return Err(e);
            },
        };
        let cur7 = skip_spaces(cur6);
        proof {
            lemma_advances_trans(input@, cur5@, cur6@);
            lemma_advances_trans(input@, cur6@, cur7@);
        }
        let (body, cur8) = match BodyParser.parse(cur7) {
            Ok(x) => x,
            Err(e) => {
                return Err(e);
            },
        };
        let cur9 = skip_spaces(cur8);
        proof {
            lemma_advances_trans(input@, cur7@, cur8@);
            lemma_advances_trans(input@, cur8@, cur9@);
        }
        let t_start = name.start;
        let t_length = body.start + body.length - name.start;
        Ok(
            (
                Token {
                    value: Statement::For(name, range_tok, body.value),
                    start: t_start,
                    length: t_length,
                },
                cur9,
            ),
        )
    }
}

/// A for-loop parser.
pub fn pfor() -> (r: ForParser)
    ensures
        r == ForParser,
{
    ForParser
}

/// Matches a conditional: `if condition body`.
pub struct IfParser;

impl IfParser {
    pub fn parse<'a>(&self, input: ContinuationState<'a>) -> (r: ParseResult<'a, Expr>)
        requires
            input@.wf(),
        ensures
            client_ok_bounds(input@, r),
        decreases input@.remaining.len(), 1int,
    {
        let (kw, cur) = match run_parser(&pstring("if"), input) {
            Ok(x) => x,
            Err(e) => {
                return Err(e);
            },
        };
        proof {
            reveal_strlit("if");
            assert(kw.length as int == 2);
        }
        let cur1 = skip_spaces(cur);
        proof {
            lemma_advances_trans(input@, cur@, cur1@);
            assert(cur1@.remaining.len() < input@.remaining.len());
        }
        let (cond, cur2) = match ExprParser.parse(cur1) {
            Ok(x) => x,
            Err(e) => {
                return Err(e);
            },
        };
        let cur3 = skip_spaces(cur2);
        proof {
            lemma_advances_trans(input@, cur1@, cur2@);
            lemma_advances_trans(input@, cur2@, cur3@);
        }
        let (body, cur4) = match BodyParser.parse(cur3) {
            Ok(x) => x,
            Err(e) => {
                return Err(e);
            },
        };
        let cur5 = skip_spaces(cur4);
        proof {
            lemma_advances_trans(input@, cur3@, cur4@);
            lemma_advances_trans(input@, cur4@, cur5@);
        }
        let t_start = cond.start;
        let t_length = body.start + body.length - cond.start;
        Ok(
            (
                Token { value: Expr::If(Box::new(cond), body.value), start: t_start, length: t_length },
                cur5,
            ),
        )
    }
}

/// A conditional parser.
pub fn pif() -> (r: IfParser)
    ensures
        r == IfParser,
{
    IfParser
}

/// Matches a call: `name(argument, ...)` with at least one argument.
pub struct CallParser;

impl CallParser {
    pub fn parse<'a>(&self, input: ContinuationState<'a>) -> (r: ParseResult<'a, Expr>)
        requires
            input@.wf(),
        ensures
            client_ok_bounds(input@, r),
        decreases input@.remaining.len(), 1int,
    {
        let (name, cur) = match IdentifierParser.parse(input) {
            Ok(x) => x,
            Err(e) => {
                return Err(e);
            },
        };
        let cur1 = skip_spaces(cur);
        let (_l, cur2) = match run_parser(&pchar('('), cur1) {
            Ok(x) => x,
            Err(e) => {
                return Err(e);
            },
        };
        let list_start = skip_spaces(cur2);
        proof {
            lemma_advances_trans(input@, cur@, cur1@);
            lemma_advances_trans(input@, cur1@, cur2@);
            lemma_advances_trans(input@, cur2@, list_start@);
            assert(list_start@.remaining.len() < input@.remaining.len());
            assert(list_start@.remaining.skip(0) =~= list_start@.remaining);
        }
        let mut elems: Vec<Token<Expr>> = Vec::new();
        let mut cur3 = list_start;
        loop
            invariant
                input@.wf(),
                list_start@.wf(),
                cur3@.wf(),
                advances(input@, list_start@),
                advances(list_start@, cur3@),
                list_start@.remaining.len() < input@.remaining.len(),
            ensures
                cur3@.wf(),
                advances(list_start@, cur3@),
                list_start@.remaining.len() < input@.remaining.len(),
            decreases cur3@.remaining.len(),
        {
            match ExprParser.parse(cur3) {
                Ok((etok, mid)) => {
                    match run_parser(&pchar(','), mid) {
                        Ok((_c, after0)) => {
                            let after = skip_spaces(after0);
                            if after.remaining.unicode_len() < cur3.remaining.unicode_len() {
                                proof {
                                    lemma_advances_trans(cur3@, mid@, after0@);
                                    lemma_advances_trans(cur3@, after0@, after@);
                                    lemma_advances_trans(list_start@, cur3@, after@);
                                }
                                elems.push(etok);
                                cur3 = after;
                            } else {
                                break ;
                            }
                        },
                        Err(_) => {
                            break ;
                        },
                    }
                },
                Err(_) => {
                    break ;
                },
            }
        }
        let (last, cur4) = match ExprParser.parse(cur3) {
            Ok(x) => x,
            Err(e) => {
                return Err(e);
            },
        };
        proof {
            lemma_advances_trans(list_start@, cur3@, cur4@);
        }
        let args_start = list_start.position;
        let args_length = last.start + last.length - args_start;
        elems.push(last);
        let (_r, cur5) = match run_parser(&pchar(')'), cur4) {
            Ok(x) => x,
            Err(e) => {
                return Err(e);
            },
        };
        let cur6 = skip_spaces(cur5);
        proof {
            lemma_advances_trans(list_start@, cur4@, cur5@);
            lemma_advances_trans(list_start@, cur5@, cur6@);
            lemma_advances_trans(input@, list_start@, cur6@);
        }
        let t_start = name.start;
        let t_length = args_start + args_length - name.start;
        Ok((Token { value: Expr::Call(name, elems), start: t_start, length: t_length }, cur6))
    }
}

/// A call parser.
pub fn pcall() -> (r: CallParser)
    ensures
        r == CallParser,
{
    CallParser
}

/// Matches an expression: a literal value, a conditional, a call or an
/// identifier, tried in that order, with trailing whitespace consumed.
pub struct ExprParser;

impl ExprParser {
    pub fn parse<'a>(&self, input: ContinuationState<'a>) -> (r: ParseResult<'a, Expr>)
        requires
            input@.wf(),
        ensures
            client_ok_bounds(input@, r),
        decreases input@.remaining.len(), 3int,
    {
        let picked = match ValueParser.parse(input) {
            Ok((t, cur)) => {
                let s = t.start;
                let l = t.length;
                Ok((Token { value: Expr::Value(t.value), start: s, length: l }, cur))
            },
            Err(e1) => match IfParser.parse(input) {
                Ok(x) => Ok(x),
                Err(e2) => match CallParser.parse(input) {
                    Ok(x) => Ok(x),
                    Err(e3) => match IdentifierParser.parse(input) {
                        Ok((t, cur)) => {
                            let s = t.start;
                            let l = t.length;
                            Ok((Token { value: Expr::Ident(t.value), start: s, length: l }, cur))
                        },
                        Err(e4) => Err(
                            combine_error(e1, combine_error(e2, combine_error(e3, e4))),
                        ),
                    },
                },
            },
        };
        match picked {
            Ok((t, cur)) => {
                let cur2 = skip_spaces(cur);
                proof {
                    lemma_advances_trans(input@, cur@, cur2@);
                }
                Ok((t, cur2))
            },
            Err(e) => Err(e),
        }
    }
}

/// An expression parser.
pub fn pexpr() -> (r: ExprParser)
    ensures
        r == ExprParser,
{
    ExprParser
}

/// Matches a statement: a for loop or a let binding, with trailing
/// whitespace consumed.
pub struct StatementParser;

impl StatementParser {
    pub fn parse<'a>(&self, input: ContinuationState<'a>) -> (r: ParseResult<'a, Statement>)
        requires
            input@.wf(),
        ensures
            client_ok_bounds(input@, r),
        decreases input@.remaining.len(), 6int,
    {
        let picked = match ForParser.parse(input) {
            Ok(x) => Ok(x),
            Err(e1) => match LetParser.parse(input) {
                Ok(x) => Ok(x),
                Err(e2) => Err(combine_error(e1, e2)),
            },
        };
        match picked {
            Ok((t, cur)) => {
                let cur2 = skip_spaces(cur);
                proof {
                    lemma_advances_trans(input@, cur@, cur2@);
                }
                Ok((t, cur2))
            },
            Err(e) => Err(e),
        }
    }
}

/// A statement parser.
pub fn pstatement() -> (r: StatementParser)
    ensures
        r == StatementParser,
{
    StatementParser
}

/// Matches a braced body: one or more terminated statements or expressions
/// between `{` and `}`.
pub struct BodyParser;

impl BodyParser {
    pub fn parse<'a>(&self, input: ContinuationState<'a>) -> (r: ParseResult<
        'a,
        Vec<Token<ExprOrStatement>>,
    >)
        requires
            input@.wf(),
        ensures
            client_ok_bounds(input@, r),
        decreases input@.remaining.len(), 0int,
    {
        let (lb, cur) = match run_parser(&pchar('{'), input) {
            Ok(x) => x,
            Err(e) => {
                return Err(e);
            },
        };
        proof {
            assert(lb.length as int == 1);
        }
        let elems_start = skip_spaces(cur);
        proof {
            lemma_advances_trans(input@, cur@, elems_start@);
            assert(elems_start@.remaining.len() < input@.remaining.len());
            assert(elems_start@.remaining.skip(0) =~= elems_start@.remaining);
        }
        let mut elems: Vec<Token<ExprOrStatement>> = Vec::new();
        let mut cur2 = elems_start;
        loop
            invariant
                input@.wf(),
                elems_start@.wf(),
                cur2@.wf(),
                advances(input@, elems_start@),
                advances(elems_start@, cur2@),
                elems_start@.remaining.len() < input@.remaining.len(),
                elems@.len() <= elems_start@.remaining.len() - cur2@.remaining.len(),
            ensures
                cur2@.wf(),
                advances(elems_start@, cur2@),
                elems@.len() <= elems_start@.remaining.len() - cur2@.remaining.len(),
            decreases cur2@.remaining.len(),
        {
            let element = match StatementParser.parse(cur2) {
                Ok((t, c)) => {
                    let s = t.start;
                    let l = t.length;
                    Ok((
                        Token { value: ExprOrStatement::Statement(t.value), start: s, length: l },
                        c,
                    ))
                },
                Err(e1) => match ExprParser.parse(cur2) {
                    Ok((t, c)) => {
                        let s = t.start;
                        let l = t.length;
                        Ok((Token { value: ExprOrStatement::Expr(t.value), start: s, length: l }, c))
                    },
                    Err(e2) => Err(combine_error(e1, e2)),
                },
            };
            match element {
                Ok((etok, c1)) => {
                    match TerminatorParser.parse(c1) {
                        Ok((_t, c2)) => {
                            if c2.remaining.unicode_len() < cur2.remaining.unicode_len() {
                                proof {
                                    lemma_advances_trans(cur2@, c1@, c2@);
                                    lemma_advances_trans(elems_start@, cur2@, c2@);
                                }
                                elems.push(etok);
                                cur2 = c2;
                            } else {
                                break ;
                            }
                        },
                        Err(_) => {
                            break ;
                        },
                    }
                },
                Err(_) => {
                    break ;
                },
            }
        }
        if elems.len() == 0 {
            return Err(Error {
                expected: Expected::String(String::from_str("1 or more")),
                actual: cur2.remaining.to_owned(),
                position: elems_start.position,
                line_number: elems_start.line_number,
                line_position: elems_start.line_position,
            });
        }
        let count = elems.len();
        let (_rb, cur3) = match run_parser(&pchar('}'), cur2) {
            Ok(x) => x,
            Err(e) => {
                return Err(e);
            },
        };
        let cur4 = skip_spaces(cur3);
        proof {
            lemma_advances_trans(elems_start@, cur2@, cur3@);
            lemma_advances_trans(elems_start@, cur3@, cur4@);
            lemma_advances_trans(input@, elems_start@, cur4@);
        }
        Ok((Token { value: elems, start: elems_start.position, length: count }, cur4))
    }
}

/// A body parser.
pub fn pbody() -> (r: BodyParser)
    ensures
        r == BodyParser,
{
    BodyParser
}

/// Matches a function definition:
/// `fun name(params) -> type { body }`.
pub struct FunParser;

impl FunParser {
    pub fn parse<'a>(&self, input: ContinuationState<'a>) -> (r: ParseResult<'a, Fun>)
        requires
            input@.wf(),
        ensures
            client_ok_bounds(input@, r),
    {
        let (_kw, cur) = match run_parser(&pstring("fun"), input) {
            Ok(x) => x,
            Err(e) => {
                return Err(e);
            },
        };
        let cur1 = skip_spaces(cur);
        let (name, cur2) = match IdentifierParser.parse(cur1) {
            Ok(x) => x,
            Err(e) => {
                return Err(e);
            },
        };
        let cur3 = skip_spaces(cur2);
        let (params, cur4) = match ParamsParser.parse(cur3) {
            Ok(x) => x,
            Err(e) => {
                return Err(e);
            },
        };
        let cur5 = skip_spaces(cur4);
        let (_arrow, cur6) = match run_parser(&pstring("->"), cur5) {
            Ok(x) => x,
            Err(e) => {
                return Err(e);
            },
        };
        let cur7 = skip_spaces(cur6);
        let (ret, cur8) = match IdentifierParser.parse(cur7) {
            Ok(x) => x,
            Err(e) => {
                return Err(e);
            },
        };
        let cur9 = skip_spaces(cur8);
        proof {
            lemma_advances_trans(input@, cur@, cur1@);
            lemma_advances_trans(input@, cur1@, cur2@);
            lemma_advances_trans(input@, cur2@, cur3@);
            lemma_advances_trans(input@, cur3@, cur4@);
            lemma_advances_trans(input@, cur4@, cur5@);
            lemma_advances_trans(input@, cur5@, cur6@);
            lemma_advances_trans(input@, cur6@, cur7@);
            lemma_advances_trans(input@, cur7@, cur8@);
            lemma_advances_trans(input@, cur8@, cur9@);
        }
        let (body, cur10) = match BodyParser.parse(cur9) {
            Ok(x) => x,
            Err(e) => {
                return Err(e);
            },
        };
        proof {
            lemma_advances_trans(input@, cur9@, cur10@);
        }
        let t_start = name.start;
        let t_length = body.start + body.length - name.start;
        Ok(
            (
                Token {
                    value: Fun {
                        name,
                        params: params.value,
                        body: body.value,
                        return_type: ret,
                    },
                    start: t_start,
                    length: t_length,
                },
                cur10,
            ),
        )
    }
}

/// A function definition parser.
pub fn pfun() -> (r: FunParser)
    ensures
        r == FunParser,
{
    FunParser
}

} // verus!
