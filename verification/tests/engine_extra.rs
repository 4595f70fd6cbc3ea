use ngl::parser_combinator::pany_range;
use ngl::parser_combinator::parser_from_fn;
use ngl::parser_combinator::pchar;
use ngl::parser_combinator::psepby;
use ngl::parser_combinator::pstring;
use ngl::parser_combinator::pthen;
use ngl::parser_combinator::Combining;
use ngl::parser_combinator::Many;
use ngl::parser_combinator::Pair;
use ngl::parser_combinator::ContinuationState;
use ngl::parser_combinator::Error;
use ngl::parser_combinator::Expected;
use ngl::parser_combinator::ParseResult;
use ngl::parser_combinator::Parser;
use ngl::parser_combinator::Token;
use ngl::untyped_language::pbool;
use ngl::untyped_language::pexpr;
use ngl::untyped_language::pfun;
use ngl::untyped_language::pidentifier;
use ngl::untyped_language::pint;
use ngl::untyped_language::prange;
use ngl::untyped_language::pstatement;
use ngl::untyped_language::pterminator;
use ngl::untyped_language::pvalue;
use ngl::untyped_language::Expr;
use ngl::untyped_language::Value;

#[test]
fn render_char() {
    assert_eq!(Expected::Char('x').render(), "x".to_string());
}

#[test]
fn render_range() {
    assert_eq!(
        Expected::Range('a', 'z').render(),
        "between 'a' and 'z'".to_string()
    );
}

#[test]
fn render_larger_set() {
    assert_eq!(
        Expected::Any(vec!['a', 'b', 'c', 'd']).render(),
        "a, b, c or d".to_string()
    );
}

#[test]
fn format_error_is_one_based() {
    let error = Error::new(Expected::Char('a'), "b".to_string(), 5, 1, 2);
    assert_eq!(
        error.format_error(),
        "Expected a but got b at line: 2, column: 3".to_string()
    );
}

#[test]
fn any_range_success_and_failure() {
    let parser = pany_range('0', '9');
    let ok = parser.parse("7x".into());
    let expected_ok = Ok((
        Token {
            value: '7',
            start: 0,
            length: 1,
        },
        ContinuationState {
            remaining: "x",
            position: 1,
            line_number: 0,
            line_position: 1,
        },
    ));
    assert_eq!(ok, expected_ok);
    let err = parser.parse("x".into());
    let expected_err = Err(Error::new(
        Expected::Range('0', '9'),
        "x".to_string(),
        0,
        0,
        0,
    ));
    assert_eq!(err, expected_err);
}

#[test]
fn take_until_collects_skipped_text() {
    let parser = pchar('"').take_until();
    let result = parser.parse("abc\"rest".into());
    let expected = Ok((
        Token {
            value: "abc".to_string(),
            start: 0,
            length: 3,
        },
        ContinuationState {
            remaining: "rest",
            position: 4,
            line_number: 0,
            line_position: 4,
        },
    ));
    assert_eq!(result, expected);
}

#[test]
fn take_until_tracks_lines() {
    let parser = pchar('"').take_until();
    let result = parser.parse("a\nb\"x".into());
    let expected = Ok((
        Token {
            value: "a\nb".to_string(),
            start: 0,
            length: 3,
        },
        ContinuationState {
            remaining: "x",
            position: 4,
            line_number: 1,
            line_position: 2,
        },
    ));
    assert_eq!(result, expected);
}

#[test]
fn take_until_unterminated_is_an_error() {
    let parser = pchar('"').take_until();
    let result = parser.parse("abc".into());
    let expected = Err(Error::new(Expected::Char('"'), "".to_string(), 3, 0, 3));
    assert_eq!(result, expected);
}

#[test]
fn sep_by_single_element() {
    let parser = psepby(pchar('1'), pchar(','));
    let result = parser.parse("1".into());
    let expected = Ok((
        Token {
            value: vec![Token::new('1', 0, 1)],
            start: 0,
            length: 1,
        },
        ContinuationState {
            remaining: "",
            position: 1,
            line_number: 0,
            line_position: 1,
        },
    ));
    assert_eq!(result, expected);
}

#[test]
fn parser_from_fn_delegates() {
    fn always_x<'a>(input: ContinuationState<'a>) -> ParseResult<'a, char> {
        pchar('x').parse(input)
    }
    let parser = parser_from_fn(always_x);
    let result = parser.parse("xy".into());
    let expected = Ok((
        Token {
            value: 'x',
            start: 0,
            length: 1,
        },
        ContinuationState {
            remaining: "y",
            position: 1,
            line_number: 0,
            line_position: 1,
        },
    ));
    assert_eq!(result, expected);
}

#[test]
fn string_error_shows_partial_match() {
    let parser = pstring("ab");
    let result = parser.parse("ax".into());
    let expected = Err(Error::new(
        Expected::String("ab".to_string()),
        "ax".to_string(),
        1,
        0,
        1,
    ));
    assert_eq!(result, expected);
}

#[test]
fn bool_parses_both_literals() {
    let result_true = pbool().parse("true".into());
    assert_eq!(result_true.unwrap().0.value, Value::Bool(true));
    let result_false = pbool().parse("false".into());
    let (token, state) = result_false.unwrap();
    assert_eq!(token, Token::new(Value::Bool(false), 0, 5));
    assert_eq!(state.position, 5);
}

#[test]
fn bool_failure_names_both_literals() {
    let result = pbool().parse("x".into());
    let error = result.unwrap_err();
    assert_eq!(
        error.expected,
        Expected::Or(
            Box::new(Expected::String("true".to_string())),
            Box::new(Expected::String("false".to_string()))
        )
    );
    assert_eq!(error.actual, "x".to_string());
}

#[test]
fn int_boundaries() {
    let ok_max = pint().parse("2147483647".into());
    assert_eq!(ok_max.unwrap().0.value, Value::Number(2147483647));
    let ok_min = pint().parse("-2147483648".into());
    assert_eq!(ok_min.unwrap().0.value, Value::Number(-2147483648));
}

#[test]
fn int_out_of_range_is_an_error() {
    let too_big = pint().parse("2147483648".into());
    let error = too_big.unwrap_err();
    assert_eq!(error.expected, Expected::String("integer".to_string()));
    let way_too_big = pint().parse("999999999999999999".into());
    assert!(way_too_big.is_err());
}

#[test]
fn value_prefers_numbers() {
    let result = pvalue().parse("42".into());
    assert_eq!(result.unwrap().0.value, Value::Number(42));
}

#[test]
fn terminator_consumes_trailing_space() {
    let result = pterminator().parse("; x".into());
    let (token, state) = result.unwrap();
    assert_eq!(token, Token::new((), 0, 1));
    assert_eq!(state.remaining, "x");
    assert_eq!(state.position, 2);
}

#[test]
fn range_expression() {
    let result = prange().parse("0 .. 10".into());
    let (token, state) = result.unwrap();
    assert_eq!(
        token,
        Token::new(
            Expr::Range(
                Box::new(Token::new(Expr::Value(Value::Number(0)), 0, 1)),
                Box::new(Token::new(Expr::Value(Value::Number(10)), 5, 2)),
            ),
            0,
            7,
        )
    );
    assert_eq!(state.remaining, "");
}

#[test]
fn expression_parses_conditional() {
    let result = pexpr().parse("if true { call(1); }".into());
    let (token, state) = result.unwrap();
    assert_eq!(state.remaining, "");
    match token.value {
        Expr::If(cond, body) => {
            assert_eq!(cond.value, Expr::Value(Value::Bool(true)));
            assert_eq!(body.len(), 1);
        }
        other => panic!("expected a conditional, got {:?}", other),
    }
}

#[test]
fn statement_parses_for_loop() {
    let result = pstatement().parse("for i = 0 .. 10 { call(i); }".into());
    let (_token, state) = result.unwrap();
    assert_eq!(state.remaining, "");
}

#[test]
fn function_definition_parses() {
    let source = "fun name(param: type, param_x: type_x) -> unit {
            let x = 1;
            let str = \"hello\";
            call(x, param, function(param_x,4));
            for i = 0 .. 10 {
                call(i);
            };
        }";
    let result = pfun().parse(source.into());
    let (token, state) = result.unwrap();
    assert_eq!(state.remaining, "");
    assert_eq!(token.value.name.value, "name".to_string());
    assert_eq!(token.value.params.len(), 2);
    assert_eq!(token.value.return_type.value, "unit".to_string());
    assert_eq!(token.value.body.len(), 4);
}

#[test]
fn pair_projections_keep_one_token() {
    let left = pthen(pchar('a'), pchar('b')).left();
    let result = left.parse("ab".into());
    let (token, state) = result.unwrap();
    assert_eq!(token, Token::new('a', 0, 1));
    assert_eq!(state.position, 2);

    let right = pthen(pchar('a'), pchar('b')).right();
    let result = right.parse("ab".into());
    let (token, state) = result.unwrap();
    assert_eq!(token, Token::new('b', 1, 1));
    assert_eq!(state.position, 2);
}

#[test]
fn at_least_one_passes_nonempty() {
    let parser = pchar('a').many().at_least_one();
    let result = parser.parse("aab".into());
    let (token, state) = result.unwrap();
    assert_eq!(token.value.len(), 2);
    assert_eq!(state.remaining, "b");
}

#[test]
fn ws_consumes_trailing_whitespace() {
    let parser = pchar('a').ws();
    let result = parser.parse("a  b".into());
    let (token, state) = result.unwrap();
    assert_eq!(token, Token::new('a', 0, 1));
    assert_eq!(state.remaining, "b");
    assert_eq!(state.position, 3);
}

#[test]
fn identifier_stops_at_first_other_character() {
    let result = ngl::untyped_language::pidentifier().parse("ab-cd".into());
    let (token, state) = result.unwrap();
    assert_eq!(token, Token::new("ab".to_string(), 0, 2));
    assert_eq!(state.remaining, "-cd");
}

#[test]
fn quoted_string_may_span_lines() {
    let result = ngl::untyped_language::pquoted_string().parse("\"a\nb\"x".into());
    let (token, state) = result.unwrap();
    assert_eq!(token, Token::new(Value::String("a\nb".to_string()), 1, 3));
    assert_eq!(state.remaining, "x");
    assert_eq!(state.line_number, 1);
}

#[test]
fn int_leading_zeroes() {
    let result = pint().parse("007".into());
    let (token, _state) = result.unwrap();
    assert_eq!(token, Token::new(Value::Number(7), 0, 3));
    let result = pint().parse("-0".into());
    assert_eq!(result.unwrap().0.value, Value::Number(0));
}

#[test]
fn set_range_and_whitespace_report_nothing_at_eof() {
    let set_err = ngl::parser_combinator::pany(&['a', 'b']).parse("".into()).unwrap_err();
    assert_eq!(set_err.actual, "".to_string());
    let range_err = pany_range('0', '9').parse("".into()).unwrap_err();
    assert_eq!(range_err, Error::new(Expected::Range('0', '9'), "".to_string(), 0, 0, 0));
    let ws_err = ngl::parser_combinator::pws().parse("".into()).unwrap_err();
    assert_eq!(ws_err, Error::new(Expected::Char(' '), "".to_string(), 0, 0, 0));
}

#[test]
fn quoted_string_unterminated_is_an_error() {
    let result = ngl::untyped_language::pquoted_string().parse("\"abc".into());
    let expected = Err(Error::new(Expected::Char('"'), "".to_string(), 4, 0, 4));
    assert_eq!(result, expected);
}

#[test]
fn identifier_reports_nothing_at_eof() {
    let result = pidentifier().parse("".into());
    let expected = Err(Error::new(
        Expected::Or(
            Box::new(Expected::Or(
                Box::new(Expected::Range('a', 'z')),
                Box::new(Expected::Range('A', 'Z')),
            )),
            Box::new(Expected::Char('_')),
        ),
        "".to_string(),
        0,
        0,
        0,
    ));
    assert_eq!(result, expected);
}
