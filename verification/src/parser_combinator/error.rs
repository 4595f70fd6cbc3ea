//! The structured error model: what was expected, what was found, and where.

use vstd::prelude::*;
use vstd::string::StringExecFns;

verus! {

/// Mathematical image of an [`Expected`] description.
pub enum ExpectedView {
    Char(char),
    Str(Seq<char>),
    Any(Seq<char>),
    Range(char, char),
    Or(Box<ExpectedView>, Box<ExpectedView>),
}

/// A composable description of what a parser required: a literal character,
/// a literal string, one of a set of characters, a character range, or an
/// ordered alternative of two descriptions.
#[derive(Debug, PartialEq)]
pub enum Expected {
    Char(char),
    String(String),
    Any(Vec<char>),
    Range(char, char),
    Or(Box<Expected>, Box<Expected>),
}

pub open spec fn view_expected(e: Expected) -> ExpectedView
    decreases e,
{
    match e {
        Expected::Char(c) => ExpectedView::Char(c),
        Expected::String(s) => ExpectedView::Str(s@),
        Expected::Any(chars) => ExpectedView::Any(chars@),
        Expected::Range(lo, hi) => ExpectedView::Range(lo, hi),
        Expected::Or(lhs, rhs) => ExpectedView::Or(
            Box::new(view_expected(*lhs)),
            Box::new(view_expected(*rhs)),
        ),
    }
}

impl DeepView for Expected {
    type V = ExpectedView;

    open spec fn deep_view(&self) -> ExpectedView {
        view_expected(*self)
    }
}

/// Mathematical image of an [`Error`].
#[verifier::ext_equal]
pub struct ErrorView {
    pub expected: ExpectedView,
    pub actual: Seq<char>,
    pub position: int,
    pub line_number: int,
    pub line_position: int,
}

/// A match failure at a single input position: the description of what the
/// grammar required, the text that was actually found, and the absolute
/// offset, line and column of the failure point.
#[derive(Debug, PartialEq)]
pub struct Error {
    pub expected: Expected,
    pub actual: String,
    pub position: usize,
    pub line_number: usize,
    pub line_position: usize,
}

impl View for Error {
    type V = ErrorView;

    open spec fn view(&self) -> ErrorView {
        ErrorView {
            expected: self.expected.deep_view(),
            actual: self.actual@,
            position: self.position as int,
            line_number: self.line_number as int,
            line_position: self.line_position as int,
        }
    }
}

impl Error {
    pub fn new(
        expected: Expected,
        actual: String,
        position: usize,
        line_number: usize,
        line_position: usize,
    ) -> (r: Self)
        ensures
            r == (Error { expected, actual, position, line_number, line_position }),
    {
        Self { expected, actual, position, line_number, line_position }
    }
}

/// The combination of two alternatives' failures: expected either of the two
/// descriptions; the text and position are those of `error2`, the
/// later-tried alternative.
pub open spec fn spec_combine_error(e1: ErrorView, e2: ErrorView) -> ErrorView {
    ErrorView {
        expected: ExpectedView::Or(Box::new(e1.expected), Box::new(e2.expected)),
        actual: e2.actual,
        position: e2.position,
        line_number: e2.line_number,
        line_position: e2.line_position,
    }
}

/// Folds two failures into one, as used by ordered alternation.
pub fn combine_error(error1: Error, error2: Error) -> (r: Error)
    ensures
        r@ == spec_combine_error(error1@, error2@),
{
    Error {
        expected: Expected::Or(Box::new(error1.expected), Box::new(error2.expected)),
        actual: error2.actual,
        position: error2.position,
        line_number: error2.line_number,
        line_position: error2.line_position,
    }
}

/// The decimal digit character for `d`.
pub open spec fn spec_digit(d: int) -> char {
    if d == 0 {
        '0'
    } else if d == 1 {
        '1'
    } else if d == 2 {
        '2'
    } else if d == 3 {
        '3'
    } else if d == 4 {
        '4'
    } else if d == 5 {
        '5'
    } else if d == 6 {
        '6'
    } else if d == 7 {
        '7'
    } else if d == 8 {
        '8'
    } else {
        '9'
    }
}

/// The decimal rendering of a non-negative number.
pub open spec fn spec_decimal(n: int) -> Seq<char>
    decreases n,
{
    if n < 10 {
        seq![spec_digit(n)]
    } else {
        spec_decimal(n / 10).push(spec_digit(n % 10))
    }
}

fn digit_str(d: usize) -> (r: &'static str)
    requires
        d < 10,
    ensures
        r@ == seq![spec_digit(d as int)],
{
    proof {
        reveal_strlit("0");
        reveal_strlit("1");
        reveal_strlit("2");
        reveal_strlit("3");
        reveal_strlit("4");
        reveal_strlit("5");
        reveal_strlit("6");
        reveal_strlit("7");
        reveal_strlit("8");
        reveal_strlit("9");
    }
    match d {
        0 => "0",
        1 => "1",
        2 => "2",
        3 => "3",
        4 => "4",
        5 => "5",
        6 => "6",
        7 => "7",
        8 => "8",
        _ => "9",
    }
}

fn usize_to_string(n: usize) -> (r: String)
    ensures
        r@ == spec_decimal(n as int),
    decreases n,
{
    if n < 10 {
        digit_str(n).to_owned()
    } else {
        let rest = usize_to_string(n / 10);
        rest.concat(digit_str(n % 10))
    }
}

/// Relies on `char`'s `ToString`: the returned string consists of exactly
/// that character.
#[verifier::external_body]
fn char_to_string(c: char) -> (r: String)
    ensures
        r@ == seq![c],
{
    c.to_string()
}

/// The rendering of a set of characters: each member in order, the first
/// ones separated by a comma, the last one preceded by "or".
pub open spec fn spec_render_any(chars: Seq<char>) -> Seq<char>
    decreases chars.len(),
{
    if chars.len() == 0 {
        Seq::empty()
    } else if chars.len() == 1 {
        seq![chars[0]]
    } else if chars.len() == 2 {
        seq![chars[0]] + " or "@ + seq![chars[1]]
    } else {
        seq![chars[0]] + ", "@ + spec_render_any(chars.skip(1))
    }
}

/// The human rendering of an [`Expected`] description.
pub open spec fn spec_render(e: ExpectedView) -> Seq<char>
    decreases e,
{
    match e {
        ExpectedView::Char(c) => seq![c],
        ExpectedView::Str(s) => s,
        ExpectedView::Any(chars) => spec_render_any(chars),
        ExpectedView::Range(lo, hi) => "between '"@ + seq![lo] + "' and '"@ + seq![hi] + "'"@,
        ExpectedView::Or(lhs, rhs) => spec_render(*lhs) + " or "@ + spec_render(*rhs),
    }
}

impl Expected {
    /// Renders the description as text, e.g. `a, b or c` for a set.
    pub fn render(&self) -> (r: String)
        ensures
            r@ == spec_render(self.deep_view()),
        decreases *self,
    {
        proof {
            reveal_strlit(" or ");
            reveal_strlit(", ");
            reveal_strlit("between '");
            reveal_strlit("' and '");
            reveal_strlit("'");
        }
        match self {
            Expected::Char(c) => char_to_string(*c),
            Expected::String(s) => s.clone(),
            Expected::Any(chars) => {
                let s = render_any(chars, 0);
                proof {
                    assert(chars@.skip(0) =~= chars@);
                }
                s
            },
            Expected::Range(lo, hi) => {
                let mut s = String::from_str("between '");
                s.append(char_to_string(*lo).as_str());
                s.append("' and '");
                s.append(char_to_string(*hi).as_str());
                s.append("'");
                proof {
                    assert(s@ =~= spec_render(self.deep_view()));
                }
                s
            },
            Expected::Or(lhs, rhs) => {
                let mut s = lhs.render();
                s.append(" or ");
                s.append(rhs.render().as_str());
                proof {
                    assert(s@ =~= spec_render(self.deep_view()));
                }
                s
            },
        }
    }
}

fn render_any(chars: &Vec<char>, from: usize) -> (r: String)
    requires
        from <= chars@.len(),
    ensures
        r@ == spec_render_any(chars@.skip(from as int)),
    decreases chars@.len() - from,
{
    proof {
        reveal_strlit(" or ");
        reveal_strlit(", ");
    }
    if from == chars.len() {
        proof {
            assert(chars@.skip(from as int) =~= Seq::<char>::empty());
        }
        String::new()
    } else if from + 1 == chars.len() {
        proof {
            assert(chars@.skip(from as int) =~= seq![chars@[from as int]]);
        }
        char_to_string(chars[from])
    } else if from + 2 == chars.len() {
        let mut s = char_to_string(chars[from]);
        s.append(" or ");
        s.append(char_to_string(chars[from + 1]).as_str());
        proof {
            assert(chars@.skip(from as int) =~= seq![chars@[from as int], chars@[from as int + 1]]);
            assert(s@ =~= spec_render_any(chars@.skip(from as int)));
        }
        s
    } else {
        let mut s = char_to_string(chars[from]);
        s.append(", ");
        s.append(render_any(chars, from + 1).as_str());
        proof {
            assert(chars@.skip(from as int).skip(1) =~= chars@.skip(from as int + 1));
            assert(chars@.skip(from as int)[0] == chars@[from as int]);
            assert(s@ =~= spec_render_any(chars@.skip(from as int)));
        }
        s
    }
}

/// The user-facing message for an error: what was expected, what was found,
/// and the 1-based line and column of the failure point.
pub open spec fn spec_format_error(e: ErrorView) -> Seq<char> {
    "Expected "@ + spec_render(e.expected) + " but got "@ + e.actual + " at line: "@
        + spec_decimal(e.line_number + 1) + ", column: "@ + spec_decimal(e.line_position + 1)
}

impl Error {
    /// Renders the error as a human message with 1-based line and column.
    pub fn format_error(&self) -> (r: String)
        requires
            self.line_number < usize::MAX,
            self.line_position < usize::MAX,
        ensures
            r@ == spec_format_error(self@),
    {
        proof {
            reveal_strlit("Expected ");
            reveal_strlit(" but got ");
            reveal_strlit(" at line: ");
            reveal_strlit(", column: ");
        }
        let mut s = String::from_str("Expected ");
        s.append(self.expected.render().as_str());
        s.append(" but got ");
        s.append(self.actual.as_str());
        s.append(" at line: ");
        s.append(usize_to_string(self.line_number + 1).as_str());
        s.append(", column: ");
        s.append(usize_to_string(self.line_position + 1).as_str());
        proof {
            assert(s@ =~= spec_format_error(self@));
        }
        s
    }
}

} // verus!
