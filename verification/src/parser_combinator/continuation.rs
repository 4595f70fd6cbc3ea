//! The input cursor: an immutable view over the remaining input together
//! with the absolute offset, line number and column of the next character.

use vstd::prelude::*;
use vstd::string::StrSliceExecFns;

verus! {

/// Mathematical image of a cursor: the characters still to be read and the
/// absolute position, line number and column of the next character.
#[verifier::ext_equal]
pub struct CursorView {
    pub remaining: Seq<char>,
    pub position: int,
    pub line_number: int,
    pub line_position: int,
}

impl CursorView {
    /// Each counter can still grow by one step per remaining character
    /// without overflowing a machine word.
    pub open spec fn wf(self) -> bool {
        &&& 0 <= self.position && self.position + self.remaining.len() <= usize::MAX
        &&& 0 <= self.line_number && self.line_number + self.remaining.len() <= usize::MAX
        &&& 0 <= self.line_position && self.line_position + self.remaining.len() <= usize::MAX
    }

    /// The cursor after consuming `abs` characters; `new_line` says whether
    /// that step crossed a line break, which resets the column.
    pub open spec fn advanced(self, abs: int, new_line: bool) -> CursorView {
        CursorView {
            remaining: self.remaining.skip(abs),
            position: self.position + abs,
            line_number: if new_line {
                self.line_number + 1
            } else {
                self.line_number
            },
            line_position: if new_line {
                0
            } else {
                self.line_position + abs
            },
        }
    }
}

/// How many line breaks a stretch of consumed text holds.
pub open spec fn newline_count(s: Seq<char>) -> nat
    decreases s.len(),
{
    if s.len() == 0 {
        0
    } else {
        (if s[0] == '\n' {
            1nat
        } else {
            0nat
        }) + newline_count(s.skip(1))
    }
}

/// The column after consuming `s` one character at a time, starting from
/// column `col`: each line break resets it, every other character advances
/// it.
pub open spec fn col_after(col: int, s: Seq<char>) -> int
    decreases s.len(),
{
    if s.len() == 0 {
        col
    } else {
        col_after(
            if s[0] == '\n' {
                0
            } else {
                col + 1
            },
            s.skip(1),
        )
    }
}

/// Consuming text without a line break keeps the line and advances the
/// column by one per character.
pub proof fn lemma_no_line_break_run(col: int, s: Seq<char>)
    requires
        forall|j: int| 0 <= j < s.len() ==> s[j] != '\n',
    ensures
        newline_count(s) == 0,
        col_after(col, s) == col + s.len(),
    decreases s.len(),
{
    if s.len() > 0 {
        assert(forall|j: int| 0 <= j < s.skip(1).len() ==> s.skip(1)[j] != '\n');
        lemma_no_line_break_run(col + 1, s.skip(1));
    }
}

/// `b` is the cursor `a` after consuming some prefix: its remaining text is
/// the matching suffix and the offset has moved by exactly the consumed
/// count.
pub open spec fn advances(a: CursorView, b: CursorView) -> bool {
    &&& b.remaining.len() <= a.remaining.len()
    &&& b.remaining == a.remaining.skip(a.remaining.len() - b.remaining.len())
    &&& b.position == a.position + a.remaining.len() - b.remaining.len()
}

/// Consuming a prefix and then another prefix consumes a prefix.
pub proof fn lemma_advances_trans(a: CursorView, b: CursorView, c: CursorView)
    requires
        advances(a, b),
        advances(b, c),
    ensures
        advances(a, c),
{
    assert(c.remaining =~= a.remaining.skip(a.remaining.len() - c.remaining.len()));
}

/// Immutable positioned view over the remaining input.  Advancing produces a
/// new value; a failed parse leaves every existing cursor untouched.
#[derive(Debug, PartialEq, Clone, Copy)]
pub struct ContinuationState<'a> {
    pub remaining: &'a str,
    pub position: usize,
    pub line_number: usize,
    pub line_position: usize,
}

impl<'a> View for ContinuationState<'a> {
    type V = CursorView;

    open spec fn view(&self) -> CursorView {
        CursorView {
            remaining: self.remaining@,
            position: self.position as int,
            line_number: self.line_number as int,
            line_position: self.line_position as int,
        }
    }
}

impl<'a> ContinuationState<'a> {
    /// A cursor at the start of `input`: offset 0, line 0, column 0.
    pub fn new(input: &'a str) -> (r: Self)
        ensures
            r@ == (CursorView {
                remaining: input@,
                position: 0,
                line_number: 0,
                line_position: 0,
            }),
            r.remaining == input,
    {
        Self { remaining: input, position: 0, line_number: 0, line_position: 0 }
    }

    /// Consumes `abs` characters, keeping the offset, line and column in step.
    pub(crate) fn advance(self, abs: usize, new_line: bool) -> (r: Self)
        requires
            abs <= self@.remaining.len(),
            new_line ==> 1 <= abs,
            self@.wf(),
        ensures
            r@ == self@.advanced(abs as int, new_line),
            r@.wf(),
    {
        let len = self.remaining.unicode_len();
        let r = Self {
            remaining: self.remaining.substring_char(abs, len),
            position: self.position + abs,
            line_number: if new_line {
                self.line_number + 1
            } else {
                self.line_number
            },
            line_position: if new_line {
                0
            } else {
                self.line_position + abs
            },
        };
        proof {
            assert(r@.remaining =~= self@.advanced(abs as int, new_line).remaining);
            assert(r@ =~= self@.advanced(abs as int, new_line));
        }
        r
    }
}

impl<'a> From<&'a str> for ContinuationState<'a> {
    fn from(input: &'a str) -> (r: Self) {
        Self { remaining: input, position: 0, line_number: 0, line_position: 0 }
    }
}

impl<'a> vstd::std_specs::convert::FromSpecImpl<&'a str> for ContinuationState<'a> {
    open spec fn obeys_from_spec() -> bool {
        true
    }

    open spec fn from_spec(input: &'a str) -> Self {
        ContinuationState { remaining: input, position: 0, line_number: 0, line_position: 0 }
    }
}

} // verus!
