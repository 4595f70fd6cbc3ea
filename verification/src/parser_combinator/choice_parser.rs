//! Ordered alternation over any number of parsers.

use vstd::prelude::*;

use crate::parser_combinator::continuation::ContinuationState;
use crate::parser_combinator::continuation::CursorView;
use crate::parser_combinator::error::combine_error;
use crate::parser_combinator::error::spec_combine_error;
use crate::parser_combinator::parser::ParseResult;
use crate::parser_combinator::parser::Parser;
use crate::parser_combinator::parser::SpecParseResult;

verus! {

/// The result of trying `parsers` left to right against the same cursor:
/// the first success, or every failure folded together so the description
/// reads "A or B or C" while the text and position come from the last
/// alternative tried.
pub open spec fn spec_choice<P: Parser>(parsers: Seq<P>, input: CursorView) -> SpecParseResult<
    P::Value,
>
    decreases parsers.len(),
{
    if parsers.len() <= 1 {
        parsers[0].spec_parse(input)
    } else {
        match spec_choice(parsers.take(parsers.len() - 1), input) {
            Ok(r) => Ok(r),
            Err(e1) => match parsers[parsers.len() - 1].spec_parse(input) {
                Ok(r) => Ok(r),
                Err(e2) => Err(spec_combine_error(e1, e2)),
            },
        }
    }
}

/// Tries each parser in order against the same cursor; all must produce the
/// same kind of value.  Needs at least one alternative.
pub struct ChoiceParser<P> {
    pub parsers: Vec<P>,
}

impl<P: Parser> Parser for ChoiceParser<P> {
    type Value = P::Value;

    type Output = P::Output;

    open spec fn wf(&self) -> bool {
        &&& self.parsers@.len() > 0
        &&& forall|i: int| 0 <= i < self.parsers@.len() ==> (#[trigger] self.parsers@[i]).wf()
    }

    open spec fn spec_parse(&self, input: CursorView) -> SpecParseResult<Self::Value> {
        spec_choice(self.parsers@, input)
    }

    proof fn lemma_parse_bounds(&self, input: CursorView) {
        lemma_choice_bounds(self.parsers@, input);
    }

    fn parse<'a>(&self, input: ContinuationState<'a>) -> (r: ParseResult<'a, Self::Output>) {
        proof {
            assert(self.parsers@.take(1) =~= seq![self.parsers@[0]]);
        }
        let mut result = self.parsers[0].parse(input);
        let mut i: usize = 1;
        proof {
            lemma_choice_singleton(self.parsers@, input@);
        }
        while i < self.parsers.len()
            invariant
                1 <= i <= self.parsers@.len(),
                self.wf(),
                input@.wf(),
                result_matches_prefix(self.parsers@, input@, i as int, result),
            decreases self.parsers@.len() - i,
        {
            if result.is_err() {
                let ghost prev = result;
                let attempt = self.parsers[i].parse(input);
                result = match (result, attempt) {
                    (Err(e1), Ok(r2)) => Ok(r2),
                    (Err(e1), Err(e2)) => Err(combine_error(e1, e2)),
                    (Ok(r1), _) => Ok(r1),
                };
                proof {
                    lemma_choice_unfold(self.parsers@, input@, i as int + 1);
                }
            } else {
                proof {
                    lemma_choice_ok_stays(self.parsers@, input@, i as int);
                }
            }
            i = i + 1;
        }
        proof {
            assert(self.parsers@.take(self.parsers@.len() as int) =~= self.parsers@);
        }
        result
    }
}

/// The running result after trying the first `i` alternatives agrees with
/// the spec of the choice over that prefix.
spec fn result_matches_prefix<'a, P: Parser>(
    parsers: Seq<P>,
    input: CursorView,
    i: int,
    r: ParseResult<'a, P::Output>,
) -> bool {
    crate::parser_combinator::parser::parse_result_matches::<P::Output>(
        spec_choice(parsers.take(i), input),
        r,
    )
}

/// Unfolds the choice over a prefix by one more alternative.
proof fn lemma_choice_unfold<P: Parser>(parsers: Seq<P>, input: CursorView, i: int)
    requires
        2 <= i <= parsers.len(),
    ensures
        spec_choice(parsers.take(i), input) == (match spec_choice(parsers.take(i - 1), input) {
            Ok(r) => Ok(r),
            Err(e1) => match parsers[i - 1].spec_parse(input) {
                Ok(r) => Ok::<_, crate::parser_combinator::error::ErrorView>(r),
                Err(e2) => Err(spec_combine_error(e1, e2)),
            },
        }),
{
    assert(parsers.take(i).take(i - 1) =~= parsers.take(i - 1));
    assert(parsers.take(i)[i - 1] == parsers[i - 1]);
}

/// Once some alternative has succeeded, later ones change nothing.
proof fn lemma_choice_ok_stays<P: Parser>(parsers: Seq<P>, input: CursorView, i: int)
    requires
        1 <= i < parsers.len(),
        spec_choice(parsers.take(i), input) is Ok,
    ensures
        spec_choice(parsers.take(i + 1), input) == spec_choice(parsers.take(i), input),
{
    lemma_choice_unfold(parsers, input, i + 1);
}

proof fn lemma_choice_singleton<P: Parser>(parsers: Seq<P>, input: CursorView)
    requires
        parsers.len() >= 1,
    ensures
        spec_choice(parsers.take(1), input) == parsers[0].spec_parse(input),
{
    assert(parsers.take(1)[0] == parsers[0]);
}

/// Every alternative, and so the whole choice, obeys the parse bounds.
proof fn lemma_choice_bounds<P: Parser>(parsers: Seq<P>, input: CursorView)
    requires
        forall|i: int| 0 <= i < parsers.len() ==> (#[trigger] parsers[i]).wf(),
        parsers.len() >= 1,
    ensures
        crate::parser_combinator::parser::parse_bounds_ok(input, spec_choice(parsers, input)),
    decreases parsers.len(),
{
    if parsers.len() == 1 {
        parsers[0].lemma_parse_bounds(input);
    } else {
        let prefix = parsers.take(parsers.len() - 1);
        assert(forall|i: int| 0 <= i < prefix.len() ==> (#[trigger] prefix[i]).wf());
        lemma_choice_bounds(prefix, input);
        parsers[parsers.len() - 1].lemma_parse_bounds(input);
    }
}

/// A parser that tries each of `parsers` in order; there must be at least
/// one.
pub fn pchoice<P: Parser>(parsers: Vec<P>) -> (r: ChoiceParser<P>)
    ensures
        r == (ChoiceParser { parsers }),
{
    ChoiceParser { parsers }
}

} // verus!
