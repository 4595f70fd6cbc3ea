//! Repetition: apply a parser until it fails; never fails itself.

use vstd::prelude::*;
use vstd::string::StrSliceExecFns;

use crate::parser_combinator::continuation::ContinuationState;
use crate::parser_combinator::continuation::CursorView;
use crate::parser_combinator::parser::parse_bounds_ok;
use crate::parser_combinator::parser::ParseResult;
use crate::parser_combinator::parser::Parser;
use crate::parser_combinator::parser::SpecParseResult;
use crate::parser_combinator::token::Token;
use crate::parser_combinator::token::TokenView;

verus! {

/// The tokens produced by repeating `p` from `input` until it fails, and the
/// cursor after the last success.  A success that consumes nothing ends the
/// repetition (and is discarded), so the repetition always terminates.
pub open spec fn spec_many_items<P: Parser>(p: P, input: CursorView) -> (
    Seq<TokenView<P::Value>>,
    CursorView,
)
    decreases input.remaining.len(),
{
    match p.spec_parse(input) {
        Ok((t, c)) => {
            if c.remaining.len() < input.remaining.len() {
                let rest = spec_many_items(p, c);
                (seq![t] + rest.0, rest.1)
            } else {
                (Seq::empty(), input)
            }
        },
        Err(_) => (Seq::empty(), input),
    }
}

/// The repetition's final cursor is a suffix reached by consuming at least
/// one character per produced token.
pub proof fn lemma_many_items_bounds<P: Parser>(p: P, input: CursorView)
    requires
        p.wf(),
    ensures
        ({
            let (items, fin) = spec_many_items(p, input);
            &&& fin.remaining.len() <= input.remaining.len()
            &&& fin.remaining == input.remaining.skip(input.remaining.len() - fin.remaining.len())
            &&& fin.position == input.position + input.remaining.len() - fin.remaining.len()
            &&& items.len() <= input.remaining.len() - fin.remaining.len()
            &&& (input.wf() ==> fin.wf())
        }),
    decreases input.remaining.len(),
{
    p.lemma_parse_bounds(input);
    assert(input.remaining =~= input.remaining.skip(0));
    if let Ok((t, c)) = p.spec_parse(input) {
        if c.remaining.len() < input.remaining.len() {
            lemma_many_items_bounds(p, c);
            let fin = spec_many_items(p, c).1;
            assert(fin.remaining =~= input.remaining.skip(
                input.remaining.len() - fin.remaining.len(),
            ));
        }
    }
}

/// Applies the wrapped parser repeatedly until it fails; returns the
/// (possibly empty) sequence of tokens and the cursor after the last
/// success.  Never fails.  The token's length is the number of elements.
pub struct ManyParser<P> {
    pub parser: P,
}

impl<P: Parser> Parser for ManyParser<P> {
    type Value = Seq<TokenView<P::Value>>;

    type Output = Vec<Token<P::Output>>;

    open spec fn wf(&self) -> bool {
        self.parser.wf()
    }

    open spec fn spec_parse(&self, input: CursorView) -> SpecParseResult<Self::Value> {
        let (items, fin) = spec_many_items(self.parser, input);
        Ok((TokenView { value: items, start: input.position, length: items.len() as int }, fin))
    }

    proof fn lemma_parse_bounds(&self, input: CursorView) {
        lemma_many_items_bounds(self.parser, input);
    }

    fn parse<'a>(&self, input: ContinuationState<'a>) -> (r: ParseResult<'a, Self::Output>) {
        let mut results: Vec<Token<P::Output>> = Vec::new();
        let mut cont = input;
        loop
            invariant
                self.wf(),
                cont@.wf(),
                spec_many_items(self.parser, input@).0 == results.deep_view()
                    + spec_many_items(self.parser, cont@).0,
                spec_many_items(self.parser, input@).1 == spec_many_items(self.parser, cont@).1,
                input@.position <= cont@.position,
            ensures
                spec_many_items(self.parser, cont@).0 == Seq::<TokenView<P::Value>>::empty(),
                spec_many_items(self.parser, cont@).1 == cont@,
            decreases cont@.remaining.len(),
        {
            proof {
                self.parser.lemma_parse_bounds(cont@);
            }
            let len_before = cont.remaining.unicode_len();
            match self.parser.parse(cont) {
                Ok((token, state)) => {
                    let len_after = state.remaining.unicode_len();
                    if len_after < len_before {
                        let ghost old_results = results.deep_view();
                        let ghost step = spec_many_items(self.parser, cont@);
                        results.push(token);
                        proof {
                            assert(results.deep_view() =~= old_results.push(token.deep_view()));
                            assert(step.0 =~= seq![token.deep_view()] + spec_many_items(
                                self.parser,
                                state@,
                            ).0);
                            assert(old_results + step.0 =~= results.deep_view()
                                + spec_many_items(self.parser, state@).0);
                        }
                        cont = state;
                    } else {
                        break ;
                    }
                },
                Err(_) => {
                    break ;
                },
            }
        }
        let length = results.len();
        proof {
            assert(spec_many_items(self.parser, input@).0 =~= results.deep_view());
        }
        Ok((Token { value: results, start: input.position, length }, cont))
    }
}

/// Zero or more repetitions of `parser`; never fails.
pub fn pmany<P: Parser>(parser: P) -> (r: ManyParser<P>)
    ensures
        r == (ManyParser { parser }),
{
    ManyParser { parser }
}

} // verus!
