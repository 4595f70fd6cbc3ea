//! Separated list: `p (sep p)*`, with no trailing separator allowed.

use core::marker::PhantomData;

use vstd::prelude::*;
use vstd::string::StrSliceExecFns;

use crate::parser_combinator::continuation::ContinuationState;
use crate::parser_combinator::continuation::CursorView;
use crate::parser_combinator::left_parser::LeftParser;
use crate::parser_combinator::many_parser::lemma_many_items_bounds;
use crate::parser_combinator::many_parser::spec_many_items;
use crate::parser_combinator::parser::ParseResult;
use crate::parser_combinator::parser::Parser;
use crate::parser_combinator::parser::SpecParseResult;
use crate::parser_combinator::then_parser::ThenParser;
use crate::parser_combinator::token::Token;
use crate::parser_combinator::token::TokenView;

verus! {

/// Parses `p (sep p)*`: zero or more `p`-then-`sep` steps, then one
/// mandatory trailing `p`.  Each step keeps only `p`'s token.  Input that
/// ends right after a separator fails with `p`'s error at that position:
/// trailing separators are not permitted.  The token starts where the list
/// starts and spans through the end of its last element's token.
pub struct SepByParser<P, S> {
    pub parser: P,
    pub separator: S,
}

/// The element-then-separator step of a separated list, keeping the
/// element's token.
pub open spec fn sep_by_step<P: Parser, S: Parser>(p: P, s: S) -> LeftParser<
    P::Output,
    S::Output,
    ThenParser<P, S>,
> {
    LeftParser { parser: ThenParser { parser1: p, parser2: s }, _phantom: PhantomData }
}

impl<P: Parser, S: Parser> Parser for SepByParser<P, S> {
    type Value = Seq<TokenView<P::Value>>;

    type Output = Vec<Token<P::Output>>;

    open spec fn wf(&self) -> bool {
        self.parser.wf() && self.separator.wf()
    }

    open spec fn spec_parse(&self, input: CursorView) -> SpecParseResult<Self::Value> {
        let step = sep_by_step(self.parser, self.separator);
        let items = spec_many_items(step, input);
        match self.parser.spec_parse(items.1) {
            Ok((t, c2)) => Ok(
                (
                    TokenView {
                        value: items.0.push(t),
                        start: input.position,
                        length: t.start + t.length - input.position,
                    },
                    c2,
                ),
            ),
            Err(e) => Err(e),
        }
    }

    proof fn lemma_parse_bounds(&self, input: CursorView) {
        let step = sep_by_step(self.parser, self.separator);
        lemma_sep_by_step_wf(self.parser, self.separator);
        lemma_many_items_bounds(step, input);
        let fin = spec_many_items(step, input).1;
        self.parser.lemma_parse_bounds(fin);
        if let Ok((_t, c2)) = self.parser.spec_parse(fin) {
            assert(c2.remaining =~= input.remaining.skip(
                input.remaining.len() - c2.remaining.len(),
            ));
        }
    }

    fn parse<'a>(&self, input: ContinuationState<'a>) -> (r: ParseResult<'a, Self::Output>) {
        let ghost step = sep_by_step(self.parser, self.separator);
        proof {
            lemma_sep_by_step_wf(self.parser, self.separator);
        }
        let mut results: Vec<Token<P::Output>> = Vec::new();
        let mut cont = input;
        loop
            invariant
                self.wf(),
                step == sep_by_step(self.parser, self.separator),
                cont@.wf(),
                input@.position <= cont@.position,
                spec_many_items(step, input@).0 == results.deep_view() + spec_many_items(
                    step,
                    cont@,
                ).0,
                spec_many_items(step, input@).1 == spec_many_items(step, cont@).1,
            ensures
                spec_many_items(step, cont@).0 == Seq::<TokenView<P::Value>>::empty(),
                spec_many_items(step, cont@).1 == cont@,
            decreases cont@.remaining.len(),
        {
            proof {
                self.parser.lemma_parse_bounds(cont@);
            }
            let len_before = cont.remaining.unicode_len();
            match self.parser.parse(cont) {
                Ok((t_elem, c_mid)) => {
                    proof {
                        self.separator.lemma_parse_bounds(c_mid@);
                    }
                    match self.separator.parse(c_mid) {
                        Ok((_t_sep, c_after)) => {
                            let len_after = c_after.remaining.unicode_len();
                            if len_after < len_before {
                                let ghost old_results = results.deep_view();
                                let ghost before = spec_many_items(step, cont@);
                                results.push(t_elem);
                                proof {
                                    assert(results.deep_view() =~= old_results.push(
                                        t_elem.deep_view(),
                                    ));
                                    assert(before.0 =~= seq![t_elem.deep_view()]
                                        + spec_many_items(step, c_after@).0);
                                    assert(old_results + before.0 =~= results.deep_view()
                                        + spec_many_items(step, c_after@).0);
                                }
                                cont = c_after;
                            } else {
                                break ;
                            }
                        },
                        Err(_) => {
                            break ;
                        },
                    }
                },
                Err(_) => {
                    break ;
                },
            }
        }
        proof {
            self.parser.lemma_parse_bounds(cont@);
        }
        match self.parser.parse(cont) {
            Ok((t_last, c2)) => {
                let ghost old_results = results.deep_view();
                let length = t_last.start + t_last.length - input.position;
                results.push(t_last);
                proof {
                    assert(results.deep_view() =~= old_results.push(t_last.deep_view()));
                    assert(spec_many_items(step, input@).0 =~= old_results);
                }
                Ok((Token { value: results, start: input.position, length }, c2))
            },
            Err(e) => Err(e),
        }
    }
}

/// The element-then-separator step of a well-formed separated list is itself
/// well-formed.
proof fn lemma_sep_by_step_wf<P: Parser, S: Parser>(p: P, s: S)
    requires
        p.wf(),
        s.wf(),
    ensures
        sep_by_step(p, s).wf(),
{
    let inner = ThenParser { parser1: p, parser2: s };
    assert forall|input: CursorView|
        #[trigger] crate::parser_combinator::parser::pair_within_bounds(
            input,
            inner.spec_parse(input),
        ) by {
        crate::parser_combinator::then_parser::lemma_then_pair_within_bounds(inner, input);
    }
}

/// A parser for `parser (separator parser)*`, keeping the element tokens.
pub fn psepby<P: Parser, S: Parser>(parser: P, separator: S) -> (r: SepByParser<P, S>)
    ensures
        r == (SepByParser { parser, separator }),
{
    SepByParser { parser, separator }
}

} // verus!
