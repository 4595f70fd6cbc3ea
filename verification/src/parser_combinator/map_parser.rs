//! Value transformation preserving the span.

use core::marker::PhantomData;

use vstd::prelude::*;

use crate::parser_combinator::continuation::ContinuationState;
use crate::parser_combinator::continuation::CursorView;
use crate::parser_combinator::parser::ParseResult;
use crate::parser_combinator::parser::Parser;
use crate::parser_combinator::parser::SpecParseResult;
use crate::parser_combinator::token::Token;
use crate::parser_combinator::token::TokenView;

verus! {

/// The transform always accepts its argument and, seen through the views,
/// is deterministic: any two results on view-equal arguments are view-equal.
pub open spec fn map_fn_wf<I: DeepView, O: DeepView, F: Fn(I) -> O>(f: F) -> bool {
    &&& forall|v: I| #[trigger] call_requires(f, (v,))
    &&& forall|v1: I, v2: I, r1: O, r2: O|
        v1.deep_view() == v2.deep_view() && #[trigger] call_ensures(f, (v1,), r1)
            && #[trigger] call_ensures(f, (v2,), r2) ==> r1.deep_view() == r2.deep_view()
}

/// Some argument with view `v` can return a result with view `w`.
pub open spec fn map_rel<I: DeepView, O: DeepView, F: Fn(I) -> O>(f: F, v: I::V, w: O::V) -> bool {
    exists|ev: I, er: O|
        ev.deep_view() == v && er.deep_view() == w && #[trigger] call_ensures(f, (ev,), er)
}

/// The view of what the transform returns on an argument whose view is `v`.
/// Under [`map_fn_wf`] this is the view of every possible result.
pub open spec fn map_image<I: DeepView, O: DeepView, F: Fn(I) -> O>(f: F, v: I::V) -> O::V {
    choose|w: O::V| #[trigger] map_rel(f, v, w)
}

/// Runs the wrapped parser and applies `f` to the produced value, keeping
/// the original span; failure is passed through unchanged.
pub struct MapParser<P, F, O> {
    pub parser: P,
    pub f: F,
    pub _phantom: PhantomData<O>,
}

impl<P: Parser, O: DeepView, F: Fn(P::Output) -> O> Parser for MapParser<P, F, O> {
    type Value = O::V;

    type Output = O;

    open spec fn wf(&self) -> bool {
        &&& self.parser.wf()
        &&& map_fn_wf(self.f)
    }

    open spec fn spec_parse(&self, input: CursorView) -> SpecParseResult<Self::Value> {
        match self.parser.spec_parse(input) {
            Ok((t, c)) => Ok(
                (
                    TokenView {
                        value: map_image(self.f, t.value),
                        start: t.start,
                        length: t.length,
                    },
                    c,
                ),
            ),
            Err(e) => Err(e),
        }
    }

    proof fn lemma_parse_bounds(&self, input: CursorView) {
        self.parser.lemma_parse_bounds(input);
    }

    fn parse<'a>(&self, input: ContinuationState<'a>) -> (r: ParseResult<'a, Self::Output>) {
        match self.parser.parse(input) {
            Ok((token, state)) => {
                let ghost tv = token.value.deep_view();
                let result = (self.f)(token.value);
                proof {
                    lemma_map_image(self.f, tv, result);
                }
                Ok((Token { value: result, start: token.start, length: token.length }, state))
            },
            Err(e) => Err(e),
        }
    }
}

/// Under [`map_fn_wf`], any result the transform actually returns has the
/// view that [`map_image`] names.
proof fn lemma_map_image<I: DeepView, O: DeepView, F: Fn(I) -> O>(f: F, v: I::V, r: O)
    requires
        map_fn_wf(f),
        exists|ev: I| ev.deep_view() == v && #[trigger] call_ensures(f, (ev,), r),
    ensures
        r.deep_view() == map_image(f, v),
{
    let ev = choose|ev: I| ev.deep_view() == v && #[trigger] call_ensures(f, (ev,), r);
    assert(map_rel(f, v, r.deep_view()));
    let w0 = map_image(f, v);
    assert(map_rel(f, v, w0));
    let (ev0, er0): (I, O) = choose|ev0: I, er0: O|
        ev0.deep_view() == v && er0.deep_view() == w0 && #[trigger] call_ensures(f, (ev0,), er0);
    assert(er0.deep_view() == r.deep_view());
}

/// Transforms the value produced by `parser` with `f`, preserving the span.
pub fn pmap<P: Parser, O: DeepView, F: Fn(P::Output) -> O>(parser: P, f: F) -> (r: MapParser<
    P,
    F,
    O,
>)
    ensures
        r == (MapParser { parser, f, _phantom: PhantomData::<O> }),
{
    MapParser { parser, f, _phantom: PhantomData }
}

} // verus!
