//! The parser capability: a pure function from cursor to token-and-cursor or
//! error, stated twice — once as a total spec function and once as the
//! executable `parse`, which is proved to return exactly what the spec says.

use vstd::prelude::*;

use crate::parser_combinator::continuation::advances;
use crate::parser_combinator::continuation::ContinuationState;
use crate::parser_combinator::continuation::CursorView;
use crate::parser_combinator::error::Error;
use crate::parser_combinator::error::ErrorView;
use crate::parser_combinator::token::Token;
use crate::parser_combinator::token::TokenView;
use crate::parser_combinator::at_least_one_parser::{p1, AtLeastOneParser};
use crate::parser_combinator::left_parser::{pleft, LeftParser};
use crate::parser_combinator::many_parser::{pmany, ManyParser};
use crate::parser_combinator::map_parser::{pmap, MapParser};
use crate::parser_combinator::optional_parser::{poptional, OptionalParser};
use crate::parser_combinator::or_parser::{por, OrParser};
use crate::parser_combinator::right_parser::{pright, RightParser};
use crate::parser_combinator::sep_by_parser::{psepby, SepByParser};
use crate::parser_combinator::take_until_parser::{ptake_until, TakeUntilParser};
use crate::parser_combinator::then_parser::{pthen, ThenParser};
use crate::parser_combinator::whitespace_parser::{pws, WhitespaceParser};

verus! {

/// What a parse attempt yields: a token and the advanced cursor, or an error
/// carrying the failure position — never a partially advanced cursor.
pub type ParseResult<'a, Output> = Result<(Token<Output>, ContinuationState<'a>), Error>;

/// Spec-level counterpart of [`ParseResult`].
pub type SpecParseResult<V> = Result<(TokenView<V>, CursorView), ErrorView>;

/// The executable result is exactly the one the spec function computed.
pub open spec fn parse_result_matches<'a, O: DeepView>(
    s: SpecParseResult<O::V>,
    r: ParseResult<'a, O>,
) -> bool {
    match r {
        Ok((t, c)) => s == Ok::<_, ErrorView>((t.deep_view(), c@)),
        Err(e) => s == Err::<(TokenView<O::V>, CursorView), _>(e@),
    }
}

/// A successful parse consumes a prefix of the input: the new cursor is a
/// suffix of the old one with the offset moved in step, the token's span
/// lies inside the consumed region, and counter headroom is kept.
pub open spec fn parse_bounds_ok<V>(input: CursorView, r: SpecParseResult<V>) -> bool {
    match r {
        Ok((t, c)) => {
            &&& advances(input, c)
            &&& input.position <= t.start
            &&& 0 <= t.length
            &&& t.start + t.length <= c.position
            &&& (input.wf() ==> c.wf())
        },
        Err(_) => true,
    }
}

/// Both components of a pair-valued parse lie inside the consumed region;
/// the projections `left` and `right` ask this of the parser they wrap.
pub open spec fn pair_within_bounds<LV, RV>(
    input: CursorView,
    r: SpecParseResult<(TokenView<LV>, TokenView<RV>)>,
) -> bool {
    r matches Ok((t, c)) ==> {
        &&& input.position <= t.value.0.start
        &&& 0 <= t.value.0.length
        &&& t.value.0.start + t.value.0.length <= c.position
        &&& input.position <= t.value.1.start
        &&& 0 <= t.value.1.length
        &&& t.value.1.start + t.value.1.length <= c.position
    }
}

/// The parser capability: given a cursor, produce either a span-annotated
/// token with the advanced cursor, or an error.  `spec_parse` is the total
/// mathematical description; `parse` is the executable half, proved to
/// return exactly what `spec_parse` says.
pub trait Parser: Sized {
    /// Spec-level image of the values this parser produces.
    type Value;

    /// Executable values this parser produces; viewed as `Value`.
    type Output: DeepView<V = Self::Value>;

    /// Side conditions on held function values and wrapped parsers;
    /// `true` for ordinary combinators.
    open spec fn wf(&self) -> bool {
        true
    }

    /// What the parser returns on any cursor.
    spec fn spec_parse(&self, input: CursorView) -> SpecParseResult<Self::Value>;

    /// Every successful parse consumes a prefix and stays within bounds.
    proof fn lemma_parse_bounds(&self, input: CursorView)
        requires
            self.wf(),
        ensures
            parse_bounds_ok(input, self.spec_parse(input)),
    ;

    /// Runs the parser on `input`.
    fn parse<'a>(&self, input: ContinuationState<'a>) -> (r: ParseResult<'a, Self::Output>)
        requires
            self.wf(),
            input@.wf(),
        ensures
            parse_result_matches::<Self::Output>(self.spec_parse(input@), r),
    ;

}

/// Combinators that take a second parser or a transform: sequencing,
/// alternation, mapping, separated lists and bracketing.  Every parser has
/// them.
pub trait Combining: Parser {
    /// Sequencing: this parser, then `next` on what remains.
    fn then<N: Parser>(self, next: N) -> (r: ThenParser<Self, N>)
        ensures
            r == (ThenParser { parser1: self, parser2: next }),
    ;

    /// Ordered alternation: this parser, or `next` from the same cursor.
    fn or<N: Parser<Value = Self::Value, Output = Self::Output>>(self, next: N) -> (r: OrParser<
        Self,
        N,
    >)
        ensures
            r == (OrParser { parser1: self, parser2: next }),
    ;

    /// Transforms the produced value, preserving the span.
    fn map<O: DeepView, F: Fn(Self::Output) -> O>(self, f: F) -> (r: MapParser<Self, F, O>)
        ensures
            r == (MapParser { parser: self, f, _phantom: core::marker::PhantomData::<O> }),
    ;

    /// This parser one or more times, separated by `separator`; a dangling
    /// separator is an error.
    fn sep_by<S: Parser>(self, separator: S) -> (r: SepByParser<Self, S>)
        ensures
            r == (SepByParser { parser: self, separator }),
    ;

    /// This parser bracketed by `parser1` and `parser2`, keeping only this
    /// parser's token.
    fn between<L: Parser, R: Parser>(self, parser1: L, parser2: R) -> (r: LeftParser<
        Self::Output,
        R::Output,
        RightParser<L::Output, (Token<Self::Output>, Token<R::Output>), ThenParser<
            L,
            ThenParser<Self, R>,
        >>,
    >)
        ensures
            r == (LeftParser {
                parser: (RightParser {
                    parser: (ThenParser {
                        parser1,
                        parser2: (ThenParser { parser1: self, parser2 }),
                    }),
                    _phantom: core::marker::PhantomData::<(L::Output, (Token<Self::Output>, Token<R::Output>))>,
                }),
                _phantom: core::marker::PhantomData::<(Self::Output, R::Output)>,
            }),
    ;

    /// Tries this parser; failure yields `None` and consumes nothing.
    fn optional(self) -> (r: OptionalParser<Self>)
        ensures
            r == (OptionalParser { parser: self }),
    ;

    /// Zero or more repetitions; never fails.
    fn many(self) -> (r: ManyParser<Self>)
        ensures
            r == (ManyParser { parser: self }),
    ;

    /// One or more repetitions; fails when none matched.
    fn many1(self) -> (r: AtLeastOneParser<ManyParser<Self>, Self::Output>)
        ensures
            r == (AtLeastOneParser {
                parser: (ManyParser { parser: self }),
                _phantom: core::marker::PhantomData::<Self::Output>,
            }),
    ;

    /// Scans forward until this parser matches; yields the skipped text.
    fn take_until(self) -> (r: TakeUntilParser<Self>)
        ensures
            r == (TakeUntilParser { until: self }),
    ;

    /// This parser followed by any run of whitespace, keeping this parser's
    /// token.
    fn ws(self) -> (r: LeftParser<Self::Output, Vec<Token<()>>, ThenParser<
        Self,
        ManyParser<WhitespaceParser>,
    >>)
        ensures
            r == (LeftParser {
                parser: (ThenParser { parser1: self, parser2: (ManyParser { parser: WhitespaceParser }) }),
                _phantom: core::marker::PhantomData::<(Self::Output, Vec<Token<()>>)>,
            }),
    ;
}

impl<T: Parser> Combining for T {
    fn then<N: Parser>(self, next: N) -> (r: ThenParser<Self, N>) {
        pthen(self, next)
    }

    fn or<N: Parser<Value = Self::Value, Output = Self::Output>>(self, next: N) -> (r: OrParser<
        Self,
        N,
    >) {
        por(self, next)
    }

    fn map<O: DeepView, F: Fn(Self::Output) -> O>(self, f: F) -> (r: MapParser<Self, F, O>) {
        pmap(self, f)
    }

    fn sep_by<S: Parser>(self, separator: S) -> (r: SepByParser<Self, S>) {
        psepby(self, separator)
    }

    fn between<L: Parser, R: Parser>(self, parser1: L, parser2: R) -> (r: LeftParser<
        Self::Output,
        R::Output,
        RightParser<L::Output, (Token<Self::Output>, Token<R::Output>), ThenParser<
            L,
            ThenParser<Self, R>,
        >>,
    >) {
        pleft(pright(pthen(parser1, pthen(self, parser2))))
    }

    fn optional(self) -> (r: OptionalParser<Self>) {
        poptional(self)
    }

    fn many(self) -> (r: ManyParser<Self>) {
        pmany(self)
    }

    fn many1(self) -> (r: AtLeastOneParser<ManyParser<Self>, Self::Output>) {
        p1(pmany(self))
    }

    fn take_until(self) -> (r: TakeUntilParser<Self>) {
        ptake_until(self)
    }

    fn ws(self) -> (r: LeftParser<Self::Output, Vec<Token<()>>, ThenParser<
        Self,
        ManyParser<WhitespaceParser>,
    >>) {
        pleft(pthen(self, pmany(pws())))
    }
}

/// Brackets `parser2` between `parser1` and `parser3`, keeping only
/// `parser2`'s token; the brackets' consumption still advances the cursor.
pub fn pbetween<L: Parser, M: Parser, R: Parser>(parser1: L, parser2: M, parser3: R) -> (r:
    LeftParser<
    M::Output,
    R::Output,
    RightParser<L::Output, (Token<M::Output>, Token<R::Output>), ThenParser<L, ThenParser<M, R>>>,
>)
    ensures
        r == (LeftParser {
            parser: (RightParser {
                parser: (ThenParser { parser1, parser2: (ThenParser { parser1: parser2, parser2: parser3 }) }),
                _phantom: core::marker::PhantomData::<(L::Output, (Token<M::Output>, Token<R::Output>))>,
            }),
            _phantom: core::marker::PhantomData::<(M::Output, R::Output)>,
        }),
{
    pleft(pright(pthen(parser1, pthen(parser2, parser3))))
}

/// One or more repetitions of `parser`; fails with "1 or more" when none
/// matched.
pub fn pmany1<P: Parser>(parser: P) -> (r: AtLeastOneParser<ManyParser<P>, P::Output>)
    ensures
        r == (AtLeastOneParser {
            parser: (ManyParser { parser }),
            _phantom: core::marker::PhantomData::<P::Output>,
        }),
{
    p1(pmany(parser))
}

/// Projections out of a pair-valued parser.

pub trait Pair<Left: DeepView, Right: DeepView>: Sized {
    /// Keeps only the first component's token.
    fn left(self) -> (r: LeftParser<Left, Right, Self>)
        ensures
            r == (LeftParser::<Left, Right, Self> { parser: self, _phantom: core::marker::PhantomData }),
    ;

    /// Keeps only the second component's token.
    fn right(self) -> (r: RightParser<Left, Right, Self>)
        ensures
            r == (RightParser::<Left, Right, Self> { parser: self, _phantom: core::marker::PhantomData }),
    ;
}

impl<Left: DeepView, Right: DeepView, T: Parser<
    Value = (TokenView<Left::V>, TokenView<Right::V>),
    Output = (Token<Left>, Token<Right>),
>> Pair<Left, Right> for T {
    fn left(self) -> (r: LeftParser<Left, Right, Self>) {
        pleft(self)
    }

    fn right(self) -> (r: RightParser<Left, Right, Self>) {
        pright(self)
    }
}

/// The at-least-one check over a sequence-valued parser.
pub trait Many<Output: DeepView>: Sized {
    /// Fails with "1 or more" when the wrapped parser produced no elements.
    fn at_least_one(self) -> (r: AtLeastOneParser<Self, Output>)
        ensures
            r == (AtLeastOneParser { parser: self, _phantom: core::marker::PhantomData::<Output> }),
    ;
}

impl<Output: DeepView, T: Parser<
    Value = Seq<TokenView<Output::V>>,
    Output = Vec<Token<Output>>,
>> Many<Output> for T {
    fn at_least_one(self) -> (r: AtLeastOneParser<Self, Output>) {
        p1(self)
    }
}

} // verus!
