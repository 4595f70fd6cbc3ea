//! A parsed value annotated with the span of input it came from.

use vstd::prelude::*;

verus! {

/// Mathematical image of a token: the parsed value together with the start
/// offset and length of its span.
#[verifier::ext_equal]
pub struct TokenView<V> {
    pub value: V,
    pub start: int,
    pub length: int,
}

/// A successfully parsed value together with where in the input it came
/// from.  Tokens nest: a token's value may itself contain tokens, forming a
/// parse tree that mirrors the grammar.
#[derive(Debug, PartialEq, Clone)]
pub struct Token<T> {
    pub value: T,
    pub start: usize,
    pub length: usize,
}

impl<T: DeepView> DeepView for Token<T> {
    type V = TokenView<T::V>;

    open spec fn deep_view(&self) -> TokenView<T::V> {
        TokenView {
            value: self.value.deep_view(),
            start: self.start as int,
            length: self.length as int,
        }
    }
}

impl<T> Token<T> {
    pub fn new(value: T, start: usize, length: usize) -> (r: Self)
        ensures
            r == (Token { value, start, length }),
    {
        Self { value, start, length }
    }
}

} // verus!
