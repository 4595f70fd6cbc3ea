//! The combinator engine: cursor, tokens, errors, the [`Parser`] capability
//! and the combinators built over it.

pub mod any_parser;
pub mod any_range_parser;
pub mod at_least_one_parser;
pub mod char_parser;
pub mod choice_parser;
pub mod closure_parser;
pub mod continuation;
pub mod error;
pub mod left_parser;
pub mod many_parser;
pub mod map_parser;
pub mod optional_parser;
pub mod or_parser;
pub mod parser;
pub mod properties;
pub mod right_parser;
pub mod sep_by_parser;
pub mod string_parser;
pub mod take_until_parser;
pub mod then_parser;
pub mod token;
pub mod whitespace_parser;

pub use any_parser::pany;
pub use any_parser::AnyParser;
pub use any_range_parser::pany_range;
pub use any_range_parser::AnyRangeParser;
pub use at_least_one_parser::p1;
pub use at_least_one_parser::AtLeastOneParser;
pub use char_parser::pchar;
pub use char_parser::CharParser;
pub use choice_parser::pchoice;
pub use choice_parser::ChoiceParser;
pub use closure_parser::parser_from_fn;
pub use closure_parser::ClosureParser;
pub use continuation::ContinuationState;
pub use continuation::CursorView;
pub use error::combine_error;
pub use error::Error;
pub use error::ErrorView;
pub use error::Expected;
pub use error::ExpectedView;
pub use left_parser::pleft;
pub use left_parser::LeftParser;
pub use many_parser::pmany;
pub use many_parser::ManyParser;
pub use map_parser::pmap;
pub use map_parser::MapParser;
pub use optional_parser::poptional;
pub use optional_parser::OptionalParser;
pub use or_parser::por;
pub use or_parser::OrParser;
pub use parser::pbetween;
pub use parser::pmany1;
pub use parser::Combining;
pub use parser::Many;
pub use parser::Pair;
pub use parser::ParseResult;
pub use parser::Parser;
pub use parser::SpecParseResult;
pub use right_parser::pright;
pub use right_parser::RightParser;
pub use sep_by_parser::psepby;
pub use sep_by_parser::SepByParser;
pub use string_parser::pstring;
pub use string_parser::StringParser;
pub use take_until_parser::TakeUntilParser;
pub use then_parser::pthen;
pub use then_parser::ThenParser;
pub use token::Token;
pub use token::TokenView;
pub use whitespace_parser::pws;
pub use whitespace_parser::WhitespaceParser;
