//! A small untyped toy language, written as an ordinary client of the
//! combinator engine: an AST and the grammar productions that build it.

pub mod ast;
pub mod language_parser;

pub use ast::Expr;
pub use ast::ExprOrStatement;
pub use ast::Fun;
pub use ast::Parameter;
pub use ast::Statement;
pub use ast::Value;
pub use language_parser::pbody;
pub use language_parser::pbool;
pub use language_parser::pcall;
pub use language_parser::pexpr;
pub use language_parser::pfor;
pub use language_parser::pfun;
pub use language_parser::pif;
pub use language_parser::plet;
pub use language_parser::prange;
pub use language_parser::pstatement;
pub use language_parser::pidentifier;
pub use language_parser::pint;
pub use language_parser::pparam;
pub use language_parser::pparams;
pub use language_parser::pquoted_string;
pub use language_parser::pterminator;
pub use language_parser::pvalue;
