//! A parser for VXL, a small expression language for contract-style
//! configuration, with its grammar stated and proved in Verus.
//!
//! `grammar` states the language as spec functions; `parser` reads it and is
//! proved to agree with `grammar` on every input.
use vstd::prelude::*;

pub mod chars;
pub mod source;
pub mod number;
pub mod ast;
pub mod grammar;
pub mod parser;
pub mod build_info;
pub mod text;
pub mod laws;
pub mod known;

pub use ast::{
    Attribute, BinaryOp, Conditional, ForLoop, Function, Node, ObjectItem, Operator, Opt, Token,
    TokenError, Tree, UnaryOp,
};
pub use chars::{
    valid_address_char, valid_ident_char_1, valid_ident_char_a, valid_ident_start_char_1,
    valid_ident_start_char_a,
};
pub use number::{Decimal, N};
pub use parser::{
    ErrorKind, Outcome, ParseError, address, attribute, boolean, collection, expr_term, expression,
    for_loop, function, identifier, if_statement, line_comment, list, literal, none_literal, number,
    numeric, parse, percentage, single_line_string, string,
};
pub use source::Source;
pub use build_info::{BuildInfo, console_log_build_info};

verus! {

} // verus!
