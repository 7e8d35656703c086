//! Front end of a PartiQL toolchain: source positions, lexing, parsing with
//! error recovery, and the logical-plan graph that a lowering stage fills.

pub mod ast;
pub mod grammar;
pub mod lexer;
pub mod location;
pub mod logical;
pub mod parser;
pub mod progress;
pub mod render;
pub mod result;
pub mod scan;
pub mod text;
pub mod token;
pub mod tracker;

pub use lexer::{PartiqlLexer, Spanned};
pub use parser::{lex_partiql, parse_partiql, ParserResult};
pub use result::{LexError, ParserError};
pub use token::Token;
pub use tracker::LineOffsetTracker;
