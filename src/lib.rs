//! A lexical scanner for a small dynamically typed scripting language.
//!
//! `Scanner::scan_tokens` turns a source text into tokens in one forward
//! pass; lexical problems are reported to a `Lox` collector and scanning
//! goes on. Its contract ties the result to the model in `lexical`, and
//! `laws` proves properties of that model for every input.
pub mod laws;
pub mod lexical;
pub mod lox;
pub mod parser;
pub mod scanner;
pub mod types;

pub use crate::lox::{Diagnostic, Lox};
pub use crate::parser::{Expr, Parsed};
pub use crate::scanner::{ScanIndex, Scanner};
pub use crate::types::{Grouping, Keyword, LexError, Literal, Misc, Operator, Token};
