//! A small arithmetic-expression core: a lexer, a syntax analysis and an
//! evaluator for expressions over integers and `+ - * /`, each with a
//! proved contract.

pub mod alphabet;
pub mod execute;
pub mod lexer;
pub mod pipeline;
pub mod syntax_analysis;
pub mod text;
pub mod token;

pub use crate::execute::{can_execute, execute, reduce, select_operator};
pub use crate::lexer::{lexer, TokenizeError};
pub use crate::syntax_analysis::{analyze_syntax, SyntaxError};
pub use crate::token::{get_token_score, OperatorVariant, Token, TokenVariant};
