//! Decoding of a lexed Bitcoin Script into a Miniscript abstract syntax tree.
//!
//! The decoder reads the tokens of a script in the order that the lexer
//! hands them out (from the end of the script towards its start) and
//! rebuilds the tree with a shift-reduce machine over two stacks.

pub mod ast;
pub mod completeness;
pub mod decode;
pub mod error;
pub mod grammar;
pub mod keys;
mod machine;
mod sealed;
pub mod script;
pub mod soundness;
pub mod token;

pub use token::{Token, TokenIter};
