//! A low-level lexer for Solidity source text.
//!
//! The lexer splits a text into a stream of classified tokens. It never
//! fails: malformed constructs are still tokenized and carry a flag that
//! says what is wrong with them.
//!
//! [`grammar`] says which token stands at the head of a text, and
//! [`stream`] what the tokens of a whole text are. [`cursor::Cursor`] scans
//! a text token by token, and is proved to hand out just those tokens.

pub mod builtins;
pub mod classify;
pub mod cursor;
pub mod grammar;
pub mod stream;
pub mod text;
pub mod token;

pub use builtins::Builtin;
pub use classify::{is_id_continue, is_id_start, is_ident, is_whitespace};
pub use cursor::Cursor;
pub use stream::tokenize;
pub use token::{Base, LiteralKind, Token, TokenKind};
