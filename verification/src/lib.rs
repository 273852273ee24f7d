//! Lexical analysis for a small scripting language of the Lox family.
//!
//! [`lexer::Lexer`] turns source text into tokens and keeps every character
//! of the source in some token, comments and whitespace included. Malformed
//! lexemes give a token and an error, and scanning goes on.
//! [`lexer::error_report::LexerErrorReporter`] formats the errors against the
//! source. What the lexer recognises is written down in [`lexer::grammar`];
//! what holds of its output as a whole is proved in [`lexer::stream`].

pub mod cursor;
pub mod lexer;
pub mod text;
