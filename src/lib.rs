//! Lexical analysis for a small scripting language.
//!
//! The [`lexer::Lexer`] holds an ordered table of token templates, each a
//! token kind with a regular expression, and cuts a source text into a
//! sequence of [`token::Token`]s that covers the whole text.
pub mod token;
pub mod matcher;
pub mod operators;
pub mod lexer;
