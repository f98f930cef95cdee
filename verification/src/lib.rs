//! A front end for a small, line-oriented functional language: a lexer that
//! turns source text into tokens, and a parser that turns tokens into a
//! syntax tree.

pub mod lexical_analysis;
pub mod syntax_analysis;
