//! A lexical scanner for the Lox scripting language.
//!
//! The scanner turns source text into the ordered sequence of tokens that a
//! parser consumes, together with the lexical errors it met on the way.
//!
//! - `grammar` defines what a scan yields, as a mathematical function of the
//!   source text.
//! - `scanner` holds the executable scanner, which is proved to compute
//!   exactly that function.
//! - `theorems` proves what holds of every scan.
//! - `token`, `error` and `chars` hold the tokens, the errors and the
//!   character classes that the others speak of.

pub mod chars;
pub mod error;
pub mod grammar;
pub mod scanner;
pub mod theorems;
pub mod token;
