//! A parser for a small command-scripting language: dotted command paths,
//! pipe-separated arguments, bare and quoted text, nested sub-invocations
//! `( ... )` and deferred blocks `{ ... }`, with `/* ... */` comments wherever
//! whitespace may stand. Every node keeps the byte range of the source it was
//! read from.
pub mod ast;
pub mod comments;
pub mod error;
pub mod grammar;
pub mod laws;
pub mod nesting;
pub mod parser;
pub mod span;
pub mod within;
