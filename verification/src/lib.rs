//! A small stack-based scripting language: tokenizer, pre-processor, parser,
//! type checker and interpreter.
pub mod api;
pub mod builtins;
pub mod cache;
pub mod check;
pub mod display;
pub mod error;
pub mod internals;
pub mod laws;
pub mod module;
pub mod parse;
pub mod preproc;
pub mod runtime;
pub mod semantics;
pub mod stack;
pub mod text;
pub mod token;
pub mod tools;
pub mod trc;
pub mod typeparse;
pub mod types;
