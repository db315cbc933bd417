//! An interpreter for a small parenthesised command language.
//!
//! A line of input is split into tokens ([`lexer`]), parsed into an
//! expression ([`parser`]) and evaluated against a state ([`eval`]); the
//! three steps in a row are [`interpreter::interpret`]. A state holds the
//! registered commands and the symbol table ([`appstate`], [`symbols`]), and
//! is never changed in place: an evaluation hands back the state to go on
//! with. The commands that the interpreter starts with are in [`commands`].
//!
//! Each function is verified against a model of what it computes: the
//! tokenizer against a state machine over the characters, the parser against
//! a grammar over the tokens, the evaluator against a function from a state
//! and an expression to an effect. What holds of these models beyond single
//! calls is proved in [`lexer_laws`], [`flatten`], [`render`], [`round_trip`]
//! and beside the models themselves.
//!
//! Numbers are IEEE 754 doubles ([`number`]), held as their bit patterns.
pub mod appstate;
pub mod command;
pub mod commands;
pub mod context;
pub mod errors;
pub mod eval;
pub mod faults;
pub mod flatten;
pub mod help;
pub mod interpreter;
pub mod lexer;
pub mod lexer_laws;
pub mod number;
pub mod parser;
pub mod render;
pub mod round_trip;
pub mod symbols;
pub mod text;
pub mod types;
pub mod validation;
