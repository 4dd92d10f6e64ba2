//! Front end of a compiler for a small C-like language.
//!
//! Source text is turned into tokens ([`lexer`]), tokens into a syntax tree
//! ([`parser`], over the types of [`ast`]), and the tree into flat
//! three-address code with labels and jumps ([`lower`], over the types of
//! [`ir`]).
//!
//! What each stage computes is given by functions over mathematical values:
//! [`lexer::lex`] for the lexer, [`grammar`] for the parser, [`lowering`]
//! for the lowerer. Each executable function is proved to compute exactly
//! that. [`scoping`], [`labels`] and [`jumps`] prove what holds of every
//! lowered program, and [`sound`] puts it together: temporaries are
//! written once and before they are read, every jump has its label exactly
//! once, no label is defined in two functions, and `break` and `continue`
//! jump to the labels of the innermost loop.
//!
//! One function of the standard library, `String::push`, is used as
//! [`text`] says, without proof.

pub mod text;
pub mod token;
pub mod lexer;
pub mod ast;
pub mod grammar;
pub mod number;
pub mod parser;
pub mod ir;
pub mod lowering;
pub mod lower;
pub mod scoping;
pub mod jumps;
pub mod labels;
pub mod sound;
