//! A compiler for a small C-like language: a single `main` function with
//! local `int` variables, integer expressions and a `return`, compiled to
//! x86-64 assembly in AT&T syntax.
//!
//! The pipeline is a chain of pure stages, each with a mathematical model
//! that its executable code is proved against:
//!
//! 1. [`lex`]: source text to tokens,
//! 2. [`parser`]: tokens to a syntax tree, by precedence climbing,
//! 3. [`resolver`]: the tree with every variable renamed to a unique name,
//! 4. [`tac`]: the tree to three-address code,
//! 5. [`assembly`]: three-address code to instructions over
//!    pseudo-registers,
//! 6. [`pseudo`]: a stack slot for every pseudo-register,
//! 7. [`legalize`]: operand forms that the processor accepts,
//! 8. [`emit`]: the instructions as text.
//!
//! [`compiler`] runs the stages one after the other; [`pretty`] shows a
//! syntax tree, [`error`] holds the errors, [`text`] the numerals.
//!
//! On top of the stages stand the laws that hold of them: [`unparse`]
//! (a parsed tree reads back as its tokens), [`names`] (variables and
//! temporaries never meet), and the proof that a compilation keeps the
//! meaning of the program: [`semantics`] says what a program and its
//! three-address code mean, [`machine`] what the instructions do,
//! [`renaming`], [`preservation`], [`simulation`], [`placement`] and
//! [`legality`] carry
//! the meaning over one stage each, and [`correctness`] puts them
//! together.
pub mod text;
pub mod error;
pub mod lex;
pub mod parser;
pub mod unparse;
pub mod resolver;
pub mod pretty;
pub mod tac;
pub mod names;
pub mod assembly;
pub mod pseudo;
pub mod legalize;
pub mod emit;
pub mod compiler;
pub mod semantics;
pub mod renaming;
pub mod machine;
pub mod preservation;
pub mod simulation;
pub mod placement;
pub mod legality;
pub mod correctness;

pub use crate::compiler::compile;
pub use crate::lex::Lex;
pub use crate::parser::parse_and_resolve_program;
