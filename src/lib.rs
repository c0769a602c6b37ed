//! A small scripting language: lexer, parser and tree-walking evaluator,
//! each verified against a definition of its meaning.
//!
//! Choices the language leaves to its implementation:
//! - Binary operators share one precedence level and fold from the left, so
//!   `1 + 2 * 3` is `(1 + 2) * 3`. Assignment groups to the right.
//! - A function captures a copy of the local bindings when it is declared;
//!   later assignments in the declaring scope are not seen by it. A call
//!   binds the function under its own name in the new frame, so that it can
//!   recur, then binds the parameters.
//! - Scoping is flat within a frame: a declaration inside a block or loop
//!   body rebinds the name for the rest of the frame. Names not bound
//!   locally are looked up among the globals, which hold the built-ins.
//! - A name declared `const` cannot be assigned or declared again.
//! - Numbers are decimal fixed-point values with six fractional digits,
//!   saturating to infinities; division by zero gives an infinity or NaN.
//! - Output and files live in the interpreter: `print` appends lines, and
//!   `fb.readFile` / `fb.writeFile` act on the files it holds, which the host
//!   loads beforehand and writes back afterwards.
//! - `math.random()` draws from a seeded generator. A fresh interpreter has a
//!   fixed seed, so that a program runs alike every time; a host that wants
//!   varying draws asks for an interpreter with a random seed.
//! - Evaluation spends a budget of steps and limits the depth of user calls,
//!   so every run ends, with an error if a limit is reached.
pub mod number;
pub mod lexer;
pub mod ast;
pub mod parser;
pub mod value;
pub mod semantics;
pub mod runtime;
pub mod interpreter;
pub mod laws;
