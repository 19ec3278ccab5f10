//! A calculator for flat arithmetic expressions, verified with Verus.
//!
//! An expression is a text such as `4 + 3 * -2!`: decimal literals joined by
//! `+`, `-`, `*` and `/`, with signs before the literals and factorials behind
//! them. [`calculation::parse_and_compute`] splits the text into units and
//! reduces them in three stages to one [`models::Term`], which says which
//! operation is applied to which operands. The arithmetic itself, on machine
//! numbers, is left to the caller.
//!
//! The executable functions:
//!
//! * [`parser`] splits a text into units;
//! * [`compute`] reduces units to a term, stage by stage;
//! * [`calculation`] does one after the other.
//!
//! Each is proved to return what a specification function defines. The other
//! modules hold what is proved of these definitions:
//!
//! * [`numeral`]: which texts are read as a number;
//! * [`lexical`]: which characters matter, and which literal is malformed;
//! * [`stages`]: what each stage needs and what it leaves behind;
//! * [`grammar`]: the grammar of expressions, and that the stages evaluate it
//!   by the usual rules of precedence;
//! * [`syntax`]: that exactly the expressions of the grammar have a value;
//! * [`failures`]: which error every other sequence of units gets;
//! * [`precedence`]: the rules of precedence on the shortest examples.
pub mod calculation;
pub mod compute;
pub mod failures;
pub mod grammar;
pub mod lexical;
pub mod models;
pub mod numeral;
pub mod parser;
pub mod precedence;
pub mod stages;
pub mod syntax;
