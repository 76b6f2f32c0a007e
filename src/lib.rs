//! Dice notation (`2d6+3`, `1d20, 1d8`) for tabletop games: a lexer, a parser,
//! an evaluator that draws its dice from a seeded generator, a batch driver
//! that renders one line per comma-separated input, and the navigation state of
//! the terminal application built around them.

pub mod app_state;
pub mod batch;
pub mod eval;
pub mod lexer;
pub mod parser;
pub mod rng;
pub mod roller;
pub mod text;
