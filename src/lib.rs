//! An optimising compiler and interpreter for the eight-symbol tape language
//! `+ - < > . , [ ]`.
//!
//! `compile` lowers source bytes to a linear stream of extended instructions,
//! fusing runs and rewriting common loop shapes; `Machine` executes such a
//! stream one step at a time over a fixed tape of byte cells.
pub mod instr;
pub mod optimise;
pub mod compiler;
pub mod machine;
pub mod laws;
pub mod straight;
