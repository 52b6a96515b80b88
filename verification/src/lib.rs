//! A Brainfuck front end that lowers source bytes to a control-flow graph of
//! labelled basic blocks in the QBE intermediate language.
//!
//! The passes run from left to right: bytes are lexed to commands, commands
//! are compressed to runs, neighbouring opposites are cancelled, the brackets
//! are checked, and the emitter builds the blocks of the function `main`.
//! `compiler::compile` runs them all.

pub mod brackets;
pub mod cancellation;
pub mod compiler;
pub mod control_flow;
pub mod decimal;
pub mod ir;
pub mod lowering;
pub mod model;
pub mod qbe_specs;
pub mod run_length;
pub mod token;
