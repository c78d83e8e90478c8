//! A two-stage interpreter for a minimal tape language: a compiler that turns
//! source text into a fixed array of instructions with resolved jump targets,
//! and a virtual machine that runs those instructions over a bounded tape of
//! 16-bit cells.

pub mod instruction;
pub mod stack;
pub mod compiler;
pub mod nesting;
pub mod machine;
pub mod bounds;
