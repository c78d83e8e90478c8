//! The instruction set shared by the compiler and the virtual machine.

use vstd::prelude::*;

verus! {

/// Number of slots in a program's instruction array.
pub const PROGRAM_SIZE: usize = 4096;

/// Number of entries the bracket stack can hold.
pub const STACK_SIZE: usize = 512;

/// Number of cells on the memory tape.
pub const DATA_SIZE: usize = 65535;

/// The operators of the machine.
#[derive(PartialEq, Eq, Structural, Clone, Copy, Debug)]
pub enum Op {
    End,
    IncDp,
    DecDp,
    IncVal,
    DecVal,
    Out,
    In,
    JmpFwd,
    JmpBck,
}

/// The outcome of a phase: it either succeeded or it did not.
#[derive(PartialEq, Eq, Structural, Clone, Copy, Debug)]
pub enum Statuses {
    Success,
    Failure,
}

/// An operator with its operand. The operand means something only for the
/// two jumps, where it is the index of the matching delimiter.
#[derive(PartialEq, Eq, Structural, Clone, Copy, Debug)]
pub struct Instruction {
    pub operator: Op,
    pub operand: u16,
}

impl Default for Instruction {
    fn default() -> (r: Self)
        ensures
            r == (Instruction { operator: Op::End, operand: 0 }),
    {
        Instruction { operator: Op::End, operand: 0 }
    }
}

impl Op {
    /// Whether the operator is one of the two jumps.
    pub open spec fn is_jump(self) -> bool {
        self == Op::JmpFwd || self == Op::JmpBck
    }
}

} // verus!
