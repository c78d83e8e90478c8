//! The compiler: source text to an instruction array with resolved jumps.

use vstd::prelude::*;
use crate::instruction::{Instruction, Op, Statuses, PROGRAM_SIZE, STACK_SIZE};
use crate::bounds::holds_program;
use crate::nesting::{accepted, closes, lemma_compile_outcome, linked, operators, symbols};
use crate::stack::Stack;

verus! {

/// The operator a character stands for, if it is a symbol of the language.
pub open spec fn op_of(c: char) -> Option<Op> {
    if c == '>' {
        Some(Op::IncDp)
    } else if c == '<' {
        Some(Op::DecDp)
    } else if c == '+' {
        Some(Op::IncVal)
    } else if c == '-' {
        Some(Op::DecVal)
    } else if c == '.' {
        Some(Op::Out)
    } else if c == ',' {
        Some(Op::In)
    } else if c == '[' {
        Some(Op::JmpFwd)
    } else if c == ']' {
        Some(Op::JmpBck)
    } else {
        None
    }
}

/// The state of a compilation between two characters: the instruction
/// array, the indices of the loop starts still open (outermost first), the
/// next free slot, and whether the source has been rejected.
pub struct Scan {
    pub code: Seq<Instruction>,
    pub open: Seq<u16>,
    pub pc: int,
    pub failed: bool,
}

/// `code` with the operator at `at` replaced.
pub open spec fn with_operator(code: Seq<Instruction>, at: int, op: Op) -> Seq<Instruction> {
    code.update(at, Instruction { operator: op, operand: code[at].operand })
}

/// `code` with the operand at `at` replaced.
pub open spec fn with_operand(code: Seq<Instruction>, at: int, operand: u16) -> Seq<
    Instruction,
> {
    code.update(at, Instruction { operator: code[at].operator, operand })
}

/// What one character does to a compilation. A rejected compilation stays
/// as it is, and a character that is no symbol changes nothing.
pub open spec fn scan_step(s: Scan, c: char) -> Scan {
    if s.failed || op_of(c) is None {
        s
    } else if s.pc >= PROGRAM_SIZE {
        Scan { failed: true, ..s }
    } else if c == '[' {
        let code = with_operator(s.code, s.pc, Op::JmpFwd);
        if s.open.len() >= STACK_SIZE {
            Scan { code, failed: true, ..s }
        } else {
            Scan { code, open: s.open.push(s.pc as u16), pc: s.pc + 1, failed: false }
        }
    } else if c == ']' {
        if s.open.len() == 0 {
            Scan { failed: true, ..s }
        } else {
            let start = s.open.last();
            let closed = s.code.update(
                s.pc,
                Instruction { operator: Op::JmpBck, operand: start },
            );
            Scan {
                code: with_operand(closed, start as int, s.pc as u16),
                open: s.open.drop_last(),
                pc: s.pc + 1,
                failed: false,
            }
        }
    } else {
        Scan { code: with_operator(s.code, s.pc, op_of(c)->0), pc: s.pc + 1, ..s }
    }
}

/// The compilation `s` after the characters of `src`, taken in order.
pub open spec fn scan(s: Scan, src: Seq<char>) -> Scan
    decreases src.len(),
{
    if src.len() == 0 {
        s
    } else {
        scan_step(scan(s, src.drop_last()), src.last())
    }
}

/// The end of a compilation: rejected if a loop start is still open or no
/// slot is left for the terminator, which is otherwise written.
pub open spec fn finish(s: Scan) -> Scan {
    if s.failed || s.open.len() > 0 || s.pc >= PROGRAM_SIZE {
        Scan { failed: true, ..s }
    } else {
        Scan { code: with_operator(s.code, s.pc, Op::End), ..s }
    }
}

/// The whole compilation of `src` into an array that holds `code` and with
/// the loop starts `open` already pending.
pub open spec fn compiled(code: Seq<Instruction>, open: Seq<u16>, src: Seq<char>) -> Scan {
    finish(scan(Scan { code, open, pc: 0, failed: false }, src))
}

/// Once a prefix of the source has been rejected, the rest changes nothing.
pub proof fn lemma_rejection_is_final(s: Scan, src: Seq<char>, k: int)
    requires
        0 <= k <= src.len(),
        scan(s, src.take(k)).failed,
    ensures
        scan(s, src) == scan(s, src.take(k)),
    decreases src.len() - k,
{
    if k == src.len() {
        assert(src.take(k) =~= src);
    } else {
        assert(src.take(k + 1).drop_last() =~= src.take(k));
        lemma_rejection_is_final(s, src, k + 1);
    }
}

impl Op {
    /// Reads a character as a symbol of the language.
    pub fn from_symbol(c: char) -> (r: Option<Op>)
        ensures
            r == op_of(c),
    {
        if c == '>' {
            Some(Op::IncDp)
        } else if c == '<' {
            Some(Op::DecDp)
        } else if c == '+' {
            Some(Op::IncVal)
        } else if c == '-' {
            Some(Op::DecVal)
        } else if c == '.' {
            Some(Op::Out)
        } else if c == ',' {
            Some(Op::In)
        } else if c == '[' {
            Some(Op::JmpFwd)
        } else if c == ']' {
            Some(Op::JmpBck)
        } else {
            None
        }
    }
}

/// An instruction array together with the bracket stack used to fill it.
pub struct Program {
    instructions: [Instruction; PROGRAM_SIZE],
    stack: Stack,
}

impl Program {
    /// The instruction array.
    pub closed spec fn code(&self) -> Seq<Instruction> {
        self.instructions@
    }

    /// The loop starts left pending on the bracket stack, outermost first.
    pub closed spec fn pending(&self) -> Seq<u16> {
        self.stack@
    }

    /// The stack is within its capacity and holds indices into the array.
    pub closed spec fn wf(&self) -> bool {
        &&& self.stack.wf()
        &&& forall|k: int| 0 <= k < self.stack@.len() ==> self.stack@[k] < PROGRAM_SIZE
    }

    /// What well-formedness says of the array and of the pending loop starts.
    pub proof fn lemma_wf(&self)
        requires
            self.wf(),
        ensures
            self.code().len() == PROGRAM_SIZE,
            self.pending().len() <= STACK_SIZE,
            forall|k: int| 0 <= k < self.pending().len() ==> self.pending()[k] < PROGRAM_SIZE,
    {
        self.stack.lemma_bounded();
    }

    /// A program of terminators only, with nothing pending.
    pub fn new() -> (p: Program)
        ensures
            p.wf(),
            p.code() == Seq::new(
                PROGRAM_SIZE as nat,
                |i: int| Instruction { operator: Op::End, operand: 0 },
            ),
            p.pending() == Seq::<u16>::empty(),
    {
        let p = Program {
            instructions: [Instruction { operator: Op::End, operand: 0 };PROGRAM_SIZE],
            stack: Stack::new(),
        };
        assert(p.code() =~= Seq::new(
            PROGRAM_SIZE as nat,
            |i: int| Instruction { operator: Op::End, operand: 0 },
        ));
        p
    }

    /// The instruction in slot `index`, if there is such a slot.
    pub fn get(&self, index: usize) -> (r: Option<Instruction>)
        ensures
            r == (if index < PROGRAM_SIZE {
                Some(self.code()[index as int])
            } else {
                None
            }),
    {
        if index < PROGRAM_SIZE {
            Some(self.instructions[index])
        } else {
            None
        }
    }

    /// Compiles `fp` into the array, from slot 0 on. Characters that are no
    /// symbols, white space included, take no slot. With nothing pending
    /// beforehand, the accepted sources are the ones that succeed, and in the
    /// result every loop start names the loop end that closes it, and that
    /// loop end names the loop start.
    #[verifier::loop_isolation(false)]
    pub fn compile(&mut self, fp: &String) -> (status: Statuses)
        requires
            old(self).wf(),
        ensures
            final(self).wf(),
            final(self).code() == compiled(old(self).code(), old(self).pending(), fp@).code,
            final(self).pending() == compiled(old(self).code(), old(self).pending(), fp@).open,
            status == Statuses::Success <==> !compiled(
                old(self).code(),
                old(self).pending(),
                fp@,
            ).failed,
            status == Statuses::Success ==> final(self).pending().len() == 0,
            old(self).pending().len() == 0 ==> (status == Statuses::Success <==> accepted(fp@)),
            old(self).pending().len() == 0 && status == Statuses::Success ==> ({
                let n = symbols(fp@) as int;
                &&& holds_program(final(self).code(), n)
                &&& linked(final(self).code(), n)
                &&& forall|i: int|
                    0 <= i < n && (#[trigger] final(self).code()[i]).operator == Op::JmpFwd
                        ==> closes(operators(fp@), i, final(self).code()[i].operand as int)
                &&& forall|i: int|
                    0 <= i < n ==> (#[trigger] final(self).code()[i]).operator == operators(
                        fp@,
                    )[i]
            }),
    {
        proof {
            if self.pending().len() == 0 {
                assert(self.pending() =~= Seq::<u16>::empty());
                lemma_compile_outcome(self.code(), fp@);
            }
        }
        let mut pc: u16 = 0;
        let ghost src = fp@;
        let ghost init = Scan { code: self.code(), open: self.pending(), pc: 0, failed: false };
        proof {
            self.stack.lemma_bounded();
            assert(src.take(0) =~= Seq::<char>::empty());
        }
        for c in it: fp.as_str().chars()
            invariant
                it.seq() == src,
                self.wf(),
                pc <= PROGRAM_SIZE,
                scan(init, src.take(it.index() as int)) == (Scan {
                    code: self.code(),
                    open: self.pending(),
                    pc: pc as int,
                    failed: false,
                }),
        {
            let ghost k = it.index() as int;
            proof {
                assert(src.take(k + 1).drop_last() =~= src.take(k));
                assert(src.take(k + 1).last() == c);
                self.stack.lemma_bounded();
            }
            match Op::from_symbol(c) {
                None => {},
                Some(op) => {
                    if pc as usize >= PROGRAM_SIZE {
                        proof {
                            lemma_rejection_is_final(init, src, k + 1);
                        }
                        return Statuses::Failure;
                    }
                    let idx = pc as usize;
                    if c == '[' {
                        self.instructions[idx] = Instruction {
                            operator: Op::JmpFwd,
                            operand: self.instructions[idx].operand,
                        };
                        match self.stack.push(pc) {
                            Ok(_) => {},
                            Err(_) => {
                                proof {
                                    lemma_rejection_is_final(init, src, k + 1);
                                }
                                return Statuses::Failure;
                            },
                        }
                    } else if c == ']' {
                        match self.stack.pop() {
                            Ok(jmp_pc) => {
                                self.instructions[idx] = Instruction {
                                    operator: Op::JmpBck,
                                    operand: jmp_pc,
                                };
                                self.instructions[jmp_pc as usize] = Instruction {
                                    operator: self.instructions[jmp_pc as usize].operator,
                                    operand: pc,
                                };
                            },
                            Err(_) => {
                                proof {
                                    lemma_rejection_is_final(init, src, k + 1);
                                }
                                return Statuses::Failure;
                            },
                        }
                    } else {
                        self.instructions[idx] = Instruction {
                            operator: op,
                            operand: self.instructions[idx].operand,
                        };
                    }
                    pc = pc + 1;
                },
            }
        }
        proof {
            assert(src.take(src.len() as int) =~= src);
            self.stack.lemma_bounded();
        }
        if !self.stack.is_empty() || pc as usize == PROGRAM_SIZE {
            return Statuses::Failure;
        }
        self.instructions[pc as usize] = Instruction {
            operator: Op::End,
            operand: self.instructions[pc as usize].operand,
        };
        Statuses::Success
    }
}

} // verus!
