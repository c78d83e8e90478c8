//! The virtual machine: a tape of 16-bit cells, a data pointer and a
//! program counter, advanced one instruction at a time.

use vstd::prelude::*;
use crate::compiler::Program;
use crate::instruction::{Instruction, Op, Statuses, DATA_SIZE, PROGRAM_SIZE};

verus! {

/// The state of a machine as plain values.
pub struct Vm {
    pub tape: Seq<u16>,
    pub pc: u16,
    pub ptr: u32,
}

/// What the machine asks of its surroundings after a step.
#[derive(PartialEq, Eq, Structural, Clone, Copy, Debug)]
pub enum Event {
    /// An instruction ran and needs nothing.
    Continue,
    /// An instruction ran and emits this character.
    Output(char),
    /// The current cell was to be emitted but is no Unicode scalar value.
    /// The machine has not moved.
    InvalidOutput(u16),
    /// The machine waits for two bytes, to be handed over with `receive`.
    Input,
    /// The run is over. The machine has not moved.
    Halt(Statuses),
}

/// Why a run ended.
#[derive(PartialEq, Eq, Structural, Clone, Copy, Debug)]
pub enum Stop {
    /// The machine halted with this status.
    Done(Statuses),
    /// A cell that is no Unicode scalar value was to be emitted.
    InvalidOutput,
    /// Fewer than two bytes of input were left when two were asked for.
    InputExhausted,
    /// The budget of steps ran out first.
    OutOfFuel,
}

/// The machine before its first step.
pub open spec fn initial() -> Vm {
    Vm { tape: Seq::new(DATA_SIZE as nat, |i: int| 0u16), pc: 0, ptr: 0 }
}

/// Whether a cell value is a Unicode scalar value, that is, no surrogate.
pub open spec fn is_scalar(v: u16) -> bool {
    v < 0xD800 || v > 0xDFFF
}

/// The status with which the machine halts in state `vm`, if it does. It
/// fails when the data pointer is off the tape, be it one past the last
/// cell or wrapped around below the first, and when the program counter is
/// outside the array. It succeeds at a terminator with the data pointer on
/// the tape.
pub open spec fn halt_status(code: Seq<Instruction>, vm: Vm) -> Option<Statuses> {
    if vm.pc >= PROGRAM_SIZE || vm.ptr >= DATA_SIZE {
        Some(Statuses::Failure)
    } else if code[vm.pc as int].operator == Op::End {
        Some(Statuses::Success)
    } else {
        None
    }
}

/// One step of the machine: the state after it and what it asks for. The
/// program counter advances by one after every instruction that runs, also
/// after a jump that was taken, and wraps; pointer and cells wrap as well.
pub open spec fn step_spec(code: Seq<Instruction>, vm: Vm) -> (Vm, Event) {
    if let Some(status) = halt_status(code, vm) {
        (vm, Event::Halt(status))
    } else {
        let ins = code[vm.pc as int];
        let cell = vm.tape[vm.ptr as int];
        let next = vm.pc.wrapping_add(1);
        match ins.operator {
            Op::IncDp => (Vm { ptr: vm.ptr.wrapping_add(1), pc: next, ..vm }, Event::Continue),
            Op::DecDp => (Vm { ptr: vm.ptr.wrapping_sub(1), pc: next, ..vm }, Event::Continue),
            Op::IncVal => (
                Vm { tape: vm.tape.update(vm.ptr as int, cell.wrapping_add(1)), pc: next, ..vm },
                Event::Continue,
            ),
            Op::DecVal => (
                Vm { tape: vm.tape.update(vm.ptr as int, cell.wrapping_sub(1)), pc: next, ..vm },
                Event::Continue,
            ),
            Op::Out => if is_scalar(cell) {
                (Vm { pc: next, ..vm }, Event::Output(cell as char))
            } else {
                (vm, Event::InvalidOutput(cell))
            },
            Op::In => (vm, Event::Input),
            Op::JmpFwd => (
                Vm {
                    pc: if cell == 0 {
                        ins.operand.wrapping_add(1)
                    } else {
                        next
                    },
                    ..vm
                },
                Event::Continue,
            ),
            Op::JmpBck => (
                Vm {
                    pc: if cell != 0 {
                        ins.operand.wrapping_add(1)
                    } else {
                        next
                    },
                    ..vm
                },
                Event::Continue,
            ),
            Op::End => (vm, Event::Halt(Statuses::Failure)),
        }
    }
}

/// The state after the machine was handed the bytes `hi` and `lo`: the
/// current cell holds them as a big-endian value and the program counter
/// has advanced. With the data pointer off the tape nothing changes.
pub open spec fn receive_spec(vm: Vm, hi: u8, lo: u8) -> Vm {
    if vm.ptr < DATA_SIZE {
        Vm {
            tape: vm.tape.update(vm.ptr as int, (hi * 256 + lo) as u16),
            pc: vm.pc.wrapping_add(1),
            ..vm
        }
    } else {
        vm
    }
}

/// A run in progress or ended, as plain values: the machine, what was
/// emitted, how many bytes of input were taken, and why it ended.
pub struct Trace {
    pub vm: Vm,
    pub output: Seq<char>,
    pub consumed: int,
    pub stop: Stop,
}

/// The run of at most `fuel` steps from `vm`, with `output` already emitted
/// and the first `consumed` bytes of `input` already taken. The step that
/// finds the machine halted counts as one.
pub open spec fn run_spec(
    code: Seq<Instruction>,
    vm: Vm,
    input: Seq<u8>,
    consumed: int,
    output: Seq<char>,
    fuel: nat,
) -> Trace
    decreases fuel,
{
    if fuel == 0 {
        Trace { vm, output, consumed, stop: Stop::OutOfFuel }
    } else {
        let (next, event) = step_spec(code, vm);
        match event {
            Event::Continue => run_spec(code, next, input, consumed, output, (fuel - 1) as nat),
            Event::Output(c) => run_spec(
                code,
                next,
                input,
                consumed,
                output.push(c),
                (fuel - 1) as nat,
            ),
            Event::InvalidOutput(_) => Trace { vm, output, consumed, stop: Stop::InvalidOutput },
            Event::Input => if consumed + 2 <= input.len() {
                run_spec(
                    code,
                    receive_spec(vm, input[consumed], input[consumed + 1]),
                    input,
                    consumed + 2,
                    output,
                    (fuel - 1) as nat,
                )
            } else {
                Trace { vm, output, consumed, stop: Stop::InputExhausted }
            },
            Event::Halt(status) => Trace { vm, output, consumed, stop: Stop::Done(status) },
        }
    }
}

/// `char::from_u32` of std: the character with the code `v`, which exists
/// exactly when `v` is at most 0x10FFFF and no surrogate.
#[verifier::external_body]
fn scalar(v: u32) -> (r: Option<char>)
    ensures
        r == (if v < 0xD800 || (0xDFFF < v && v <= 0x10FFFF) {
            Some(v as char)
        } else {
            None
        }),
{
    char::from_u32(v)
}

/// A tape with its data pointer and a program counter.
pub struct Machine {
    data: [u16; DATA_SIZE],
    pc: u16,
    ptr: u32,
}

impl Machine {
    /// The state as plain values.
    pub closed spec fn view(&self) -> Vm {
        Vm { tape: self.data@, pc: self.pc, ptr: self.ptr }
    }

    /// The tape of a machine has `DATA_SIZE` cells.
    pub proof fn lemma_tape_whole(&self)
        ensures
            self@.tape.len() == DATA_SIZE,
    {
    }

    /// A machine with a zeroed tape, at cell 0 and instruction 0.
    pub fn new() -> (m: Machine)
        ensures
            m@ == initial(),
    {
        let m = Machine { data: [0u16;DATA_SIZE], pc: 0, ptr: 0 };
        assert(m@.tape =~= initial().tape);
        m
    }

    /// The program counter.
    pub fn pc(&self) -> (r: u16)
        ensures
            r == self@.pc,
    {
        self.pc
    }

    /// The data pointer.
    pub fn ptr(&self) -> (r: u32)
        ensures
            r == self@.ptr,
    {
        self.ptr
    }

    /// The cell at `index`, if the tape has one there.
    pub fn cell(&self, index: usize) -> (r: Option<u16>)
        ensures
            r == (if index < DATA_SIZE {
                Some(self@.tape[index as int])
            } else {
                None
            }),
    {
        if index < DATA_SIZE {
            Some(self.data[index])
        } else {
            None
        }
    }

    /// Hands the machine two bytes of input, most significant first.
    pub fn receive(&mut self, hi: u8, lo: u8)
        ensures
            final(self)@ == receive_spec(old(self)@, hi, lo),
    {
        if self.ptr < DATA_SIZE as u32 {
            let value: u16 = (hi as u16) * 256 + (lo as u16);
            self.data[self.ptr as usize] = value;
            self.pc = self.pc.wrapping_add(1);
        }
    }
}

/// A run that has ended.
pub struct Execution {
    /// The machine as the run left it.
    pub machine: Machine,
    /// The characters emitted, in order.
    pub output: Vec<char>,
    /// The number of input bytes taken.
    pub consumed: usize,
    /// Why the run ended.
    pub stop: Stop,
}

impl Execution {
    /// The run as plain values.
    pub open spec fn view(&self) -> Trace {
        Trace {
            vm: self.machine@,
            output: self.output@,
            consumed: self.consumed as int,
            stop: self.stop,
        }
    }
}

impl Program {
    /// Runs the program on a fresh machine for at most `fuel` steps, with
    /// `input` in place of an input stream, and collects what it emits.
    pub fn execute(&self, input: &Vec<u8>, fuel: u64) -> (r: Execution)
        ensures
            r@ == run_spec(self.code(), initial(), input@, 0, Seq::empty(), fuel as nat),
    {
        let mut machine = Machine::new();
        let mut output: Vec<char> = Vec::new();
        let mut consumed: usize = 0;
        let mut left: u64 = fuel;
        while left > 0
            invariant
                consumed <= input.len(),
                run_spec(self.code(), initial(), input@, 0, Seq::empty(), fuel as nat) == run_spec(
                    self.code(),
                    machine@,
                    input@,
                    consumed as int,
                    output@,
                    left as nat,
                ),
            decreases left,
        {
            match self.step(&mut machine) {
                Event::Continue => {},
                Event::Output(c) => {
                    output.push(c);
                },
                Event::InvalidOutput(_) => {
                    return Execution { machine, output, consumed, stop: Stop::InvalidOutput };
                },
                Event::Input => {
                    if input.len() - consumed < 2 {
                        return Execution { machine, output, consumed, stop: Stop::InputExhausted };
                    }
                    machine.receive(input[consumed], input[consumed + 1]);
                    consumed = consumed + 2;
                },
                Event::Halt(status) => {
                    return Execution { machine, output, consumed, stop: Stop::Done(status) };
                },
            }
            left = left - 1;
        }
        Execution { machine, output, consumed, stop: Stop::OutOfFuel }
    }

    /// Runs one instruction of the program on `m`, or reports why none ran.
    pub fn step(&self, m: &mut Machine) -> (e: Event)
        ensures
            (final(m)@, e) == step_spec(self.code(), old(m)@),
    {
        let ins = match self.get(m.pc as usize) {
            Some(ins) => ins,
            None => {
                return Event::Halt(Statuses::Failure);
            },
        };
        if m.ptr >= DATA_SIZE as u32 {
            return Event::Halt(Statuses::Failure);
        }
        if ins.operator == Op::End {
            return Event::Halt(Statuses::Success);
        }
        let at = m.ptr as usize;
        let cell = m.data[at];
        let next = m.pc.wrapping_add(1);
        match ins.operator {
            Op::IncDp => {
                m.ptr = m.ptr.wrapping_add(1);
                m.pc = next;
                Event::Continue
            },
            Op::DecDp => {
                m.ptr = m.ptr.wrapping_sub(1);
                m.pc = next;
                Event::Continue
            },
            Op::IncVal => {
                m.data[at] = cell.wrapping_add(1);
                m.pc = next;
                Event::Continue
            },
            Op::DecVal => {
                m.data[at] = cell.wrapping_sub(1);
                m.pc = next;
                Event::Continue
            },
            Op::Out => match scalar(cell as u32) {
                Some(c) => {
                    m.pc = next;
                    Event::Output(c)
                },
                None => Event::InvalidOutput(cell),
            },
            Op::In => Event::Input,
            Op::JmpFwd => {
                if cell == 0 {
                    m.pc = ins.operand.wrapping_add(1);
                } else {
                    m.pc = next;
                }
                Event::Continue
            },
            Op::JmpBck => {
                if cell != 0 {
                    m.pc = ins.operand.wrapping_add(1);
                } else {
                    m.pc = next;
                }
                Event::Continue
            },
            Op::End => Event::Halt(Statuses::Failure),
        }
    }
}

} // verus!
