//! What holds of every run of a compiled program: the program counter stays
//! within the program, and a run fails exactly by leaving the tape.

use vstd::prelude::*;
use crate::instruction::{Instruction, Op, Statuses, DATA_SIZE, PROGRAM_SIZE};
use crate::machine::{halt_status, receive_spec, run_spec, step_spec, Event, Stop, Vm};
use crate::nesting::{linked, paired};

verus! {

/// `code` holds a program of `n` instructions: every jump among them is
/// paired, and a terminator stands behind them.
pub open spec fn holds_program(code: Seq<Instruction>, n: int) -> bool {
    &&& 0 <= n < PROGRAM_SIZE
    &&& code.len() == PROGRAM_SIZE
    &&& code[n].operator == Op::End
    &&& linked(code, n)
}

/// The machine stands within the program and its tape is whole.
pub open spec fn within(vm: Vm, n: int) -> bool {
    vm.pc <= n && vm.tape.len() == DATA_SIZE
}

/// A step of a program leaves the machine within the program. It halts
/// with a failure exactly when the data pointer is off the tape, and with a
/// success exactly when the pointer is on the tape and the machine is at a
/// terminator. A step that does not halt starts before the terminator.
pub proof fn lemma_step_within_program(code: Seq<Instruction>, n: int, vm: Vm)
    requires
        holds_program(code, n),
        within(vm, n),
    ensures
        within(step_spec(code, vm).0, n),
        step_spec(code, vm).1 == Event::Halt(Statuses::Failure) <==> vm.ptr >= DATA_SIZE,
        step_spec(code, vm).1 == Event::Halt(Statuses::Success) <==> vm.ptr < DATA_SIZE
            && code[vm.pc as int].operator == Op::End,
        step_spec(code, vm).1 is Halt || vm.pc < n,
{
    if vm.pc < n {
        assert(paired(code, n, vm.pc as int));
    }
}

/// A step that increments or decrements a cell does so modulo 65536.
pub proof fn lemma_cells_wrap(code: Seq<Instruction>, vm: Vm)
    requires
        halt_status(code, vm) is None,
        vm.tape.len() == DATA_SIZE,
    ensures
        code[vm.pc as int].operator == Op::IncVal ==> step_spec(code, vm).0.tape[vm.ptr as int] == (
        vm.tape[vm.ptr as int] + 1) % 65536,
        code[vm.pc as int].operator == Op::DecVal ==> step_spec(code, vm).0.tape[vm.ptr as int] == (
        vm.tape[vm.ptr as int] - 1) % 65536,
{
}

/// A run of a program ends within the program. If it ends with a failure,
/// the data pointer is off the tape; if the pointer is off the tape at the
/// end, the run has failed or was out of fuel. If it ends with a success,
/// the machine is at a terminator with the pointer on the tape.
pub proof fn lemma_run_within_program(
    code: Seq<Instruction>,
    n: int,
    vm: Vm,
    input: Seq<u8>,
    consumed: int,
    output: Seq<char>,
    fuel: nat,
)
    requires
        holds_program(code, n),
        within(vm, n),
    ensures
        ({
            let t = run_spec(code, vm, input, consumed, output, fuel);
            &&& within(t.vm, n)
            &&& t.stop == Stop::Done(Statuses::Failure) ==> t.vm.ptr >= DATA_SIZE
            &&& t.vm.ptr >= DATA_SIZE ==> t.stop == Stop::Done(Statuses::Failure) || t.stop
                == Stop::OutOfFuel
            &&& t.stop == Stop::Done(Statuses::Success) ==> t.vm.ptr < DATA_SIZE
                && code[t.vm.pc as int].operator == Op::End
        }),
    decreases fuel,
{
    if fuel > 0 {
        lemma_step_within_program(code, n, vm);
        let (next, event) = step_spec(code, vm);
        let rest = (fuel - 1) as nat;
        match event {
            Event::Continue => {
                lemma_run_within_program(code, n, next, input, consumed, output, rest);
            },
            Event::Output(c) => {
                lemma_run_within_program(code, n, next, input, consumed, output.push(c), rest);
            },
            Event::Input => {
                if consumed + 2 <= input.len() {
                    let fed = receive_spec(vm, input[consumed], input[consumed + 1]);
                    assert(within(fed, n));
                    lemma_run_within_program(code, n, fed, input, consumed + 2, output, rest);
                }
            },
            Event::InvalidOutput(_) => {},
            Event::Halt(_) => {},
        }
    }
}

} // verus!
