use tapevm::compiler::Program;
use tapevm::instruction::Statuses;
use tapevm::machine::{Event, Execution, Machine, Stop};

fn run(src: &str, input: &[u8], fuel: u64) -> Execution {
    let mut p = Program::new();
    assert_eq!(p.compile(&String::from(src)), Statuses::Success);
    p.execute(&input.to_vec(), fuel)
}

#[test]
fn new_machine_is_zeroed() {
    let m = Machine::new();
    assert_eq!(m.pc(), 0);
    assert_eq!(m.ptr(), 0);
    assert_eq!(m.cell(0), Some(0));
    assert_eq!(m.cell(65534), Some(0));
    assert_eq!(m.cell(65535), None);
}

#[test]
fn three_increments_then_output_emits_etx() {
    let r = run("+++.", &[], 1000);
    assert_eq!(r.stop, Stop::Done(Statuses::Success));
    assert_eq!(r.output, vec!['\u{3}']);
    assert_eq!(r.machine.cell(0), Some(3));
    assert_eq!(r.machine.pc(), 4);
}

#[test]
fn empty_program_succeeds_without_output() {
    let r = run("", &[], 1);
    assert_eq!(r.stop, Stop::Done(Statuses::Success));
    assert!(r.output.is_empty());
    assert_eq!(r.consumed, 0);
    assert_eq!(r.machine.pc(), 0);
}

#[test]
fn cell_wraps_to_zero_after_65536_increments() {
    let r = run("+[+]", &[], 1_000_000);
    assert_eq!(r.stop, Stop::Done(Statuses::Success));
    assert_eq!(r.machine.cell(0), Some(0));
    assert_eq!(r.machine.pc(), 4);
}

#[test]
fn cell_wraps_below_zero() {
    let r = run("-", &[], 10);
    assert_eq!(r.stop, Stop::Done(Statuses::Success));
    assert_eq!(r.machine.cell(0), Some(65535));
    let r = run("-+", &[], 10);
    assert_eq!(r.machine.cell(0), Some(0));
}

#[test]
fn loop_counts_cell_down_to_zero() {
    let r = run("++[-]", &[], 1000);
    assert_eq!(r.stop, Stop::Done(Statuses::Success));
    assert_eq!(r.machine.cell(0), Some(0));
    assert_eq!(r.machine.pc(), 5);
    assert!(r.output.is_empty());
}

#[test]
fn loop_is_skipped_when_cell_is_zero() {
    let r = run("[+++]>+", &[], 1000);
    assert_eq!(r.stop, Stop::Done(Statuses::Success));
    assert_eq!(r.machine.cell(0), Some(0));
    assert_eq!(r.machine.cell(1), Some(1));
}

#[test]
fn nested_loops_multiply() {
    let r = run("+++[>++[>+<-]<-]", &[], 10_000);
    assert_eq!(r.stop, Stop::Done(Statuses::Success));
    assert_eq!(r.machine.cell(0), Some(0));
    assert_eq!(r.machine.cell(1), Some(0));
    assert_eq!(r.machine.cell(2), Some(6));
}

#[test]
fn running_off_the_tape_fails() {
    let r = run("+[>+]", &[], 1_000_000);
    assert_eq!(r.stop, Stop::Done(Statuses::Failure));
    assert_eq!(r.machine.ptr(), 65535);
    assert_eq!(r.machine.cell(65534), Some(1));
}

#[test]
fn pointer_wrapped_below_zero_fails() {
    let r = run("<+", &[], 10);
    assert_eq!(r.stop, Stop::Done(Statuses::Failure));
    assert_eq!(r.machine.ptr(), u32::MAX);
    assert_eq!(r.machine.pc(), 1);
    assert_eq!(r.machine.cell(0), Some(0));
}

#[test]
fn input_is_read_big_endian() {
    let r = run(",>,", &[0x01, 0x02, 0xff, 0xfe], 10);
    assert_eq!(r.stop, Stop::Done(Statuses::Success));
    assert_eq!(r.consumed, 4);
    assert_eq!(r.machine.cell(0), Some(258));
    assert_eq!(r.machine.cell(1), Some(0xfffe));
}

#[test]
fn input_is_echoed_as_characters() {
    let r = run(",.,.", &[0x00, 0x41, 0x4e, 0x16], 10);
    assert_eq!(r.stop, Stop::Done(Statuses::Success));
    assert_eq!(r.output, vec!['A', '\u{4e16}']);
}

#[test]
fn truncated_input_stops_the_run() {
    let r = run("+,", &[0x41], 10);
    assert_eq!(r.stop, Stop::InputExhausted);
    assert_eq!(r.consumed, 0);
    assert_eq!(r.machine.cell(0), Some(1));
    assert_eq!(r.machine.pc(), 1);
}

#[test]
fn surrogate_cell_cannot_be_emitted() {
    let r = run(",.", &[0xd8, 0x00], 10);
    assert_eq!(r.stop, Stop::InvalidOutput);
    assert!(r.output.is_empty());
    let r = run(",.", &[0xdf, 0xff], 10);
    assert_eq!(r.stop, Stop::InvalidOutput);
    let r = run(",.,.", &[0xd7, 0xff, 0xe0, 0x00], 10);
    assert_eq!(r.stop, Stop::Done(Statuses::Success));
    assert_eq!(r.output, vec!['\u{d7ff}', '\u{e000}']);
}

#[test]
fn endless_loop_runs_out_of_fuel() {
    let r = run("+[]", &[], 1001);
    assert_eq!(r.stop, Stop::OutOfFuel);
    assert_eq!(r.machine.cell(0), Some(1));
}

#[test]
fn halting_step_needs_fuel() {
    let r = run("+", &[], 1);
    assert_eq!(r.stop, Stop::OutOfFuel);
    assert_eq!(r.machine.cell(0), Some(1));
    let r = run("+", &[], 2);
    assert_eq!(r.stop, Stop::Done(Statuses::Success));
    let r = run("+", &[], 0);
    assert_eq!(r.stop, Stop::OutOfFuel);
    assert_eq!(r.machine.cell(0), Some(0));
}

#[test]
fn step_reports_each_event() {
    let mut p = Program::new();
    assert_eq!(p.compile(&String::from("+.,.>")), Statuses::Success);
    let mut m = Machine::new();
    assert_eq!(p.step(&mut m), Event::Continue);
    assert_eq!(m.cell(0), Some(1));
    assert_eq!(p.step(&mut m), Event::Output('\u{1}'));
    assert_eq!(m.pc(), 2);
    assert_eq!(p.step(&mut m), Event::Input);
    assert_eq!(m.pc(), 2);
    m.receive(0xdc, 0x00);
    assert_eq!(m.pc(), 3);
    assert_eq!(m.cell(0), Some(0xdc00));
    assert_eq!(p.step(&mut m), Event::InvalidOutput(0xdc00));
    assert_eq!(m.pc(), 3);
    m.receive(0x00, 0x7a);
    assert_eq!(p.step(&mut m), Event::Continue);
    assert_eq!(m.ptr(), 1);
    assert_eq!(p.step(&mut m), Event::Halt(Statuses::Success));
    assert_eq!(p.step(&mut m), Event::Halt(Statuses::Success));
    assert_eq!(m.pc(), 5);
}

#[test]
fn taken_jump_lands_behind_its_target() {
    let mut p = Program::new();
    assert_eq!(p.compile(&String::from("[+]+[-]")), Statuses::Success);
    let mut m = Machine::new();
    assert_eq!(p.step(&mut m), Event::Continue);
    assert_eq!(m.pc(), 3);
    assert_eq!(p.step(&mut m), Event::Continue);
    assert_eq!(m.cell(0), Some(1));
    assert_eq!(p.step(&mut m), Event::Continue);
    assert_eq!(m.pc(), 5);
    assert_eq!(p.step(&mut m), Event::Continue);
    assert_eq!(m.cell(0), Some(0));
    assert_eq!(p.step(&mut m), Event::Continue);
    assert_eq!(m.pc(), 7);
    assert_eq!(p.step(&mut m), Event::Halt(Statuses::Success));
}

#[test]
fn pointer_off_the_tape_fails_even_at_the_terminator() {
    let r = run("<", &[], 10);
    assert_eq!(r.stop, Stop::Done(Statuses::Failure));
    assert_eq!(r.machine.ptr(), u32::MAX);
    assert_eq!(r.machine.pc(), 1);
    assert!(r.output.is_empty());
}

#[test]
fn pointer_may_wrap_back_only_after_halting() {
    let mut p = Program::new();
    assert_eq!(p.compile(&String::from("<>+")), Statuses::Success);
    let mut m = Machine::new();
    assert_eq!(p.step(&mut m), Event::Continue);
    assert_eq!(m.ptr(), u32::MAX);
    assert_eq!(p.step(&mut m), Event::Halt(Statuses::Failure));
    assert_eq!(p.step(&mut m), Event::Halt(Statuses::Failure));
    assert_eq!(m.ptr(), u32::MAX);
    assert_eq!(m.pc(), 1);
    assert_eq!(m.cell(0), Some(0));
}

#[test]
fn receive_off_the_tape_changes_nothing() {
    let mut p = Program::new();
    assert_eq!(p.compile(&String::from("<")), Statuses::Success);
    let mut m = Machine::new();
    assert_eq!(p.step(&mut m), Event::Continue);
    assert_eq!(m.ptr(), u32::MAX);
    m.receive(1, 2);
    assert_eq!(m.pc(), 1);
    assert_eq!(m.cell(0), Some(0));
}
