use tapevm::compiler::Program;
use tapevm::instruction::{Instruction, Op, Statuses};

fn ins(operator: Op, operand: u16) -> Option<Instruction> {
    Some(Instruction { operator, operand })
}

#[test]
fn default_instruction_is_terminator() {
    assert_eq!(Instruction::default(), Instruction { operator: Op::End, operand: 0 });
}

#[test]
fn new_program_is_all_terminators() {
    let p = Program::new();
    for i in 0..4096usize {
        assert_eq!(p.get(i), ins(Op::End, 0));
    }
    assert_eq!(p.get(4096), None);
}

#[test]
fn symbols_map_to_operators() {
    assert_eq!(Op::from_symbol('>'), Some(Op::IncDp));
    assert_eq!(Op::from_symbol('<'), Some(Op::DecDp));
    assert_eq!(Op::from_symbol('+'), Some(Op::IncVal));
    assert_eq!(Op::from_symbol('-'), Some(Op::DecVal));
    assert_eq!(Op::from_symbol('.'), Some(Op::Out));
    assert_eq!(Op::from_symbol(','), Some(Op::In));
    assert_eq!(Op::from_symbol('['), Some(Op::JmpFwd));
    assert_eq!(Op::from_symbol(']'), Some(Op::JmpBck));
    assert_eq!(Op::from_symbol(' '), None);
    assert_eq!(Op::from_symbol('a'), None);
    assert_eq!(Op::from_symbol('\u{e9}'), None);
}

#[test]
fn empty_source_compiles_to_single_terminator() {
    let mut p = Program::new();
    assert_eq!(p.compile(&String::from("")), Statuses::Success);
    assert_eq!(p.get(0), ins(Op::End, 0));
}

#[test]
fn every_symbol_takes_one_slot_in_order() {
    let mut p = Program::new();
    assert_eq!(p.compile(&String::from("><+-.,")), Statuses::Success);
    assert_eq!(p.get(0), ins(Op::IncDp, 0));
    assert_eq!(p.get(1), ins(Op::DecDp, 0));
    assert_eq!(p.get(2), ins(Op::IncVal, 0));
    assert_eq!(p.get(3), ins(Op::DecVal, 0));
    assert_eq!(p.get(4), ins(Op::Out, 0));
    assert_eq!(p.get(5), ins(Op::In, 0));
    assert_eq!(p.get(6), ins(Op::End, 0));
}

#[test]
fn other_characters_take_no_slot() {
    let mut p = Program::new();
    let src = String::from("  \n+ add one\t\u{e9}\u{4e16}+\r\n  ");
    assert_eq!(p.compile(&src), Statuses::Success);
    assert_eq!(p.get(0), ins(Op::IncVal, 0));
    assert_eq!(p.get(1), ins(Op::IncVal, 0));
    assert_eq!(p.get(2), ins(Op::End, 0));
}

#[test]
fn loop_delimiters_name_each_other() {
    let mut p = Program::new();
    assert_eq!(p.compile(&String::from("++[-]")), Statuses::Success);
    assert_eq!(p.get(2), ins(Op::JmpFwd, 4));
    assert_eq!(p.get(3), ins(Op::DecVal, 0));
    assert_eq!(p.get(4), ins(Op::JmpBck, 2));
    assert_eq!(p.get(5), ins(Op::End, 0));
}

#[test]
fn nested_loops_are_paired_inside_out() {
    let mut p = Program::new();
    assert_eq!(p.compile(&String::from("[[]+[]]")), Statuses::Success);
    assert_eq!(p.get(0), ins(Op::JmpFwd, 6));
    assert_eq!(p.get(1), ins(Op::JmpFwd, 2));
    assert_eq!(p.get(2), ins(Op::JmpBck, 1));
    assert_eq!(p.get(3), ins(Op::IncVal, 0));
    assert_eq!(p.get(4), ins(Op::JmpFwd, 5));
    assert_eq!(p.get(5), ins(Op::JmpBck, 4));
    assert_eq!(p.get(6), ins(Op::JmpBck, 0));
    assert_eq!(p.get(7), ins(Op::End, 0));
}

#[test]
fn every_jump_of_a_balanced_source_is_mutually_linked() {
    let src = String::from("+[>[-]<[[+]>]-]>[.[,]]");
    let mut p = Program::new();
    assert_eq!(p.compile(&src), Statuses::Success);
    let n = src.len();
    let mut jumps = 0;
    for i in 0..n {
        let here = p.get(i).unwrap();
        match here.operator {
            Op::JmpFwd => {
                let there = p.get(here.operand as usize).unwrap();
                assert!((here.operand as usize) > i && (here.operand as usize) < n);
                assert_eq!(there, Instruction { operator: Op::JmpBck, operand: i as u16 });
                jumps += 1;
            }
            Op::JmpBck => {
                let there = p.get(here.operand as usize).unwrap();
                assert!((here.operand as usize) < i);
                assert_eq!(there, Instruction { operator: Op::JmpFwd, operand: i as u16 });
                jumps += 1;
            }
            _ => {}
        }
    }
    assert_eq!(jumps, 12);
}

#[test]
fn unmatched_loop_end_fails() {
    let mut p = Program::new();
    assert_eq!(p.compile(&String::from("]")), Statuses::Failure);
    let mut q = Program::new();
    assert_eq!(q.compile(&String::from("+[-]]+[")), Statuses::Failure);
    let mut r = Program::new();
    assert_eq!(r.compile(&String::from("][")), Statuses::Failure);
}

#[test]
fn unmatched_loop_start_fails() {
    let mut p = Program::new();
    assert_eq!(p.compile(&String::from("[")), Statuses::Failure);
    let mut q = Program::new();
    assert_eq!(q.compile(&String::from("[[-]")), Statuses::Failure);
}

#[test]
fn nesting_of_512_compiles_and_513_fails() {
    let deep = format!("{}{}", "[".repeat(512), "]".repeat(512));
    let mut p = Program::new();
    assert_eq!(p.compile(&deep), Statuses::Success);
    assert_eq!(p.get(0), ins(Op::JmpFwd, 1023));
    assert_eq!(p.get(511), ins(Op::JmpFwd, 512));
    assert_eq!(p.get(512), ins(Op::JmpBck, 511));
    assert_eq!(p.get(1023), ins(Op::JmpBck, 0));

    let deeper = format!("{}{}", "[".repeat(513), "]".repeat(513));
    let mut q = Program::new();
    assert_eq!(q.compile(&deeper), Statuses::Failure);
}

#[test]
fn source_must_leave_room_for_the_terminator() {
    let mut p = Program::new();
    assert_eq!(p.compile(&"+".repeat(4095)), Statuses::Success);
    assert_eq!(p.get(4094), ins(Op::IncVal, 0));
    assert_eq!(p.get(4095), ins(Op::End, 0));

    let mut q = Program::new();
    assert_eq!(q.compile(&"+".repeat(4096)), Statuses::Failure);

    let mut r = Program::new();
    assert_eq!(r.compile(&"+".repeat(65536)), Statuses::Failure);

    let mut s = Program::new();
    let padded = format!("{}{}", "+ ".repeat(4095), "   ");
    assert_eq!(s.compile(&padded), Statuses::Success);
}

#[test]
fn recompiling_overwrites_from_slot_zero() {
    let mut p = Program::new();
    assert_eq!(p.compile(&String::from("+++.")), Statuses::Success);
    assert_eq!(p.compile(&String::from("-")), Statuses::Success);
    assert_eq!(p.get(0), ins(Op::DecVal, 0));
    assert_eq!(p.get(1), ins(Op::End, 0));
    assert_eq!(p.get(2), ins(Op::IncVal, 0));
    assert_eq!(p.get(3), ins(Op::Out, 0));
}
