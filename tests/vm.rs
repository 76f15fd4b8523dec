use regvm::instr::{Inst, Program, Value};
use regvm::vm::{RuntimeError, VM};

fn s(x: &str) -> String {
    x.to_string()
}

fn start(code: Vec<Inst>) -> VM {
    let p = Program::new(code);
    assert!(p.valid());
    VM::new(p)
}

fn run(code: Vec<Inst>) -> (Result<bool, (RuntimeError, usize)>, VM, Vec<u32>) {
    let mut vm = start(code);
    let mut out = Vec::new();
    let r = vm.run_program(10_000, &mut out);
    (r, vm, out)
}

fn text(out: &[u32]) -> String {
    out.iter().map(|n| n.to_string()).collect()
}

#[test]
fn add_and_display() {
    let (r, vm, out) = run(vec![
        Inst::MOV(0, Value::Imm(5)),
        Inst::MOV(1, Value::Imm(3)),
        Inst::ADD(0, Value::Reg(1)),
        Inst::DISPNUM(0),
        Inst::HLT,
    ]);
    assert_eq!(r, Ok(true));
    assert_eq!(text(&out), "8");
    assert!(vm.halted());
}

#[test]
fn divide_by_zero_keeps_register() {
    let (r, vm, out) = run(vec![
        Inst::MOV(0, Value::Imm(10)),
        Inst::MOV(1, Value::Imm(0)),
        Inst::DIV(0, Value::Reg(1)),
    ]);
    assert_eq!(r, Err((RuntimeError::DivByZero, 2)));
    assert_eq!(vm.register(0), Some(10));
    assert_eq!(vm.pc(), 2);
    assert!(out.is_empty());
}

#[test]
fn jump_skips_display() {
    let (r, _vm, out) = run(vec![
        Inst::JMP(s("end")),
        Inst::LBL(s("skip")),
        Inst::DISPNUM(0),
        Inst::LBL(s("end")),
        Inst::HLT,
    ]);
    assert_eq!(r, Ok(true));
    assert!(out.is_empty());
}

#[test]
fn hundred_and_first_push_overflows() {
    let mut code = Vec::new();
    for i in 0..101u32 {
        code.push(Inst::PUSH(Value::Imm(i)));
    }
    code.push(Inst::HLT);
    let (r, vm, _out) = run(code);
    assert_eq!(r, Err((RuntimeError::StackOverflow, 100)));
    assert_eq!(vm.stack_len(), 100);
}

#[test]
fn pop_on_empty_stack_underflows() {
    let (r, _vm, _out) = run(vec![Inst::POP(0), Inst::HLT]);
    assert_eq!(r, Err((RuntimeError::StackUnderflow, 0)));
    let (r, _vm, _out) = run(vec![Inst::HLT, Inst::RET]);
    assert_eq!(r, Ok(true));
    let (r, _vm, _out) = run(vec![Inst::RET]);
    assert_eq!(r, Err((RuntimeError::StackUnderflow, 0)));
}

#[test]
fn push_then_pop_round_trip() {
    let (r, vm, out) = run(vec![
        Inst::PUSH(Value::Imm(42)),
        Inst::PUSH(Value::Imm(7)),
        Inst::POP(2),
        Inst::POP(3),
        Inst::DISPNUM(2),
        Inst::DISPNUM(3),
        Inst::HLT,
    ]);
    assert_eq!(r, Ok(true));
    assert_eq!(out, vec![7, 42]);
    assert_eq!(vm.stack_len(), 0);
}

#[test]
fn falling_off_the_end() {
    let (r, _vm, _out) = run(vec![Inst::MOV(0, Value::Imm(1))]);
    assert_eq!(r, Err((RuntimeError::InvalidPointer, 1)));
    let (r, _vm, _out) = run(vec![]);
    assert_eq!(r, Err((RuntimeError::InvalidPointer, 0)));
}

#[test]
fn return_to_bad_address() {
    let (r, _vm, _out) = run(vec![Inst::PUSH(Value::Imm(50)), Inst::RET]);
    assert_eq!(r, Err((RuntimeError::InvalidPointer, 50)));
}

#[test]
fn call_returns_after_call() {
    let (r, vm, out) = run(vec![
        Inst::CALL(s("f")),
        Inst::DISPNUM(0),
        Inst::HLT,
        Inst::LBL(s("f")),
        Inst::MOV(0, Value::Imm(7)),
        Inst::RET,
    ]);
    assert_eq!(r, Ok(true));
    assert_eq!(out, vec![7]);
    assert_eq!(vm.pc(), 2);
    assert_eq!(vm.stack_len(), 0);
}

#[test]
fn call_overflow_reported_at_call() {
    let mut code = Vec::new();
    for _ in 0..100 {
        code.push(Inst::PUSH(Value::Imm(1)));
    }
    code.push(Inst::CALL(s("f")));
    code.push(Inst::LBL(s("f")));
    code.push(Inst::HLT);
    let (r, vm, _out) = run(code);
    assert_eq!(r, Err((RuntimeError::StackOverflow, 100)));
    assert_eq!(vm.pc(), 100);
}

#[test]
fn equality_flag_survives_jumps() {
    let (r, vm, out) = run(vec![
        Inst::EQ(Value::Imm(1), Value::Imm(1)),
        Inst::JMP(s("a")),
        Inst::LBL(s("a")),
        Inst::FJMP(s("no")),
        Inst::TJMP(s("b")),
        Inst::LBL(s("no")),
        Inst::HLT,
        Inst::LBL(s("b")),
        Inst::MOV(1, Value::Imm(3)),
        Inst::DISPNUM(1),
        Inst::HLT,
    ]);
    assert_eq!(r, Ok(true));
    assert_eq!(out, vec![3]);
    assert!(vm.eq_flag());
}

#[test]
fn false_flag_takes_false_jump() {
    let (r, vm, out) = run(vec![
        Inst::EQ(Value::Imm(1), Value::Imm(2)),
        Inst::TJMP(s("yes")),
        Inst::FJMP(s("no")),
        Inst::LBL(s("yes")),
        Inst::DISPNUM(0),
        Inst::LBL(s("no")),
        Inst::HLT,
    ]);
    assert_eq!(r, Ok(true));
    assert!(out.is_empty());
    assert!(!vm.eq_flag());
}

#[test]
fn halt_stops_everything() {
    let (r, vm, out) = run(vec![Inst::HLT, Inst::DISPNUM(0), Inst::DIV(0, Value::Imm(0))]);
    assert_eq!(r, Ok(true));
    assert!(out.is_empty());
    assert_eq!(vm.pc(), 0);
    let mut vm = vm;
    let mut more = Vec::new();
    assert_eq!(vm.run_program(5, &mut more), Ok(true));
    assert!(more.is_empty());
}

#[test]
fn division_quotient_and_remainder() {
    let (r, vm, _out) = run(vec![Inst::MOV(0, Value::Imm(17)), Inst::DIV(0, Value::Imm(5)), Inst::HLT]);
    assert_eq!(r, Ok(true));
    assert_eq!(vm.register(0), Some(3));
    assert_eq!(vm.remainder(), 2);
}

#[test]
fn arithmetic_wraps() {
    let (r, vm, _out) = run(vec![
        Inst::MOV(0, Value::Imm(u32::MAX)),
        Inst::ADD(0, Value::Imm(2)),
        Inst::SUB(1, Value::Imm(1)),
        Inst::MOV(2, Value::Imm(0x8000_0000)),
        Inst::MUL(2, Value::Imm(4)),
        Inst::MOV(3, Value::Imm(0x1234_5678)),
        Inst::MUL(3, Value::Imm(16)),
        Inst::HLT,
    ]);
    assert_eq!(r, Ok(true));
    assert_eq!(vm.register(0), Some(1));
    assert_eq!(vm.register(1), Some(u32::MAX));
    assert_eq!(vm.register(2), Some(0));
    assert_eq!(vm.register(3), Some(0x2345_6780));
}

#[test]
fn bitwise_and_shifts() {
    let (r, vm, _out) = run(vec![
        Inst::MOV(0, Value::Imm(0b1100)),
        Inst::AND(0, Value::Imm(0b1010)),
        Inst::MOV(1, Value::Imm(0b1100)),
        Inst::OR(1, Value::Imm(0b1010)),
        Inst::MOV(2, Value::Imm(0b1100)),
        Inst::XOR(2, Value::Imm(0b1010)),
        Inst::NOT(3),
        Inst::MOV(4, Value::Imm(1)),
        Inst::LSFT(4, Value::Imm(33)),
        Inst::LSFT(4, Value::Imm(4)),
        Inst::RSFT(4, Value::Imm(1)),
        Inst::HLT,
    ]);
    assert_eq!(r, Ok(true));
    assert_eq!(vm.register(0), Some(0b1000));
    assert_eq!(vm.register(1), Some(0b1110));
    assert_eq!(vm.register(2), Some(0b0110));
    assert_eq!(vm.register(3), Some(u32::MAX));
    assert_eq!(vm.register(4), Some(16));
    assert_eq!(vm.register(5), None);
}

#[test]
fn register_four_is_usable() {
    let (r, _vm, out) = run(vec![Inst::MOV(4, Value::Imm(9)), Inst::DISPNUM(4), Inst::HLT]);
    assert_eq!(r, Ok(true));
    assert_eq!(out, vec![9]);
}

#[test]
fn budget_pauses_and_resumes() {
    let mut vm = start(vec![
        Inst::LBL(s("top")),
        Inst::ADD(0, Value::Imm(1)),
        Inst::JMP(s("top")),
    ]);
    let mut out = Vec::new();
    assert_eq!(vm.run_program(7, &mut out), Ok(false));
    assert_eq!(vm.register(0), Some(2));
    assert_eq!(vm.pc(), 1);
    assert_eq!(vm.run_program(3, &mut out), Ok(false));
    assert_eq!(vm.register(0), Some(3));
}

#[test]
fn execute_one_step() {
    let mut vm = start(vec![Inst::MOV(0, Value::Imm(6)), Inst::DISPNUM(0), Inst::HLT]);
    assert_eq!(vm.execute(), Ok(None));
    assert_eq!(vm.execute(), Ok(Some(6)));
    assert_eq!(vm.execute(), Ok(None));
    assert!(vm.halted());
    assert_eq!(vm.pc(), 2);
}
