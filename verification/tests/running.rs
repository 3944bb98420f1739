use boa::ast::Expr;
use boa::codegen::compile_to_instrs;
use boa::emulate::{execute, Emulator};
use boa::instr::Instr::{IAdd, IMov, IMul, ISub};
use boa::instr::Reg::{RAX, RSP};
use boa::instr::Val::{Imm, Reg, RegOffset};
use boa::parse::parse_expr;
use boa::reader::read_tokens;
use im::HashMap;

fn value(source: &str) -> i64 {
    let expr = parse_expr(&read_tokens(source).unwrap()).unwrap();
    let env: HashMap<String, i32> = HashMap::new();
    let code = compile_to_instrs(&expr, 2, &env).unwrap();
    execute(&code).unwrap()
}

#[test]
fn number_literal_yields_itself() {
    for n in [0, 1, -1, 5, 42, 1000000, i32::MAX, i32::MIN, i32::MAX - 1, i32::MIN + 1] {
        let env: HashMap<String, i32> = HashMap::new();
        let code = compile_to_instrs(&Expr::Number(n), 2, &env).unwrap();
        assert_eq!(execute(&code), Some(n as i64));
        assert_eq!(value(&format!("{}", n)), n as i64);
    }
}

#[test]
fn inner_binding_shadows_outer_when_run() {
    assert_eq!(value("(let ((x 5)) (let ((x 6)) x))"), 6);
    assert_eq!(value("(let ((x 5)) (+ (let ((x 6)) x) x))"), 11);
    assert_eq!(value("(let ((x 5)) (let ((x (add1 x))) (* x x)))"), 36);
    assert_eq!(value("(let ((x 5)) (let ((y 6)) x))"), 5);
}

#[test]
fn arithmetic_when_run() {
    assert_eq!(value("(+ 1 2)"), 3);
    assert_eq!(value("(- 10 4)"), 6);
    assert_eq!(value("(* 3 4)"), 12);
    assert_eq!(value("(add1 5)"), 6);
    assert_eq!(value("(sub1 5)"), 4);
}

#[test]
fn subtraction_is_left_minus_right() {
    assert_eq!(value("(- 4 10)"), -6);
    assert_eq!(value("(- (- 10 4) 1)"), 5);
    assert_eq!(value("(- 10 (- 4 1))"), 7);
    assert_eq!(value("(- 0 -2147483648)"), 2147483648);
    assert_eq!(value("(let ((a 3) (b 8)) (- a b))"), -5);
}

#[test]
fn sibling_operands_do_not_collide() {
    assert_eq!(value("(+ (+ 1 2) (+ 3 4))"), 10);
    assert_eq!(value("(* (- 9 2) (- 2 9))"), -49);
    assert_eq!(value("(- (* (+ 1 2) (+ 3 4)) (* (- 5 6) (- 7 9)))"), 19);
    assert_eq!(value("(+ (let ((x 1) (y 2)) (+ x y)) (let ((x 10) (y 20)) (* x y)))"), 203);
}

#[test]
fn lets_when_run() {
    assert_eq!(value("(let ((x 5)) x)"), 5);
    assert_eq!(value("(let ((x 5) (y 6)) (+ x y))"), 11);
    assert_eq!(value("(let ((x 5) (y (add1 x)) (z (* x y))) (- z (+ x y)))"), 19);
    assert_eq!(value("(let ((x (let ((y 2)) (* y y)))) (add1 x))"), 5);
    assert_eq!(value("(* (let ((a 2)) (+ a 1)) (let ((b 4)) (sub1 b)))"), 9);
}

#[test]
fn words_wrap_around() {
    assert_eq!(value("(+ 2147483647 1)"), 2147483648);
    assert_eq!(value("(* 2147483647 2147483647)"), 4611686014132420609);
    let big: i64 = 4611686014132420609;
    assert_eq!(
        value("(let ((x (* 2147483647 2147483647))) (* x x))"),
        big.wrapping_mul(big)
    );
    assert_eq!(
        value("(let ((x (* 2147483647 2147483647))) (+ (+ x x) x))"),
        big.wrapping_add(big).wrapping_add(big)
    );
    assert_eq!(
        value("(let ((x (* 2147483647 -2147483648))) (- (+ x x) (- 0 x)))"),
        (2147483647i64 * -2147483648i64).wrapping_mul(3)
    );
}

#[test]
fn emulator_runs_step_by_step() {
    let mut emu = Emulator::new();
    assert_eq!(emu.acc, 0);
    assert!(emu.slots.is_empty());
    assert!(emu.step(&IMov(Reg(RAX), Imm(7))));
    assert_eq!(emu.acc, 7);
    assert!(emu.step(&IMov(RegOffset(RSP, -16), Reg(RAX))));
    assert_eq!(emu.slots.get(&2), Some(&7));
    assert!(emu.step(&IMov(Reg(RAX), Imm(-3))));
    assert!(emu.step(&IMul(Reg(RAX), RegOffset(RSP, -16))));
    assert_eq!(emu.acc, -21);
    assert!(emu.step(&ISub(RegOffset(RSP, -16), Reg(RAX))));
    assert_eq!(emu.slots.get(&2), Some(&28));
    assert!(emu.step(&IAdd(RegOffset(RSP, -16), Reg(RAX))));
    assert_eq!(emu.slots.get(&2), Some(&7));
    assert!(emu.step(&IAdd(Reg(RAX), Reg(RAX))));
    assert_eq!(emu.acc, -42);
    assert!(emu.step(&IMov(RegOffset(RSP, 8), Reg(RAX))));
    assert_eq!(emu.slots.get(&-1), Some(&-42));
    assert_eq!(emu.slots.len(), 2);
}

#[test]
fn emulator_refuses_what_has_no_meaning() {
    let mut emu = Emulator::new();
    assert!(emu.step(&IMov(Reg(RAX), Imm(1))));
    for instr in [
        IMov(Reg(RAX), RegOffset(RSP, -16)),
        IAdd(Reg(RAX), RegOffset(RSP, -16)),
        IMov(Reg(RSP), Imm(0)),
        IMov(Reg(RAX), Reg(RSP)),
        IMov(Imm(1), Reg(RAX)),
        IMov(RegOffset(RSP, -12), Reg(RAX)),
        IMov(RegOffset(RAX, -16), Reg(RAX)),
        IMov(RegOffset(RSP, -16), Imm(5)),
        IMov(RegOffset(RSP, -16), RegOffset(RSP, -24)),
        ISub(RegOffset(RSP, -16), Reg(RAX)),
        IMul(RegOffset(RSP, -16), Reg(RAX)),
    ] {
        assert!(!emu.step(&instr), "{:?}", instr);
        assert_eq!(emu.acc, 1);
        assert!(emu.slots.is_empty());
    }
    assert_eq!(execute(&vec![IMov(Reg(RAX), Imm(1)), IMov(Reg(RAX), RegOffset(RSP, -16))]), None);
    assert_eq!(execute(&vec![]), Some(0));
}

#[test]
fn run_stops_at_the_first_refusal() {
    let mut emu = Emulator::new();
    let code = vec![
        IMov(Reg(RAX), Imm(4)),
        IMov(RegOffset(RSP, -16), Reg(RAX)),
        IMov(Reg(RAX), RegOffset(RSP, -24)),
        IMov(Reg(RAX), Imm(9)),
    ];
    assert!(!emu.run(&code));
    let mut emu = Emulator::new();
    assert!(emu.run(&code[..2].to_vec()));
    assert_eq!(emu.acc, 4);
    assert_eq!(emu.slots.get(&2), Some(&4));
}

#[test]
fn code_leaves_lower_slots_alone() {
    let env: HashMap<String, i32> = HashMap::new();
    let env = env.update("x".to_string(), 4);
    let expr =
        parse_expr(&read_tokens("(let ((y (+ x 1)) (x 100)) (- (* x y) x))").unwrap()).unwrap();
    let code = compile_to_instrs(&expr, 6, &env).unwrap();
    let mut emu = Emulator::new();
    for slot in 0..6 {
        emu.slots.insert(slot, 1000 + slot);
    }
    assert!(emu.run(&code));
    assert_eq!(emu.acc, 100 * 1005 - 100);
    for slot in 0..6 {
        assert_eq!(emu.slots.get(&slot), Some(&(1000 + slot)));
    }
}
