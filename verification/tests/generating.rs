use boa::ast::{Expr, Op1, Op2};
use boa::codegen::{
    compile, compile_checked, compile_to_instrs, find_repeat, fits_frame, scope_fits, FIRST_SLOT,
    MAX_SLOT, MIN_SLOT,
};
use boa::error::CompileError;
use boa::instr::Instr::{IAdd, IMov, IMul, ISub};
use boa::instr::Reg::{RAX, RSP};
use boa::instr::Val::{Imm, Reg, RegOffset};
use boa::instr::Instr;
use boa::parse::parse_expr;
use boa::reader::read_tokens;
use im::HashMap;

fn parse_str(s: &str) -> Expr {
    parse_expr(&read_tokens(s).unwrap()).unwrap()
}

fn instrs(s: &str) -> Result<Vec<Instr>, CompileError> {
    let env: HashMap<String, i32> = HashMap::new();
    compile_to_instrs(&parse_str(s), 2, &env)
}

fn text(s: &str) -> String {
    compile(&parse_str(s)).unwrap()
}

#[test]
#[should_panic(expected = "Duplicate binding")]
fn test_duplicate_binding() {
    let expr = parse_str("(let ((x 1) (x 2)) x)");
    let env: HashMap<String, i32> = HashMap::new();
    if let Err(err) = compile_to_instrs(&expr, 2, &env) {
        panic!("{}", err.message());
    }
}

#[test]
#[should_panic(expected = "Unbound variable identifier y")]
fn test_unbound_variable() {
    let expr = parse_str("y");
    let env: HashMap<String, i32> = HashMap::new();
    if let Err(err) = compile_to_instrs(&expr, 2, &env) {
        panic!("{}", err.message());
    }
}

#[test]
fn test_compile_number() {
    let expr = Expr::Number(42);
    let env: HashMap<String, i32> = HashMap::new();
    let instrs = compile_to_instrs(&expr, 2, &env).unwrap();
    assert_eq!(instrs.len(), 1);
}

#[test]
fn number_is_moved_into_the_accumulator() {
    for n in [0, 1, -1, 42, i32::MAX, i32::MIN] {
        let env: HashMap<String, i32> = HashMap::new();
        assert_eq!(
            compile_to_instrs(&Expr::Number(n), 2, &env),
            Ok(vec![IMov(Reg(RAX), Imm(n))])
        );
        assert_eq!(
            compile_to_instrs(&Expr::Number(n), 7, &env.update("x".to_string(), 3)),
            Ok(vec![IMov(Reg(RAX), Imm(n))])
        );
    }
}

#[test]
fn duplicate_binding_is_reported_with_its_name() {
    assert_eq!(
        instrs("(let ((x 1) (x 2)) x)"),
        Err(CompileError::DuplicateBinding("x".to_string()))
    );
    assert_eq!(
        instrs("(let ((a 1) (b 2) (c 3) (b 4) (a 5)) a)"),
        Err(CompileError::DuplicateBinding("b".to_string()))
    );
    assert_eq!(
        instrs("(add1 (let ((p 1) (q 2) (q 3)) p))"),
        Err(CompileError::DuplicateBinding("q".to_string()))
    );
}

#[test]
fn duplicate_binding_comes_before_what_the_bindings_hold() {
    assert_eq!(
        instrs("(let ((x y) (x 2)) x)"),
        Err(CompileError::DuplicateBinding("x".to_string()))
    );
    assert_eq!(
        instrs("(let ((a (let ((x 1) (x 2)) x)) (a 2)) a)"),
        Err(CompileError::DuplicateBinding("a".to_string()))
    );
    assert_eq!(
        instrs("(+ y (let ((x 1) (x 2)) x))"),
        Err(CompileError::UnboundIdentifier("y".to_string()))
    );
}

#[test]
fn same_name_in_nested_lets_is_no_duplicate() {
    assert!(instrs("(let ((x 1)) (let ((x 2)) x))").is_ok());
    assert!(instrs("(let ((x 1) (y (let ((x 2)) x))) y)").is_ok());
}

#[test]
fn unbound_name_is_reported_with_its_name() {
    assert_eq!(instrs("y"), Err(CompileError::UnboundIdentifier("y".to_string())));
    assert_eq!(instrs("(add1 zed)"), Err(CompileError::UnboundIdentifier("zed".to_string())));
    assert_eq!(instrs("(+ 1 b)"), Err(CompileError::UnboundIdentifier("b".to_string())));
    assert_eq!(instrs("(+ a b)"), Err(CompileError::UnboundIdentifier("a".to_string())));
    assert_eq!(
        instrs("(let ((x 1)) (+ x y))"),
        Err(CompileError::UnboundIdentifier("y".to_string()))
    );
}

#[test]
fn binding_is_not_in_scope_of_itself_or_of_earlier_ones() {
    assert_eq!(instrs("(let ((x x)) x)"), Err(CompileError::UnboundIdentifier("x".to_string())));
    assert_eq!(
        instrs("(let ((y x) (x 1)) y)"),
        Err(CompileError::UnboundIdentifier("x".to_string()))
    );
    assert!(instrs("(let ((x 1) (y x)) y)").is_ok());
}

#[test]
fn binding_ends_with_its_let() {
    assert_eq!(
        instrs("(+ (let ((x 1)) x) x)"),
        Err(CompileError::UnboundIdentifier("x".to_string()))
    );
}

#[test]
fn name_is_loaded_from_its_slot() {
    let env: HashMap<String, i32> = HashMap::new();
    let env = env.update("x".to_string(), 2).update("y".to_string(), 5);
    assert_eq!(
        compile_to_instrs(&Expr::Id("x".to_string()), 6, &env),
        Ok(vec![IMov(Reg(RAX), RegOffset(RSP, -16))])
    );
    assert_eq!(
        compile_to_instrs(&Expr::Id("y".to_string()), 6, &env),
        Ok(vec![IMov(Reg(RAX), RegOffset(RSP, -40))])
    );
    assert_eq!(
        compile_to_instrs(&Expr::Id("z".to_string()), 6, &env),
        Err(CompileError::UnboundIdentifier("z".to_string()))
    );
}

#[test]
fn unary_operations() {
    assert_eq!(instrs("(add1 5)"), Ok(vec![IMov(Reg(RAX), Imm(5)), IAdd(Reg(RAX), Imm(1))]));
    assert_eq!(instrs("(sub1 5)"), Ok(vec![IMov(Reg(RAX), Imm(5)), ISub(Reg(RAX), Imm(1))]));
    assert_eq!(
        instrs("(sub1 (add1 (add1 0)))"),
        Ok(vec![
            IMov(Reg(RAX), Imm(0)),
            IAdd(Reg(RAX), Imm(1)),
            IAdd(Reg(RAX), Imm(1)),
            ISub(Reg(RAX), Imm(1)),
        ])
    );
}

#[test]
fn binary_operations() {
    assert_eq!(
        instrs("(+ 1 2)"),
        Ok(vec![
            IMov(Reg(RAX), Imm(1)),
            IMov(RegOffset(RSP, -16), Reg(RAX)),
            IMov(Reg(RAX), Imm(2)),
            IAdd(Reg(RAX), RegOffset(RSP, -16)),
        ])
    );
    assert_eq!(
        instrs("(* 3 4)"),
        Ok(vec![
            IMov(Reg(RAX), Imm(3)),
            IMov(RegOffset(RSP, -16), Reg(RAX)),
            IMov(Reg(RAX), Imm(4)),
            IMul(Reg(RAX), RegOffset(RSP, -16)),
        ])
    );
}

#[test]
fn subtraction_takes_the_right_operand_from_the_left() {
    assert_eq!(
        instrs("(- 10 4)"),
        Ok(vec![
            IMov(Reg(RAX), Imm(10)),
            IMov(RegOffset(RSP, -16), Reg(RAX)),
            IMov(Reg(RAX), Imm(4)),
            ISub(RegOffset(RSP, -16), Reg(RAX)),
            IMov(Reg(RAX), RegOffset(RSP, -16)),
        ])
    );
}

#[test]
fn sibling_operands_use_different_slots() {
    assert_eq!(
        instrs("(+ (+ 1 2) (+ 3 4))"),
        Ok(vec![
            IMov(Reg(RAX), Imm(1)),
            IMov(RegOffset(RSP, -16), Reg(RAX)),
            IMov(Reg(RAX), Imm(2)),
            IAdd(Reg(RAX), RegOffset(RSP, -16)),
            IMov(RegOffset(RSP, -16), Reg(RAX)),
            IMov(Reg(RAX), Imm(3)),
            IMov(RegOffset(RSP, -24), Reg(RAX)),
            IMov(Reg(RAX), Imm(4)),
            IAdd(Reg(RAX), RegOffset(RSP, -24)),
            IAdd(Reg(RAX), RegOffset(RSP, -16)),
        ])
    );
}

#[test]
fn let_binds_in_written_order() {
    assert_eq!(
        instrs("(let ((x 5)) x)"),
        Ok(vec![
            IMov(Reg(RAX), Imm(5)),
            IMov(RegOffset(RSP, -16), Reg(RAX)),
            IMov(Reg(RAX), RegOffset(RSP, -16)),
        ])
    );
    assert_eq!(
        instrs("(let ((x 5) (y (add1 x))) (- y x))"),
        Ok(vec![
            IMov(Reg(RAX), Imm(5)),
            IMov(RegOffset(RSP, -16), Reg(RAX)),
            IMov(Reg(RAX), RegOffset(RSP, -16)),
            IAdd(Reg(RAX), Imm(1)),
            IMov(RegOffset(RSP, -24), Reg(RAX)),
            IMov(Reg(RAX), RegOffset(RSP, -24)),
            IMov(RegOffset(RSP, -32), Reg(RAX)),
            IMov(Reg(RAX), RegOffset(RSP, -16)),
            ISub(RegOffset(RSP, -32), Reg(RAX)),
            IMov(Reg(RAX), RegOffset(RSP, -32)),
        ])
    );
}

#[test]
fn inner_binding_shadows_outer() {
    assert_eq!(
        instrs("(let ((x 5)) (let ((x 6)) x))"),
        Ok(vec![
            IMov(Reg(RAX), Imm(5)),
            IMov(RegOffset(RSP, -16), Reg(RAX)),
            IMov(Reg(RAX), Imm(6)),
            IMov(RegOffset(RSP, -24), Reg(RAX)),
            IMov(Reg(RAX), RegOffset(RSP, -24)),
        ])
    );
    assert_eq!(
        instrs("(let ((x 5)) (+ (let ((x 6)) x) x))"),
        Ok(vec![
            IMov(Reg(RAX), Imm(5)),
            IMov(RegOffset(RSP, -16), Reg(RAX)),
            IMov(Reg(RAX), Imm(6)),
            IMov(RegOffset(RSP, -24), Reg(RAX)),
            IMov(Reg(RAX), RegOffset(RSP, -24)),
            IMov(RegOffset(RSP, -24), Reg(RAX)),
            IMov(Reg(RAX), RegOffset(RSP, -16)),
            IAdd(Reg(RAX), RegOffset(RSP, -24)),
        ])
    );
}

#[test]
fn temporary_of_an_operation_is_no_binding() {
    let env: HashMap<String, i32> = HashMap::new();
    let env = env.update("x".to_string(), 2);
    let e = Expr::BinOp(
        Op2::Plus,
        Box::new(Expr::Number(1)),
        Box::new(Expr::Id("x".to_string())),
    );
    assert_eq!(
        compile_to_instrs(&e, 3, &env),
        Ok(vec![
            IMov(Reg(RAX), Imm(1)),
            IMov(RegOffset(RSP, -24), Reg(RAX)),
            IMov(Reg(RAX), RegOffset(RSP, -16)),
            IAdd(Reg(RAX), RegOffset(RSP, -24)),
        ])
    );
}

#[test]
fn environment_is_left_as_it_was() {
    let env: HashMap<String, i32> = HashMap::new();
    let env = env.update("x".to_string(), 2);
    let e = parse_str("(let ((x 9) (y 1)) (+ x y))");
    assert!(compile_to_instrs(&e, 3, &env).is_ok());
    assert_eq!(env.len(), 1);
    assert_eq!(env.get("x"), Some(&2));
    assert_eq!(env.get("y"), None);
}

#[test]
fn compiling_twice_gives_the_same() {
    for source in [
        "5",
        "(let ((x 5)) (let ((x 6)) x))",
        "(+ (+ 1 2) (+ 3 4))",
        "(let ((a 1) (b 2) (c 3)) (* a (- b c)))",
        "(let ((x 1) (x 2)) x)",
        "y",
    ] {
        let first = parse_str(source);
        let second = parse_str(source);
        let env: HashMap<String, i32> = HashMap::new();
        assert_eq!(compile_to_instrs(&first, 2, &env), compile_to_instrs(&second, 2, &env));
        assert_eq!(compile_to_instrs(&first, 2, &env), compile_to_instrs(&first, 2, &env));
        if fits_frame(&first, FIRST_SLOT) {
            assert_eq!(compile(&first), compile(&second));
            assert_eq!(compile(&first), compile(&first));
        }
    }
}

#[test]
fn compile_lists_one_instruction_per_line() {
    assert_eq!(text("42"), "mov rax, 42");
    assert_eq!(text("(add1 5)"), "mov rax, 5\n  add rax, 1");
    assert_eq!(text("(sub1 5)"), "mov rax, 5\n  sub rax, 1");
    assert_eq!(
        text("(- 10 4)"),
        "mov rax, 10\n  mov [rsp + -16], rax\n  mov rax, 4\n  sub [rsp + -16], rax\n  mov rax, [rsp + -16]"
    );
    assert_eq!(
        text("(* 3 4)"),
        "mov rax, 3\n  mov [rsp + -16], rax\n  mov rax, 4\n  imul rax, [rsp + -16]"
    );
    assert_eq!(
        text("(let ((x 5)) (let ((x 6)) x))"),
        "mov rax, 5\n  mov [rsp + -16], rax\n  mov rax, 6\n  mov [rsp + -24], rax\n  mov rax, [rsp + -24]"
    );
}

#[test]
fn compile_reports_failures() {
    assert_eq!(
        compile(&parse_str("(let ((x 1) (x 2)) x)")),
        Err(CompileError::DuplicateBinding("x".to_string()))
    );
    assert_eq!(compile(&parse_str("y")), Err(CompileError::UnboundIdentifier("y".to_string())));
}

#[test]
fn find_repeat_gives_the_first_repeating_position() {
    let bind = |name: &str| (name.to_string(), Expr::Number(0));
    assert_eq!(find_repeat(&vec![]), None);
    assert_eq!(find_repeat(&vec![bind("a")]), None);
    assert_eq!(find_repeat(&vec![bind("a"), bind("b"), bind("c")]), None);
    assert_eq!(find_repeat(&vec![bind("a"), bind("a")]), Some(1));
    assert_eq!(find_repeat(&vec![bind("a"), bind("b"), bind("c"), bind("b"), bind("a")]), Some(3));
    assert_eq!(find_repeat(&vec![bind("a"), bind("b"), bind("b"), bind("a")]), Some(2));
}

#[test]
fn fits_frame_tells_what_can_be_addressed() {
    let leaf = Expr::Number(1);
    let sum = parse_str("(+ 1 2)");
    let deep = parse_str("(+ 1 (+ 2 (+ 3 4)))");
    let wide = parse_str("(let ((a 1) (b 2) (c 3)) (+ a (+ b c)))");
    assert!(fits_frame(&leaf, i32::MAX));
    assert!(fits_frame(&leaf, i32::MIN));
    assert!(fits_frame(&sum, 2));
    assert!(fits_frame(&sum, MAX_SLOT));
    assert!(!fits_frame(&sum, MAX_SLOT + 1));
    assert!(fits_frame(&sum, MIN_SLOT));
    assert!(!fits_frame(&sum, MIN_SLOT - 1));
    assert!(fits_frame(&deep, MAX_SLOT - 2));
    assert!(!fits_frame(&deep, MAX_SLOT - 1));
    assert!(fits_frame(&wide, MAX_SLOT - 4));
    assert!(!fits_frame(&wide, MAX_SLOT - 3));
}

#[test]
fn highest_and_lowest_slot_are_addressed() {
    let env: HashMap<String, i32> = HashMap::new();
    let sum = Expr::BinOp(Op2::Plus, Box::new(Expr::Number(1)), Box::new(Expr::Number(2)));
    assert_eq!(
        compile_to_instrs(&sum, MAX_SLOT, &env),
        Ok(vec![
            IMov(Reg(RAX), Imm(1)),
            IMov(RegOffset(RSP, i32::MIN), Reg(RAX)),
            IMov(Reg(RAX), Imm(2)),
            IAdd(Reg(RAX), RegOffset(RSP, i32::MIN)),
        ])
    );
    let neg = Expr::UnOp(Op1::Add1, Box::new(Expr::Id("x".to_string())));
    assert_eq!(
        compile_to_instrs(&neg, 2, &env.update("x".to_string(), MIN_SLOT)),
        Ok(vec![IMov(Reg(RAX), RegOffset(RSP, 2147483640)), IAdd(Reg(RAX), Imm(1))])
    );
}

#[test]
fn scope_fits_tells_what_can_be_addressed() {
    let env: HashMap<String, i32> = HashMap::new();
    assert!(scope_fits(&env));
    let env = env.update("a".to_string(), 2).update("b".to_string(), MAX_SLOT);
    assert!(scope_fits(&env));
    let env = env.update("c".to_string(), MIN_SLOT).update("d".to_string(), 0);
    assert!(scope_fits(&env));
    assert!(!scope_fits(&env.update("e".to_string(), MAX_SLOT + 1)));
    assert!(!scope_fits(&env.update("e".to_string(), MIN_SLOT - 1)));
    assert!(!scope_fits(&env.update("a".to_string(), i32::MAX)));
    assert!(!scope_fits(&env.update("e".to_string(), i32::MIN)));
    assert!(scope_fits(&env.update("a".to_string(), i32::MAX).update("a".to_string(), 7)));
}

#[test]
fn compile_checked_compiles_within_the_limits() {
    let env: HashMap<String, i32> = HashMap::new();
    let env = env.update("x".to_string(), 2);
    let sum = parse_str("(+ x 1)");
    assert_eq!(compile_checked(&sum, 3, &env), Some(compile_to_instrs(&sum, 3, &env)));
    assert_eq!(
        compile_checked(&sum, 3, &env),
        Some(Ok(vec![
            IMov(Reg(RAX), RegOffset(RSP, -16)),
            IMov(RegOffset(RSP, -24), Reg(RAX)),
            IMov(Reg(RAX), Imm(1)),
            IAdd(Reg(RAX), RegOffset(RSP, -24)),
        ]))
    );
    assert_eq!(
        compile_checked(&parse_str("(+ y 1)"), 3, &env),
        Some(Err(CompileError::UnboundIdentifier("y".to_string())))
    );
    assert_eq!(compile_checked(&sum, MAX_SLOT + 1, &env), None);
    assert_eq!(compile_checked(&sum, 3, &env.update("z".to_string(), i32::MAX)), None);
    assert_eq!(
        compile_checked(&Expr::Number(1), i32::MAX, &env),
        Some(Ok(vec![IMov(Reg(RAX), Imm(1))]))
    );
}
