use zkvm::compiler::{AstNode, Compiler};
use zkvm::models::{Instruction, Register};
use zkvm::runtime::VmRuntime;

fn lit(v: u32) -> Box<AstNode> {
    Box::new(AstNode::Literal(v))
}

fn var(name: &str) -> Box<AstNode> {
    Box::new(AstNode::Variable(name.to_string()))
}

#[test]
fn test_compile_addition() {
    let compiler = Compiler::new();
    // Test AST: x = 5 + 10
    let ast = AstNode::Assign(
        "x".to_string(),
        Box::new(AstNode::Add(
            Box::new(AstNode::Literal(5)),
            Box::new(AstNode::Literal(10)),
        )),
    );

    let instrs = compiler.compile_program(vec![ast]).unwrap();

    // Expected: R1 = 5, R2 = 10, R3 = R1 + R2 (and stored in x), Ecall
    assert_eq!(instrs.len(), 4);
    assert_eq!(instrs[0], Instruction::Li(Register::R1, 5));
    assert_eq!(instrs[1], Instruction::Li(Register::R2, 10));
    assert_eq!(instrs[2], Instruction::Add(Register::R3, Register::R1, Register::R2));
    assert_eq!(instrs[3], Instruction::Ecall);
}

#[test]
fn compile_node_returns_result_register() {
    let mut compiler = Compiler::new();
    let r = compiler.compile_node(&AstNode::Literal(7)).unwrap();
    assert_eq!(r, Register::R1);
    let r = compiler
        .compile_node(&AstNode::Assign("a".to_string(), lit(1)))
        .unwrap();
    assert_eq!(r, Register::R2);
    // Reading a variable emits nothing and yields its register.
    let r = compiler.compile_node(&AstNode::Variable("a".to_string())).unwrap();
    assert_eq!(r, Register::R2);
    let instrs = compiler.compile_program(vec![]).unwrap();
    assert_eq!(
        instrs,
        vec![
            Instruction::Li(Register::R1, 7),
            Instruction::Li(Register::R2, 1),
            Instruction::Ecall
        ]
    );
}

#[test]
fn compile_sub_and_mul_forms() {
    let compiler = Compiler::new();
    let ast = AstNode::Mul(Box::new(AstNode::Sub(lit(9), lit(4))), lit(3));
    let instrs = compiler.compile_program(vec![ast]).unwrap();
    assert_eq!(
        instrs,
        vec![
            Instruction::Li(Register::R1, 9),
            Instruction::Li(Register::R2, 4),
            Instruction::Sub(Register::R3, Register::R1, Register::R2),
            Instruction::Li(Register::R4, 3),
            Instruction::Mul(Register::R5, Register::R3, Register::R4),
            Instruction::Ecall,
        ]
    );
}

#[test]
fn compile_undefined_variable_is_an_error() {
    let compiler = Compiler::new();
    let ast = AstNode::Add(lit(1), var("y"));
    let err = compiler.compile_program(vec![ast]).unwrap_err();
    assert_eq!(err, "Undefined variable: y");
}

#[test]
fn compile_runs_out_of_registers() {
    // Eight literals need eight registers; only R1..R7 exist.
    let mut node = AstNode::Literal(1);
    for v in 2..=4u32 {
        node = AstNode::Add(Box::new(node), lit(v));
    }
    // 1 + 2 + 3 + 4 uses 7 registers; one more literal is too many.
    let compiler = Compiler::new();
    let ok = compiler.compile_program(vec![AstNode::Add(lit(1), lit(2))]);
    assert!(ok.is_ok());
    let compiler = Compiler::new();
    let err = compiler
        .compile_program(vec![AstNode::Add(Box::new(node), lit(5))])
        .unwrap_err();
    assert_eq!(err, "Out of registers");
}

#[test]
fn error_stops_at_first_failing_node() {
    let compiler = Compiler::new();
    let err = compiler
        .compile_program(vec![
            AstNode::Variable("missing".to_string()),
            AstNode::Literal(1),
        ])
        .unwrap_err();
    assert_eq!(err, "Undefined variable: missing");
}

#[test]
fn compiled_program_computes_its_variables() {
    // x = 7 * 6 - 2; y = x + x; x = 3
    let program = vec![
        AstNode::Assign(
            "x".to_string(),
            Box::new(AstNode::Sub(Box::new(AstNode::Mul(lit(7), lit(6))), lit(2))),
        ),
        AstNode::Assign("y".to_string(), Box::new(AstNode::Add(var("x"), var("x")))),
        AstNode::Assign("x".to_string(), lit(3)),
    ];
    let instrs = Compiler::new().compile_program(program).unwrap();
    let n = instrs.len();
    let mut vm = VmRuntime::new(instrs, vec![], vec![]);
    let trace = vm.execute().unwrap();
    assert_eq!(trace.steps.len(), n);
    // x was first bound to R5 (= 40), y to R6 (= 80), then x rebound to R7.
    assert_eq!(vm.get_register(Register::R5), 40);
    assert_eq!(vm.get_register(Register::R6), 80);
    assert_eq!(vm.get_register(Register::R7), 3);
}

#[test]
fn compiled_arithmetic_wraps() {
    let program = vec![AstNode::Assign(
        "z".to_string(),
        Box::new(AstNode::Sub(lit(1), lit(2))),
    )];
    let instrs = Compiler::new().compile_program(program).unwrap();
    let mut vm = VmRuntime::new(instrs, vec![], vec![]);
    vm.execute().unwrap();
    assert_eq!(vm.get_register(Register::R3), u32::MAX);
}

#[test]
fn ast_clone_compiles_the_same() {
    let ast = AstNode::Assign("v".to_string(), Box::new(AstNode::Mul(lit(3), lit(4))));
    let copy = ast.clone();
    let a = Compiler::new().compile_program(vec![ast]).unwrap();
    let b = Compiler::new().compile_program(vec![copy]).unwrap();
    assert_eq!(a, b);
}

#[test]
fn compiled_program_has_one_ecall_at_the_end() {
    let program = vec![
        AstNode::Assign("a".to_string(), lit(2)),
        AstNode::Assign("b".to_string(), Box::new(AstNode::Mul(var("a"), lit(3)))),
        AstNode::Sub(var("b"), var("a")),
    ];
    let instrs = Compiler::new().compile_program(program).unwrap();
    assert_eq!(instrs.last(), Some(&Instruction::Ecall));
    assert_eq!(instrs.iter().filter(|i| **i == Instruction::Ecall).count(), 1);
    let empty = Compiler::new().compile_program(vec![]).unwrap();
    assert_eq!(empty, vec![Instruction::Ecall]);
}
