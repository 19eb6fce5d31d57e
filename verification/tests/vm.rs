use rustlox::chunk::{Chunk, OpCode, Operator};
use rustlox::vm::{InterpretResult, VM};

fn chars(text: &str) -> Vec<char> {
    text.chars().collect()
}

fn number(text: &str) -> Option<f64> {
    text.parse::<f64>().ok()
}

fn binary(op: Operator, left: f64, right: f64) -> f64 {
    match op {
        Operator::Add => left + right,
        Operator::Subtract => left - right,
        Operator::Multiply => left * right,
        Operator::Divide => left / right,
    }
}

fn negate(operand: f64) -> f64 {
    -operand
}

fn evaluate(text: &str) -> f64 {
    let mut vm: VM<f64> = VM::new();
    match vm.interpret(chars(text), &number, &binary, &negate) {
        InterpretResult::Success(value) => value,
        InterpretResult::CompileError(reported) => panic!("compile error: {:?}", reported),
        InterpretResult::RuntimeError => panic!("runtime error"),
    }
}

/// A chunk with the given code and constants, every byte on line 1.
fn chunk_of(code: &[u8], constants: &[f64]) -> Chunk<f64> {
    let mut chunk = Chunk::new();
    for byte in code {
        chunk.write(*byte, 1);
    }
    for constant in constants {
        chunk.add_constant(*constant);
    }
    chunk
}

fn run(code: &[u8], constants: &[f64]) -> InterpretResult<f64> {
    let mut vm: VM<f64> = VM::new();
    vm.run(&chunk_of(code, constants), &binary, &negate)
}

fn value(code: &[u8], constants: &[f64]) -> f64 {
    match run(code, constants) {
        InterpretResult::Success(value) => value,
        other => panic!("the run ended in {:?}", other),
    }
}

const CONSTANT: u8 = 0;
const ADD: u8 = 1;
const SUBTRACT: u8 = 2;
const MULTIPLY: u8 = 3;
const DIVIDE: u8 = 4;
const NEGATE: u8 = 5;
const RETURN: u8 = 6;

#[test]
fn a_new_chunk_is_empty() {
    let chunk: Chunk<f64> = Chunk::new();
    assert!(chunk.code.is_empty());
    assert!(chunk.constants.is_empty());
    assert!(chunk.lines.is_empty());
}

#[test]
fn writing_appends_a_byte_and_its_line() {
    let mut chunk: Chunk<f64> = Chunk::new();
    chunk.write(OpCode::Negate.to_u8(), 3);
    chunk.write(200, 4);
    assert_eq!(chunk.code, vec![5, 200]);
    assert_eq!(chunk.lines, vec![3, 4]);
    assert!(chunk.constants.is_empty());
}

#[test]
fn adding_a_constant_returns_its_index() {
    let mut chunk: Chunk<f64> = Chunk::new();
    assert_eq!(chunk.add_constant(1.5), Some(0));
    assert_eq!(chunk.add_constant(-2.0), Some(1));
    assert_eq!(chunk.add_constant(1.5), Some(2));
    assert_eq!(chunk.constants, vec![1.5, -2.0, 1.5]);
    assert_eq!(chunk.read_constant(0), 1.5);
    assert_eq!(chunk.read_constant(1), -2.0);
    assert_eq!(chunk.read_constant(2), 1.5);
    assert!(chunk.code.is_empty());
    assert!(chunk.lines.is_empty());
}

#[test]
fn a_full_pool_takes_no_more_constants() {
    let mut chunk: Chunk<f64> = Chunk::new();
    for i in 0..256 {
        assert_eq!(chunk.add_constant(i as f64), Some(i as u8));
    }
    assert_eq!(chunk.add_constant(256.0), None);
    assert_eq!(chunk.add_constant(257.0), None);
    assert_eq!(chunk.constants.len(), 256);
    assert_eq!(chunk.read_constant(255), 255.0);
}

#[test]
fn a_new_machine_has_an_empty_stack() {
    let mut vm: VM<f64> = VM::new();
    assert_eq!(vm.pop(), None);
}

#[test]
fn the_stack_gives_back_the_last_value_first() {
    let mut vm: VM<f64> = VM::new();
    vm.push(1.0);
    vm.push(2.0);
    vm.push(3.0);
    assert_eq!(vm.pop(), Some(3.0));
    assert_eq!(vm.pop(), Some(2.0));
    vm.push(4.0);
    assert_eq!(vm.pop(), Some(4.0));
    assert_eq!(vm.pop(), Some(1.0));
    assert_eq!(vm.pop(), None);
    assert_eq!(vm.pop(), None);
}

#[test]
fn return_gives_the_top_of_the_stack() {
    assert_eq!(value(&[CONSTANT, 0, RETURN], &[1.2]), 1.2);
    assert_eq!(value(&[CONSTANT, 0, CONSTANT, 1, RETURN], &[1.0, 2.0]), 2.0);
    assert_eq!(value(&[CONSTANT, 1, RETURN, CONSTANT, 0, RETURN], &[1.0, 2.0]), 2.0);
}

#[test]
fn the_right_operand_is_the_one_pushed_last() {
    assert_eq!(value(&[CONSTANT, 0, CONSTANT, 1, ADD, RETURN], &[8.0, 2.0]), 10.0);
    assert_eq!(value(&[CONSTANT, 0, CONSTANT, 1, SUBTRACT, RETURN], &[8.0, 2.0]), 6.0);
    assert_eq!(value(&[CONSTANT, 0, CONSTANT, 1, MULTIPLY, RETURN], &[8.0, 2.0]), 16.0);
    assert_eq!(value(&[CONSTANT, 0, CONSTANT, 1, DIVIDE, RETURN], &[8.0, 2.0]), 4.0);
    assert_eq!(value(&[CONSTANT, 0, NEGATE, RETURN], &[8.0]), -8.0);
}

#[test]
fn an_operation_leaves_the_rest_of_the_stack_alone() {
    assert_eq!(
        value(&[CONSTANT, 0, CONSTANT, 1, CONSTANT, 2, MULTIPLY, ADD, RETURN], &[2.0, 3.0, 4.0]),
        14.0
    );
    assert_eq!(
        value(&[CONSTANT, 0, CONSTANT, 1, NEGATE, SUBTRACT, RETURN], &[2.0, 3.0]),
        5.0
    );
}

#[test]
fn a_byte_that_is_no_instruction_is_a_runtime_error() {
    assert!(matches!(run(&[7], &[]), InterpretResult::RuntimeError));
    assert!(matches!(run(&[255], &[]), InterpretResult::RuntimeError));
    assert!(matches!(run(&[CONSTANT, 0, 99, RETURN], &[1.0]), InterpretResult::RuntimeError));
}

#[test]
fn a_missing_operand_on_the_stack_is_a_runtime_error() {
    assert!(matches!(run(&[RETURN], &[]), InterpretResult::RuntimeError));
    assert!(matches!(run(&[NEGATE, RETURN], &[]), InterpretResult::RuntimeError));
    assert!(matches!(run(&[ADD, RETURN], &[]), InterpretResult::RuntimeError));
    for op in [ADD, SUBTRACT, MULTIPLY, DIVIDE] {
        assert!(matches!(run(&[CONSTANT, 0, op, RETURN], &[1.0]), InterpretResult::RuntimeError));
    }
}

#[test]
fn code_that_ends_without_return_is_a_runtime_error() {
    assert!(matches!(run(&[], &[]), InterpretResult::RuntimeError));
    assert!(matches!(run(&[CONSTANT, 0], &[1.0]), InterpretResult::RuntimeError));
    assert!(matches!(run(&[CONSTANT, 0, NEGATE], &[1.0]), InterpretResult::RuntimeError));
}

#[test]
fn a_missing_or_wrong_constant_index_is_a_runtime_error() {
    assert!(matches!(run(&[CONSTANT], &[1.0]), InterpretResult::RuntimeError));
    assert!(matches!(run(&[CONSTANT, 1, RETURN], &[1.0]), InterpretResult::RuntimeError));
    assert!(matches!(run(&[CONSTANT, 0, RETURN], &[]), InterpretResult::RuntimeError));
    assert!(matches!(run(&[CONSTANT, 255, RETURN], &[1.0, 2.0]), InterpretResult::RuntimeError));
}

#[test]
fn a_run_starts_from_the_first_instruction_on_an_empty_stack() {
    let mut vm: VM<f64> = VM::new();
    vm.push(41.0);
    vm.push(42.0);
    // What was pushed before the run is not there for the code to pop.
    assert!(matches!(vm.run(&chunk_of(&[RETURN], &[]), &binary, &negate), InterpretResult::RuntimeError));
    assert!(matches!(vm.run(&chunk_of(&[ADD, RETURN], &[]), &binary, &negate), InterpretResult::RuntimeError));
    let chunk = chunk_of(&[CONSTANT, 0, CONSTANT, 1, ADD, RETURN], &[1.0, 2.0]);
    for _ in 0..3 {
        assert!(matches!(vm.run(&chunk, &binary, &negate), InterpretResult::Success(value) if value == 3.0));
    }
}

#[test]
fn a_run_leaves_nothing_behind() {
    let mut vm: VM<f64> = VM::new();
    vm.push(41.0);
    let chunk = chunk_of(&[CONSTANT, 0, CONSTANT, 0, CONSTANT, 0, RETURN], &[9.0]);
    assert!(matches!(vm.run(&chunk, &binary, &negate), InterpretResult::Success(value) if value == 9.0));
    assert_eq!(vm.pop(), None);
    assert!(matches!(vm.run(&chunk_of(&[CONSTANT, 0, 77], &[9.0]), &binary, &negate), InterpretResult::RuntimeError));
    assert_eq!(vm.pop(), None);
    assert!(matches!(
        vm.interpret(chars("1 + 2"), &number, &binary, &negate),
        InterpretResult::Success(value) if value == 3.0
    ));
    assert_eq!(vm.pop(), None);
}

#[test]
fn a_source_that_does_not_compile_does_not_touch_the_machine() {
    let mut vm: VM<f64> = VM::new();
    vm.push(41.0);
    vm.push(42.0);
    assert!(matches!(vm.interpret(chars("1 +"), &number, &binary, &negate), InterpretResult::CompileError(_)));
    assert_eq!(vm.pop(), Some(42.0));
    assert_eq!(vm.pop(), Some(41.0));
    assert_eq!(vm.pop(), None);
}

#[test]
fn a_numeral_that_the_host_cannot_convert_is_a_compile_error() {
    let byte = |text: &str| -> Option<u8> { text.parse::<u8>().ok() };
    let binary = |op: Operator, left: u8, right: u8| -> u8 {
        match op {
            Operator::Add => left.wrapping_add(right),
            Operator::Subtract => left.wrapping_sub(right),
            Operator::Multiply => left.wrapping_mul(right),
            Operator::Divide => left.checked_div(right).unwrap_or(0),
        }
    };
    let negate = |operand: u8| -> u8 { operand.wrapping_neg() };
    let mut vm: VM<u8> = VM::new();
    vm.push(9);
    match vm.interpret(chars("2 * 300"), &byte, &binary, &negate) {
        InterpretResult::CompileError(reported) => {
            assert_eq!(reported.line, 1);
            assert_eq!(reported.message, "Could not parse number.");
        }
        other => panic!("the call ended in {:?}", other),
    }
    assert_eq!(vm.pop(), Some(9));
    assert!(matches!(
        vm.interpret(chars("2 * 30"), &byte, &binary, &negate),
        InterpretResult::Success(value) if value == 60
    ));
}

#[test]
fn one_machine_interprets_one_input_after_another() {
    let mut vm: VM<f64> = VM::new();
    assert!(matches!(
        vm.interpret(chars("1 + 2"), &number, &binary, &negate),
        InterpretResult::Success(value) if value == 3.0
    ));
    assert!(matches!(vm.interpret(chars("1 +"), &number, &binary, &negate), InterpretResult::CompileError(_)));
    assert!(matches!(
        vm.interpret(chars("(4 - 1) * 2"), &number, &binary, &negate),
        InterpretResult::Success(value) if value == 6.0
    ));
    // What an earlier input left behind does not stand in for a missing operand.
    vm.run(&chunk_of(&[CONSTANT, 0, CONSTANT, 0, RETURN], &[9.0]), &binary, &negate);
    assert!(matches!(vm.run(&chunk_of(&[RETURN], &[]), &binary, &negate), InterpretResult::RuntimeError));
    assert!(matches!(
        vm.interpret(chars("7"), &number, &binary, &negate),
        InterpretResult::Success(value) if value == 7.0
    ));
}

#[test]
fn arithmetic_is_that_of_doubles() {
    assert_eq!(evaluate("0.1 + 0.2"), 0.1 + 0.2);
    assert_eq!(evaluate("1 / 3"), 1.0 / 3.0);
    assert_eq!(evaluate("2 * 3.5 - 1"), 6.0);
    assert_eq!(evaluate("10 - 2 - 3"), 5.0);
    assert_eq!(evaluate("2 * 3 * 4"), 24.0);
    assert_eq!(evaluate("1 + 2 * 3 - 4 / 2"), 5.0);
    assert_eq!(evaluate("(1 + 2) * (3 - 4) / 2"), -1.5);
    assert_eq!(evaluate("-(-(1))"), 1.0);
    assert_eq!(evaluate("- 2 * - 3"), 6.0);
    assert_eq!(evaluate("100000000000000000000 * 10"), 1e21);
}

#[test]
fn division_by_zero_is_no_error() {
    assert_eq!(evaluate("1 / 0"), f64::INFINITY);
    assert_eq!(evaluate("-1 / 0"), f64::NEG_INFINITY);
    assert!(evaluate("0 / 0").is_nan());
    assert_eq!(evaluate("1 / (1 / 0)"), 0.0);
    assert!(evaluate("-0").is_sign_negative());
}

#[test]
fn the_value_is_that_of_the_expression_read_by_the_usual_rules() {
    // Each source beside the same expression written out with the host's operations.
    let cases: Vec<(&str, f64)> = vec![
        ("1 + 2 + 3", (1.0 + 2.0) + 3.0),
        ("1 - 2 - 3", (1.0 - 2.0) - 3.0),
        ("2 * 3 / 4", (2.0 * 3.0) / 4.0),
        ("2 / 3 * 4", (2.0 / 3.0) * 4.0),
        ("1 + 2 * 3", 1.0 + (2.0 * 3.0)),
        ("1 * 2 + 3", (1.0 * 2.0) + 3.0),
        ("1 - 2 * 3 + 4", (1.0 - (2.0 * 3.0)) + 4.0),
        ("1 / 3 - 1 / 7", (1.0 / 3.0) - (1.0 / 7.0)),
        ("-1 - -2", (-1.0) - (-2.0)),
        ("-3 * 4 + 5", ((-3.0) * 4.0) + 5.0),
        ("-(3 * 4) + 5", (-(3.0 * 4.0)) + 5.0),
        ("1.5 * (2.25 - 0.75) / (1 + 1)", (1.5 * (2.25 - 0.75)) / (1.0 + 1.0)),
        ("0.1 + 0.2 + 0.3", (0.1 + 0.2) + 0.3),
        ("0.1 + (0.2 + 0.3)", 0.1 + (0.2 + 0.3)),
    ];
    for (text, expected) in cases {
        assert_eq!(evaluate(text), expected, "{}", text);
    }
    assert_ne!(evaluate("0.1 + 0.2 + 0.3"), evaluate("0.1 + (0.2 + 0.3)"));
}
