use rustlox::chunk::{Chunk, OpCode, Operator};
use rustlox::compiler::compile;
use rustlox::syntax::{Diagnostic, Place};
use rustlox::vm::{InterpretResult, VM};

fn chars(text: &str) -> Vec<char> {
    text.chars().collect()
}

fn number(text: &str) -> Option<f64> {
    text.parse::<f64>().ok()
}

fn binary(op: Operator, left: f64, right: f64) -> f64 {
    match op {
        Operator::Add => left + right,
        Operator::Subtract => left - right,
        Operator::Multiply => left * right,
        Operator::Divide => left / right,
    }
}

fn negate(operand: f64) -> f64 {
    -operand
}

fn evaluate(text: &str) -> f64 {
    let mut vm: VM<f64> = VM::new();
    match vm.interpret(chars(text), &number, &binary, &negate) {
        InterpretResult::Success(value) => value,
        InterpretResult::CompileError(reported) => panic!("compile error: {:?}", reported),
        InterpretResult::RuntimeError => panic!("runtime error"),
    }
}

fn refusal(text: &str) -> Diagnostic {
    let mut vm: VM<f64> = VM::new();
    match vm.interpret(chars(text), &number, &binary, &negate) {
        InterpretResult::CompileError(reported) => reported,
        InterpretResult::Success(value) => panic!("compiled and gave {}", value),
        InterpretResult::RuntimeError => panic!("runtime error"),
    }
}

#[test]
fn a_number_compiles_to_a_constant_and_a_return() {
    let chunk: Chunk<f64> = compile(&chars("1.2"), &number).unwrap();
    assert_eq!(chunk.code, vec![OpCode::Constant.to_u8(), 0, OpCode::Return.to_u8()]);
    assert_eq!(chunk.code, vec![0u8, 0, 6]);
    assert_eq!(chunk.constants, vec![1.2]);
    assert_eq!(chunk.lines, vec![1, 1, 1]);
}

#[test]
fn factor_binds_tighter_than_term() {
    assert_eq!(evaluate("2 + 3 * 4"), 14.0);
    assert_ne!(evaluate("2 + 3 * 4"), 20.0);
}

#[test]
fn division_groups_from_the_left() {
    assert_eq!(evaluate("8 / 4 / 2"), 1.0);
    assert_ne!(evaluate("8 / 4 / 2"), 4.0);
}

#[test]
fn parentheses_group() {
    assert_eq!(evaluate("(1 + 2) * 3"), 9.0);
}

#[test]
fn unary_minus_binds_tighter_than_addition() {
    assert_eq!(evaluate("-2 + 3"), 1.0);
    assert_eq!(evaluate("-(2 + 3)"), -5.0);
}

#[test]
fn an_unclosed_parenthesis_is_a_refusal() {
    let result: Result<Chunk<f64>, Diagnostic> = compile(&chars("(1 + 2"), &number);
    let reported = result.err().unwrap();
    assert_eq!(reported.line, 1);
    assert!(matches!(reported.place, Place::End));
    assert_eq!(reported.message, "Expect ')' after expression.");
    let reported = refusal("(1 + 2");
    assert_eq!(reported.message, "Expect ')' after expression.");
}

#[test]
fn an_unexpected_character_is_a_refusal() {
    let reported = refusal("@");
    assert_eq!(reported.line, 1);
    assert!(matches!(reported.place, Place::Unplaced));
    assert_eq!(reported.message, "Unexpected character: @.");
}

#[test]
fn the_257th_constant_is_a_refusal() {
    let mut text = String::new();
    for i in 0..257 {
        if i > 0 {
            text.push_str(" + ");
        }
        text.push_str(&format!("{}", i));
    }
    let reported = refusal(&text);
    assert_eq!(reported.message, "Too many constants in one chunk.");
    assert_eq!(reported.line, 1);
    match reported.place {
        Place::Lexeme(lexeme) => assert_eq!(lexeme, "256"),
        other => panic!("reported at {:?}", other),
    }
}

#[test]
fn a_chunk_holds_256_constants() {
    let mut text = String::new();
    let mut sum = 0.0;
    for i in 0..256 {
        if i > 0 {
            text.push_str(" + ");
        }
        text.push_str(&format!("{}", i));
        sum += i as f64;
    }
    let chunk: Chunk<f64> = compile(&chars(&text), &number).unwrap();
    assert_eq!(chunk.constants.len(), 256);
    assert_eq!(chunk.code[chunk.code.len() - 4], 0);
    assert_eq!(chunk.code[chunk.code.len() - 3], 255);
    assert_eq!(evaluate(&text), sum);
}
