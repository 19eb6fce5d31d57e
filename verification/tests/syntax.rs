use rustlox::chunk::{Chunk, OpCode, Operator};
use rustlox::compiler::compile;
use rustlox::scanner::TokenType;
use rustlox::rules::{get_rule, InfixRule, ParseRule, Precedence, PrefixRule};
use rustlox::syntax::{Diagnostic, Place};

fn chars(text: &str) -> Vec<char> {
    text.chars().collect()
}

fn number(text: &str) -> Option<f64> {
    text.parse::<f64>().ok()
}

fn program(text: &str) -> Chunk<f64> {
    compile(&chars(text), &number).unwrap()
}

fn reported(text: &str) -> Diagnostic {
    let result: Result<Chunk<f64>, Diagnostic> = compile(&chars(text), &number);
    result.err().unwrap()
}

const CONSTANT: u8 = 0;
const ADD: u8 = 1;
const SUBTRACT: u8 = 2;
const MULTIPLY: u8 = 3;
const DIVIDE: u8 = 4;
const NEGATE: u8 = 5;
const RETURN: u8 = 6;

const ALL_KINDS: [TokenType; 40] = [
    TokenType::LeftParen,
    TokenType::RightParen,
    TokenType::LeftBrace,
    TokenType::RightBrace,
    TokenType::Comma,
    TokenType::Dot,
    TokenType::Minus,
    TokenType::Plus,
    TokenType::Semicolon,
    TokenType::Slash,
    TokenType::Star,
    TokenType::Bang,
    TokenType::BangEqual,
    TokenType::Equal,
    TokenType::EqualEqual,
    TokenType::Greater,
    TokenType::GreaterEqual,
    TokenType::Less,
    TokenType::LessEqual,
    TokenType::Identifier,
    TokenType::String,
    TokenType::Number,
    TokenType::And,
    TokenType::Class,
    TokenType::Else,
    TokenType::False,
    TokenType::For,
    TokenType::Fun,
    TokenType::If,
    TokenType::Nil,
    TokenType::Or,
    TokenType::Print,
    TokenType::Return,
    TokenType::Super,
    TokenType::This,
    TokenType::True,
    TokenType::Var,
    TokenType::While,
    TokenType::Error,
    TokenType::EOF,
];

#[test]
fn the_opcodes_have_their_stable_bytes() {
    assert_eq!(OpCode::Constant.to_u8(), 0);
    assert_eq!(OpCode::Add.to_u8(), 1);
    assert_eq!(OpCode::Subtract.to_u8(), 2);
    assert_eq!(OpCode::Multiply.to_u8(), 3);
    assert_eq!(OpCode::Divide.to_u8(), 4);
    assert_eq!(OpCode::Negate.to_u8(), 5);
    assert_eq!(OpCode::Return.to_u8(), 6);
}

#[test]
fn every_byte_decodes_to_the_opcode_it_encodes_or_to_none() {
    let all = [
        OpCode::Constant,
        OpCode::Add,
        OpCode::Subtract,
        OpCode::Multiply,
        OpCode::Divide,
        OpCode::Negate,
        OpCode::Return,
    ];
    for op in all {
        assert_eq!(OpCode::from_u8(op.to_u8()), Some(op));
    }
    for byte in 0..=255u8 {
        match OpCode::from_u8(byte) {
            Some(op) => assert_eq!(op.to_u8(), byte),
            None => assert!(byte > 6),
        }
    }
    assert_eq!(OpCode::from_u8(7), None);
    assert_eq!(OpCode::from_u8(255), None);
}

#[test]
fn the_precedence_levels_are_ordered() {
    let levels = [
        Precedence::Lowest,
        Precedence::Assignment,
        Precedence::Or,
        Precedence::And,
        Precedence::Equality,
        Precedence::Comparison,
        Precedence::Term,
        Precedence::Factor,
        Precedence::Unary,
        Precedence::Call,
        Precedence::Primary,
    ];
    for (place, level) in levels.iter().enumerate() {
        assert_eq!(level.order() as usize, place);
    }
    for pair in levels.windows(2) {
        assert_eq!(pair[0].next(), pair[1]);
    }
    assert_eq!(Precedence::Primary.next(), Precedence::Primary);
    assert_eq!(Precedence::Term.next(), Precedence::Factor);
    assert_eq!(Precedence::Factor.next(), Precedence::Unary);
}

#[test]
fn the_rule_table_has_a_row_for_each_operator() {
    assert_eq!(
        get_rule(TokenType::LeftParen),
        ParseRule { prefix: Some(PrefixRule::Grouping), infix: None, precedence: Precedence::Lowest }
    );
    assert_eq!(
        get_rule(TokenType::Minus),
        ParseRule {
            prefix: Some(PrefixRule::Unary),
            infix: Some(InfixRule::Binary),
            precedence: Precedence::Term
        }
    );
    assert_eq!(
        get_rule(TokenType::Plus),
        ParseRule { prefix: None, infix: Some(InfixRule::Binary), precedence: Precedence::Term }
    );
    assert_eq!(
        get_rule(TokenType::Slash),
        ParseRule { prefix: None, infix: Some(InfixRule::Binary), precedence: Precedence::Factor }
    );
    assert_eq!(
        get_rule(TokenType::Star),
        ParseRule { prefix: None, infix: Some(InfixRule::Binary), precedence: Precedence::Factor }
    );
    assert_eq!(
        get_rule(TokenType::Number),
        ParseRule { prefix: Some(PrefixRule::Number), infix: None, precedence: Precedence::Lowest }
    );
}

#[test]
fn every_other_token_has_the_empty_rule() {
    let with_rules = [
        TokenType::LeftParen,
        TokenType::Minus,
        TokenType::Plus,
        TokenType::Slash,
        TokenType::Star,
        TokenType::Number,
    ];
    let mut empty = 0;
    for kind in ALL_KINDS {
        if !with_rules.contains(&kind) {
            assert_eq!(get_rule(kind), ParseRule { prefix: None, infix: None, precedence: Precedence::Lowest });
            empty += 1;
        }
    }
    assert_eq!(empty, 34);
}

#[test]
fn operands_come_before_their_operator() {
    let chunk = program("1 + 2");
    assert_eq!(chunk.code, vec![CONSTANT, 0, CONSTANT, 1, ADD, RETURN]);
    assert_eq!(chunk.constants, vec![1.0, 2.0]);
    assert_eq!(chunk.lines, vec![1; 6]);
    assert_eq!(program("1 - 2").code, vec![CONSTANT, 0, CONSTANT, 1, SUBTRACT, RETURN]);
    assert_eq!(program("1 * 2").code, vec![CONSTANT, 0, CONSTANT, 1, MULTIPLY, RETURN]);
    assert_eq!(program("1 / 2").code, vec![CONSTANT, 0, CONSTANT, 1, DIVIDE, RETURN]);
    assert_eq!(program("-1").code, vec![CONSTANT, 0, NEGATE, RETURN]);
}

#[test]
fn a_tighter_operator_is_compiled_first() {
    let chunk = program("2 + 3 * 4");
    assert_eq!(chunk.code, vec![CONSTANT, 0, CONSTANT, 1, CONSTANT, 2, MULTIPLY, ADD, RETURN]);
    assert_eq!(chunk.constants, vec![2.0, 3.0, 4.0]);
    let chunk = program("2 * 3 + 4");
    assert_eq!(chunk.code, vec![CONSTANT, 0, CONSTANT, 1, MULTIPLY, CONSTANT, 2, ADD, RETURN]);
}

#[test]
fn operators_of_one_strength_group_from_the_left() {
    assert_eq!(
        program("8 / 4 / 2").code,
        vec![CONSTANT, 0, CONSTANT, 1, DIVIDE, CONSTANT, 2, DIVIDE, RETURN]
    );
    assert_eq!(
        program("8 - 4 + 2").code,
        vec![CONSTANT, 0, CONSTANT, 1, SUBTRACT, CONSTANT, 2, ADD, RETURN]
    );
    assert_eq!(
        program("8 / 4 * 2").code,
        vec![CONSTANT, 0, CONSTANT, 1, DIVIDE, CONSTANT, 2, MULTIPLY, RETURN]
    );
}

#[test]
fn parentheses_leave_no_trace_but_in_the_order() {
    assert_eq!(
        program("(1 + 2) * 3").code,
        vec![CONSTANT, 0, CONSTANT, 1, ADD, CONSTANT, 2, MULTIPLY, RETURN]
    );
    assert_eq!(
        program("1 + (2 * 3)").code,
        vec![CONSTANT, 0, CONSTANT, 1, CONSTANT, 2, MULTIPLY, ADD, RETURN]
    );
    assert_eq!(program("((1))").code, vec![CONSTANT, 0, RETURN]);
}

#[test]
fn unary_minus_takes_the_operand_next_to_it() {
    assert_eq!(program("-2 + 3").code, vec![CONSTANT, 0, NEGATE, CONSTANT, 1, ADD, RETURN]);
    assert_eq!(program("-2 * 3").code, vec![CONSTANT, 0, NEGATE, CONSTANT, 1, MULTIPLY, RETURN]);
    assert_eq!(program("-(2 + 3)").code, vec![CONSTANT, 0, CONSTANT, 1, ADD, NEGATE, RETURN]);
    assert_eq!(program("--2").code, vec![CONSTANT, 0, NEGATE, NEGATE, RETURN]);
    assert_eq!(program("2 - -3").code, vec![CONSTANT, 0, CONSTANT, 1, NEGATE, SUBTRACT, RETURN]);
    assert_eq!(program("2 * -3").code, vec![CONSTANT, 0, CONSTANT, 1, NEGATE, MULTIPLY, RETURN]);
}

#[test]
fn every_numeral_gets_a_constant_of_its_own() {
    let chunk = program("1 + 1 + 1");
    assert_eq!(chunk.code, vec![CONSTANT, 0, CONSTANT, 1, ADD, CONSTANT, 2, ADD, RETURN]);
    assert_eq!(chunk.constants, vec![1.0, 1.0, 1.0]);
}

#[test]
fn the_host_converts_the_numerals() {
    let seen = std::cell::RefCell::new(Vec::new());
    let record = |text: &str| -> Option<usize> {
        seen.borrow_mut().push(text.to_owned());
        Some(text.len())
    };
    let chunk: Chunk<usize> = compile(&chars("12 + 3.25 * (007)"), &record).unwrap();
    assert_eq!(*seen.borrow(), vec!["12", "3.25", "007"]);
    assert_eq!(chunk.constants, vec![2, 4, 3]);
}

#[test]
fn every_byte_has_the_line_of_the_token_read_last() {
    let chunk = program("1 +\n2");
    assert_eq!(chunk.code, vec![CONSTANT, 0, CONSTANT, 1, ADD, RETURN]);
    assert_eq!(chunk.lines, vec![1, 1, 2, 2, 2, 2]);
    let chunk = program("-\n(\n1\n+\n2\n)\n");
    assert_eq!(chunk.code, vec![CONSTANT, 0, CONSTANT, 1, ADD, NEGATE, RETURN]);
    assert_eq!(chunk.lines, vec![3, 3, 5, 5, 5, 6, 7]);
    let chunk = program("1 // one\n* 2 // two\n\n\n- 3");
    assert_eq!(chunk.code, vec![CONSTANT, 0, CONSTANT, 1, MULTIPLY, CONSTANT, 2, SUBTRACT, RETURN]);
    assert_eq!(chunk.lines, vec![1, 1, 2, 2, 2, 5, 5, 5, 5]);
}

#[test]
fn the_line_table_never_goes_back() {
    for text in ["1", "1\n+\n2\n*\n3", "(\n1 +\n2) *\n-3\n", "\n\n-\n-\n1 // x\n/ 2\n\n"] {
        let chunk = program(text);
        assert_eq!(chunk.lines.len(), chunk.code.len());
        assert!(chunk.lines[0] >= 1);
        for pair in chunk.lines.windows(2) {
            assert!(pair[0] <= pair[1]);
        }
        let last = 1 + text.matches('\n').count() as i32;
        assert_eq!(*chunk.lines.last().unwrap(), last);
    }
}

#[test]
fn an_empty_source_has_no_expression() {
    let found = reported("");
    assert_eq!(found.line, 1);
    assert!(matches!(found.place, Place::End));
    assert_eq!(found.message, "Expect expression.");
    let found = reported("  // nothing\n");
    assert_eq!(found.line, 2);
    assert!(matches!(found.place, Place::End));
    assert_eq!(found.message, "Expect expression.");
}

#[test]
fn a_token_that_begins_no_expression_is_reported() {
    let found = reported("+ 1");
    assert_eq!(found.line, 1);
    assert!(matches!(&found.place, Place::Lexeme(lexeme) if lexeme == "+"));
    assert_eq!(found.message, "Expect expression.");
    let found = reported("1 +");
    assert!(matches!(found.place, Place::End));
    assert_eq!(found.message, "Expect expression.");
    let found = reported("1 + * 2");
    assert!(matches!(&found.place, Place::Lexeme(lexeme) if lexeme == "*"));
    assert_eq!(found.message, "Expect expression.");
    let found = reported("()");
    assert!(matches!(&found.place, Place::Lexeme(lexeme) if lexeme == ")"));
    assert_eq!(found.message, "Expect expression.");
    let found = reported("\n\nfoo");
    assert_eq!(found.line, 3);
    assert!(matches!(&found.place, Place::Lexeme(lexeme) if lexeme == "foo"));
    assert_eq!(found.message, "Expect expression.");
}

#[test]
fn a_missing_closing_parenthesis_is_reported() {
    let found = reported("(1 + 2");
    assert_eq!(found.line, 1);
    assert!(matches!(found.place, Place::End));
    assert_eq!(found.message, "Expect ')' after expression.");
    let found = reported("(1 2)");
    assert!(matches!(&found.place, Place::Lexeme(lexeme) if lexeme == "2"));
    assert_eq!(found.message, "Expect ')' after expression.");
}

#[test]
fn what_follows_the_expression_is_reported() {
    let found = reported("1 2");
    assert_eq!(found.line, 1);
    assert!(matches!(&found.place, Place::Lexeme(lexeme) if lexeme == "2"));
    assert_eq!(found.message, "Expect end of expression.");
    let found = reported("(1)\n)");
    assert_eq!(found.line, 2);
    assert!(matches!(&found.place, Place::Lexeme(lexeme) if lexeme == ")"));
    assert_eq!(found.message, "Expect end of expression.");
    let found = reported("1 == 2");
    assert!(matches!(&found.place, Place::Lexeme(lexeme) if lexeme == "=="));
    assert_eq!(found.message, "Expect end of expression.");
}

#[test]
fn a_lexical_error_is_reported_with_its_own_message() {
    let found = reported("@");
    assert_eq!(found.line, 1);
    assert!(matches!(found.place, Place::Unplaced));
    assert_eq!(found.message, "Unexpected character: @.");
    let found = reported("1 +\n\"abc");
    assert_eq!(found.line, 2);
    assert!(matches!(found.place, Place::Unplaced));
    assert_eq!(found.message, "Unterminated string.");
    let found = reported("1 + 2 $");
    assert!(matches!(found.place, Place::Unplaced));
    assert_eq!(found.message, "Unexpected character: $.");
}

/// A conversion to small numbers: it fails on a numeral with a fraction and
/// on one that is too large for a byte.
fn byte(text: &str) -> Option<u8> {
    text.parse::<u8>().ok()
}

fn refused(text: &str) -> Diagnostic {
    let result: Result<Chunk<u8>, Diagnostic> = compile(&chars(text), &byte);
    result.err().unwrap()
}

#[test]
fn a_numeral_that_the_host_cannot_convert_is_reported() {
    let found = refused("300");
    assert_eq!(found.line, 1);
    assert!(matches!(&found.place, Place::Lexeme(lexeme) if lexeme == "300"));
    assert_eq!(found.message, "Could not parse number.");
    let found = refused("1 +\n2.5");
    assert_eq!(found.line, 2);
    assert!(matches!(&found.place, Place::Lexeme(lexeme) if lexeme == "2.5"));
    assert_eq!(found.message, "Could not parse number.");
    let found = refused("-(7 * 256)");
    assert!(matches!(&found.place, Place::Lexeme(lexeme) if lexeme == "256"));
    assert_eq!(found.message, "Could not parse number.");
}

#[test]
fn the_numerals_that_the_host_converts_compile() {
    let chunk: Chunk<u8> = compile(&chars("255 - 0 * 007"), &byte).unwrap();
    assert_eq!(chunk.code, vec![CONSTANT, 0, CONSTANT, 1, CONSTANT, 2, MULTIPLY, SUBTRACT, RETURN]);
    assert_eq!(chunk.constants, vec![255, 0, 7]);
}

#[test]
fn a_failed_conversion_is_one_error_among_the_others_in_reading_order() {
    // The numeral is read before the end of the source is.
    let found = refused("300 +");
    assert!(matches!(&found.place, Place::Lexeme(lexeme) if lexeme == "300"));
    assert_eq!(found.message, "Could not parse number.");
    // The operator without a left operand is read before the numeral.
    let found = refused("* 300");
    assert!(matches!(&found.place, Place::Lexeme(lexeme) if lexeme == "*"));
    assert_eq!(found.message, "Expect expression.");
    // The lexical error comes into view when the numeral is taken, before it is converted.
    let found = refused("300 @");
    assert!(matches!(found.place, Place::Unplaced));
    assert_eq!(found.message, "Unexpected character: @.");
    // Of two numerals that cannot be converted the first is reported.
    let found = refused("1 + 1.5 + 300");
    assert!(matches!(&found.place, Place::Lexeme(lexeme) if lexeme == "1.5"));
    assert_eq!(found.message, "Could not parse number.");
    // The conversion comes before the room in the pool.
    let mut text = String::new();
    for _ in 0..256 {
        text.push_str("1 + ");
    }
    let found = refused(&format!("{}300", text));
    assert!(matches!(&found.place, Place::Lexeme(lexeme) if lexeme == "300"));
    assert_eq!(found.message, "Could not parse number.");
    let found = refused(&format!("{}3", text));
    assert!(matches!(&found.place, Place::Lexeme(lexeme) if lexeme == "3"));
    assert_eq!(found.message, "Too many constants in one chunk.");
}

#[test]
fn a_conversion_to_doubles_takes_every_numeral() {
    let long = "9".repeat(400);
    for text in ["0", "007", "0.000", "123456789012345678901234567890.5", long.as_str()] {
        let chunk: Chunk<f64> = compile(&chars(text), &number).unwrap();
        assert_eq!(chunk.constants, vec![text.parse::<f64>().unwrap()]);
    }
    assert_eq!(program(&long).constants, vec![f64::INFINITY]);
}

#[test]
fn only_the_first_error_is_reported() {
    // The lexical error comes into view before the missing operand is noticed.
    let found = reported("+ @");
    assert!(matches!(found.place, Place::Unplaced));
    assert_eq!(found.message, "Unexpected character: @.");
    // The first of two lexical errors in a row.
    let found = reported("1 # $");
    assert_eq!(found.message, "Unexpected character: #.");
    // The first of two syntax errors.
    let found = reported("(1 + ) 2 3");
    assert!(matches!(&found.place, Place::Lexeme(lexeme) if lexeme == ")"));
    assert_eq!(found.message, "Expect expression.");
    // A syntax error before a lexical error that is never reached.
    let found = reported("1 1 @");
    assert!(matches!(&found.place, Place::Lexeme(lexeme) if lexeme == "1"));
    assert_eq!(found.message, "Expect end of expression.");
}

#[test]
fn the_operators_name_their_operations() {
    let seen = std::cell::RefCell::new(Vec::new());
    let binary = |op: Operator, left: f64, right: f64| -> f64 {
        seen.borrow_mut().push((op, left, right));
        0.0
    };
    let negate = |operand: f64| -> f64 { -operand };
    let mut vm: rustlox::vm::VM<f64> = rustlox::vm::VM::new();
    vm.interpret(chars("1 + 2"), &number, &binary, &negate);
    vm.interpret(chars("3 - 4"), &number, &binary, &negate);
    vm.interpret(chars("5 * 6"), &number, &binary, &negate);
    vm.interpret(chars("7 / 8"), &number, &binary, &negate);
    assert_eq!(
        *seen.borrow(),
        vec![
            (Operator::Add, 1.0, 2.0),
            (Operator::Subtract, 3.0, 4.0),
            (Operator::Multiply, 5.0, 6.0),
            (Operator::Divide, 7.0, 8.0),
        ]
    );
}
