use rustlox::chunk::{Chunk, OpCode};
use rustlox::compiler::compile;
use rustlox::debug::{
    constant_instruction, disassemble_chunk, disassemble_instruction, simple_instruction,
};

fn chars(text: &str) -> Vec<char> {
    text.chars().collect()
}

fn number(text: &str) -> Option<f64> {
    text.parse::<f64>().ok()
}

#[test]
fn the_instructions_have_their_names() {
    assert_eq!(OpCode::Constant.name(), "OP_CONSTANT");
    assert_eq!(OpCode::Add.name(), "OP_ADD");
    assert_eq!(OpCode::Subtract.name(), "OP_SUBTRACT");
    assert_eq!(OpCode::Multiply.name(), "OP_MULTIPLY");
    assert_eq!(OpCode::Divide.name(), "OP_DIVIDE");
    assert_eq!(OpCode::Negate.name(), "OP_NEGATE");
    assert_eq!(OpCode::Return.name(), "OP_RETURN");
}

#[test]
fn a_simple_instruction_takes_one_byte() {
    assert_eq!(simple_instruction(0), 1);
    assert_eq!(simple_instruction(41), 42);
}

#[test]
fn a_constant_instruction_takes_two_bytes() {
    let chunk: Chunk<f64> = compile(&chars("1.5 + 2.5"), &number).unwrap();
    assert_eq!(constant_instruction(&chunk, 0), (Some(0), Some(1.5), 2));
    assert_eq!(constant_instruction(&chunk, 2), (Some(1), Some(2.5), 4));
}

#[test]
fn a_listing_shows_every_instruction_of_a_program() {
    let chunk: Chunk<f64> = compile(&chars("1.5 +\n-2.5"), &number).unwrap();
    let listing = disassemble_chunk(&chunk);
    assert_eq!(listing.len(), 5);

    assert_eq!(listing[0].offset, 0);
    assert_eq!(listing[0].line, Some(1));
    assert_eq!(listing[0].byte, 0);
    assert_eq!(listing[0].opcode, Some(OpCode::Constant));
    assert_eq!(listing[0].operand, Some(0));
    assert_eq!(listing[0].constant, Some(1.5));

    assert_eq!(listing[1].offset, 2);
    assert_eq!(listing[1].line, Some(2));
    assert_eq!(listing[1].opcode, Some(OpCode::Constant));
    assert_eq!(listing[1].operand, Some(1));
    assert_eq!(listing[1].constant, Some(2.5));

    assert_eq!(listing[2].offset, 4);
    assert_eq!(listing[2].line, None);
    assert_eq!(listing[2].byte, 5);
    assert_eq!(listing[2].opcode, Some(OpCode::Negate));
    assert_eq!(listing[2].operand, None);
    assert_eq!(listing[2].constant, None);

    assert_eq!(listing[3].offset, 5);
    assert_eq!(listing[3].line, None);
    assert_eq!(listing[3].opcode, Some(OpCode::Add));

    assert_eq!(listing[4].offset, 6);
    assert_eq!(listing[4].line, None);
    assert_eq!(listing[4].opcode, Some(OpCode::Return));
}

#[test]
fn the_line_is_shown_where_it_changes() {
    let mut chunk: Chunk<f64> = Chunk::new();
    chunk.write(OpCode::Negate.to_u8(), 7);
    chunk.write(OpCode::Negate.to_u8(), 7);
    chunk.write(OpCode::Negate.to_u8(), 8);
    chunk.write(OpCode::Return.to_u8(), 7);
    let lines: Vec<Option<i32>> = disassemble_chunk(&chunk).iter().map(|listed| listed.line).collect();
    assert_eq!(lines, vec![Some(7), None, Some(8), Some(7)]);
}

#[test]
fn one_instruction_is_listed_with_the_offset_of_the_next() {
    let chunk: Chunk<f64> = compile(&chars("-3"), &number).unwrap();
    let (listed, next) = disassemble_instruction(&chunk, 0);
    assert_eq!(listed.offset, 0);
    assert_eq!(listed.opcode, Some(OpCode::Constant));
    assert_eq!(listed.constant, Some(3.0));
    assert_eq!(next, 2);
    let (listed, next) = disassemble_instruction(&chunk, 2);
    assert_eq!(listed.offset, 2);
    assert_eq!(listed.opcode, Some(OpCode::Negate));
    assert_eq!(next, 3);
    let (listed, next) = disassemble_instruction(&chunk, 3);
    assert_eq!(listed.opcode, Some(OpCode::Return));
    assert_eq!(next, 4);
}

#[test]
fn a_listing_shows_what_is_wrong_with_malformed_code() {
    let mut chunk: Chunk<f64> = Chunk::new();
    chunk.add_constant(1.0);
    chunk.write(200, 1);
    chunk.write(OpCode::Constant.to_u8(), 1);
    chunk.write(9, 2);
    chunk.write(OpCode::Constant.to_u8(), 3);
    let listing = disassemble_chunk(&chunk);
    assert_eq!(listing.len(), 3);
    // a byte that is no instruction
    assert_eq!(listing[0].byte, 200);
    assert_eq!(listing[0].opcode, None);
    assert_eq!(listing[0].operand, None);
    // an index without a constant
    assert_eq!(listing[1].offset, 1);
    assert_eq!(listing[1].opcode, Some(OpCode::Constant));
    assert_eq!(listing[1].operand, Some(9));
    assert_eq!(listing[1].constant, None);
    assert_eq!(listing[1].line, None);
    // a `Constant` without its operand
    assert_eq!(listing[2].offset, 3);
    assert_eq!(listing[2].opcode, Some(OpCode::Constant));
    assert_eq!(listing[2].operand, None);
    assert_eq!(listing[2].constant, None);
    assert_eq!(listing[2].line, Some(3));
}

#[test]
fn an_empty_chunk_has_an_empty_listing() {
    let chunk: Chunk<f64> = Chunk::new();
    assert!(disassemble_chunk(&chunk).is_empty());
}
