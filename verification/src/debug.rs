//! The disassembler: what a listing of a chunk shows, instruction by
//! instruction. Printing it is left to the caller.
use crate::chunk::{decode, Chunk, ChunkView, OpCode};
use vstd::prelude::*;

verus! {

/// One instruction of a listing.
#[derive(Debug)]
pub struct Listing<V> {
    /// where the instruction stands in the code
    pub offset: usize,
    /// the source line of the instruction; `None` where it is the line of
    /// the byte before, which a listing shows by a continuation marker
    pub line: Option<i32>,
    /// the byte at `offset`
    pub byte: u8,
    /// the instruction that the byte stands for, if it stands for one
    pub opcode: Option<OpCode>,
    /// the operand byte of `Constant`, if the code holds one
    pub operand: Option<u8>,
    /// the constant that the operand refers to, if the pool holds one there
    pub constant: Option<V>,
}

/// The name by which a listing shows an instruction.
pub open spec fn mnemonic(op: OpCode) -> Seq<char> {
    match op {
        OpCode::Constant => "OP_CONSTANT"@,
        OpCode::Add => "OP_ADD"@,
        OpCode::Subtract => "OP_SUBTRACT"@,
        OpCode::Multiply => "OP_MULTIPLY"@,
        OpCode::Divide => "OP_DIVIDE"@,
        OpCode::Negate => "OP_NEGATE"@,
        OpCode::Return => "OP_RETURN"@,
    }
}

/// The line to show at `offset`: none where the byte before has the same.
pub open spec fn line_shown(lines: Seq<i32>, offset: int) -> Option<i32> {
    if offset > 0 && lines[offset] == lines[offset - 1] {
        None
    } else {
        Some(lines[offset])
    }
}

/// The operand byte of the `Constant` at `offset`, if the code holds one.
pub open spec fn operand_at(code: Seq<u8>, offset: int) -> Option<u8> {
    if decode(code[offset]) == Some(OpCode::Constant) && offset + 1 < code.len() {
        Some(code[offset + 1])
    } else {
        None
    }
}

/// The constant that `operand` refers to, if the pool holds one there.
pub open spec fn constant_at<V>(constants: Seq<V>, operand: Option<u8>) -> Option<V> {
    match operand {
        Some(index) => if index < constants.len() {
            Some(constants[index as int])
        } else {
            None
        },
        None => None,
    }
}

/// What a listing shows of the instruction at `offset`.
pub open spec fn listed<V>(chunk: ChunkView<V>, offset: int) -> Listing<V> {
    Listing {
        offset: offset as usize,
        line: line_shown(chunk.lines, offset),
        byte: chunk.code[offset],
        opcode: decode(chunk.code[offset]),
        operand: operand_at(chunk.code, offset),
        constant: constant_at(chunk.constants, operand_at(chunk.code, offset)),
    }
}

/// Where the instruction after the one at `offset` stands: behind the
/// operand, if there is one.
pub open spec fn next_offset(code: Seq<u8>, offset: int) -> int {
    if operand_at(code, offset) is Some {
        offset + 2
    } else {
        offset + 1
    }
}

/// The listing of the code from `offset` on.
pub open spec fn listing_from<V>(chunk: ChunkView<V>, offset: int) -> Seq<Listing<V>>
    decreases chunk.code.len() - offset,
{
    if offset < 0 || offset >= chunk.code.len() {
        Seq::empty()
    } else {
        seq![listed(chunk, offset)] + listing_from(chunk, next_offset(chunk.code, offset))
    }
}

impl OpCode {
    pub fn name(self) -> (name: &'static str)
        ensures
            name@ == mnemonic(self),
    {
        match self {
            OpCode::Constant => "OP_CONSTANT",
            OpCode::Add => "OP_ADD",
            OpCode::Subtract => "OP_SUBTRACT",
            OpCode::Multiply => "OP_MULTIPLY",
            OpCode::Divide => "OP_DIVIDE",
            OpCode::Negate => "OP_NEGATE",
            OpCode::Return => "OP_RETURN",
        }
    }
}

/// Lists the whole chunk, instruction by instruction.
pub fn disassemble_chunk<V: Copy>(chunk: &Chunk<V>) -> (listing: Vec<Listing<V>>)
    requires
        chunk.lines@.len() == chunk.code@.len(),
    ensures
        listing@ == listing_from(chunk@, 0),
{
    let mut listing: Vec<Listing<V>> = Vec::new();
    let mut offset: usize = 0;
    while offset < chunk.code.len()
        invariant
            chunk.lines@.len() == chunk.code@.len(),
            offset <= chunk.code.len() + 1,
            listing@ + listing_from(chunk@, offset as int) == listing_from(chunk@, 0),
        decreases chunk.code.len() + 1 - offset,
    {
        let (listed, next) = disassemble_instruction(chunk, offset);
        listing.push(listed);
        offset = next;
    }
    listing
}

/// Lists the instruction at `offset`, and says where the next one stands.
pub fn disassemble_instruction<V: Copy>(chunk: &Chunk<V>, offset: usize) -> (result: (Listing<V>, usize))
    requires
        chunk.lines@.len() == chunk.code@.len(),
        offset < chunk.code.len(),
    ensures
        result.0 == listed(chunk@, offset as int),
        result.1 == next_offset(chunk@.code, offset as int),
{
    let line = if offset > 0 && chunk.lines[offset] == chunk.lines[offset - 1] {
        None
    } else {
        Some(chunk.lines[offset])
    };
    let instruction: u8 = chunk.code[offset];
    let opcode = OpCode::from_u8(instruction);
    match opcode {
        Some(OpCode::Constant) => {
            let (operand, constant, next) = constant_instruction(chunk, offset);
            (Listing { offset, line, byte: instruction, opcode, operand, constant }, next)
        },
        _ => {
            let next = simple_instruction(offset);
            (Listing { offset, line, byte: instruction, opcode, operand: None, constant: None }, next)
        },
    }
}

/// Reads the operand of the `Constant` at `offset` and the constant it
/// refers to, and says where the next instruction stands.
pub fn constant_instruction<V: Copy>(chunk: &Chunk<V>, offset: usize) -> (result: (
    Option<u8>,
    Option<V>,
    usize,
))
    requires
        offset < chunk.code.len(),
        decode(chunk.code@[offset as int]) == Some(OpCode::Constant),
    ensures
        result.0 == operand_at(chunk@.code, offset as int),
        result.1 == constant_at(chunk@.constants, result.0),
        result.2 == next_offset(chunk@.code, offset as int),
{
    if offset + 1 >= chunk.code.len() {
        return (None, None, offset + 1);
    }
    let constant = chunk.code[offset + 1];
    let value = if (constant as usize) < chunk.constants.len() {
        Some(chunk.read_constant(constant))
    } else {
        None
    };
    (Some(constant), value, offset + 2)
}

/// Says where the instruction after the one-byte instruction at `offset`
/// stands.
pub fn simple_instruction(offset: usize) -> (next: usize)
    requires
        offset < usize::MAX,
    ensures
        next == offset + 1,
{
    offset + 1
}

} // verus!
