//! Bytecode: the instruction set and the unit that holds compiled code.
use vstd::prelude::*;

verus! {

/// The instructions. Each is one byte; `Constant` is followed by one operand
/// byte, the index of a constant in the pool.
#[derive(Debug, PartialEq, Eq, Clone, Copy, Structural)]
pub enum OpCode {
    Constant,
    Add,
    Subtract,
    Multiply,
    Divide,
    Negate,
    Return,
}

/// The operations on two numbers.
#[derive(Debug, PartialEq, Eq, Clone, Copy, Structural)]
pub enum Operator {
    Add,
    Subtract,
    Multiply,
    Divide,
}

impl Operator {
    /// The instruction that performs the operation.
    pub open spec fn opcode(self) -> OpCode {
        match self {
            Operator::Add => OpCode::Add,
            Operator::Subtract => OpCode::Subtract,
            Operator::Multiply => OpCode::Multiply,
            Operator::Divide => OpCode::Divide,
        }
    }
}

impl OpCode {
    /// The operation that the instruction performs, if it is one on two
    /// numbers.
    pub open spec fn operator(self) -> Option<Operator> {
        match self {
            OpCode::Add => Some(Operator::Add),
            OpCode::Subtract => Some(Operator::Subtract),
            OpCode::Multiply => Some(Operator::Multiply),
            OpCode::Divide => Some(Operator::Divide),
            _ => None,
        }
    }
}

/// How many constants one chunk can hold: what one operand byte can index.
pub const MAX_CONSTANTS: usize = 256;

/// The byte that stands for `op` in the instruction stream.
pub open spec fn encode(op: OpCode) -> u8 {
    match op {
        OpCode::Constant => 0,
        OpCode::Add => 1,
        OpCode::Subtract => 2,
        OpCode::Multiply => 3,
        OpCode::Divide => 4,
        OpCode::Negate => 5,
        OpCode::Return => 6,
    }
}

/// The instruction that `byte` stands for, if it stands for one.
pub open spec fn decode(byte: u8) -> Option<OpCode> {
    if byte == 0 {
        Some(OpCode::Constant)
    } else if byte == 1 {
        Some(OpCode::Add)
    } else if byte == 2 {
        Some(OpCode::Subtract)
    } else if byte == 3 {
        Some(OpCode::Multiply)
    } else if byte == 4 {
        Some(OpCode::Divide)
    } else if byte == 5 {
        Some(OpCode::Negate)
    } else if byte == 6 {
        Some(OpCode::Return)
    } else {
        None
    }
}

/// Encoder and decoder agree: every instruction decodes from its own byte,
/// and a byte that decodes is the byte of the instruction it decodes to.
pub proof fn lemma_decode_encode(op: OpCode, byte: u8)
    ensures
        decode(encode(op)) == Some(op),
        decode(byte) == Some(op) <==> byte == encode(op),
{
}

impl OpCode {
    pub fn to_u8(self) -> (byte: u8)
        ensures
            byte == encode(self),
    {
        match self {
            OpCode::Constant => 0,
            OpCode::Add => 1,
            OpCode::Subtract => 2,
            OpCode::Multiply => 3,
            OpCode::Divide => 4,
            OpCode::Negate => 5,
            OpCode::Return => 6,
        }
    }

    pub fn from_u8(byte: u8) -> (op: Option<OpCode>)
        ensures
            op == decode(byte),
    {
        match byte {
            0 => Some(OpCode::Constant),
            1 => Some(OpCode::Add),
            2 => Some(OpCode::Subtract),
            3 => Some(OpCode::Multiply),
            4 => Some(OpCode::Divide),
            5 => Some(OpCode::Negate),
            6 => Some(OpCode::Return),
            _ => None,
        }
    }
}

/// A compiled unit: instruction bytes, the constants they refer to, and for
/// each byte the source line it came from.
#[derive(Debug)]
pub struct Chunk<V> {
    pub code: Vec<u8>,
    pub constants: Vec<V>,
    pub lines: Vec<i32>,
}

/// What a chunk holds, as mathematics.
pub struct ChunkView<V> {
    pub code: Seq<u8>,
    pub constants: Seq<V>,
    pub lines: Seq<i32>,
}

impl<V> View for Chunk<V> {
    type V = ChunkView<V>;

    open spec fn view(&self) -> ChunkView<V> {
        ChunkView { code: self.code@, constants: self.constants@, lines: self.lines@ }
    }
}

impl<V> Chunk<V> {
    /// Every byte has its line, and one byte can index every constant.
    pub open spec fn wf(&self) -> bool {
        &&& self.lines@.len() == self.code@.len()
        &&& self.constants@.len() <= MAX_CONSTANTS
    }

    pub fn new() -> (chunk: Chunk<V>)
        ensures
            chunk.wf(),
            chunk.code@ == Seq::<u8>::empty(),
            chunk.constants@ == Seq::<V>::empty(),
            chunk.lines@ == Seq::<i32>::empty(),
    {
        Chunk { code: Vec::new(), constants: Vec::new(), lines: Vec::new() }
    }

    /// Appends one byte of code and the line it came from.
    pub fn write(&mut self, byte: u8, line: i32)
        ensures
            final(self).code@ == old(self).code@.push(byte),
            final(self).lines@ == old(self).lines@.push(line),
            final(self).constants@ == old(self).constants@,
            old(self).wf() ==> final(self).wf(),
    {
        self.code.push(byte);
        self.lines.push(line);
    }

    /// Appends a constant and returns its index. A full pool takes no more:
    /// it stays as it is, and there is no index to return.
    pub fn add_constant(&mut self, value: V) -> (index: Option<u8>)
        ensures
            final(self).code@ == old(self).code@,
            final(self).lines@ == old(self).lines@,
            old(self).wf() ==> final(self).wf(),
            old(self).constants@.len() < MAX_CONSTANTS ==> index == Some(old(self).constants@.len() as u8)
                && final(self).constants@ == old(self).constants@.push(value),
            old(self).constants@.len() >= MAX_CONSTANTS ==> index.is_none() && final(self).constants@
                == old(self).constants@,
    {
        let index = self.constants.len();
        if index >= MAX_CONSTANTS {
            return None;
        }
        self.constants.push(value);
        Some(index as u8)
    }
}

impl<V: Copy> Chunk<V> {
    pub fn read_constant(&self, index: u8) -> (value: V)
        requires
            index < self.constants@.len(),
        ensures
            value == self.constants@[index as int],
    {
        self.constants[index as usize]
    }
}

} // verus!
