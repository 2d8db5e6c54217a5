//! Bytecode chunks: an append-only stream of instruction words, a
//! parallel table of source lines, and a constant pool.

use vstd::prelude::*;
use crate::value;

verus! {

/// Every operation the virtual machine can execute.
#[derive(Clone, Copy, PartialEq, Eq, Structural, Debug)]
pub enum OpCode {
    Constant,
    Add,
    Subtract,
    Multiply,
    Divide,
    Negate,
    Return,
}

/// The instruction word that encodes an opcode.
pub open spec fn op_word(op: OpCode) -> usize {
    match op {
        OpCode::Constant => 0,
        OpCode::Add => 1,
        OpCode::Subtract => 2,
        OpCode::Multiply => 3,
        OpCode::Divide => 4,
        OpCode::Negate => 5,
        OpCode::Return => 6,
    }
}

/// The opcode an instruction word encodes, if any.
pub open spec fn word_op(w: usize) -> Option<OpCode> {
    if w == 0 {
        Some(OpCode::Constant)
    } else if w == 1 {
        Some(OpCode::Add)
    } else if w == 2 {
        Some(OpCode::Subtract)
    } else if w == 3 {
        Some(OpCode::Multiply)
    } else if w == 4 {
        Some(OpCode::Divide)
    } else if w == 5 {
        Some(OpCode::Negate)
    } else if w == 6 {
        Some(OpCode::Return)
    } else {
        None
    }
}

/// How many operand words follow an opcode in the instruction stream.
/// This table is the single source of truth the disassembler and the
/// virtual machine both consult.
pub open spec fn op_operand_words(op: OpCode) -> usize {
    match op {
        OpCode::Constant => 1,
        _ => 0,
    }
}

/// Encodes an opcode as an instruction word.
pub fn op_to_word(op: OpCode) -> (w: usize)
    ensures
        w == op_word(op),
{
    match op {
        OpCode::Constant => 0,
        OpCode::Add => 1,
        OpCode::Subtract => 2,
        OpCode::Multiply => 3,
        OpCode::Divide => 4,
        OpCode::Negate => 5,
        OpCode::Return => 6,
    }
}

/// Decodes an instruction word back to its opcode.
pub fn word_to_op(w: usize) -> (op: Option<OpCode>)
    ensures
        op == word_op(w),
{
    if w == 0 {
        Some(OpCode::Constant)
    } else if w == 1 {
        Some(OpCode::Add)
    } else if w == 2 {
        Some(OpCode::Subtract)
    } else if w == 3 {
        Some(OpCode::Multiply)
    } else if w == 4 {
        Some(OpCode::Divide)
    } else if w == 5 {
        Some(OpCode::Negate)
    } else if w == 6 {
        Some(OpCode::Return)
    } else {
        None
    }
}

/// Decoding an instruction word recovers exactly the opcode that was
/// encoded, and no word decodes to two opcodes.
pub proof fn lemma_word_round_trip(op: OpCode)
    ensures
        word_op(op_word(op)) == Some(op),
{
}

/// One compiled routine: instruction words, the source line of each
/// word, and the constants the words refer to.
pub struct Chunk {
    pub code: Vec<usize>,
    pub constants: value::ValueArray,
    pub lines: Vec<u32>,
}

impl Chunk {
    /// The line table names a source line for every instruction word.
    pub open spec fn wf(&self) -> bool {
        self.code@.len() == self.lines@.len()
    }

    /// Creates an empty chunk.
    pub fn new() -> (c: Chunk)
        ensures
            c.wf(),
            c.code@ == Seq::<usize>::empty(),
            c.constants.values@ == Seq::<u64>::empty(),
            c.lines@ == Seq::<u32>::empty(),
    {
        Chunk { code: vec![], constants: value::ValueArray::new(), lines: vec![] }
    }

    /// Appends one instruction word and records the source line that
    /// produced it.
    pub fn write_byte(&mut self, byte: usize, line: u32)
        requires
            old(self).wf(),
        ensures
            final(self).wf(),
            final(self).code@ == old(self).code@.push(byte),
            final(self).lines@ == old(self).lines@.push(line),
            final(self).constants.values@ == old(self).constants.values@,
    {
        self.code.push(byte);
        self.lines.push(line);
    }

    /// Appends a value to the constant pool and returns its index,
    /// which stays valid for the life of the chunk.
    pub fn add_constant(&mut self, val: value::Value) -> (idx: usize)
        ensures
            final(self).constants.values@ == old(self).constants.values@.push(val),
            idx == old(self).constants.values@.len(),
            final(self).code@ == old(self).code@,
            final(self).lines@ == old(self).lines@,
            final(self).wf() == old(self).wf(),
    {
        self.constants.write_value(val);
        self.constants.values.len() - 1
    }
}

} // verus!
