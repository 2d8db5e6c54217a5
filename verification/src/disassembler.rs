//! The disassembler: renders a chunk's instruction stream as
//! human-readable trace text, one line per instruction.
//!
//! `instr_text` defines the exact line each instruction renders to,
//! and `chunk_trace` the whole trace; the executable functions are
//! proved to produce exactly that text, so the trace of a chunk is a
//! pure function of the chunk.

use vstd::prelude::*;
use vstd::string::StringExecFns;
use crate::chunk;
use crate::chunk::OpCode;
use crate::chunk::Chunk;
use crate::value;
use crate::text;

verus! {

/// How many operand words follow the opcode word at `offset`; operand
/// words must be skipped, never read as opcodes.
pub open spec fn instr_extra_words(code: Seq<usize>, offset: int) -> int {
    match chunk::word_op(code[offset]) {
        Some(OpCode::Constant) => if offset + 1 < code.len() {
            1int
        } else {
            0int
        },
        _ => 0int,
    }
}

/// The source-line column of an instruction's trace line: the line
/// number, or a continuation marker when the previous instruction
/// came from the same line.
pub open spec fn line_field(lines: Seq<u32>, offset: int) -> Seq<char> {
    if offset > 0 && lines[offset] == lines[offset - 1] {
        "   | "@
    } else {
        text::pad4_text(lines[offset] as nat) + seq![' ']
    }
}

/// The mnemonic-and-operands part of an instruction's trace line. A
/// constant load resolves its operand against the pool, rendering a
/// question mark when the chunk is corrupt (a missing operand word or
/// an out-of-range pool index); an unrecognized opcode word is
/// reported, never a fault.
pub open spec fn op_text(code: Seq<usize>, consts: Seq<u64>, offset: int) -> Seq<char> {
    match chunk::word_op(code[offset]) {
        Some(OpCode::Constant) => if offset + 1 < code.len() {
            let idx = code[offset + 1];
            "OP_CONSTANT      "@ + text::pad4_text(idx as nat) + " '"@ + (if idx < consts.len() {
                value::value_text(consts[idx as int])
            } else {
                seq!['?']
            }) + "'\n"@
        } else {
            "OP_CONSTANT\n"@
        },
        Some(OpCode::Add) => "OP_ADD\n"@,
        Some(OpCode::Subtract) => "OP_SUBTRACT\n"@,
        Some(OpCode::Multiply) => "OP_MULTIPLY\n"@,
        Some(OpCode::Divide) => "OP_DIVIDE\n"@,
        Some(OpCode::Negate) => "OP_NEGATE\n"@,
        Some(OpCode::Return) => "OP_RETURN\n"@,
        None => "Unknown OpCode "@ + text::dec_text(code[offset] as nat) + seq!['\n'],
    }
}

/// The whole trace line of one instruction: its offset, its source
/// line column, and its mnemonic and operands.
pub open spec fn instr_text(
    code: Seq<usize>,
    lines: Seq<u32>,
    consts: Seq<u64>,
    offset: int,
) -> Seq<char> {
    text::pad4_text(offset as nat) + seq![' '] + line_field(lines, offset) + op_text(
        code,
        consts,
        offset,
    )
}

/// The trace of every instruction from `offset` on, each line placed
/// after the previous instruction's operand words are skipped.
pub open spec fn instrs_text(
    code: Seq<usize>,
    lines: Seq<u32>,
    consts: Seq<u64>,
    offset: int,
) -> Seq<char>
    decreases code.len() - offset,
        via instrs_text_dec
{
    if offset < 0 || offset >= code.len() {
        Seq::empty()
    } else {
        instr_text(code, lines, consts, offset) + instrs_text(
            code,
            lines,
            consts,
            offset + 1 + instr_extra_words(code, offset),
        )
    }
}

#[via_fn]
proof fn instrs_text_dec(code: Seq<usize>, lines: Seq<u32>, consts: Seq<u64>, offset: int) {
    assert(instr_extra_words(code, offset) >= 0);
}

/// The trace of a whole chunk: a header carrying the label, then
/// every instruction from offset zero.
pub open spec fn chunk_trace(
    code: Seq<usize>,
    lines: Seq<u32>,
    consts: Seq<u64>,
    name: Seq<char>,
) -> Seq<char> {
    "== "@ + name + " ==\n"@ + instrs_text(code, lines, consts, 0)
}

/// Renders one instruction's trace line and returns how many operand
/// words beyond the opcode were consumed, so that a caller can
/// advance past variable-width instructions.
#[verifier::rlimit(100)]
pub fn disassemble_instruction(c: &Chunk, offset: usize) -> (r: (String, u32))
    requires
        c.wf(),
        offset < c.code@.len(),
    ensures
        r.0@ == instr_text(c.code@, c.lines@, c.constants.values@, offset as int),
        r.1 as int == instr_extra_words(c.code@, offset as int),
{
    let mut s = String::new();
    text::push_pad4(&mut s, offset);
    s.push(' ');
    if offset > 0 && c.lines[offset] == c.lines[offset - 1] {
        s.append("   | ");
    } else {
        text::push_pad4(&mut s, c.lines[offset] as usize);
        s.push(' ');
    }
    let w = c.code[offset];
    let r = match chunk::word_to_op(w) {
        Some(OpCode::Constant) => {
            if c.code.len() - offset > 1 {
                let idx = c.code[offset + 1];
                s.append("OP_CONSTANT      ");
                text::push_pad4(&mut s, idx);
                s.append(" '");
                if idx < c.constants.values.len() {
                    let vs = value::format_value(c.constants.values[idx]);
                    text::push_string(&mut s, &vs);
                } else {
                    s.push('?');
                }
                s.append("'\n");
                (s, 1u32)
            } else {
                s.append("OP_CONSTANT\n");
                (s, 0u32)
            }
        },
        Some(OpCode::Add) => {
            s.append("OP_ADD\n");
            (s, 0u32)
        },
        Some(OpCode::Subtract) => {
            s.append("OP_SUBTRACT\n");
            (s, 0u32)
        },
        Some(OpCode::Multiply) => {
            s.append("OP_MULTIPLY\n");
            (s, 0u32)
        },
        Some(OpCode::Divide) => {
            s.append("OP_DIVIDE\n");
            (s, 0u32)
        },
        Some(OpCode::Negate) => {
            s.append("OP_NEGATE\n");
            (s, 0u32)
        },
        Some(OpCode::Return) => {
            s.append("OP_RETURN\n");
            (s, 0u32)
        },
        None => {
            s.append("Unknown OpCode ");
            text::push_decimal(&mut s, w);
            s.push('\n');
            (s, 0u32)
        },
    };
    proof {
        assert(r.0@ =~= instr_text(c.code@, c.lines@, c.constants.values@, offset as int));
    }
    r
}

/// Renders the trace of a whole chunk under a label, walking the
/// instruction stream from offset zero and skipping operand words.
pub fn disassemble_chunk(c: &Chunk, name: &str) -> (r: String)
    requires
        c.wf(),
    ensures
        r@ == chunk_trace(c.code@, c.lines@, c.constants.values@, name@),
{
    let mut s = String::new();
    s.append("== ");
    s.append(name);
    s.append(" ==\n");
    let mut offset: usize = 0;
    proof {
        assert(s@ + instrs_text(c.code@, c.lines@, c.constants.values@, 0) =~= chunk_trace(
            c.code@,
            c.lines@,
            c.constants.values@,
            name@,
        ));
    }
    while offset < c.code.len()
        invariant
            c.wf(),
            offset <= c.code@.len(),
            s@ + instrs_text(c.code@, c.lines@, c.constants.values@, offset as int)
                == chunk_trace(c.code@, c.lines@, c.constants.values@, name@),
        decreases c.code@.len() - offset,
    {
        let (line, extra) = disassemble_instruction(c, offset);
        text::push_string(&mut s, &line);
        proof {
            assert(s@ + instrs_text(
                c.code@,
                c.lines@,
                c.constants.values@,
                offset as int + 1 + instr_extra_words(c.code@, offset as int),
            ) =~= chunk_trace(c.code@, c.lines@, c.constants.values@, name@));
        }
        offset = offset + 1 + extra as usize;
    }
    proof {
        assert(s@ =~= chunk_trace(c.code@, c.lines@, c.constants.values@, name@));
    }
    s
}

/// Disassembly is idempotent: the trace is a pure function of the
/// chunk, so disassembling the same chunk twice yields character-for-
/// character identical text.
pub proof fn lemma_disassembly_deterministic(
    code: Seq<usize>,
    lines: Seq<u32>,
    consts: Seq<u64>,
    name: Seq<char>,
    t1: Seq<char>,
    t2: Seq<char>,
)
    requires
        t1 == chunk_trace(code, lines, consts, name),
        t2 == chunk_trace(code, lines, consts, name),
    ensures
        t1 == t2,
{
}

} // verus!
