//! The virtual machine: a stack interpreter over a loaded chunk.
//!
//! `run_spec` is the functional model of execution: from an
//! instruction stream, a constant pool and an operand stack it yields
//! the terminal status, the final stack, and every character the run
//! writes to the machine's output channel (diagnostics, the reported
//! result, and the per-step trace when tracing is on). The executable
//! machine is proved to produce exactly that.

use vstd::prelude::*;
use vstd::string::StringExecFns;
use crate::chunk;
use crate::chunk::Chunk;
use crate::chunk::OpCode;
use crate::compiler;
use crate::disassembler;
use crate::text;
use crate::value;
use crate::value::Value;

verus! {

/// The terminal status of one interpretation.
#[derive(Clone, Copy, PartialEq, Eq, Structural, Debug)]
pub enum InterpretResult {
    Okay,
    CompileError,
    RuntimeError,
}

/// The stack capacity reserved at construction.
const STACK_MAX: usize = 256;

/// The value a pop yields: the top of the stack, or zero as the
/// neutral substitute when the stack is empty.
pub open spec fn pop_value(stack: Seq<u64>) -> u64 {
    if stack.len() == 0 {
        0u64
    } else {
        stack.last()
    }
}

/// The stack a pop leaves behind.
pub open spec fn pop_rest(stack: Seq<u64>) -> Seq<u64> {
    if stack.len() == 0 {
        stack
    } else {
        stack.drop_last()
    }
}

/// The diagnostic a pop writes: a note when the stack was empty,
/// nothing otherwise.
pub open spec fn pop_note(stack: Seq<u64>) -> Seq<char> {
    if stack.len() == 0 {
        "Tried to pop off empty stack.\n"@
    } else {
        Seq::empty()
    }
}

/// The stack's rendering in the execution trace, bottom to top.
pub open spec fn stack_items_text(stack: Seq<u64>) -> Seq<char>
    decreases stack.len(),
{
    if stack.len() == 0 {
        Seq::empty()
    } else {
        stack_items_text(stack.drop_last()) + "[ "@ + value::value_text(stack.last()) + " ]"@
    }
}

/// What one step prints before executing when tracing is on: the
/// stack's contents, then the current instruction disassembled. The
/// trace reflects machine state before the instruction's effect.
pub open spec fn trace_prefix(
    code: Seq<usize>,
    lines: Seq<u32>,
    consts: Seq<u64>,
    stack: Seq<u64>,
    ip: int,
) -> Seq<char> {
    "          "@ + stack_items_text(stack) + seq!['\n'] + disassembler::instr_text(
        code,
        lines,
        consts,
        ip,
    )
}

/// The outcome of running a chunk: the terminal status, the operand
/// stack left behind, and the output written along the way.
pub ghost struct ExecResult {
    pub result: InterpretResult,
    pub stack: Seq<u64>,
    pub out: Seq<char>,
}

/// Execution from instruction pointer `ip`: fetch, optionally trace,
/// decode, execute, repeat. Running past the end of the stream
/// without a `Return` is a decode fault reported as `CompileError`,
/// as are a missing or out-of-range constant operand and an
/// unrecognized opcode word; `Return` pops and reports the top of the
/// stack and ends the run with `Okay`. Arithmetic pops the right
/// operand first and never faults: an empty stack yields the neutral
/// zero value and a diagnostic, and division by zero follows the
/// IEEE 754 convention of the value representation.
pub open spec fn run_spec(
    code: Seq<usize>,
    lines: Seq<u32>,
    consts: Seq<u64>,
    stack: Seq<u64>,
    ip: int,
    trace: bool,
) -> ExecResult
    decreases code.len() - ip,
{
    if ip < 0 || ip >= code.len() {
        ExecResult {
            result: InterpretResult::CompileError,
            stack: stack,
            out: "Could not find instruction.\n"@,
        }
    } else {
        let pre = if trace {
            trace_prefix(code, lines, consts, stack, ip)
        } else {
            Seq::empty()
        };
        match chunk::word_op(code[ip]) {
            Some(OpCode::Constant) => {
                if ip + 1 >= code.len() {
                    ExecResult {
                        result: InterpretResult::CompileError,
                        stack: stack,
                        out: pre + "Could not find constant instruction.\n"@,
                    }
                } else {
                    let idx = code[ip + 1];
                    if idx < consts.len() {
                        let rec = run_spec(
                            code,
                            lines,
                            consts,
                            stack.push(consts[idx as int]),
                            ip + 2,
                            trace,
                        );
                        ExecResult { result: rec.result, stack: rec.stack, out: pre + rec.out }
                    } else {
                        ExecResult {
                            result: InterpretResult::CompileError,
                            stack: stack,
                            out: pre,
                        }
                    }
                }
            },
            Some(OpCode::Add) => {
                let b = pop_value(stack);
                let s1 = pop_rest(stack);
                let a = pop_value(s1);
                let s2 = pop_rest(s1);
                let rec = run_spec(code, lines, consts, s2.push(value::add_bits(a, b)), ip + 1, trace);
                ExecResult {
                    result: rec.result,
                    stack: rec.stack,
                    out: pre + pop_note(stack) + pop_note(s1) + rec.out,
                }
            },
            Some(OpCode::Subtract) => {
                let b = pop_value(stack);
                let s1 = pop_rest(stack);
                let a = pop_value(s1);
                let s2 = pop_rest(s1);
                let rec = run_spec(code, lines, consts, s2.push(value::sub_bits(a, b)), ip + 1, trace);
                ExecResult {
                    result: rec.result,
                    stack: rec.stack,
                    out: pre + pop_note(stack) + pop_note(s1) + rec.out,
                }
            },
            Some(OpCode::Multiply) => {
                let b = pop_value(stack);
                let s1 = pop_rest(stack);
                let a = pop_value(s1);
                let s2 = pop_rest(s1);
                let rec = run_spec(code, lines, consts, s2.push(value::mul_bits(a, b)), ip + 1, trace);
                ExecResult {
                    result: rec.result,
                    stack: rec.stack,
                    out: pre + pop_note(stack) + pop_note(s1) + rec.out,
                }
            },
            Some(OpCode::Divide) => {
                let b = pop_value(stack);
                let s1 = pop_rest(stack);
                let a = pop_value(s1);
                let s2 = pop_rest(s1);
                let rec = run_spec(code, lines, consts, s2.push(value::div_bits(a, b)), ip + 1, trace);
                ExecResult {
                    result: rec.result,
                    stack: rec.stack,
                    out: pre + pop_note(stack) + pop_note(s1) + rec.out,
                }
            },
            Some(OpCode::Negate) => {
                let a = pop_value(stack);
                let s1 = pop_rest(stack);
                let rec = run_spec(code, lines, consts, s1.push(value::neg_bits(a)), ip + 1, trace);
                ExecResult {
                    result: rec.result,
                    stack: rec.stack,
                    out: pre + pop_note(stack) + rec.out,
                }
            },
            Some(OpCode::Return) => {
                ExecResult {
                    result: InterpretResult::Okay,
                    stack: pop_rest(stack),
                    out: pre + pop_note(stack) + value::value_text(pop_value(stack)) + seq!['\n'],
                }
            },
            None => {
                ExecResult { result: InterpretResult::CompileError, stack: stack, out: pre }
            },
        }
    }
}


/// Concatenation of character sequences is associative.
proof fn lemma_concat_assoc(x: Seq<char>, y: Seq<char>, z: Seq<char>)
    ensures
        x + (y + z) == (x + y) + z,
{
    assert(x + (y + z) =~= (x + y) + z);
}

/// Pushing one character is concatenation with a singleton.
proof fn lemma_push_is_concat(x: Seq<char>, c: char)
    ensures
        x.push(c) == x + seq![c],
{
    assert(x.push(c) =~= x + seq![c]);
}

/// The virtual machine: the loaded chunk, the operand stack, the
/// execution-trace switch, and the output channel everything the
/// machine prints is written to.
pub struct VM {
    pub chunk: Chunk,
    pub stack: Vec<Value>,
    pub trace: bool,
    pub output: String,
}

impl VM {
    /// Creates a machine with an empty chunk, an empty stack, and
    /// tracing enabled.
    pub fn new() -> (vm: VM)
        ensures
            vm.chunk.wf(),
            vm.chunk.code@ == Seq::<usize>::empty(),
            vm.chunk.constants.values@ == Seq::<u64>::empty(),
            vm.stack@ == Seq::<u64>::empty(),
            vm.trace == true,
            vm.output@ == Seq::<char>::empty(),
    {
        VM {
            chunk: Chunk::new(),
            stack: Vec::with_capacity(STACK_MAX),
            trace: true,
            output: String::new(),
        }
    }

    /// Pushes a value onto the operand stack.
    pub fn push_stack(&mut self, val: Value)
        ensures
            final(self).stack@ == old(self).stack@.push(val),
            final(self).chunk == old(self).chunk,
            final(self).trace == old(self).trace,
            final(self).output@ == old(self).output@,
    {
        self.stack.push(val);
    }

    /// Pops and returns the top of the operand stack. An empty stack
    /// is a defined, non-fatal condition: a diagnostic goes to the
    /// output channel and the neutral value zero is returned.
    pub fn pop_stack(&mut self) -> (v: Value)
        ensures
            v == pop_value(old(self).stack@),
            final(self).stack@ == pop_rest(old(self).stack@),
            final(self).output@ == old(self).output@ + pop_note(old(self).stack@),
            final(self).chunk == old(self).chunk,
            final(self).trace == old(self).trace,
    {
        match self.stack.pop() {
            Some(t) => {
                proof {
                    assert(self.output@ =~= old(self).output@ + pop_note(old(self).stack@));
                }
                t
            },
            None => {
                self.output.append("Tried to pop off empty stack.\n");
                0
            },
        }
    }

    /// Writes one step's execution trace to the output channel when
    /// tracing is on: the stack's contents, then the instruction at
    /// `ip` disassembled.
    #[verifier::rlimit(100)]
    fn write_trace(&mut self, ip: usize)
        requires
            old(self).chunk.wf(),
            ip < old(self).chunk.code@.len(),
        ensures
            final(self).chunk == old(self).chunk,
            final(self).trace == old(self).trace,
            final(self).stack@ == old(self).stack@,
            final(self).output@ == old(self).output@ + (if old(self).trace {
                trace_prefix(
                    old(self).chunk.code@,
                    old(self).chunk.lines@,
                    old(self).chunk.constants.values@,
                    old(self).stack@,
                    ip as int,
                )
            } else {
                Seq::empty()
            }),
    {
        let ghost st0 = self.stack@;
        let ghost out_in = self.output@;
        if self.trace {
            self.output.append("          ");
            let mut i: usize = 0;
            while i < self.stack.len()
                invariant
                    i <= self.stack@.len(),
                    self.chunk == old(self).chunk,
                    self.trace == old(self).trace,
                    self.stack@ == st0,
                    self.output@ == out_in + "          "@ + stack_items_text(st0.take(i as int)),
                decreases self.stack@.len() - i,
            {
                self.output.append("[ ");
                let vs = value::format_value(self.stack[i]);
                text::push_string(&mut self.output, &vs);
                self.output.append(" ]");
                i = i + 1;
                proof {
                    assert(st0.take(i as int).drop_last() =~= st0.take(i as int - 1));
                    assert(st0.take(i as int).last() == st0[i as int - 1]);
                    assert(self.output@ =~= out_in + "          "@ + stack_items_text(
                        st0.take(i as int),
                    ));
                }
            }
            proof {
                assert(st0.take(st0.len() as int) =~= st0);
            }
            self.output.push('\n');
            let t = disassembler::disassemble_instruction(&self.chunk, ip);
            text::push_string(&mut self.output, &t.0);
            proof {
                assert(self.output@ =~= out_in + trace_prefix(
                    self.chunk.code@,
                    self.chunk.lines@,
                    self.chunk.constants.values@,
                    st0,
                    ip as int,
                ));
            }
        } else {
            proof {
                assert(self.output@ =~= out_in + Seq::<char>::empty());
            }
        }
    }

    /// The fetch-decode-execute loop over the loaded chunk, from
    /// instruction pointer zero; produces exactly what `run_spec`
    /// describes, on the stack and on the output channel.
    #[verifier::rlimit(100)]
    fn run(&mut self) -> (res: InterpretResult)
        requires
            old(self).chunk.wf(),
        ensures
            final(self).chunk == old(self).chunk,
            final(self).trace == old(self).trace,
            res == run_spec(
                old(self).chunk.code@,
                old(self).chunk.lines@,
                old(self).chunk.constants.values@,
                old(self).stack@,
                0,
                old(self).trace,
            ).result,
            final(self).stack@ == run_spec(
                old(self).chunk.code@,
                old(self).chunk.lines@,
                old(self).chunk.constants.values@,
                old(self).stack@,
                0,
                old(self).trace,
            ).stack,
            final(self).output@ == old(self).output@ + run_spec(
                old(self).chunk.code@,
                old(self).chunk.lines@,
                old(self).chunk.constants.values@,
                old(self).stack@,
                0,
                old(self).trace,
            ).out,
    {
        let ghost g_code = self.chunk.code@;
        let ghost g_lines = self.chunk.lines@;
        let ghost g_consts = self.chunk.constants.values@;
        let ghost g_trace = self.trace;
        let ghost g_out0 = self.output@;
        let ghost target = run_spec(g_code, g_lines, g_consts, self.stack@, 0, g_trace);
        let mut ip: usize = 0;
        loop
            invariant
                self.chunk == old(self).chunk,
                self.trace == old(self).trace,
                self.chunk.wf(),
                g_code == self.chunk.code@,
                g_lines == self.chunk.lines@,
                g_consts == self.chunk.constants.values@,
                g_trace == self.trace,
                g_out0 == old(self).output@,
                target == run_spec(g_code, g_lines, g_consts, old(self).stack@, 0, g_trace),
                ip <= g_code.len(),
                run_spec(g_code, g_lines, g_consts, self.stack@, ip as int, g_trace).result
                    == target.result,
                run_spec(g_code, g_lines, g_consts, self.stack@, ip as int, g_trace).stack
                    == target.stack,
                g_out0 + target.out == self.output@ + run_spec(
                    g_code,
                    g_lines,
                    g_consts,
                    self.stack@,
                    ip as int,
                    g_trace,
                ).out,
            decreases g_code.len() - ip,
        {
            let ghost ip0 = ip as int;
            let ghost st0 = self.stack@;
            let ghost out_in = self.output@;
            let ghost cur = run_spec(g_code, g_lines, g_consts, st0, ip0, g_trace);
            let n = self.chunk.code.len();
            if ip >= n {
                self.output.append("Could not find instruction.\n");
                proof {
                    assert(cur.out == "Could not find instruction.\n"@);
                    assert(self.output@ == out_in + cur.out);
                }
                return InterpretResult::CompileError;
            }
            self.write_trace(ip);
            let ghost pre: Seq<char> = if g_trace {
                trace_prefix(g_code, g_lines, g_consts, st0, ip0)
            } else {
                Seq::empty()
            };
            let w = self.chunk.code[ip];
            match chunk::word_to_op(w) {
                Some(OpCode::Constant) => {
                    if n - ip <= 1 {
                        self.output.append("Could not find constant instruction.\n");
                        proof {
                            assert(cur.out == pre + "Could not find constant instruction.\n"@);
                            lemma_concat_assoc(out_in, pre, "Could not find constant instruction.\n"@);
                            assert(self.output@ == out_in + cur.out);
                        }
                        return InterpretResult::CompileError;
                    }
                    let idx = self.chunk.code[ip + 1];
                    if idx >= self.chunk.constants.values.len() {
                        proof {
                            assert(cur.out == pre);
                            assert(self.output@ == out_in + cur.out);
                        }
                        return InterpretResult::CompileError;
                    }
                    let v = self.chunk.constants.values[idx];
                    self.push_stack(v);
                    ip = ip + 2;
                    proof {
                        let rec = run_spec(g_code, g_lines, g_consts, self.stack@, ip as int, g_trace);
                        assert(cur.out == pre + rec.out);
                        lemma_concat_assoc(out_in, pre, rec.out);
                        assert(g_out0 + target.out == self.output@ + rec.out);
                    }
                },
                Some(OpCode::Add) => {
                    let b = self.pop_stack();
                    let a = self.pop_stack();
                    let r = value::value_add(a, b);
                    self.push_stack(r);
                    ip = ip + 1;
                    proof {
                        let rec = run_spec(g_code, g_lines, g_consts, self.stack@, ip as int, g_trace);
                        let n1 = pop_note(st0);
                        let n2 = pop_note(pop_rest(st0));
                        assert(cur.out == pre + n1 + n2 + rec.out);
                        lemma_concat_assoc(out_in, pre, n1);
                        lemma_concat_assoc(out_in, pre + n1, n2);
                        lemma_concat_assoc(out_in, pre + n1 + n2, rec.out);
                        assert(g_out0 + target.out == self.output@ + rec.out);
                    }
                },
                Some(OpCode::Subtract) => {
                    let b = self.pop_stack();
                    let a = self.pop_stack();
                    let r = value::value_sub(a, b);
                    self.push_stack(r);
                    ip = ip + 1;
                    proof {
                        let rec = run_spec(g_code, g_lines, g_consts, self.stack@, ip as int, g_trace);
                        let n1 = pop_note(st0);
                        let n2 = pop_note(pop_rest(st0));
                        assert(cur.out == pre + n1 + n2 + rec.out);
                        lemma_concat_assoc(out_in, pre, n1);
                        lemma_concat_assoc(out_in, pre + n1, n2);
                        lemma_concat_assoc(out_in, pre + n1 + n2, rec.out);
                        assert(g_out0 + target.out == self.output@ + rec.out);
                    }
                },
                Some(OpCode::Multiply) => {
                    let b = self.pop_stack();
                    let a = self.pop_stack();
                    let r = value::value_mul(a, b);
                    self.push_stack(r);
                    ip = ip + 1;
                    proof {
                        let rec = run_spec(g_code, g_lines, g_consts, self.stack@, ip as int, g_trace);
                        let n1 = pop_note(st0);
                        let n2 = pop_note(pop_rest(st0));
                        assert(cur.out == pre + n1 + n2 + rec.out);
                        lemma_concat_assoc(out_in, pre, n1);
                        lemma_concat_assoc(out_in, pre + n1, n2);
                        lemma_concat_assoc(out_in, pre + n1 + n2, rec.out);
                        assert(g_out0 + target.out == self.output@ + rec.out);
                    }
                },
                Some(OpCode::Divide) => {
                    let b = self.pop_stack();
                    let a = self.pop_stack();
                    let r = value::value_div(a, b);
                    self.push_stack(r);
                    ip = ip + 1;
                    proof {
                        let rec = run_spec(g_code, g_lines, g_consts, self.stack@, ip as int, g_trace);
                        let n1 = pop_note(st0);
                        let n2 = pop_note(pop_rest(st0));
                        assert(cur.out == pre + n1 + n2 + rec.out);
                        lemma_concat_assoc(out_in, pre, n1);
                        lemma_concat_assoc(out_in, pre + n1, n2);
                        lemma_concat_assoc(out_in, pre + n1 + n2, rec.out);
                        assert(g_out0 + target.out == self.output@ + rec.out);
                    }
                },
                Some(OpCode::Negate) => {
                    let a = self.pop_stack();
                    let r = value::value_neg(a);
                    self.push_stack(r);
                    ip = ip + 1;
                    proof {
                        let rec = run_spec(g_code, g_lines, g_consts, self.stack@, ip as int, g_trace);
                        let n1 = pop_note(st0);
                        assert(cur.out == pre + n1 + rec.out);
                        lemma_concat_assoc(out_in, pre, n1);
                        lemma_concat_assoc(out_in, pre + n1, rec.out);
                        assert(g_out0 + target.out == self.output@ + rec.out);
                    }
                },
                Some(OpCode::Return) => {
                    let v = self.pop_stack();
                    let vs = value::format_value(v);
                    text::push_string(&mut self.output, &vs);
                    self.output.push('\n');
                    proof {
                        let n1 = pop_note(st0);
                        let vt = value::value_text(pop_value(st0));
                        assert(cur.out == pre + n1 + vt + seq!['\n']);
                        lemma_push_is_concat(out_in + pre + n1 + vt, '\n');
                        lemma_concat_assoc(out_in, pre, n1);
                        lemma_concat_assoc(out_in, pre + n1, vt);
                        lemma_concat_assoc(out_in, pre + n1 + vt, seq!['\n']);
                        assert(self.output@ == out_in + cur.out);
                        assert(self.stack@ == target.stack);
                    }
                    return InterpretResult::Okay;
                },
                None => {
                    proof {
                        assert(cur.out == pre);
                        assert(self.output@ == out_in + cur.out);
                    }
                    return InterpretResult::CompileError;
                },
            }
        }
    }

    /// Loads a chunk, replacing any previous one, resets the
    /// instruction pointer to zero, and runs it to a terminal status.
    /// The operand stack is deliberately preserved across calls:
    /// a caller that needs a clean stack constructs a fresh machine.
    pub fn interpret(&mut self, c: Chunk) -> (res: InterpretResult)
        requires
            c.wf(),
        ensures
            final(self).chunk == c,
            final(self).trace == old(self).trace,
            res == run_spec(
                c.code@,
                c.lines@,
                c.constants.values@,
                old(self).stack@,
                0,
                old(self).trace,
            ).result,
            final(self).stack@ == run_spec(
                c.code@,
                c.lines@,
                c.constants.values@,
                old(self).stack@,
                0,
                old(self).trace,
            ).stack,
            final(self).output@ == old(self).output@ + run_spec(
                c.code@,
                c.lines@,
                c.constants.values@,
                old(self).stack@,
                0,
                old(self).trace,
            ).out,
    {
        self.chunk = c;
        self.run()
    }
}


/// Popping from an empty operand stack is safe by construction: it
/// yields the neutral value zero, leaves the stack empty, and writes
/// the diagnostic note, never a fault.
pub proof fn lemma_pop_empty_is_defined()
    ensures
        pop_value(Seq::<u64>::empty()) == 0,
        pop_rest(Seq::<u64>::empty()) == Seq::<u64>::empty(),
        pop_note(Seq::<u64>::empty()) == "Tried to pop off empty stack.\n"@,
{
}

/// An instruction stream that holds no `Return` opcode word anywhere
/// can never end with `Okay`: execution runs off the end (or hits a
/// decode fault first) and reports `CompileError`.
pub proof fn lemma_missing_return_is_compile_error(
    code: Seq<usize>,
    lines: Seq<u32>,
    consts: Seq<u64>,
    stack: Seq<u64>,
    ip: int,
    trace: bool,
)
    requires
        forall|i: int|
            0 <= i < code.len() ==> #[trigger] chunk::word_op(code[i]) != Some(OpCode::Return),
    ensures
        run_spec(code, lines, consts, stack, ip, trace).result == InterpretResult::CompileError,
    decreases code.len() - ip,
{
    if 0 <= ip < code.len() {
        match chunk::word_op(code[ip]) {
            Some(OpCode::Constant) => {
                if ip + 1 < code.len() && code[ip + 1] < consts.len() {
                    lemma_missing_return_is_compile_error(
                        code,
                        lines,
                        consts,
                        stack.push(consts[code[ip + 1] as int]),
                        ip + 2,
                        trace,
                    );
                }
            },
            Some(OpCode::Add) => {
                lemma_missing_return_is_compile_error(
                    code,
                    lines,
                    consts,
                    pop_rest(pop_rest(stack)).push(
                        value::add_bits(pop_value(pop_rest(stack)), pop_value(stack)),
                    ),
                    ip + 1,
                    trace,
                );
            },
            Some(OpCode::Subtract) => {
                lemma_missing_return_is_compile_error(
                    code,
                    lines,
                    consts,
                    pop_rest(pop_rest(stack)).push(
                        value::sub_bits(pop_value(pop_rest(stack)), pop_value(stack)),
                    ),
                    ip + 1,
                    trace,
                );
            },
            Some(OpCode::Multiply) => {
                lemma_missing_return_is_compile_error(
                    code,
                    lines,
                    consts,
                    pop_rest(pop_rest(stack)).push(
                        value::mul_bits(pop_value(pop_rest(stack)), pop_value(stack)),
                    ),
                    ip + 1,
                    trace,
                );
            },
            Some(OpCode::Divide) => {
                lemma_missing_return_is_compile_error(
                    code,
                    lines,
                    consts,
                    pop_rest(pop_rest(stack)).push(
                        value::div_bits(pop_value(pop_rest(stack)), pop_value(stack)),
                    ),
                    ip + 1,
                    trace,
                );
            },
            Some(OpCode::Negate) => {
                lemma_missing_return_is_compile_error(
                    code,
                    lines,
                    consts,
                    pop_rest(stack).push(value::neg_bits(pop_value(stack))),
                    ip + 1,
                    trace,
                );
            },
            _ => {
            },
        }
    }
}

/// The constant round trip: executing `Constant` with an index that
/// `add_constant` handed out pushes exactly the stored value, so the
/// value ends up on top of the operand stack.
pub proof fn lemma_constant_round_trip(
    lines: Seq<u32>,
    consts: Seq<u64>,
    stack: Seq<u64>,
    idx: usize,
    v: u64,
    trace: bool,
)
    requires
        idx < consts.len(),
        consts[idx as int] == v,
    ensures
        ({
            let code = seq![chunk::op_word(OpCode::Constant), idx];
            let r = run_spec(code, lines, consts, stack, 0, trace);
            r.stack == stack.push(v) && r.stack.len() > 0 && r.stack.last() == v
        }),
{
    let code = seq![chunk::op_word(OpCode::Constant), idx];
    assert(code[0] == chunk::op_word(OpCode::Constant));
    assert(code[1] == idx);
    assert(chunk::word_op(code[0]) == Some(OpCode::Constant));
    assert(run_spec(code, lines, consts, stack.push(v), 2, trace).stack == stack.push(v));
}

/// Interprets a source text: compiles it (today, scans it and renders
/// the token trace) and reports the outcome together with the trace.
pub fn interpret(source: &String) -> (r: (InterpretResult, String))
    requires
        source@.len() + 1 <= i32::MAX,
    ensures
        r.0 == InterpretResult::Okay,
        r.1@ == compiler::token_trace(source@, 0, 1, -1),
{
    let trace = compiler::compile(source);
    (InterpretResult::Okay, trace)
}

} // verus!
