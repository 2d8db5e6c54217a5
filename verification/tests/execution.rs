use lumos::chunk::Chunk;
use lumos::chunk::OpCode;
use lumos::chunk::op_to_word;
use lumos::chunk::word_to_op;
use lumos::disassembler::disassemble_chunk;
use lumos::disassembler::disassemble_instruction;
use lumos::value::ValueArray;
use lumos::value::value_add;
use lumos::value::value_sub;
use lumos::value::value_mul;
use lumos::value::value_div;
use lumos::value::value_neg;
use lumos::value::format_value;
use lumos::vm::InterpretResult;
use lumos::vm::VM;
use lumos::vm::interpret;

fn quiet_vm() -> VM {
    let mut vm = VM::new();
    vm.trace = false;
    vm
}

#[test]
fn opcode_words_round_trip() {
    let ops = [
        OpCode::Constant,
        OpCode::Add,
        OpCode::Subtract,
        OpCode::Multiply,
        OpCode::Divide,
        OpCode::Negate,
        OpCode::Return,
    ];
    for op in ops {
        assert_eq!(word_to_op(op_to_word(op)), Some(op));
    }
    assert_eq!(word_to_op(7), None);
    assert_eq!(word_to_op(42), None);
}

#[test]
fn chunk_appends_code_and_lines_in_step() {
    let mut c = Chunk::new();
    c.write_byte(op_to_word(OpCode::Return), 3);
    c.write_byte(9, 4);
    assert_eq!(c.code, vec![op_to_word(OpCode::Return), 9]);
    assert_eq!(c.lines, vec![3, 4]);
}

#[test]
fn add_constant_hands_out_stable_indices() {
    let mut c = Chunk::new();
    let i0 = c.add_constant(1.5f64.to_bits());
    let i1 = c.add_constant(2.5f64.to_bits());
    assert_eq!(i0, 0);
    assert_eq!(i1, 1);
    assert_eq!(c.constants.values[i0], 1.5f64.to_bits());
    assert_eq!(c.constants.values[i1], 2.5f64.to_bits());
}

#[test]
fn value_array_appends() {
    let mut va = ValueArray::new();
    va.write_value(4.25f64.to_bits());
    assert_eq!(va.values, vec![4.25f64.to_bits()]);
}

#[test]
fn soft_float_arithmetic_matches_ieee() {
    let a = 1.5f64.to_bits();
    let b = 2.25f64.to_bits();
    assert_eq!(value_add(a, b), (1.5f64 + 2.25f64).to_bits());
    assert_eq!(value_sub(a, b), (1.5f64 - 2.25f64).to_bits());
    assert_eq!(value_mul(a, b), (1.5f64 * 2.25f64).to_bits());
    assert_eq!(value_div(a, b), (1.5f64 / 2.25f64).to_bits());
    assert_eq!(value_neg(a), (-1.5f64).to_bits());
    let c = 1.2f64.to_bits();
    let d = 3.4f64.to_bits();
    assert_eq!(value_add(c, d), (1.2f64 + 3.4f64).to_bits());
}

#[test]
fn division_by_zero_follows_the_ieee_convention() {
    let one = 1.0f64.to_bits();
    let zero = 0.0f64.to_bits();
    assert_eq!(value_div(one, zero), f64::INFINITY.to_bits());
    assert_eq!(value_div(one.wrapping_add(0), (-0.0f64).to_bits()), f64::NEG_INFINITY.to_bits());
}

#[test]
fn value_rendering_depends_on_the_value() {
    let a = format_value(1.5f64.to_bits());
    let b = format_value(2.5f64.to_bits());
    let c = format_value((-1.5f64).to_bits());
    assert!(!a.is_empty());
    assert_ne!(a, b);
    assert_ne!(a, c);
    let twice = format_value(1.5f64.to_bits());
    assert_eq!(a, twice);
}

#[test]
fn disassemble_instruction_renders_offset_line_and_mnemonic() {
    let mut c = Chunk::new();
    c.write_byte(op_to_word(OpCode::Negate), 1);
    c.write_byte(op_to_word(OpCode::Return), 1);
    let (first, w0) = disassemble_instruction(&c, 0);
    let (second, w1) = disassemble_instruction(&c, 1);
    assert_eq!(first, "0000 0001 OP_NEGATE\n");
    assert_eq!(second, "0001    | OP_RETURN\n");
    assert_eq!(w0, 0);
    assert_eq!(w1, 0);
}

#[test]
fn disassemble_reports_unknown_opcodes() {
    let mut c = Chunk::new();
    c.write_byte(42, 7);
    let (line, words) = disassemble_instruction(&c, 0);
    assert_eq!(line, "0000 0007 Unknown OpCode 42\n");
    assert_eq!(words, 0);
}

#[test]
fn disassemble_constant_resolves_the_pool_entry() {
    let mut c = Chunk::new();
    let idx = c.add_constant(2.5f64.to_bits());
    c.write_byte(op_to_word(OpCode::Constant), 1);
    c.write_byte(idx, 1);
    let (line, words) = disassemble_instruction(&c, 0);
    assert!(line.starts_with("0000 0001 OP_CONSTANT      0000 '"));
    assert!(line.ends_with("'\n"));
    assert_eq!(words, 1);
}

#[test]
fn disassembling_a_chunk_twice_is_byte_identical() {
    let mut c = Chunk::new();
    let idx = c.add_constant(1.2f64.to_bits());
    c.write_byte(op_to_word(OpCode::Constant), 1);
    c.write_byte(idx, 1);
    c.write_byte(op_to_word(OpCode::Negate), 2);
    c.write_byte(op_to_word(OpCode::Return), 2);
    let t1 = disassemble_chunk(&c, "test chunk");
    let t2 = disassemble_chunk(&c, "test chunk");
    assert_eq!(t1, t2);
    assert!(t1.starts_with("== test chunk ==\n"));
}

#[test]
fn disassemble_chunk_skips_operand_words() {
    let mut c = Chunk::new();
    let idx = c.add_constant(3.0f64.to_bits());
    c.write_byte(op_to_word(OpCode::Constant), 1);
    c.write_byte(idx, 1);
    c.write_byte(op_to_word(OpCode::Return), 1);
    let t = disassemble_chunk(&c, "skip");
    // Three code words, but only two instruction lines: the operand
    // word must not be rendered as an opcode.
    assert_eq!(t.matches('\n').count(), 3);
    assert!(t.contains("OP_CONSTANT"));
    assert!(t.contains("OP_RETURN"));
    assert!(!t.contains("Unknown"));
}

#[test]
fn popping_an_empty_stack_is_defined_and_diagnosed() {
    let mut vm = VM::new();
    let v = vm.pop_stack();
    assert_eq!(v, 0);
    assert!(vm.stack.is_empty());
    assert_eq!(vm.output, "Tried to pop off empty stack.\n");
}

#[test]
fn constant_round_trip_leaves_the_value_on_top() {
    let mut c = Chunk::new();
    let idx = c.add_constant(2.5f64.to_bits());
    c.write_byte(op_to_word(OpCode::Constant), 1);
    c.write_byte(idx, 1);
    let mut vm = quiet_vm();
    let res = vm.interpret(c);
    assert_eq!(res, InterpretResult::CompileError);
    assert_eq!(vm.stack.last().copied(), Some(2.5f64.to_bits()));
}

#[test]
fn arithmetic_end_to_end_reports_ok() {
    let mut c = Chunk::new();
    for v in [1.2f64, 3.4f64] {
        let idx = c.add_constant(v.to_bits());
        c.write_byte(op_to_word(OpCode::Constant), 1);
        c.write_byte(idx, 1);
    }
    c.write_byte(op_to_word(OpCode::Add), 1);
    let idx = c.add_constant(5.6f64.to_bits());
    c.write_byte(op_to_word(OpCode::Constant), 1);
    c.write_byte(idx, 1);
    c.write_byte(op_to_word(OpCode::Divide), 1);
    c.write_byte(op_to_word(OpCode::Negate), 1);
    c.write_byte(op_to_word(OpCode::Return), 2);
    let mut vm = quiet_vm();
    let res = vm.interpret(c);
    assert_eq!(res, InterpretResult::Okay);
    assert!(vm.stack.is_empty());
    let expected = -((1.2f64 + 3.4f64) / 5.6f64);
    let mut rendered = format_value(expected.to_bits());
    rendered.push('\n');
    assert_eq!(vm.output, rendered);
}

#[test]
fn arithmetic_computes_the_ieee_value() {
    let mut c = Chunk::new();
    for v in [1.2f64, 3.4f64] {
        let idx = c.add_constant(v.to_bits());
        c.write_byte(op_to_word(OpCode::Constant), 1);
        c.write_byte(idx, 1);
    }
    c.write_byte(op_to_word(OpCode::Add), 1);
    let idx = c.add_constant(5.6f64.to_bits());
    c.write_byte(op_to_word(OpCode::Constant), 1);
    c.write_byte(idx, 1);
    c.write_byte(op_to_word(OpCode::Divide), 1);
    c.write_byte(op_to_word(OpCode::Negate), 1);
    let mut vm = quiet_vm();
    let res = vm.interpret(c);
    assert_eq!(res, InterpretResult::CompileError);
    let expected = (-((1.2f64 + 3.4f64) / 5.6f64)).to_bits();
    assert_eq!(vm.stack, vec![expected]);
}

#[test]
fn chunk_without_return_is_a_compile_error() {
    let mut vm = quiet_vm();
    let res = vm.interpret(Chunk::new());
    assert_eq!(res, InterpretResult::CompileError);

    let mut c = Chunk::new();
    let idx = c.add_constant(9.0f64.to_bits());
    c.write_byte(op_to_word(OpCode::Constant), 1);
    c.write_byte(idx, 1);
    c.write_byte(op_to_word(OpCode::Add), 1);
    let mut vm2 = quiet_vm();
    assert_eq!(vm2.interpret(c), InterpretResult::CompileError);
}

#[test]
fn unknown_opcode_word_is_a_compile_error() {
    let mut c = Chunk::new();
    c.write_byte(42, 1);
    let mut vm = quiet_vm();
    assert_eq!(vm.interpret(c), InterpretResult::CompileError);
}

#[test]
fn stack_is_preserved_across_interpret_calls() {
    let mut vm = quiet_vm();
    let mut c1 = Chunk::new();
    let i1 = c1.add_constant(2.5f64.to_bits());
    c1.write_byte(op_to_word(OpCode::Constant), 1);
    c1.write_byte(i1, 1);
    vm.interpret(c1);
    let mut c2 = Chunk::new();
    let i2 = c2.add_constant(3.5f64.to_bits());
    c2.write_byte(op_to_word(OpCode::Constant), 1);
    c2.write_byte(i2, 1);
    vm.interpret(c2);
    assert_eq!(vm.stack, vec![2.5f64.to_bits(), 3.5f64.to_bits()]);
}

#[test]
fn execution_trace_shows_state_before_each_instruction() {
    let mut c = Chunk::new();
    let idx = c.add_constant(2.0f64.to_bits());
    c.write_byte(op_to_word(OpCode::Constant), 1);
    c.write_byte(idx, 1);
    c.write_byte(op_to_word(OpCode::Return), 1);
    let mut vm = VM::new();
    assert!(vm.trace);
    let res = vm.interpret(c);
    assert_eq!(res, InterpretResult::Okay);
    assert!(vm.output.starts_with("          \n0000 0001 OP_CONSTANT      0000 '"));
    assert!(vm.output.contains("OP_RETURN"));
}

#[test]
fn interpret_tokenizes_and_reports_ok() {
    let src = String::from("print 1 + 2;");
    let (res, trace) = interpret(&src);
    assert_eq!(res, InterpretResult::Okay);
    assert_eq!(trace, "0001 31 'print'\n   | 21 '1'\n   | 07 '+'\n   | 21 '2'\n   | 08 ';'\n   | 39 ''\n");
}
