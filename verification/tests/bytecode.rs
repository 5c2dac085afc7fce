use rlox::chunk::Chunk;
use rlox::chunk::LineInfo;
use rlox::debug::Disassembler;
use rlox::debug::LineMark;
use rlox::encoding::Cursor;
use rlox::encoding::Decode;
use rlox::encoding::DecodeError;
use rlox::encoding::Encode;
use rlox::encoding::OpDecoder;
use rlox::encoding::OpEncoder;
use rlox::object::ArithOp;
use rlox::object::Number;
use rlox::object::Object;
use rlox::opcode::OpCode;
use rlox::opcode::OpDecodeError;
use rlox::vm::Error;
use rlox::vm::Status;
use rlox::vm::VirtualMachine;

fn num(x: f64) -> Object {
    Object::Number(Number::new(x.to_bits()))
}

fn all_ops() -> Vec<OpCode> {
    vec![
        OpCode::NoOp,
        OpCode::Return,
        OpCode::Constant(0),
        OpCode::Constant(7),
        OpCode::Constant(255),
        OpCode::Neg,
        OpCode::Add,
        OpCode::Sub,
        OpCode::Mul,
        OpCode::Div,
    ]
}

#[test]
fn tags_are_as_tabulated() {
    let expected: Vec<Vec<u8>> = vec![
        vec![0x00],
        vec![0x01],
        vec![0x02, 0],
        vec![0x02, 7],
        vec![0x02, 255],
        vec![0x03],
        vec![0x04],
        vec![0x05],
        vec![0x06],
        vec![0x07],
    ];
    for (op, bytes) in all_ops().iter().zip(expected) {
        let mut out = Vec::new();
        assert_eq!(op.encode(&mut out), bytes.len());
        assert_eq!(out, bytes);
    }
}

#[test]
fn decode_inverts_encode() {
    for op in all_ops() {
        let mut out = Vec::new();
        let n = op.encode(&mut out);
        out.push(0xee);
        assert_eq!(OpCode::decode(&out), Ok((op, n)));
    }
}

#[test]
fn decode_errors() {
    assert_eq!(OpCode::decode(&[0x08]), Err(OpDecodeError::UnknownOpCode(0x08)));
    assert_eq!(OpCode::decode(&[0xff, 1]), Err(OpDecodeError::UnknownOpCode(0xff)));
    assert_eq!(
        OpCode::decode(&[0x02]),
        Err(OpDecodeError::InsufficientBytes { needed: 2, available: 1 })
    );
}

#[test]
fn a_chunk_decodes_to_what_was_written() {
    let mut chunk = Chunk::new();
    let ops = all_ops();
    for (i, op) in ops.iter().enumerate() {
        if i % 2 == 0 {
            chunk.write(*op);
        } else {
            chunk.write_with_line(*op, 3);
        }
    }
    let mut cursor = Cursor::new(&chunk.code);
    let mut decoded = Vec::new();
    while let Some(op) = cursor.decode_op::<OpCode>().unwrap() {
        decoded.push(op);
    }
    assert_eq!(decoded, ops);
    assert_eq!(cursor.current_position(), chunk.code.len() as u64);
}

#[test]
fn cursor_reports_errors_and_jumps() {
    let code = [0x00, 0x02, 0x05, 0x09, 0x02];
    let mut cursor = Cursor::new(&code);
    assert_eq!(cursor.decode_op::<OpCode>().unwrap(), Some(OpCode::NoOp));
    assert_eq!(cursor.decode_op::<OpCode>().unwrap(), Some(OpCode::Constant(5)));
    assert_eq!(cursor.current_position(), 3);
    assert!(matches!(
        cursor.decode_op::<OpCode>(),
        Err(DecodeError::OpCodeError(OpDecodeError::UnknownOpCode(9)))
    ));
    assert_eq!(cursor.current_position(), 3);
    cursor.jump_to(4);
    assert!(matches!(
        cursor.decode_op::<OpCode>(),
        Err(DecodeError::OpCodeError(OpDecodeError::InsufficientBytes { needed: 2, available: 1 }))
    ));
    assert!(cursor.relative_jump(-3));
    assert_eq!(cursor.current_position(), 1);
    assert!(!cursor.relative_jump(-2));
    assert_eq!(cursor.current_position(), 1);
    assert!(cursor.relative_jump(9));
    assert_eq!(cursor.decode_op::<OpCode>().unwrap(), None);
    let mut out: Vec<u8> = Vec::new();
    assert_eq!(out.encode_op(&OpCode::Constant(3)), 2);
    assert_eq!(out, vec![2, 3]);
}

#[test]
fn line_runs_grow_and_begin() {
    let mut chunk = Chunk::new();
    chunk.write_constant_with_line(num(1.2), 123).unwrap();
    chunk.write_constant_with_line(num(3.4), 123).unwrap();
    chunk.write_with_line(OpCode::Add, 123);
    chunk.write_with_line(OpCode::Neg, 124);
    chunk.write_with_line(OpCode::Return, 123);
    assert_eq!(
        chunk.lines,
        vec![
            LineInfo { line: 123, start: 0, end: 5 },
            LineInfo { line: 124, start: 5, end: 6 },
            LineInfo { line: 123, start: 6, end: 7 },
        ]
    );
    for offset in 0..chunk.code.len() as u64 {
        let covering = chunk.lines.iter().filter(|l| l.start <= offset && offset < l.end).count();
        assert_eq!(covering, 1);
    }
    assert_eq!(chunk.line_of(0), Some(123));
    assert_eq!(chunk.line_of(4), Some(123));
    assert_eq!(chunk.line_of(5), Some(124));
    assert_eq!(chunk.line_of(6), Some(123));
    assert_eq!(chunk.line_of(7), None);
}

#[test]
fn bytes_without_a_line_belong_to_no_run_until_the_line_goes_on() {
    let mut chunk = Chunk::new();
    chunk.write_with_line(OpCode::NoOp, 1);
    chunk.write(OpCode::NoOp);
    assert_eq!(chunk.line_of(1), None);
    chunk.write_with_line(OpCode::NoOp, 2);
    assert_eq!(chunk.lines, vec![
        LineInfo { line: 1, start: 0, end: 1 },
        LineInfo { line: 2, start: 2, end: 3 },
    ]);
    chunk.write(OpCode::NoOp);
    chunk.write_with_line(OpCode::NoOp, 2);
    assert_eq!(chunk.lines[1], LineInfo { line: 2, start: 2, end: 5 });
}

#[test]
fn the_constant_pool_holds_255_values() {
    let mut chunk = Chunk::with_label("pool".to_string());
    assert_eq!(chunk.label.as_deref(), Some("pool"));
    for i in 0..255 {
        assert_eq!(chunk.add_constant(num(i as f64)), Ok(i as u8));
    }
    assert!(chunk.add_constant(num(0.0)).is_err());
    assert!(chunk.write_constant(num(0.0)).is_err());
    assert_eq!(chunk.constants.len(), 255);
    assert!(chunk.code.is_empty());
    assert!(matches!(chunk.constant(254), Some(Object::Number(n)) if f64::from_bits(n.bits) == 254.0));
    assert!(chunk.constant(255).is_none());
}

fn answer(op: ArithOp, left: Number, right: Number) -> Number {
    let (a, b) = (f64::from_bits(left.bits), f64::from_bits(right.bits));
    let value = match op {
        ArithOp::Add => a + b,
        ArithOp::Sub => a - b,
        ArithOp::Mul => a * b,
        ArithOp::Div => a / b,
    };
    Number::new(value.to_bits())
}

fn run(chunk: &Chunk) -> Result<Option<Object>, Error> {
    let mut vm = VirtualMachine::new();
    let mut status = vm.interpret(chunk)?;
    loop {
        match status {
            Status::Halted(v) => return Ok(v),
            Status::Ask { op, left, right } => status = vm.resume(chunk, answer(op, left, right))?,
        }
    }
}

#[test]
fn the_machine_computes_with_the_host() {
    let mut chunk = Chunk::new();
    chunk.write_constant_with_line(num(1.2), 123).unwrap();
    chunk.write_constant_with_line(num(3.4), 123).unwrap();
    chunk.write_with_line(OpCode::Add, 123);
    chunk.write_constant_with_line(num(5.6), 123).unwrap();
    chunk.write_with_line(OpCode::Div, 123);
    chunk.write_with_line(OpCode::Neg, 123);
    chunk.write_with_line(OpCode::Return, 123);
    let result = run(&chunk).unwrap().unwrap();
    assert!(matches!(result, Object::Number(n) if f64::from_bits(n.bits) == -((1.2 + 3.4) / 5.6)));
}

#[test]
fn operands_are_popped_right_first() {
    let mut chunk = Chunk::new();
    chunk.write_constant(num(10.0)).unwrap();
    chunk.write_constant(num(4.0)).unwrap();
    chunk.write(OpCode::Sub);
    chunk.write(OpCode::Return);
    assert!(matches!(run(&chunk).unwrap(), Some(Object::Number(n)) if f64::from_bits(n.bits) == 6.0));
}

#[test]
fn strings_are_joined_without_the_host() {
    let mut chunk = Chunk::new();
    chunk.write_constant(Object::String("foo".to_string())).unwrap();
    chunk.write_constant(Object::String("bar".to_string())).unwrap();
    chunk.write(OpCode::Add);
    chunk.write(OpCode::NoOp);
    chunk.write(OpCode::Return);
    let mut vm = VirtualMachine::new();
    assert!(matches!(vm.run(&chunk), Ok(Status::Halted(Some(Object::String(s)))) if s == "foobar"));
    assert!(vm.stack.is_empty());
}

#[test]
fn the_end_of_the_code_halts_without_a_value() {
    let mut chunk = Chunk::new();
    chunk.write_constant(num(1.0)).unwrap();
    let mut vm = VirtualMachine::new();
    assert!(matches!(vm.run(&chunk), Ok(Status::Halted(None))));
    assert_eq!(vm.stack.len(), 1);
    assert!(matches!(VirtualMachine::new().run(&Chunk::new()), Ok(Status::Halted(None))));
}

#[test]
fn machine_errors() {
    let mut chunk = Chunk::new();
    chunk.write(OpCode::Return);
    assert!(matches!(run(&chunk), Err(Error::Runtime(m)) if m == "Stack underflow."));
    let mut chunk = Chunk::new();
    chunk.write_constant(num(1.0)).unwrap();
    chunk.write(OpCode::Add);
    assert!(matches!(run(&chunk), Err(Error::Runtime(m)) if m == "Stack underflow."));
    let mut chunk = Chunk::new();
    chunk.write(OpCode::Neg);
    assert!(matches!(run(&chunk), Err(Error::Runtime(m)) if m == "Stack underflow."));
    let mut chunk = Chunk::new();
    chunk.write(OpCode::Constant(0));
    assert!(matches!(run(&chunk), Err(Error::Runtime(m)) if m == "No such constant."));
    let mut chunk = Chunk::new();
    chunk.write_constant(Object::Boolean(true)).unwrap();
    chunk.write(OpCode::Neg);
    assert!(matches!(run(&chunk), Err(Error::Runtime(m)) if m == "Operand must be a number."));
    let mut chunk = Chunk::new();
    chunk.write_constant(Object::String("a".to_string())).unwrap();
    chunk.write_constant(num(1.0)).unwrap();
    chunk.write(OpCode::Add);
    assert!(matches!(run(&chunk), Err(Error::Runtime(m)) if m == "Objects not both String or Number"));
    let mut chunk = Chunk::new();
    chunk.write_constant(Object::Nil).unwrap();
    chunk.write_constant(num(1.0)).unwrap();
    chunk.write(OpCode::Mul);
    assert!(matches!(run(&chunk), Err(Error::Runtime(m)) if m == "Object is nil"));
    let mut chunk = Chunk::new();
    chunk.code.push(0x42);
    assert!(matches!(
        run(&chunk),
        Err(Error::Decode(DecodeError::OpCodeError(OpDecodeError::UnknownOpCode(0x42))))
    ));
    let mut chunk = Chunk::new();
    chunk.code.push(0x02);
    assert!(matches!(
        run(&chunk),
        Err(Error::Decode(DecodeError::OpCodeError(OpDecodeError::InsufficientBytes {
            needed: 2,
            available: 1
        })))
    ));
}

#[test]
fn negation_flips_the_sign() {
    let mut chunk = Chunk::new();
    chunk.write_constant(num(0.0)).unwrap();
    chunk.write(OpCode::Neg);
    chunk.write(OpCode::Return);
    match run(&chunk).unwrap() {
        Some(Object::Number(n)) => assert_eq!(n.bits, (-0.0f64).to_bits()),
        other => panic!("not a number: {other:?}"),
    }
}

#[test]
fn listing_marks_lines() {
    let mut chunk = Chunk::new();
    chunk.write_constant_with_line(num(1.0), 7).unwrap();
    chunk.write_with_line(OpCode::Neg, 7);
    chunk.write_with_line(OpCode::NoOp, 8);
    chunk.write(OpCode::Add);
    chunk.write_with_line(OpCode::Return, 9);
    let rows = Disassembler::new(&chunk, "test").disassemble_chunk();
    let marks: Vec<(u64, LineMark, &str)> =
        rows.iter().map(|r| (r.offset, r.mark, r.op.name())).collect();
    assert_eq!(
        marks,
        vec![
            (0, LineMark::Line(7), "OP_CONSTANT"),
            (2, LineMark::Same, "OP_NEG"),
            (3, LineMark::Line(8), "NOOP"),
            (4, LineMark::Unknown, "OP_ADD"),
            (5, LineMark::Line(9), "OP_RETURN"),
        ]
    );
    chunk.code.push(0x99);
    chunk.code.push(0x00);
    assert_eq!(Disassembler::new(&chunk, "test").disassemble_chunk().len(), 5);
}

#[test]
fn listing_text_is_padded() {
    assert_eq!(OpCode::Add.disassemble(""), "OP_ADD");
    assert_eq!(OpCode::NoOp.disassemble("ignored"), "NOOP");
    for (addr, constant) in [(0u8, "1.2"), (7, "12345.5"), (255, ""), (42, "nil")] {
        assert_eq!(
            OpCode::Constant(addr).disassemble(constant),
            format!("{:<16} {:<4}[{addr:<03}]", "OP_CONSTANT", constant)
        );
    }
    assert_eq!(OpCode::Constant(7).disassemble("1.2"), "OP_CONSTANT      1.2 [007]");
    let mut chunk = Chunk::new();
    chunk.write_constant_with_line(num(1.2), 123).unwrap();
    chunk.write_with_line(OpCode::Neg, 123);
    chunk.write_with_line(OpCode::Return, 12345);
    let listing = Disassembler::new(&chunk, "Chunk");
    assert_eq!(listing.header(), format!("{:<6}== {} ==", "", "Chunk"));
    let rows = listing.disassemble_chunk();
    let texts: Vec<String> = rows.iter().map(|r| r.to_string("1.2")).collect();
    assert_eq!(
        texts,
        vec![
            format!("{:04} {:>4} {}", 0, "123", "OP_CONSTANT      1.2 [000]"),
            format!("{:04} {:>4} {}", 2, "|", "OP_NEG"),
            format!("{:04} {:>4} {}", 3, "12345", "OP_RETURN"),
        ]
    );
    assert_eq!(texts[1], "0002    | OP_NEG");
    assert_eq!(LineMark::Unknown.to_string(), "?");
}

#[test]
fn default_chunk_is_empty() {
    let chunk = Chunk::default();
    assert!(chunk.code.is_empty());
    assert!(chunk.constants.is_empty());
    assert!(chunk.lines.is_empty());
    assert!(chunk.label.is_none());
}

#[test]
fn default_machine_starts_at_the_first_byte() {
    let vm = VirtualMachine::default();
    assert!(vm.stack.is_empty());
    assert_eq!(vm.pc, 0);
}
