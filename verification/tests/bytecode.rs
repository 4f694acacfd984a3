use rclox::chunk::{Chunk, OpCode};
use rclox::debug::{DisassemblyError, Listed, Operand};
use rclox::native::{NativeKind, get_native_functions, random_integer};
use rclox::value::{Value, number_equal, number_less, number_negate, is_nan};

fn num(x: f64) -> Value {
    Value::Number(x.to_bits())
}

#[test]
fn opcodes_round_trip() {
    for b in 0u8..36 {
        let op = OpCode::try_from(b).unwrap();
        assert_eq!(op.to_byte(), b);
    }
    assert_eq!(OpCode::try_from(0), Ok(OpCode::OpReturn));
    assert_eq!(OpCode::try_from(27), Ok(OpCode::OpCall));
    assert_eq!(OpCode::try_from(36), Err(36));
    assert_eq!(OpCode::try_from(200), Err(200));
    assert_eq!(OpCode::OpLoop.to_byte(), 24);
}

#[test]
fn writes_code_with_lines() {
    let mut chunk = Chunk::new();
    chunk.write_byte(OpCode::OpNil.to_byte(), 3);
    chunk.write_byte(OpCode::OpReturn.to_byte(), 4);
    assert_eq!(chunk.count(), 2);
    assert_eq!(chunk.read_byte(1), OpCode::OpReturn.to_byte());
    assert_eq!(chunk.get_line(0), 3);
    assert_eq!(chunk.get_line(1), 4);
    chunk.write_byte_at(0, OpCode::OpTrue.to_byte());
    assert_eq!(chunk.read_byte(0), OpCode::OpTrue.to_byte());
}

#[test]
fn shares_number_and_object_constants() {
    let mut chunk = Chunk::new();
    assert_eq!(chunk.write_constant(num(1.5)), Some(0));
    assert_eq!(chunk.write_constant(num(2.0)), Some(1));
    assert_eq!(chunk.write_constant(num(1.5)), Some(0));
    assert_eq!(chunk.write_constant(Value::Object(7)), Some(2));
    assert_eq!(chunk.write_constant(Value::Object(7)), Some(2));
    assert_eq!(chunk.constant_count(), 3);
    assert_eq!(chunk.write_constant(Value::Nil), Some(3));
    assert_eq!(chunk.write_constant(Value::Nil), Some(4));
    assert_eq!(chunk.write_constant(Value::Bool(true)), Some(5));
    assert_eq!(chunk.constant_count(), 6);
    assert!(chunk.read_constant(1) == num(2.0));
}

#[test]
fn constant_pool_holds_at_most_256() {
    let mut chunk = Chunk::new();
    for i in 0..256 {
        assert_eq!(chunk.write_constant(num(i as f64)), Some(i as u8));
    }
    assert_eq!(chunk.write_constant(num(1000.0)), None);
    assert_eq!(chunk.write_constant(Value::Nil), None);
    assert_eq!(chunk.constant_count(), 256);
    assert_eq!(chunk.write_constant(num(5.0)), Some(5));
    assert!(chunk.read_constant(255) == num(255.0));
}

#[test]
fn disassembles_a_chunk() {
    let mut chunk = Chunk::new();
    let c = chunk.write_constant(num(1.2)).unwrap();
    chunk.write_byte(OpCode::OpConstant.to_byte(), 1);
    chunk.write_byte(c, 1);
    chunk.write_byte(OpCode::OpJump.to_byte(), 1);
    chunk.write_byte(0, 2);
    chunk.write_byte(2, 2);
    chunk.write_byte(OpCode::OpLoop.to_byte(), 2);
    chunk.write_byte(0, 2);
    chunk.write_byte(8, 2);
    chunk.write_byte(OpCode::OpGetLocal.to_byte(), 3);
    chunk.write_byte(1, 3);
    chunk.write_byte(OpCode::OpReturn.to_byte(), 3);
    let listing = chunk.disassemble().unwrap();
    assert_eq!(
        listing,
        vec![
            Listed { offset: 0, line: Some(1), op: OpCode::OpConstant, operand: Operand::Constant(0) },
            Listed { offset: 2, line: None, op: OpCode::OpJump, operand: Operand::Jump(7) },
            Listed { offset: 5, line: None, op: OpCode::OpLoop, operand: Operand::Jump(0) },
            Listed { offset: 8, line: Some(3), op: OpCode::OpGetLocal, operand: Operand::Byte(1) },
            Listed { offset: 10, line: None, op: OpCode::OpReturn, operand: Operand::Simple },
        ]
    );
    assert_eq!(OpCode::OpGetLocal.name(), "OP_GET_LOCAL");
    assert_eq!(OpCode::OpJumpIfFalse.name(), "OP_JUMP_IF_FALSE");
}

#[test]
fn disassembly_errors() {
    let mut chunk = Chunk::new();
    chunk.write_byte(99, 1);
    assert_eq!(chunk.disassemble(), Err(DisassemblyError::UnknownOpcode(99)));
    let mut short = Chunk::new();
    short.write_byte(OpCode::OpJump.to_byte(), 1);
    short.write_byte(0, 1);
    assert_eq!(short.disassemble(), Err(DisassemblyError::Truncated));
    assert_eq!(short.disassemble_instruction(0), Err(DisassemblyError::Truncated));
}

#[test]
fn number_comparisons_follow_doubles() {
    let nan = f64::NAN.to_bits();
    assert!(is_nan(nan));
    assert!(!number_equal(nan, nan));
    assert!(!number_less(nan, 1.0f64.to_bits()));
    assert!(!number_less(1.0f64.to_bits(), nan));
    assert!(number_equal(0.0f64.to_bits(), (-0.0f64).to_bits()));
    assert!(number_less((-3.5f64).to_bits(), (-1.0f64).to_bits()));
    assert!(number_less((-1.0f64).to_bits(), 2.0f64.to_bits()));
    assert!(!number_less(2.0f64.to_bits(), 2.0f64.to_bits()));
    assert!(number_less(1.0f64.to_bits(), f64::INFINITY.to_bits()));
    assert_eq!(f64::from_bits(number_negate(2.5f64.to_bits())), -2.5);
    assert_eq!(number_negate(number_negate(7.0f64.to_bits())), 7.0f64.to_bits());
}

#[test]
fn values_compare_by_kind() {
    assert!(num(1.0) == num(1.0));
    assert!(!(num(f64::NAN) == num(f64::NAN)));
    assert!(Value::Nil == Value::Nil);
    assert!(!(Value::Nil == Value::Bool(false)));
    assert!(Value::Object(3) == Value::Object(3));
    assert!(!(Value::Object(3) == Value::Object(4)));
    assert!(Value::Nil.is_falsey());
    assert!(Value::Bool(false).is_falsey());
    assert!(!num(0.0).is_falsey());
    assert!(num(2.0).greater_than(&num(1.0)) == Ok(Value::Bool(true)));
    assert!(num(2.0).less_than(&Value::Nil) == Err("Operands must be numbers."));
}

#[test]
fn native_functions_table() {
    let natives = get_native_functions();
    let summary: Vec<(String, usize, NativeKind)> = natives.iter().map(|f| (f.name.clone(), f.arity, f.kind)).collect();
    assert_eq!(
        summary,
        vec![
            ("clock".to_string(), 0, NativeKind::Clock),
            ("floor".to_string(), 1, NativeKind::Floor),
            ("modulo".to_string(), 2, NativeKind::Modulo),
            ("random".to_string(), 2, NativeKind::Random),
        ]
    );
}

#[test]
fn random_integers_stay_in_range() {
    assert_eq!(random_integer(4, 4), Some(4));
    assert_eq!(random_integer(5, 4), None);
    let mut seen_low = false;
    let mut seen_high = false;
    for _ in 0..500 {
        let r = random_integer(1, 3).unwrap();
        assert!((1..=3).contains(&r));
        seen_low |= r == 1;
        seen_high |= r == 3;
    }
    assert!(seen_low && seen_high);
}
