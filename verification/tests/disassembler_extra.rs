use neo_decompiler::common::errors::DisassemblyError;
use neo_decompiler::common::opcode::OpCode;
use neo_decompiler::common::types::{Operand, StackItemType};
use neo_decompiler::engine::disassembler::InstructionDecoder;

#[test]
fn test_decode_big_integers() {
    let decoder = InstructionDecoder::new();
    let bytecode = &[0x03, 0xFF, 0xFF, 0xFF, 0xFF, 0xFF, 0xFF, 0xFF, 0x7F];
    let instruction = decoder.decode_instruction(bytecode, 0).unwrap();
    assert_eq!(instruction.opcode, OpCode::PUSHINT64);
    assert_eq!(instruction.operand, Some(Operand::Integer(i64::MAX)));
    assert_eq!(instruction.size, 9);

    let mut bytecode128 = vec![0x04];
    bytecode128.extend(vec![0x01; 16]);
    let instruction = decoder.decode_instruction(&bytecode128, 0).unwrap();
    assert_eq!(instruction.opcode, OpCode::PUSHINT128);
    if let Some(Operand::BigInteger(bytes)) = instruction.operand {
        assert_eq!(bytes.len(), 16);
        assert_eq!(bytes, vec![0x01; 16]);
    } else {
        assert!(false, "Expected BigInteger operand");
    }
    assert_eq!(instruction.size, 17);
}

#[test]
fn test_decode_complex_jumps() {
    let decoder = InstructionDecoder::new();
    let bytecode = &[0x24, 0x0A];
    let instruction = decoder.decode_instruction(bytecode, 0).unwrap();
    assert_eq!(instruction.opcode, OpCode::JMPIF);
    assert_eq!(instruction.operand, Some(Operand::JumpTarget8(10)));
    assert_eq!(instruction.size, 2);

    let bytecode = &[0x25, 0x00, 0x01, 0x00, 0x00];
    let instruction = decoder.decode_instruction(bytecode, 0).unwrap();
    assert_eq!(instruction.opcode, OpCode::JMPIF_L);
    assert_eq!(instruction.operand, Some(Operand::JumpTarget32(256)));
    assert_eq!(instruction.size, 5);
}

#[test]
fn test_decode_calls() {
    let decoder = InstructionDecoder::new();
    let bytecode = &[0x36, 0x12, 0x34];
    let instruction = decoder.decode_instruction(bytecode, 0).unwrap();
    assert_eq!(instruction.opcode, OpCode::CALLA);
    assert_eq!(instruction.operand, Some(Operand::MethodToken(0x3412)));
    assert_eq!(instruction.size, 3);

    let bytecode = &[0x37, 0x56, 0x78];
    let instruction = decoder.decode_instruction(bytecode, 0).unwrap();
    assert_eq!(instruction.opcode, OpCode::CALLT);
    assert_eq!(instruction.operand, Some(Operand::CallToken(0x7856)));
    assert_eq!(instruction.size, 3);
}

#[test]
fn test_decode_array_operations() {
    let decoder = InstructionDecoder::new();
    let bytecode = &[0xAD, 0x05];
    let instruction = decoder.decode_instruction(bytecode, 0).unwrap();
    assert_eq!(instruction.opcode, OpCode::NEWARRAY);
    assert_eq!(instruction.operand, Some(Operand::Count(5)));
    assert_eq!(instruction.size, 2);

    let bytecode = &[0x73, 0x00, 0x04];
    let instruction = decoder.decode_instruction(bytecode, 0).unwrap();
    assert_eq!(instruction.opcode, OpCode::NEWBUFFER);
    assert_eq!(instruction.operand, Some(Operand::BufferSize(1024)));
    assert_eq!(instruction.size, 3);
}

#[test]
fn test_error_handling() {
    let decoder = InstructionDecoder::new();
    let bytecode = &[0xFF];
    let result = decoder.decode_instruction(bytecode, 0);
    assert!(matches!(result, Err(DisassemblyError::UnknownOpcode { .. })));

    let bytecode = &[0x02, 0x12, 0x34];
    let result = decoder.decode_instruction(bytecode, 0);
    assert!(matches!(result, Err(DisassemblyError::TruncatedInstruction { .. })));

    let bytecode = &[0x0C, 0x05, 0x01, 0x02];
    let result = decoder.decode_instruction(bytecode, 0);
    assert!(matches!(result, Err(DisassemblyError::TruncatedInstruction { .. })));
}

#[test]
fn test_opcode_properties() {
    assert!(OpCode::JMP.is_jump());
    assert!(OpCode::JMP_L.is_jump());
    assert!(OpCode::JMPIF.is_jump());
    assert!(OpCode::JMPIF_L.is_jump());
    assert!(!OpCode::ADD.is_jump());

    assert!(OpCode::CALL.is_call());
    assert!(OpCode::CALL_L.is_call());
    assert!(OpCode::CALLA.is_call());
    assert!(OpCode::SYSCALL.is_call());
    assert!(!OpCode::ADD.is_call());

    assert!(OpCode::RET.is_terminator());
    assert!(OpCode::JMP.is_terminator());
    assert!(OpCode::ABORT.is_terminator());
    assert!(!OpCode::ADD.is_terminator());

    assert!(!OpCode::JMP.is_long_form());
    assert!(OpCode::JMP_L.is_long_form());
    assert!(OpCode::JMP.has_long_form());
    assert_eq!(OpCode::JMP.to_long_form(), OpCode::JMP_L);
}

#[test]
fn test_stack_item_type_conversion() {
    let decoder = InstructionDecoder::new();
    let test_cases = vec![
        (0x00, StackItemType::Any),
        (0x10, StackItemType::Boolean),
        (0x21, StackItemType::Integer),
        (0x28, StackItemType::ByteString),
        (0x30, StackItemType::Buffer),
        (0x40, StackItemType::Array),
        (0x41, StackItemType::Struct),
        (0x48, StackItemType::MapItem),
        (0x60, StackItemType::InteropInterface),
        (0x70, StackItemType::Pointer),
    ];
    for (type_byte, expected_type) in test_cases {
        let bytecode = &[0xC2, type_byte];
        let instruction = decoder.decode_instruction(bytecode, 0).unwrap();
        assert_eq!(instruction.opcode, OpCode::CONVERT);
        assert_eq!(instruction.operand, Some(Operand::StackItemType(expected_type)));
        assert_eq!(instruction.size, 2);
    }
    let bytecode = &[0xC2, 0xFF];
    let result = decoder.decode_instruction(bytecode, 0);
    assert!(matches!(result, Err(DisassemblyError::InvalidOperand { .. })));
}

#[test]
fn opcode_names_and_bytes_round_trip() {
    assert_eq!(OpCode::from_byte(0x40), OpCode::RET);
    assert_eq!(OpCode::RET.name(), "RET");
    assert_eq!(OpCode::from_byte(0xFF).name(), "UNKNOWN_FF");
    assert_eq!(OpCode::PUSHINT8.to_long_form(), OpCode::PUSHINT8);
}
