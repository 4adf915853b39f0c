use neo_decompiler::common::config::DecompilerConfig;
use neo_decompiler::common::errors::DisassemblyError;
use neo_decompiler::common::opcode::OpCode;
use neo_decompiler::common::types::{Operand, StackItemType};
use neo_decompiler::engine::disassembler::{Disassembler, InstructionDecoder};

#[test]
fn test_disassembler_creation() {
    let config = DecompilerConfig::default();
    let disassembler = Disassembler::new(&config);
    let _ = disassembler;
}

#[test]
fn test_decode_pushint8() {
    let decoder = InstructionDecoder::new();
    let bytecode = &[0x00, 0x42];
    let instruction = decoder.decode_instruction(bytecode, 0).unwrap();
    assert_eq!(instruction.opcode, OpCode::PUSHINT8);
    assert_eq!(instruction.operand, Some(Operand::Integer(66)));
    assert_eq!(instruction.size, 2);
}

#[test]
fn test_decode_jump() {
    let decoder = InstructionDecoder::new();
    let bytecode = &[0x22, 0x10];
    let instruction = decoder.decode_instruction(bytecode, 0).unwrap();
    assert_eq!(instruction.opcode, OpCode::JMP);
    assert_eq!(instruction.operand, Some(Operand::JumpTarget8(16)));
    assert_eq!(instruction.size, 2);
}

#[test]
fn test_decode_jump_long() {
    let decoder = InstructionDecoder::new();
    let bytecode = &[0x23, 0x10, 0x00, 0x00, 0x00];
    let instruction = decoder.decode_instruction(bytecode, 0).unwrap();
    assert_eq!(instruction.opcode, OpCode::JMP_L);
    assert_eq!(instruction.operand, Some(Operand::JumpTarget32(16)));
    assert_eq!(instruction.size, 5);
}

#[test]
fn test_decode_syscall() {
    let decoder = InstructionDecoder::new();
    let bytecode = &[0x41, 0x12, 0x34, 0x56, 0x78];
    let instruction = decoder.decode_instruction(bytecode, 0).unwrap();
    assert_eq!(instruction.opcode, OpCode::SYSCALL);
    assert_eq!(instruction.operand, Some(Operand::SyscallHash(0x78563412)));
    assert_eq!(instruction.size, 5);
}

#[test]
fn test_decode_simple_operation() {
    let decoder = InstructionDecoder::new();
    let bytecode = &[0x08];
    let instruction = decoder.decode_instruction(bytecode, 0).unwrap();
    assert_eq!(instruction.opcode, OpCode::PUSHT);
    assert_eq!(instruction.operand, None);
    assert_eq!(instruction.size, 1);
}

#[test]
fn test_disassemble_sequence() {
    let config = DecompilerConfig::default();
    let disassembler = Disassembler::new(&config);
    let bytecode = &[0x00, 0x2A, 0x00, 0x0A, 0x8E, 0x40];
    let result = disassembler.disassemble(bytecode);
    assert!(result.is_ok());
    let instructions = result.unwrap();
    assert_eq!(instructions.len(), 4);
    assert_eq!(instructions[0].opcode, OpCode::PUSHINT8);
    assert_eq!(instructions[1].opcode, OpCode::PUSHINT8);
    assert_eq!(instructions[2].opcode, OpCode::ADD);
    assert_eq!(instructions[3].opcode, OpCode::RET);
}

#[test]
fn test_truncated_instruction() {
    let decoder = InstructionDecoder::new();
    let bytecode = &[0x01];
    let result = decoder.decode_instruction(bytecode, 0);
    assert!(matches!(result, Err(DisassemblyError::TruncatedInstruction { .. })));
}

#[test]
fn test_decode_pushdata2() {
    let decoder = InstructionDecoder::new();
    let bytecode = &[0x0D, 0x04, 0x00, 0x01, 0x02, 0x03, 0x04];
    let instruction = decoder.decode_instruction(bytecode, 0).unwrap();
    assert_eq!(instruction.opcode, OpCode::PUSHDATA2);
    assert_eq!(instruction.operand, Some(Operand::Bytes(vec![0x01, 0x02, 0x03, 0x04])));
    assert_eq!(instruction.size, 7);
}

#[test]
fn test_decode_initslot() {
    let decoder = InstructionDecoder::new();
    let bytecode = &[0x57, 0x03, 0x02];
    let instruction = decoder.decode_instruction(bytecode, 0).unwrap();
    assert_eq!(instruction.opcode, OpCode::INITSLOT);
    assert_eq!(instruction.operand, Some(Operand::SlotInit { local_slots: 3, static_slots: 2 }));
    assert_eq!(instruction.size, 3);
}

#[test]
fn test_decode_try_catch() {
    let decoder = InstructionDecoder::new();
    let bytecode = &[0x3B, 0x0A, 0x14];
    let instruction = decoder.decode_instruction(bytecode, 0).unwrap();
    assert_eq!(instruction.opcode, OpCode::TRY);
    if let Some(Operand::TryBlock { catch_offset, finally_offset }) = instruction.operand {
        assert_eq!(catch_offset, 10);
        assert_eq!(finally_offset, Some(20));
    } else {
        panic!("Expected TryBlock operand");
    }
    assert_eq!(instruction.size, 3);
}

#[test]
fn test_decode_convert() {
    let decoder = InstructionDecoder::new();
    let bytecode = &[0xC2, 0x21];
    let instruction = decoder.decode_instruction(bytecode, 0).unwrap();
    assert_eq!(instruction.opcode, OpCode::CONVERT);
    assert_eq!(instruction.operand, Some(Operand::StackItemType(StackItemType::Integer)));
    assert_eq!(instruction.size, 2);
}

#[test]
fn test_decode_push_constants() {
    let decoder = InstructionDecoder::new();
    let bytecode = &[0x10];
    let instruction = decoder.decode_instruction(bytecode, 0).unwrap();
    assert_eq!(instruction.opcode, OpCode::PUSH0);
    assert_eq!(instruction.operand, None);
    assert_eq!(instruction.size, 1);

    let bytecode = &[0x20];
    let instruction = decoder.decode_instruction(bytecode, 0).unwrap();
    assert_eq!(instruction.opcode, OpCode::PUSH16);
    assert_eq!(instruction.operand, None);
    assert_eq!(instruction.size, 1);
}

#[test]
fn decode_at_nonzero_offset_reads_from_that_offset() {
    let decoder = InstructionDecoder::new();
    let bytecode = &[0x40, 0x00, 0x07];
    let instruction = decoder.decode_instruction(&bytecode[1..], 1).unwrap();
    assert_eq!(instruction.offset, 1);
    assert_eq!(instruction.opcode, OpCode::PUSHINT8);
    assert_eq!(instruction.operand, Some(Operand::Integer(7)));
}

#[test]
fn disassemble_steps_over_a_truncated_operand_one_byte_at_a_time() {
    let config = DecompilerConfig::default();
    let disassembler = Disassembler::new(&config);
    let instructions = disassembler.disassemble(&[0x40, 0x01, 0x05]).unwrap();
    assert_eq!(instructions.len(), 3);
    assert_eq!(instructions[1].offset, 1);
    assert_eq!(instructions[1].opcode, OpCode::PUSHINT16);
    assert_eq!(instructions[1].operand, None);
    assert_eq!(instructions[1].size, 1);
    assert_eq!(instructions[2].opcode, OpCode::PUSHINT256);
}

#[test]
fn disassemble_stops_at_an_unknown_opcode() {
    let config = DecompilerConfig::default();
    let disassembler = Disassembler::new(&config);
    let result = disassembler.disassemble(&[0x40, 0xFF]);
    assert_eq!(result, Err(DisassemblyError::UnknownOpcode { opcode: 0xFF, offset: 1 }));
}

#[test]
fn disassemble_of_no_bytes_is_empty() {
    let config = DecompilerConfig::default();
    let disassembler = Disassembler::new(&config);
    assert_eq!(disassembler.disassemble(&[]).unwrap().len(), 0);
}

#[test]
fn test_decode_comprehensive_sequence() {
    let config = DecompilerConfig::default();
    let disassembler = Disassembler::new(&config);
    // INITSLOT 2 1; PUSHINT8 42; STLOC 0; LDLOC 0; PUSH1; ADD; STLOC 1;
    // JMPIF 5; RET; LDLOC 1; RET
    let bytecode = &[
        0x57, 0x02, 0x01, 0x00, 0x2A, 0x69, 0x00, 0x68, 0x00, 0x11, 0x8E, 0x69, 0x01, 0x24, 0x05, 0x40, 0x68, 0x01, 0x40,
    ];
    let result = disassembler.disassemble(bytecode);
    assert!(result.is_ok());
    let instructions = result.unwrap();
    // The byte string holds eleven instructions.
    assert_eq!(instructions.len(), 11);
    assert_eq!(instructions[0].opcode, OpCode::INITSLOT);
    if let Some(Operand::SlotInit { local_slots, static_slots }) = &instructions[0].operand {
        assert_eq!(*local_slots, 2);
        assert_eq!(*static_slots, 1);
    } else {
        panic!("Expected SlotInit operand");
    }
    assert_eq!(instructions[1].opcode, OpCode::PUSHINT8);
    assert_eq!(instructions[2].opcode, OpCode::STLOC);
    assert_eq!(instructions[3].opcode, OpCode::LDLOC);
    assert_eq!(instructions[4].opcode, OpCode::PUSH1);
    assert_eq!(instructions[5].opcode, OpCode::ADD);
    assert_eq!(instructions[6].opcode, OpCode::STLOC);
    assert_eq!(instructions[7].opcode, OpCode::JMPIF);
    assert_eq!(instructions[8].opcode, OpCode::RET);
    assert_eq!(instructions[9].opcode, OpCode::LDLOC);
    assert_eq!(instructions[10].opcode, OpCode::RET);
}

#[test]
fn disassembled_instructions_follow_one_another_to_the_end() {
    let disassembler = Disassembler::new(&DecompilerConfig::default());
    let bytecode = &[0x57, 0x02, 0x01, 0x0C, 0x02, 0xAA, 0xBB, 0x11, 0x40];
    let instructions = disassembler.disassemble(bytecode).unwrap();
    assert_eq!(instructions[0].offset, 0);
    for pair in instructions.windows(2) {
        assert_eq!(pair[1].offset, pair[0].offset + pair[0].size as u32);
    }
    let last = instructions.last().unwrap();
    assert_eq!(last.offset as usize + last.size as usize, bytecode.len());
    assert!(disassembler.disassemble(&[]).unwrap().is_empty());
}
