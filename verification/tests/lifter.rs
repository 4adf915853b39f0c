use neo_decompiler::analysis::types::Type;
use neo_decompiler::common::config::DecompilerConfig;
use neo_decompiler::common::errors::LiftError;
use neo_decompiler::common::opcode::OpCode;
use neo_decompiler::common::types::{Instruction, Operand};
use neo_decompiler::engine::ir::{Operation, Terminator};
use neo_decompiler::engine::lifter::IRLifter;

fn create_test_instruction(opcode: OpCode, offset: u32, operand: Option<Operand>) -> Instruction {
    Instruction { offset, opcode, operand, size: 1 }
}

#[test]
fn test_lifter_creation() {
    let config = DecompilerConfig::default();
    let lifter = IRLifter::new(&config);
    assert_eq!(lifter.var_counter, 0);
    assert!(lifter.stack.is_empty());
}

#[test]
fn test_find_block_boundaries() {
    let config = DecompilerConfig::default();
    let lifter = IRLifter::new(&config);
    let instructions = vec![
        create_test_instruction(OpCode::PUSHINT8, 0, Some(Operand::Integer(42))),
        create_test_instruction(OpCode::JMP, 2, Some(Operand::JumpTarget8(4))),
        create_test_instruction(OpCode::PUSHT, 6, None),
        create_test_instruction(OpCode::RET, 7, None),
    ];
    let boundaries = lifter.find_block_boundaries(&instructions);
    assert!(boundaries.contains(&0));
    assert!(boundaries.contains(&6));
    assert!(boundaries.contains(&4));
}

#[test]
fn test_lift_simple_sequence() {
    let config = DecompilerConfig::default();
    let mut lifter = IRLifter::new(&config);
    let instructions = vec![
        create_test_instruction(OpCode::PUSHINT8, 0, Some(Operand::Integer(42))),
        create_test_instruction(OpCode::PUSHINT8, 2, Some(Operand::Integer(10))),
        create_test_instruction(OpCode::ADD, 4, None),
        create_test_instruction(OpCode::RET, 5, None),
    ];
    let result = lifter.lift_to_ir(&instructions);
    assert!(result.is_ok());
    let function = result.unwrap();
    assert_eq!(function.name, "main");
    assert!(!function.blocks.is_empty());
}

#[test]
fn test_create_temp_variable() {
    let config = DecompilerConfig::default();
    let mut lifter = IRLifter::new(&config);
    let var1 = lifter.create_temp_variable(Type::Unknown);
    let var2 = lifter.create_temp_variable(Type::Unknown);
    assert_eq!(var1.name, "temp_0");
    assert_eq!(var2.name, "temp_1");
    assert_eq!(var1.id, 0);
    assert_eq!(var2.id, 1);
}

#[test]
fn test_stack_underflow() {
    let config = DecompilerConfig::default();
    let mut lifter = IRLifter::new(&config);
    let result = lifter.pop_stack();
    assert!(matches!(result, Err(LiftError::StackUnderflow { .. })));
}

#[test]
fn boundaries_are_sorted_without_repeats() {
    let config = DecompilerConfig::default();
    let lifter = IRLifter::new(&config);
    let instructions = vec![
        create_test_instruction(OpCode::JMPIF, 0, Some(Operand::JumpTarget8(4))),
        create_test_instruction(OpCode::PUSHT, 2, None),
        create_test_instruction(OpCode::JMP, 3, Some(Operand::JumpTarget8(1))),
        create_test_instruction(OpCode::RET, 4, None),
    ];
    let boundaries = lifter.find_block_boundaries(&instructions);
    assert_eq!(boundaries, vec![0, 2, 4, 5]);
}

#[test]
fn lifting_add_then_ret_returns_the_sum() {
    let config = DecompilerConfig::default();
    let mut lifter = IRLifter::new(&config);
    let instructions = vec![
        create_test_instruction(OpCode::PUSHINT8, 0, Some(Operand::Integer(42))),
        create_test_instruction(OpCode::PUSHINT8, 2, Some(Operand::Integer(10))),
        create_test_instruction(OpCode::ADD, 4, None),
        create_test_instruction(OpCode::RET, 5, None),
    ];
    let function = lifter.lift_to_ir(&instructions).unwrap();
    assert_eq!(function.blocks.len(), 1);
    let block = &function.blocks[0];
    assert!(matches!(block.operations[0], Operation::Arithmetic { .. }));
    assert!(matches!(block.terminator, Terminator::Return(Some(_))));
}

#[test]
fn lifting_add_on_an_empty_stack_underflows_at_its_offset() {
    let config = DecompilerConfig::default();
    let mut lifter = IRLifter::new(&config);
    let instructions = vec![create_test_instruction(OpCode::ADD, 0, None)];
    let result = lifter.lift_to_ir(&instructions);
    assert!(matches!(result, Err(LiftError::StackUnderflow { offset: 0 })));
}
