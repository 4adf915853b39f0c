use neo_decompiler::engine::ir::{IRBlock, IRFunction, Operation, RiskLevel, Severity, Terminator};

#[test]
fn test_ir_function_creation() {
    let function = IRFunction::new("test_function".to_string());
    assert_eq!(function.name, "test_function");
    assert!(function.parameters.is_empty());
    assert!(function.blocks.is_empty());
}

#[test]
fn test_ir_block_creation() {
    let block = IRBlock::new(0);
    assert_eq!(block.id, 0);
    assert!(block.operations.is_empty());
    assert!(matches!(block.terminator, Terminator::Return(None)));
}

#[test]
fn test_add_block_to_function() {
    let mut function = IRFunction::new("test".to_string());
    let block = IRBlock::new(0);
    function.add_block(block);
    assert_eq!(function.blocks.len(), 1);
    assert!(function.get_block(0).is_some());
}

#[test]
fn test_complexity_calculation() {
    let mut function = IRFunction::new("test".to_string());
    let mut block1 = IRBlock::new(0);
    block1.add_operation(Operation::Comment("test1".to_string()));
    block1.successors.push(1);
    let mut block2 = IRBlock::new(1);
    block2.add_operation(Operation::Comment("test2".to_string()));
    block2.add_operation(Operation::Comment("test3".to_string()));
    function.add_block(block1);
    function.add_block(block2);
    function.calculate_complexity();
    assert_eq!(function.metadata.complexity.blocks, 2);
    assert_eq!(function.metadata.complexity.operations, 3);
    assert_eq!(function.metadata.complexity.cyclomatic, 1);
}

#[test]
fn adding_a_block_with_a_known_id_replaces_it() {
    let mut function = IRFunction::new("f".to_string());
    function.add_block(IRBlock::new(3));
    let mut again = IRBlock::new(3);
    again.add_operation(Operation::Comment("x".to_string()));
    function.add_block(again);
    assert_eq!(function.blocks.len(), 1);
    assert_eq!(function.get_block(3).unwrap().operations.len(), 1);
    assert!(function.get_block(4).is_none());
}

#[test]
fn set_terminator_replaces_the_terminator() {
    let mut block = IRBlock::new(0);
    block.set_terminator(Terminator::Jump(5));
    assert!(matches!(block.terminator, Terminator::Jump(5)));
}

#[test]
fn risk_levels_and_severities_are_named_in_capitals() {
    assert_eq!(RiskLevel::Critical.name(), "CRITICAL");
    assert_eq!(RiskLevel::Low.name(), "LOW");
    assert_eq!(Severity::Info.name(), "INFO");
    assert_eq!(Severity::High.name(), "HIGH");
}
