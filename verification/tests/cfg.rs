use neo_decompiler::cfg::block::{BasicBlock, BlockId, Terminator};
use neo_decompiler::cfg::builder::CfgBuilder;
use neo_decompiler::cfg::graph::{Cfg, EdgeKind};
use neo_decompiler::common::opcode::OpCode;
use neo_decompiler::common::types::{Instruction, Operand};

fn ins(offset: u32, opcode: OpCode, operand: Option<Operand>, size: u8) -> Instruction {
    Instruction { offset, opcode, operand, size }
}

fn branching_program() -> Vec<Instruction> {
    vec![
        ins(0, OpCode::PUSH1, None, 1),
        ins(1, OpCode::JMPIF, Some(Operand::JumpTarget8(3)), 2),
        ins(3, OpCode::PUSH2, None, 1),
        ins(4, OpCode::RET, None, 1),
    ]
}

#[test]
fn builder_splits_at_jump_targets_and_fallthroughs() {
    let program = branching_program();
    let cfg = CfgBuilder::new(&program).build();
    assert_eq!(cfg.block_count(), 3);
    let b0 = cfg.block(BlockId::new(0)).unwrap();
    assert_eq!((b0.start_offset, b0.end_offset), (0, 3));
    assert_eq!(b0.instruction_count(), 2);
    assert_eq!(
        b0.terminator,
        Terminator::Branch { then_target: BlockId(2), else_target: BlockId(1) }
    );
    let b1 = cfg.block(BlockId::new(1)).unwrap();
    assert_eq!(b1.terminator, Terminator::Fallthrough { target: BlockId(2) });
    let b2 = cfg.block(BlockId::new(2)).unwrap();
    assert_eq!(b2.terminator, Terminator::Return);
    assert_eq!(cfg.exit_blocks(), &vec![BlockId(2)]);
}

#[test]
fn builder_edges_follow_terminators() {
    let program = branching_program();
    let cfg = CfgBuilder::new(&program).build();
    let edges = cfg.edges();
    assert_eq!(edges.len(), 3);
    assert_eq!((edges[0].from, edges[0].to, edges[0].kind), (BlockId(0), BlockId(2), EdgeKind::ConditionalTrue));
    assert_eq!((edges[1].from, edges[1].to, edges[1].kind), (BlockId(0), BlockId(1), EdgeKind::ConditionalFalse));
    assert_eq!((edges[2].from, edges[2].to, edges[2].kind), (BlockId(1), BlockId(2), EdgeKind::Unconditional));
    assert_eq!(cfg.successors(BlockId(0)), vec![BlockId(2), BlockId(1)]);
    assert_eq!(cfg.predecessors(BlockId(2)), vec![BlockId(0), BlockId(1)]);
    let b0 = cfg.block(BlockId(0)).unwrap();
    assert_eq!(b0.terminator.successors(), cfg.successors(BlockId(0)));
}

#[test]
fn builder_of_no_instructions_is_empty() {
    let program: Vec<Instruction> = Vec::new();
    let cfg = CfgBuilder::new(&program).with_non_returning_calls(&[4, 8]).build();
    assert_eq!(cfg.block_count(), 0);
    assert!(cfg.entry_block().is_none());
    assert!(cfg.reachable_blocks().is_empty());
}

#[test]
fn reverse_postorder_starts_at_entry_and_visits_each_block_once() {
    let program = branching_program();
    let cfg = CfgBuilder::new(&program).build();
    assert_eq!(cfg.reverse_postorder(), vec![BlockId(0), BlockId(1), BlockId(2)]);
}

#[test]
fn unreachable_blocks_are_those_without_a_path_from_entry() {
    let mut cfg = Cfg::new();
    cfg.add_block(BasicBlock::new(BlockId(0), 0, 2, 0..1, Terminator::Jump { target: BlockId(2) }));
    cfg.add_block(BasicBlock::new(BlockId(1), 2, 4, 1..2, Terminator::Return));
    cfg.add_block(BasicBlock::new(BlockId(2), 4, 5, 2..3, Terminator::Return));
    cfg.add_edge(BlockId(0), BlockId(2), EdgeKind::Unconditional);
    assert_eq!(cfg.reachable_blocks(), vec![BlockId(0), BlockId(2)]);
    assert_eq!(cfg.unreachable_blocks(), vec![BlockId(1)]);
    assert!(cfg.is_reachable(BlockId(2)));
    assert!(!cfg.is_reachable(BlockId(1)));
    assert_eq!(cfg.exit_blocks(), &vec![BlockId(1), BlockId(2)]);
}

#[test]
fn block_at_offset_finds_the_enclosing_block() {
    let program = branching_program();
    let cfg = CfgBuilder::new(&program).build();
    assert_eq!(cfg.block_at_offset(1).unwrap().id, BlockId(0));
    assert_eq!(cfg.block_at_offset(3).unwrap().id, BlockId(1));
    assert_eq!(cfg.block_at_offset(4).unwrap().id, BlockId(2));
    assert!(cfg.block_at_offset(9).is_none());
}

#[test]
fn block_mut_changes_the_block_in_place() {
    let mut cfg = Cfg::new();
    cfg.add_block(BasicBlock::new(BlockId(0), 0, 2, 0..1, Terminator::Unknown));
    cfg.block_mut(BlockId(0)).unwrap().terminator = Terminator::Abort;
    assert_eq!(cfg.block(BlockId(0)).unwrap().terminator, Terminator::Abort);
    assert!(cfg.block_mut(BlockId(7)).is_none());
}

#[test]
fn to_dot_renders_blocks_and_edges() {
    let program = branching_program();
    let cfg = CfgBuilder::new(&program).build();
    let dot = cfg.to_dot();
    assert!(dot.starts_with("digraph CFG {\n  node [shape=box];\n"));
    assert!(dot.contains("  BB0 [label=\"BB0\\n[0x0000-0x0003)\\n2 instrs\", style=filled, fillcolor=lightgreen];\n"));
    assert!(dot.contains("  BB2 [label=\"BB2\\n[0x0004-0x0005)\\n1 instrs\", style=filled, fillcolor=lightcoral];\n"));
    assert!(dot.contains("  BB0 -> BB2 [color=green, label=\"T\"];\n"));
    assert!(dot.contains("  BB1 -> BB2;\n"));
    assert!(dot.ends_with("}\n"));
}

#[test]
fn try_entry_targets_catch_and_finally_blocks() {
    let program = vec![
        ins(0, OpCode::TRY, Some(Operand::TryBlock { catch_offset: 3, finally_offset: Some(4) }), 3),
        ins(3, OpCode::RET, None, 1),
        ins(4, OpCode::ENDFINALLY, None, 1),
    ];
    let cfg = CfgBuilder::new(&program).build();
    assert_eq!(cfg.block_count(), 3);
    assert_eq!(
        cfg.block(BlockId(0)).unwrap().terminator,
        Terminator::TryEntry { body_target: BlockId(1), catch_target: Some(BlockId(1)), finally_target: Some(BlockId(2)) }
    );
    assert_eq!(cfg.successors(BlockId(0)), vec![BlockId(1), BlockId(1), BlockId(2)]);
}

#[test]
fn terminator_queries() {
    assert!(Terminator::Fallthrough { target: BlockId(1) }.can_fallthrough());
    assert!(!Terminator::Return.can_fallthrough());
    assert!(Terminator::Branch { then_target: BlockId(1), else_target: BlockId(2) }.is_conditional());
    assert_eq!(
        Terminator::EndFinally { normal_continuations: vec![BlockId(3), BlockId(4)] }.successors(),
        vec![BlockId(3), BlockId(4)]
    );
    assert_eq!(BlockId::new(5).index(), 5);
    let b = BasicBlock::new(BlockId(0), 10, 20, 3..3, Terminator::Unknown);
    assert!(b.is_empty());
    assert!(b.contains_offset(10));
    assert!(!b.contains_offset(20));
}

fn try_finally_program(resume: i8) -> Vec<Instruction> {
    vec![
        ins(0, OpCode::TRY, Some(Operand::TryBlock { catch_offset: 0, finally_offset: Some(6) }), 3),
        ins(3, OpCode::PUSH1, None, 1),
        ins(4, OpCode::ENDTRY, Some(Operand::JumpTarget8(resume)), 2),
        ins(6, OpCode::ENDFINALLY, None, 1),
        ins(7, OpCode::PUSH2, None, 1),
        ins(8, OpCode::RET, None, 1),
    ]
}

#[test]
fn endtry_with_finally_goes_through_the_handler() {
    let program = try_finally_program(3);
    let cfg = CfgBuilder::new(&program).build();
    assert_eq!(cfg.block_count(), 4);
    assert_eq!(
        cfg.block(BlockId(1)).unwrap().terminator,
        Terminator::EndTryFinally { continuation: BlockId(3), finally_target: BlockId(2), nonlocal: false }
    );
    assert_eq!(
        cfg.block(BlockId(2)).unwrap().terminator,
        Terminator::EndFinally { normal_continuations: vec![BlockId(3)] }
    );
    assert_eq!(cfg.successors(BlockId(1)), vec![BlockId(2)]);
    assert_eq!(cfg.successors(BlockId(2)), vec![BlockId(3)]);
}

#[test]
fn endtry_resuming_away_from_the_handler_end_is_nonlocal() {
    let program = try_finally_program(4);
    let cfg = CfgBuilder::new(&program).build();
    assert_eq!(cfg.block_count(), 5);
    assert_eq!(
        cfg.block(BlockId(1)).unwrap().terminator,
        Terminator::EndTryFinally { continuation: BlockId(4), finally_target: BlockId(2), nonlocal: true }
    );
    assert_eq!(
        cfg.block(BlockId(2)).unwrap().terminator,
        Terminator::EndFinally { normal_continuations: vec![BlockId(4)] }
    );
}

#[test]
fn catch_only_endtry_is_nonlocal_past_the_catch_end() {
    let program = vec![
        ins(0, OpCode::TRY, Some(Operand::TryBlock { catch_offset: 6, finally_offset: None }), 3),
        ins(3, OpCode::PUSH1, None, 1),
        ins(4, OpCode::ENDTRY, Some(Operand::JumpTarget8(6)), 2),
        ins(6, OpCode::PUSH2, None, 1),
        ins(7, OpCode::ENDTRY, Some(Operand::JumpTarget8(2)), 2),
        ins(9, OpCode::PUSH3, None, 1),
        ins(10, OpCode::RET, None, 1),
    ];
    let cfg = CfgBuilder::new(&program).build();
    assert_eq!(cfg.block_count(), 5);
    assert_eq!(
        cfg.block(BlockId(1)).unwrap().terminator,
        Terminator::EndTry { continuation: BlockId(4), nonlocal: true }
    );
    assert_eq!(
        cfg.block(BlockId(2)).unwrap().terminator,
        Terminator::EndTry { continuation: BlockId(3), nonlocal: false }
    );
}

#[test]
fn block_ids_are_labelled_with_their_number() {
    assert_eq!(BlockId(0).label(), "BB0");
    assert_eq!(BlockId::new(42).label(), "BB42");
}

#[test]
fn block_at_offset_ignores_the_old_place_of_a_replaced_block() {
    let mut cfg = Cfg::new();
    cfg.add_block(BasicBlock::new(BlockId(1), 0, 8, 0..4, Terminator::Return));
    cfg.add_block(BasicBlock::new(BlockId(0), 4, 6, 2..3, Terminator::Return));
    cfg.add_block(BasicBlock::new(BlockId(0), 20, 24, 5..6, Terminator::Return));
    assert_eq!(cfg.block_at_offset(5).unwrap().id, BlockId(1));
    assert_eq!(cfg.block_at_offset(21).unwrap().id, BlockId(0));
    assert!(cfg.block_at_offset(10).is_none());
}

#[test]
fn a_non_returning_call_ends_its_block_without_successors() {
    let program = vec![
        ins(0, OpCode::PUSH1, None, 1),
        ins(1, OpCode::CALL, Some(Operand::JumpTarget8(5)), 2),
        ins(3, OpCode::PUSH2, None, 1),
        ins(4, OpCode::RET, None, 1),
        ins(5, OpCode::RET, None, 1),
    ];
    let cfg = CfgBuilder::new(&program).with_non_returning_calls(&[1]).build();
    let b0 = cfg.block(BlockId(0)).unwrap();
    assert_eq!(b0.instruction_range, 0..2);
    assert_eq!(b0.terminator, Terminator::NoReturnCall);
    assert!(cfg.successors(BlockId(0)).is_empty());
    let plain = CfgBuilder::new(&program).build();
    assert_eq!(plain.block_count(), 2);
    assert_eq!(plain.block(BlockId(0)).unwrap().terminator, Terminator::Return);
}

#[test]
fn reverse_postorder_lists_only_reachable_blocks() {
    assert!(Cfg::new().reverse_postorder().is_empty());
    let mut cfg = Cfg::new();
    cfg.add_block(BasicBlock::new(BlockId(0), 0, 2, 0..1, Terminator::Jump { target: BlockId(2) }));
    cfg.add_block(BasicBlock::new(BlockId(2), 4, 5, 2..3, Terminator::Return));
    cfg.add_edge(BlockId(0), BlockId(7), EdgeKind::Unconditional);
    cfg.add_edge(BlockId(0), BlockId(2), EdgeKind::Unconditional);
    assert_eq!(cfg.reverse_postorder(), vec![BlockId(0), BlockId(2)]);
    assert_eq!(cfg.reachable_blocks(), vec![BlockId(0), BlockId(2)]);
}

#[test]
fn block_at_offset_takes_the_block_indexed_nearest_below() {
    let mut cfg = Cfg::new();
    cfg.add_block(BasicBlock::new(BlockId(0), 0, 10, 0..4, Terminator::Return));
    cfg.add_block(BasicBlock::new(BlockId(1), 5, 8, 2..3, Terminator::Return));
    assert_eq!(cfg.block_at_offset(5).unwrap().id, BlockId(1));
    assert_eq!(cfg.block_at_offset(2).unwrap().id, BlockId(0));
    assert!(cfg.block_at_offset(9).is_none());
}
