use neo_decompiler::analysis::value_types::{MethodRef, SlotKind};
use neo_decompiler::analysis::xrefs::{method_xrefs, slot_access};
use neo_decompiler::common::opcode::OpCode;
use neo_decompiler::common::types::{Instruction, Operand};

fn ins(offset: u32, opcode: OpCode, operand: Option<Operand>) -> Instruction {
    Instruction { offset, opcode, operand, size: 1 }
}

#[test]
fn reads_and_writes_are_recorded_per_slot_in_order() {
    let program = vec![
        ins(10, OpCode::INITSLOT, Some(Operand::SlotInit { local_slots: 1, static_slots: 2 })),
        ins(13, OpCode::LDARG1, None),
        ins(14, OpCode::STLOC0, None),
        ins(15, OpCode::LDLOC0, None),
        ins(16, OpCode::STLOC, Some(Operand::SlotIndex(3))),
        ins(18, OpCode::LDLOC0, None),
        ins(19, OpCode::STSFLD0, None),
    ];
    let x = method_xrefs(MethodRef::synthetic(10), &program, 1);
    assert_eq!(x.method.offset, 10);
    assert_eq!(x.locals.len(), 4);
    assert_eq!(x.locals[0].index, 0);
    assert_eq!(x.locals[0].reads, vec![15, 18]);
    assert_eq!(x.locals[0].writes, vec![14]);
    assert!(x.locals[1].reads.is_empty() && x.locals[1].writes.is_empty());
    assert_eq!(x.locals[3].index, 3);
    assert_eq!(x.locals[3].writes, vec![16]);
    assert_eq!(x.arguments.len(), 2);
    assert_eq!(x.arguments[1].reads, vec![13]);
    assert_eq!(x.statics.len(), 1);
    assert_eq!(x.statics[0].writes, vec![19]);
}

#[test]
fn slots_without_declarations_start_empty() {
    let program = vec![ins(0, OpCode::RET, None)];
    let x = method_xrefs(MethodRef::synthetic(0), &program, 0);
    assert!(x.locals.is_empty() && x.arguments.is_empty() && x.statics.is_empty());
}

#[test]
fn slot_access_decodes_loads_and_stores() {
    assert_eq!(slot_access(&ins(0, OpCode::LDSFLD6, None)), Some((SlotKind::Static, 6, false)));
    assert_eq!(slot_access(&ins(0, OpCode::STARG, Some(Operand::SlotIndex(9)))), Some((SlotKind::Argument, 9, true)));
    assert_eq!(slot_access(&ins(0, OpCode::LDLOC, None)), None);
    assert_eq!(slot_access(&ins(0, OpCode::ADD, None)), None);
}
