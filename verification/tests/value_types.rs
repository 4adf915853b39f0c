use neo_decompiler::analysis::value_types::{
    infer_types_in_slice, int_literal_from_operand, scan_slot_counts, scan_static_slot_count, type_from_manifest,
    MethodRef, StackValue, ValueType,
};
use neo_decompiler::common::opcode::OpCode;
use neo_decompiler::common::types::{Instruction, Operand, StackItemType};

fn ins(offset: u32, opcode: OpCode, operand: Option<Operand>) -> Instruction {
    Instruction { offset, opcode, operand, size: 1 }
}

fn run(program: &[Instruction]) -> (Vec<ValueType>, Vec<ValueType>, Vec<ValueType>) {
    let mut locals = Vec::new();
    let mut arguments = Vec::new();
    let mut statics = Vec::new();
    infer_types_in_slice(program, &mut locals, &mut arguments, &mut statics);
    (locals, arguments, statics)
}

#[test]
fn stores_record_the_types_of_stored_values() {
    let program = vec![
        ins(0, OpCode::INITSLOT, Some(Operand::SlotInit { local_slots: 2, static_slots: 1 })),
        ins(3, OpCode::PUSHINT8, Some(Operand::Integer(5))),
        ins(5, OpCode::STLOC0, None),
        ins(6, OpCode::PUSHDATA1, Some(Operand::Bytes(vec![1, 2]))),
        ins(9, OpCode::STLOC1, None),
    ];
    let (locals, arguments, statics) = run(&program);
    assert_eq!(locals, vec![ValueType::Integer, ValueType::ByteString]);
    assert_eq!(arguments, vec![ValueType::Unknown]);
    assert!(statics.is_empty());
}

#[test]
fn conflicting_stores_widen_to_any() {
    let program = vec![
        ins(0, OpCode::PUSHINT8, Some(Operand::Integer(5))),
        ins(2, OpCode::STLOC0, None),
        ins(3, OpCode::PUSHT, None),
        ins(4, OpCode::STLOC0, None),
    ];
    let (locals, _, _) = run(&program);
    assert_eq!(locals, vec![ValueType::Any]);
}

#[test]
fn pack_with_a_literal_count_consumes_its_items() {
    let program = vec![
        ins(0, OpCode::PUSHT, None),
        ins(1, OpCode::PUSHINT8, Some(Operand::Integer(1))),
        ins(3, OpCode::PUSHINT8, Some(Operand::Integer(2))),
        ins(5, OpCode::PUSHINT8, Some(Operand::Integer(2))),
        ins(7, OpCode::PACKARRAY, None),
        ins(8, OpCode::STSFLD1, None),
        ins(9, OpCode::STSFLD0, None),
    ];
    let (_, _, statics) = run(&program);
    assert_eq!(statics, vec![ValueType::Boolean, ValueType::Array]);
}

#[test]
fn pick_copies_the_value_at_a_literal_depth() {
    let program = vec![
        ins(0, OpCode::PUSHNULL, None),
        ins(1, OpCode::PUSHINT8, Some(Operand::Integer(7))),
        ins(3, OpCode::PUSHINT8, Some(Operand::Integer(1))),
        ins(5, OpCode::PICK, None),
        ins(6, OpCode::STARG2, None),
    ];
    let (_, arguments, _) = run(&program);
    assert_eq!(arguments, vec![ValueType::Unknown, ValueType::Unknown, ValueType::Null]);
}

#[test]
fn convert_pushes_its_target_type() {
    let program = vec![
        ins(0, OpCode::PUSHDATA1, Some(Operand::Bytes(vec![1]))),
        ins(3, OpCode::CONVERT, Some(Operand::StackItemType(StackItemType::Integer))),
        ins(5, OpCode::STLOC, Some(Operand::SlotIndex(3))),
    ];
    let (locals, _, _) = run(&program);
    assert_eq!(locals, vec![ValueType::Unknown, ValueType::Unknown, ValueType::Unknown, ValueType::Integer]);
}

#[test]
fn known_syscalls_pop_their_arguments() {
    // System.Storage.Get takes a context and a key and returns a value;
    // System.Runtime.Log takes a message and returns nothing.
    let program = vec![
        ins(0, OpCode::PUSHT, None),
        ins(1, OpCode::PUSHINT8, Some(Operand::Integer(1))),
        ins(3, OpCode::PUSHINT8, Some(Operand::Integer(2))),
        ins(5, OpCode::SYSCALL, Some(Operand::SyscallHash(0x31e85d92))),
        ins(10, OpCode::PUSHDATA1, Some(Operand::Bytes(vec![]))),
        ins(12, OpCode::SYSCALL, Some(Operand::SyscallHash(0x9647e7cf))),
        ins(17, OpCode::STLOC0, None),
        ins(18, OpCode::STLOC1, None),
    ];
    let (locals, _, _) = run(&program);
    assert_eq!(locals, vec![ValueType::Unknown, ValueType::Boolean]);
}

#[test]
fn rot_with_too_few_values_empties_the_stack() {
    let program = vec![
        ins(0, OpCode::PUSHT, None),
        ins(1, OpCode::PUSHNULL, None),
        ins(2, OpCode::ROT, None),
        ins(3, OpCode::STLOC0, None),
    ];
    let (locals, _, _) = run(&program);
    assert_eq!(locals, vec![ValueType::Unknown]);
}

#[test]
fn swap_and_reverse_reorder_the_stack() {
    let program = vec![
        ins(0, OpCode::PUSHT, None),
        ins(1, OpCode::PUSHNULL, None),
        ins(2, OpCode::PUSHA, None),
        ins(3, OpCode::REVERSE3, None),
        ins(4, OpCode::STLOC0, None),
        ins(5, OpCode::SWAP, None),
        ins(6, OpCode::STLOC1, None),
    ];
    let (locals, _, _) = run(&program);
    assert_eq!(locals, vec![ValueType::Boolean, ValueType::Pointer]);
}

#[test]
fn initsslot_sizes_the_static_slots() {
    let program = vec![ins(0, OpCode::INITSSLOT, Some(Operand::Count(3)))];
    let (_, _, statics) = run(&program);
    assert_eq!(statics, vec![ValueType::Unknown; 3]);
    assert_eq!(scan_static_slot_count(&program), Some(3));
    assert_eq!(scan_slot_counts(&program), None);
    let with_slots = vec![
        ins(0, OpCode::NOP, None),
        ins(1, OpCode::INITSLOT, Some(Operand::SlotInit { local_slots: 4, static_slots: 2 })),
    ];
    assert_eq!(scan_slot_counts(&with_slots), Some((4, 2)));
}

#[test]
fn manifest_kinds_map_to_value_types() {
    assert_eq!(type_from_manifest("Hash160"), ValueType::ByteString);
    assert_eq!(type_from_manifest("MAP"), ValueType::Mapping);
    assert_eq!(type_from_manifest("Boolean"), ValueType::Boolean);
    assert_eq!(type_from_manifest("InteropInterface"), ValueType::InteropInterface);
    assert_eq!(type_from_manifest("Void"), ValueType::Unknown);
}

#[test]
fn join_keeps_equal_types_and_widens_conflicts() {
    assert_eq!(ValueType::Integer.join(ValueType::Integer), ValueType::Integer);
    assert_eq!(ValueType::Unknown.join(ValueType::Array), ValueType::Array);
    assert_eq!(ValueType::Null.join(ValueType::Integer), ValueType::Any);
    assert_eq!(ValueType::Boolean.join(ValueType::Integer), ValueType::Any);
    assert_eq!(ValueType::InteropInterface.name(), "interopinterface");
    assert_eq!(ValueType::Mapping.name(), "map");
}

#[test]
fn synthetic_method_names_use_the_offset_in_hex() {
    let m = MethodRef::synthetic(0x1a);
    assert_eq!(m.offset, 0x1a);
    assert_eq!(m.name, "sub_0x001A");
    assert_eq!(MethodRef::synthetic(0x12345).name, "sub_0x12345");
}

#[test]
fn stack_values_and_literals() {
    assert_eq!(StackValue::integer_literal(3).int_literal, Some(3));
    assert_eq!(StackValue::unknown().ty, ValueType::Unknown);
    assert_eq!(StackValue::with_type(ValueType::Buffer).int_literal, None);
    assert_eq!(int_literal_from_operand(&Some(Operand::Integer(-1))), Some(-1));
    assert_eq!(int_literal_from_operand(&Some(Operand::Count(1))), None);
}

#[test]
fn joining_does_not_depend_on_store_order() {
    let all = [
        ValueType::Unknown,
        ValueType::Any,
        ValueType::Null,
        ValueType::Boolean,
        ValueType::Integer,
        ValueType::ByteString,
        ValueType::Array,
        ValueType::Mapping,
    ];
    for a in all {
        for b in all {
            assert_eq!(a.join(b), b.join(a));
            for c in all {
                assert_eq!(a.join(b).join(c), a.join(b.join(c)));
            }
        }
        assert_eq!(a.join(ValueType::Unknown), a);
        assert_eq!(a.join(ValueType::Any), ValueType::Any);
    }
}
