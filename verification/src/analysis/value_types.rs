//! Slot type recovery: an abstract run of an instruction stream over a stack
//! of value types and known integer literals, which records the types stored
//! into local, argument and static slots. It is conservative: what it cannot
//! tell stays unknown, and conflicting stores widen to `any`.
use crate::analysis::patterns::ascii_lower;
use crate::common::opcode::OpCode;
use crate::common::types::{Instruction, InstructionView, Operand, OperandView, StackItemType};
use crate::engine::lifter::instrs_view;
use crate::contract::interop::{interop_signature, signature};
use crate::text::{hex_word, lower_seq, push_hex_word, str_eq};
use vstd::prelude::*;

verus! {

/// Value types recovered for slots and stack values.
#[derive(Debug, Clone, Copy, PartialEq, Eq, Hash, Structural)]
pub enum ValueType {
    Unknown,
    Any,
    Null,
    Boolean,
    Integer,
    ByteString,
    Buffer,
    Array,
    Struct,
    Mapping,
    InteropInterface,
    Pointer,
}

/// The join of two types: equal types stay, an unknown side gives way to the
/// other, and any other pair widens to `any`.
pub open spec fn joined(a: ValueType, b: ValueType) -> ValueType {
    if a == b {
        a
    } else if a == ValueType::Unknown {
        b
    } else if b == ValueType::Unknown {
        a
    } else {
        ValueType::Any
    }
}

/// Joining types is a semilattice with `unknown` at the bottom and `any` at
/// the top: the type recovered for a slot does not depend on the order, or
/// the repetition, of the stores into it.
pub proof fn lemma_join_semilattice(a: ValueType, b: ValueType, c: ValueType)
    ensures
        joined(a, b) == joined(b, a),
        joined(joined(a, b), c) == joined(a, joined(b, c)),
        joined(a, a) == a,
        joined(a, ValueType::Unknown) == a,
        joined(a, ValueType::Any) == ValueType::Any,
{
}

/// The lower-case name of a type.
pub open spec fn value_type_name(t: ValueType) -> Seq<char> {
    match t {
        ValueType::Unknown => "unknown"@,
        ValueType::Any => "any"@,
        ValueType::Null => "null"@,
        ValueType::Boolean => "boolean"@,
        ValueType::Integer => "integer"@,
        ValueType::ByteString => "bytestring"@,
        ValueType::Buffer => "buffer"@,
        ValueType::Array => "array"@,
        ValueType::Struct => "struct"@,
        ValueType::Mapping => "map"@,
        ValueType::InteropInterface => "interopinterface"@,
        ValueType::Pointer => "pointer"@,
    }
}

impl ValueType {
    /// The join of two types.
    pub fn join(self, other: Self) -> (r: Self)
        ensures
            r == joined(self, other),
    {
        if self == other {
            return self;
        }
        match (self, other) {
            (ValueType::Unknown, x) => x,
            (x, ValueType::Unknown) => x,
            _ => ValueType::Any,
        }
    }

    /// The lower-case name of the type.
    pub fn name(&self) -> (r: &'static str)
        ensures
            r@ == value_type_name(*self),
    {
        match self {
            ValueType::Unknown => "unknown",
            ValueType::Any => "any",
            ValueType::Null => "null",
            ValueType::Boolean => "boolean",
            ValueType::Integer => "integer",
            ValueType::ByteString => "bytestring",
            ValueType::Buffer => "buffer",
            ValueType::Array => "array",
            ValueType::Struct => "struct",
            ValueType::Mapping => "map",
            ValueType::InteropInterface => "interopinterface",
            ValueType::Pointer => "pointer",
        }
    }
}

/// A value on the abstract stack: its type and, when known, its integer value.
#[derive(Debug, Clone, Copy, PartialEq, Eq, Structural)]
pub struct StackValue {
    pub ty: ValueType,
    pub int_literal: Option<i64>,
}

/// A value of unknown type.
pub open spec fn unknown_value() -> StackValue {
    StackValue { ty: ValueType::Unknown, int_literal: None }
}

/// A value of the given type with no known integer value.
pub open spec fn typed(t: ValueType) -> StackValue {
    StackValue { ty: t, int_literal: None }
}

impl StackValue {
    /// A value of unknown type.
    pub fn unknown() -> (r: Self)
        ensures
            r == unknown_value(),
    {
        StackValue { ty: ValueType::Unknown, int_literal: None }
    }

    /// A value of the given type.
    pub fn with_type(ty: ValueType) -> (r: Self)
        ensures
            r == typed(ty),
    {
        StackValue { ty, int_literal: None }
    }

    /// An integer with a known value.
    pub fn integer_literal(value: i64) -> (r: Self)
        ensures
            r == (StackValue { ty: ValueType::Integer, int_literal: Some(value) }),
    {
        StackValue { ty: ValueType::Integer, int_literal: Some(value) }
    }
}

/// The value on top of the stack, or an unknown one when it is empty.
pub open spec fn top_or_unknown(s: Seq<StackValue>) -> StackValue {
    if s.len() > 0 {
        s.last()
    } else {
        unknown_value()
    }
}

/// The stack after one pop; popping an empty stack leaves it empty.
pub open spec fn popped(s: Seq<StackValue>) -> Seq<StackValue> {
    if s.len() > 0 {
        s.drop_last()
    } else {
        s
    }
}

/// The stack after `n` pops.
pub open spec fn popped_n(s: Seq<StackValue>, n: nat) -> Seq<StackValue> {
    if n >= s.len() {
        Seq::empty()
    } else {
        s.take(s.len() - n)
    }
}

/// The stack with its top `n` values in reverse order; unchanged when `n` is
/// zero or exceeds the depth.
pub open spec fn reversed_top(s: Seq<StackValue>, n: int) -> Seq<StackValue> {
    if n == 0 || s.len() < n {
        s
    } else {
        s.take(s.len() - n) + s.skip(s.len() - n).reverse()
    }
}

/// The known integer value of a stack value as a depth or count.
pub open spec fn depth_of(v: StackValue) -> Option<usize> {
    match v.int_literal {
        Some(x) => if 0 <= x && x <= usize::MAX {
            Some(x as usize)
        } else {
            None
        },
        None => None,
    }
}

/// Slots extended with unknown ones to at least `n`.
pub open spec fn grown(slots: Seq<ValueType>, n: int) -> Seq<ValueType> {
    if slots.len() < n {
        slots + Seq::new((n - slots.len()) as nat, |i: int| ValueType::Unknown)
    } else {
        slots
    }
}

/// The integer a push operand carries.
pub open spec fn int_literal_of(o: Option<OperandView>) -> Option<i64> {
    match o {
        Some(OperandView::Integer(v)) => Some(v),
        _ => None,
    }
}

/// The type a `CONVERT` operand names; `any` for another operand.
pub open spec fn convert_target(o: Option<OperandView>) -> ValueType {
    match o {
        Some(OperandView::StackItemType(t)) => match t {
            StackItemType::Any => ValueType::Any,
            StackItemType::Pointer => ValueType::Pointer,
            StackItemType::Boolean => ValueType::Boolean,
            StackItemType::Integer => ValueType::Integer,
            StackItemType::ByteString => ValueType::ByteString,
            StackItemType::Buffer => ValueType::Buffer,
            StackItemType::Array => ValueType::Array,
            StackItemType::Struct => ValueType::Struct,
            StackItemType::MapItem => ValueType::Mapping,
            StackItemType::InteropInterface => ValueType::InteropInterface,
        },
        _ => ValueType::Any,
    }
}

/// The value a literal push puts on the stack.
pub open spec fn literal_of(ins: InstructionView) -> Option<StackValue> {
    match ins.opcode {
        OpCode::PUSHNULL => Some(typed(ValueType::Null)),
        OpCode::PUSHT | OpCode::PUSHF => Some(typed(ValueType::Boolean)),
        OpCode::PUSHDATA1 | OpCode::PUSHDATA2 | OpCode::PUSHDATA4 => Some(typed(ValueType::ByteString)),
        OpCode::PUSHINT8 | OpCode::PUSHINT16 | OpCode::PUSHINT32 | OpCode::PUSHINT64 | OpCode::PUSHINT128 | OpCode::PUSHINT256 | OpCode::PUSHM1 | OpCode::PUSH0 | OpCode::PUSH1 | OpCode::PUSH2 | OpCode::PUSH3 | OpCode::PUSH4 | OpCode::PUSH5 | OpCode::PUSH6 | OpCode::PUSH7 | OpCode::PUSH8 | OpCode::PUSH9 | OpCode::PUSH10 | OpCode::PUSH11 | OpCode::PUSH12 | OpCode::PUSH13 | OpCode::PUSH14 | OpCode::PUSH15 | OpCode::PUSH16 => Some(StackValue { ty: ValueType::Integer, int_literal: int_literal_of(ins.operand) }),
        OpCode::PUSHA => Some(typed(ValueType::Pointer)),
        _ => None,
    }
}

/// Opcodes with a fixed stack effect: how many values they pop and the type
/// of the value they push, if any.
pub open spec fn fixed_effect(op: OpCode) -> Option<(u8, Option<ValueType>)> {
    match op {
        OpCode::DROP => Some((1u8, None)),
        OpCode::NEWARRAY0 => Some((0u8, Some(ValueType::Array))),
        OpCode::NEWARRAY => Some((1u8, Some(ValueType::Array))),
        OpCode::NEWARRAYT => Some((1u8, Some(ValueType::Array))),
        OpCode::NEWMAP => Some((0u8, Some(ValueType::Mapping))),
        OpCode::NEWSTRUCT0 => Some((0u8, Some(ValueType::Struct))),
        OpCode::NEWSTRUCT => Some((1u8, Some(ValueType::Struct))),
        OpCode::NEWBUFFER => Some((1u8, Some(ValueType::Buffer))),
        OpCode::UNPACK => Some((1u8, Some(ValueType::Unknown))),
        OpCode::PICKITEM => Some((2u8, Some(ValueType::Unknown))),
        OpCode::SETITEM => Some((3u8, None)),
        OpCode::APPEND => Some((2u8, None)),
        OpCode::REMOVE => Some((2u8, None)),
        OpCode::CLEARITEMS => Some((1u8, None)),
        OpCode::REVERSEITEMS => Some((1u8, None)),
        OpCode::MEMCPY => Some((5u8, None)),
        OpCode::POPITEM => Some((2u8, Some(ValueType::Unknown))),
        OpCode::SIZE => Some((1u8, Some(ValueType::Integer))),
        OpCode::HASKEY => Some((2u8, Some(ValueType::Boolean))),
        OpCode::ISNULL => Some((1u8, Some(ValueType::Boolean))),
        OpCode::ISTYPE => Some((1u8, Some(ValueType::Boolean))),
        OpCode::ADD => Some((2u8, Some(ValueType::Integer))),
        OpCode::SUB => Some((2u8, Some(ValueType::Integer))),
        OpCode::MUL => Some((2u8, Some(ValueType::Integer))),
        OpCode::DIV => Some((2u8, Some(ValueType::Integer))),
        OpCode::MOD => Some((2u8, Some(ValueType::Integer))),
        OpCode::POW => Some((2u8, Some(ValueType::Integer))),
        OpCode::MIN => Some((2u8, Some(ValueType::Integer))),
        OpCode::MAX => Some((2u8, Some(ValueType::Integer))),
        OpCode::SHL => Some((2u8, Some(ValueType::Integer))),
        OpCode::SHR => Some((2u8, Some(ValueType::Integer))),
        OpCode::MODMUL => Some((3u8, Some(ValueType::Integer))),
        OpCode::MODPOW => Some((3u8, Some(ValueType::Integer))),
        OpCode::WITHIN => Some((3u8, Some(ValueType::Boolean))),
        OpCode::SQRT => Some((1u8, Some(ValueType::Integer))),
        OpCode::ABS => Some((1u8, Some(ValueType::Integer))),
        OpCode::SIGN => Some((1u8, Some(ValueType::Integer))),
        OpCode::INC => Some((1u8, Some(ValueType::Integer))),
        OpCode::DEC => Some((1u8, Some(ValueType::Integer))),
        OpCode::NEGATE => Some((1u8, Some(ValueType::Integer))),
        OpCode::AND => Some((2u8, Some(ValueType::Integer))),
        OpCode::OR => Some((2u8, Some(ValueType::Integer))),
        OpCode::XOR => Some((2u8, Some(ValueType::Integer))),
        OpCode::INVERT => Some((1u8, Some(ValueType::Integer))),
        OpCode::NOT => Some((1u8, Some(ValueType::Boolean))),
        OpCode::BOOLAND => Some((2u8, Some(ValueType::Boolean))),
        OpCode::BOOLOR => Some((2u8, Some(ValueType::Boolean))),
        OpCode::EQUAL => Some((2u8, Some(ValueType::Boolean))),
        OpCode::NUMEQUAL => Some((2u8, Some(ValueType::Boolean))),
        OpCode::NOTEQUAL => Some((2u8, Some(ValueType::Boolean))),
        OpCode::NUMNOTEQUAL => Some((2u8, Some(ValueType::Boolean))),
        OpCode::GT => Some((2u8, Some(ValueType::Boolean))),
        OpCode::GE => Some((2u8, Some(ValueType::Boolean))),
        OpCode::LT => Some((2u8, Some(ValueType::Boolean))),
        OpCode::LE => Some((2u8, Some(ValueType::Boolean))),
        OpCode::NZ => Some((1u8, Some(ValueType::Boolean))),
        _ => None,
    }
}

/// The stack after a collection of `per * n` values is packed into a value
/// of type `t`, `n` being the popped count when it is known.
pub open spec fn packed(rest: Seq<StackValue>, n: Option<usize>, per: nat, t: ValueType) -> Seq<StackValue> {
    match n {
        Some(k) => popped_n(rest, per * (k as nat)).push(typed(t)),
        None => rest.push(typed(t)),
    }
}

/// The stack after a `SYSCALL`: a known service pops its arguments and may
/// push a result; an unknown one pushes an unknown value.
pub open spec fn syscall_stack(s: Seq<StackValue>, o: Option<OperandView>) -> Seq<StackValue> {
    match o {
        Some(OperandView::SyscallHash(h)) => match interop_signature(h) {
            Some((k, ret)) => if ret {
                popped_n(s, k as nat).push(unknown_value())
            } else {
                popped_n(s, k as nat)
            },
            None => s.push(unknown_value()),
        },
        _ => s.push(unknown_value()),
    }
}

/// The stack after an instruction that touches no slot.
pub open spec fn stack_step(s: Seq<StackValue>, ins: InstructionView) -> Seq<StackValue> {
    let len = s.len();
    let top = top_or_unknown(s);
    let rest = popped(s);
    match literal_of(ins) {
        Some(v) => s.push(v),
        None => match fixed_effect(ins.opcode) {
            Some((k, t)) => match t {
                Some(ty) => popped_n(s, k as nat).push(typed(ty)),
                None => popped_n(s, k as nat),
            },
            None => match ins.opcode {
                OpCode::CLEAR => Seq::empty(),
                OpCode::DEPTH => s.push(StackValue { ty: ValueType::Integer, int_literal: Some(len as i64) }),
                OpCode::DUP => s.push(top),
                OpCode::SWAP => if len >= 2 {
                    s.update(len - 1, s[len - 2]).update(len - 2, s[len - 1])
                } else {
                    s
                },
                OpCode::OVER => s.push(
                    if len >= 2 {
                        s[len - 2]
                    } else if len == 1 {
                        s[0]
                    } else {
                        unknown_value()
                    },
                ),
                OpCode::NIP => if len >= 2 {
                    s.remove(len - 2)
                } else {
                    s
                },
                OpCode::ROT => if len >= 3 {
                    s.take(len - 3) + seq![s[len - 2], s[len - 1], s[len - 3]]
                } else {
                    Seq::empty()
                },
                OpCode::TUCK => if len >= 2 {
                    s.take(len - 2) + seq![s[len - 1], s[len - 2], s[len - 1]]
                } else {
                    Seq::empty()
                },
                OpCode::PICK => match depth_of(top) {
                    Some(d) => if d < rest.len() {
                        rest.push(rest[rest.len() - 1 - d])
                    } else {
                        rest.push(unknown_value())
                    },
                    None => rest.push(unknown_value()),
                },
                OpCode::ROLL => match depth_of(top) {
                    Some(d) => if d < rest.len() {
                        rest.remove(rest.len() - 1 - d).push(rest[rest.len() - 1 - d])
                    } else {
                        rest
                    },
                    None => rest,
                },
                OpCode::XDROP => match depth_of(top) {
                    Some(d) => if d < rest.len() {
                        rest.remove(rest.len() - 1 - d)
                    } else {
                        popped(rest)
                    },
                    None => popped(rest),
                },
                OpCode::REVERSE3 => reversed_top(s, 3),
                OpCode::REVERSE4 => reversed_top(s, 4),
                OpCode::REVERSEN => match depth_of(top) {
                    Some(d) => reversed_top(rest, d as int),
                    None => rest,
                },
                OpCode::PACKARRAY => packed(rest, depth_of(top), 1, ValueType::Array),
                OpCode::PACKSTRUCT => packed(rest, depth_of(top), 1, ValueType::Struct),
                OpCode::PACKMAP => packed(rest, depth_of(top), 2, ValueType::Mapping),
                OpCode::CONVERT => rest.push(typed(convert_target(ins.operand))),
                OpCode::SYSCALL => syscall_stack(s, ins.operand),
                _ => s,
            },
        },
    }
}

/// The stack instructions move the abstract values of the top two items `[.., a, b]`
/// (`b` on top) as the virtual machine moves the items: `NIP` keeps `b` and removes `a`,
/// `DROP` removes `b`, `SWAP` exchanges them, `DUP` copies `b`, `OVER` copies `a` to the top
/// and `TUCK` copies `b` below `a`.
pub proof fn lemma_stack_shuffles_two(rest: Seq<StackValue>, a: StackValue, b: StackValue, ins: InstructionView)
    ensures
        ins.opcode == OpCode::NIP ==> stack_step(rest.push(a).push(b), ins) == rest.push(b),
        ins.opcode == OpCode::DROP ==> stack_step(rest.push(a).push(b), ins) == rest.push(a),
        ins.opcode == OpCode::SWAP ==> stack_step(rest.push(a).push(b), ins) == rest.push(b).push(a),
        ins.opcode == OpCode::DUP ==> stack_step(rest.push(a).push(b), ins) == rest.push(a).push(b).push(b),
        ins.opcode == OpCode::OVER ==> stack_step(rest.push(a).push(b), ins) == rest.push(a).push(b).push(a),
        ins.opcode == OpCode::TUCK ==> stack_step(rest.push(a).push(b), ins) == rest.push(b).push(a).push(b),
{
    let st = rest.push(a).push(b);
    assert(st.remove(rest.len() as int) =~= rest.push(b));
    assert(st.take(rest.len() + 1int) =~= rest.push(a));
    assert(st.update(rest.len() + 1int, a).update(rest.len() as int, b) =~= rest.push(b).push(a));
    assert(st.take(rest.len() as int) + seq![b, a, b] =~= rest.push(b).push(a).push(b));
}

/// An arithmetic operator on `[.., a, b]` replaces both operands by one integer value, and a
/// comparison or boolean operator replaces them by one boolean value.
pub proof fn lemma_operator_result_types(rest: Seq<StackValue>, a: StackValue, b: StackValue, ins: InstructionView)
    ensures
        ins.opcode == OpCode::ADD || ins.opcode == OpCode::SUB || ins.opcode == OpCode::MUL || ins.opcode == OpCode::DIV
            || ins.opcode == OpCode::MOD ==> stack_step(rest.push(a).push(b), ins) == rest.push(typed(ValueType::Integer)),
        ins.opcode == OpCode::LT || ins.opcode == OpCode::LE || ins.opcode == OpCode::GT || ins.opcode == OpCode::GE
            || ins.opcode == OpCode::EQUAL || ins.opcode == OpCode::NOTEQUAL || ins.opcode == OpCode::BOOLAND
            || ins.opcode == OpCode::BOOLOR ==> stack_step(rest.push(a).push(b), ins) == rest.push(typed(ValueType::Boolean)),
{
    assert(rest.push(a).push(b).take(rest.len() as int) =~= rest);
}

/// On `[.., a, b, c]` (`c` on top), `ROT` brings the third value to the top, giving
/// `[.., b, c, a]`, and `REVERSE3` reverses the three, giving `[.., c, b, a]`.
pub proof fn lemma_stack_shuffles_three(
    rest: Seq<StackValue>,
    a: StackValue,
    b: StackValue,
    c: StackValue,
    ins: InstructionView,
)
    ensures
        ins.opcode == OpCode::ROT ==> stack_step(rest.push(a).push(b).push(c), ins) == rest.push(b).push(c).push(a),
        ins.opcode == OpCode::REVERSE3 ==> stack_step(rest.push(a).push(b).push(c), ins) == rest.push(c).push(b).push(a),
{
    let st = rest.push(a).push(b).push(c);
    assert(st.take(rest.len() as int) =~= rest);
    assert(st.take(rest.len() as int) + seq![b, c, a] =~= rest.push(b).push(c).push(a));
    assert(st.skip(rest.len() as int).reverse() =~= seq![c, b, a]);
    assert(st.take(rest.len() as int) + seq![c, b, a] =~= rest.push(c).push(b).push(a));
}

/// The three kinds of slots.
#[derive(Debug, Clone, Copy, PartialEq, Eq, Structural)]
pub enum SlotKind {
    Local,
    Argument,
    Static,
}

/// The slot index an indexed load or store names.
pub open spec fn slot_index_of(o: Option<OperandView>) -> Option<u8> {
    match o {
        Some(OperandView::SlotIndex(k)) => Some(k),
        _ => None,
    }
}

/// The slot an instruction loads or stores: its kind, whether it is a store,
/// and its index (none for an indexed form without an index operand).
pub open spec fn slot_operation(ins: InstructionView) -> Option<(SlotKind, bool, Option<u8>)> {
    match ins.opcode {
        OpCode::LDLOC0 => Some((SlotKind::Local, false, Some(0u8))),
        OpCode::LDLOC1 => Some((SlotKind::Local, false, Some(1u8))),
        OpCode::LDLOC2 => Some((SlotKind::Local, false, Some(2u8))),
        OpCode::LDLOC3 => Some((SlotKind::Local, false, Some(3u8))),
        OpCode::LDLOC4 => Some((SlotKind::Local, false, Some(4u8))),
        OpCode::LDLOC5 => Some((SlotKind::Local, false, Some(5u8))),
        OpCode::LDLOC6 => Some((SlotKind::Local, false, Some(6u8))),
        OpCode::LDLOC => Some((SlotKind::Local, false, slot_index_of(ins.operand))),
        OpCode::STLOC0 => Some((SlotKind::Local, true, Some(0u8))),
        OpCode::STLOC1 => Some((SlotKind::Local, true, Some(1u8))),
        OpCode::STLOC2 => Some((SlotKind::Local, true, Some(2u8))),
        OpCode::STLOC3 => Some((SlotKind::Local, true, Some(3u8))),
        OpCode::STLOC4 => Some((SlotKind::Local, true, Some(4u8))),
        OpCode::STLOC5 => Some((SlotKind::Local, true, Some(5u8))),
        OpCode::STLOC6 => Some((SlotKind::Local, true, Some(6u8))),
        OpCode::STLOC => Some((SlotKind::Local, true, slot_index_of(ins.operand))),
        OpCode::LDARG0 => Some((SlotKind::Argument, false, Some(0u8))),
        OpCode::LDARG1 => Some((SlotKind::Argument, false, Some(1u8))),
        OpCode::LDARG2 => Some((SlotKind::Argument, false, Some(2u8))),
        OpCode::LDARG3 => Some((SlotKind::Argument, false, Some(3u8))),
        OpCode::LDARG4 => Some((SlotKind::Argument, false, Some(4u8))),
        OpCode::LDARG5 => Some((SlotKind::Argument, false, Some(5u8))),
        OpCode::LDARG6 => Some((SlotKind::Argument, false, Some(6u8))),
        OpCode::LDARG => Some((SlotKind::Argument, false, slot_index_of(ins.operand))),
        OpCode::STARG0 => Some((SlotKind::Argument, true, Some(0u8))),
        OpCode::STARG1 => Some((SlotKind::Argument, true, Some(1u8))),
        OpCode::STARG2 => Some((SlotKind::Argument, true, Some(2u8))),
        OpCode::STARG3 => Some((SlotKind::Argument, true, Some(3u8))),
        OpCode::STARG4 => Some((SlotKind::Argument, true, Some(4u8))),
        OpCode::STARG5 => Some((SlotKind::Argument, true, Some(5u8))),
        OpCode::STARG6 => Some((SlotKind::Argument, true, Some(6u8))),
        OpCode::STARG => Some((SlotKind::Argument, true, slot_index_of(ins.operand))),
        OpCode::LDSFLD0 => Some((SlotKind::Static, false, Some(0u8))),
        OpCode::LDSFLD1 => Some((SlotKind::Static, false, Some(1u8))),
        OpCode::LDSFLD2 => Some((SlotKind::Static, false, Some(2u8))),
        OpCode::LDSFLD3 => Some((SlotKind::Static, false, Some(3u8))),
        OpCode::LDSFLD4 => Some((SlotKind::Static, false, Some(4u8))),
        OpCode::LDSFLD5 => Some((SlotKind::Static, false, Some(5u8))),
        OpCode::LDSFLD6 => Some((SlotKind::Static, false, Some(6u8))),
        OpCode::LDSFLD => Some((SlotKind::Static, false, slot_index_of(ins.operand))),
        OpCode::STSFLD0 => Some((SlotKind::Static, true, Some(0u8))),
        OpCode::STSFLD1 => Some((SlotKind::Static, true, Some(1u8))),
        OpCode::STSFLD2 => Some((SlotKind::Static, true, Some(2u8))),
        OpCode::STSFLD3 => Some((SlotKind::Static, true, Some(3u8))),
        OpCode::STSFLD4 => Some((SlotKind::Static, true, Some(4u8))),
        OpCode::STSFLD5 => Some((SlotKind::Static, true, Some(5u8))),
        OpCode::STSFLD6 => Some((SlotKind::Static, true, Some(6u8))),
        OpCode::STSFLD => Some((SlotKind::Static, true, slot_index_of(ins.operand))),
        _ => None,
    }
}

/// A load: the slot is made to exist and its type is pushed; with no index an
/// unknown value is pushed.
pub open spec fn loaded(stack: Seq<StackValue>, slots: Seq<ValueType>, idx: Option<u8>) -> (Seq<StackValue>, Seq<ValueType>) {
    match idx {
        Some(i) => {
            let g = grown(slots, i + 1);
            (stack.push(typed(g[i as int])), g)
        },
        None => (stack.push(unknown_value()), slots),
    }
}

/// A store: the top value is popped and its type joined into the slot, which
/// is made to exist; with no index the value is only popped.
pub open spec fn stored(stack: Seq<StackValue>, slots: Seq<ValueType>, idx: Option<u8>) -> (Seq<StackValue>, Seq<ValueType>) {
    match idx {
        Some(i) => {
            let g = grown(slots, i + 1);
            (popped(stack), g.update(i as int, joined(g[i as int], top_or_unknown(stack).ty)))
        },
        None => (popped(stack), slots),
    }
}

/// The abstract state: the stack and the three slot lists.
pub struct SlotState {
    pub stack: Seq<StackValue>,
    pub locals: Seq<ValueType>,
    pub arguments: Seq<ValueType>,
    pub statics: Seq<ValueType>,
}

/// The slots of one kind.
pub open spec fn slots_of(st: SlotState, kind: SlotKind) -> Seq<ValueType> {
    match kind {
        SlotKind::Local => st.locals,
        SlotKind::Argument => st.arguments,
        SlotKind::Static => st.statics,
    }
}

/// The state with a new stack and new slots of one kind.
pub open spec fn with_slots(st: SlotState, kind: SlotKind, stack: Seq<StackValue>, slots: Seq<ValueType>) -> SlotState {
    match kind {
        SlotKind::Local => SlotState { stack, locals: slots, arguments: st.arguments, statics: st.statics },
        SlotKind::Argument => SlotState { stack, locals: st.locals, arguments: slots, statics: st.statics },
        SlotKind::Static => SlotState { stack, locals: st.locals, arguments: st.arguments, statics: slots },
    }
}

/// The state after one instruction.
pub open spec fn step(st: SlotState, ins: InstructionView) -> SlotState {
    match slot_operation(ins) {
        Some((kind, store, idx)) => {
            let r = if store {
                stored(st.stack, slots_of(st, kind), idx)
            } else {
                loaded(st.stack, slots_of(st, kind), idx)
            };
            with_slots(st, kind, r.0, r.1)
        },
        None => match (ins.opcode, ins.operand) {
            (OpCode::INITSSLOT, Some(OperandView::Count(c))) => SlotState {
                stack: st.stack,
                locals: st.locals,
                arguments: st.arguments,
                statics: grown(st.statics, c as int),
            },
            (OpCode::INITSLOT, Some(OperandView::SlotInit { local_slots, static_slots })) => SlotState {
                stack: st.stack,
                locals: grown(st.locals, local_slots as int),
                arguments: grown(st.arguments, static_slots as int),
                statics: st.statics,
            },
            _ => SlotState {
                stack: stack_step(st.stack, ins),
                locals: st.locals,
                arguments: st.arguments,
                statics: st.statics,
            },
        },
    }
}

/// The state after a run of instructions.
pub open spec fn run(st: SlotState, iv: Seq<InstructionView>) -> SlotState
    decreases iv.len(),
{
    if iv.len() == 0 {
        st
    } else {
        step(run(st, iv.drop_last()), iv.last())
    }
}

/// The state of exec values.
pub open spec fn state_of(stack: Seq<StackValue>, locals: Seq<ValueType>, arguments: Seq<ValueType>, statics: Seq<ValueType>) -> SlotState {
    SlotState { stack, locals, arguments, statics }
}

/// The local and argument counts of the first `INITSLOT`.
pub open spec fn first_slot_counts(iv: Seq<InstructionView>) -> Option<(usize, usize)>
    decreases iv.len(),
{
    if iv.len() == 0 {
        None
    } else {
        match (iv[0].opcode, iv[0].operand) {
            (OpCode::INITSLOT, Some(OperandView::SlotInit { local_slots, static_slots })) => Some(
                (local_slots as usize, static_slots as usize),
            ),
            _ => first_slot_counts(iv.drop_first()),
        }
    }
}

/// The static slot count of the first `INITSSLOT`.
pub open spec fn first_static_count(iv: Seq<InstructionView>) -> Option<usize>
    decreases iv.len(),
{
    if iv.len() == 0 {
        None
    } else {
        match (iv[0].opcode, iv[0].operand) {
            (OpCode::INITSSLOT, Some(OperandView::Count(c))) => Some(c as usize),
            _ => first_static_count(iv.drop_first()),
        }
    }
}

/// The type a lower-cased manifest parameter kind names.
pub open spec fn manifest_type(k: Seq<char>) -> ValueType {
    if k == "any"@ {
        ValueType::Any
    } else if k == "boolean"@ {
        ValueType::Boolean
    } else if k == "integer"@ {
        ValueType::Integer
    } else if k == "string"@ || k == "bytearray"@ || k == "signature"@ || k == "hash160"@ || k == "hash256"@ {
        ValueType::ByteString
    } else if k == "array"@ {
        ValueType::Array
    } else if k == "map"@ {
        ValueType::Mapping
    } else if k == "interopinterface"@ {
        ValueType::InteropInterface
    } else {
        ValueType::Unknown
    }
}

/// Pop the top value, or give an unknown one for an empty stack.
fn pop_or_unknown(stack: &mut Vec<StackValue>) -> (r: StackValue)
    ensures
        r == top_or_unknown(old(stack)@),
        final(stack)@ == popped(old(stack)@),
{
    match stack.pop() {
        Some(v) => v,
        None => StackValue::unknown(),
    }
}

/// Pop `n` values.
fn pop_n(stack: &mut Vec<StackValue>, n: usize)
    ensures
        final(stack)@ == popped_n(old(stack)@, n as nat),
{
    let ghost s = stack@;
    let mut i: usize = 0;
    while i < n
        invariant
            i <= n,
            stack@ == popped_n(s, i as nat),
        decreases n - i,
    {
        let ghost before = stack@;
        if stack.len() > 0 {
            stack.pop();
        }
        proof {
            if i + 1 < s.len() {
                assert(stack@ =~= s.take(s.len() - (i + 1)));
            } else {
                assert(stack@ =~= Seq::<StackValue>::empty());
            }
        }
        i = i + 1;
    }
}

/// Reverse the order of the top `count` values, when there are that many.
fn reverse_top(stack: &mut Vec<StackValue>, count: usize)
    ensures
        final(stack)@ == reversed_top(old(stack)@, count as int),
{
    if count == 0 || stack.len() < count {
        return;
    }
    let ghost s = stack@;
    let len = stack.len();
    let start = len - count;
    let mut tail: Vec<StackValue> = Vec::new();
    let mut m: usize = 0;
    while m < count
        invariant
            m <= count,
            start + count == len,
            len == s.len(),
            stack@ == s.take(len - m),
            tail@ == Seq::new(m as nat, |k: int| s[len - 1 - k]),
        decreases count - m,
    {
        let v = stack.pop().unwrap();
        tail.push(v);
        proof {
            assert(stack@ =~= s.take(len - (m + 1)));
            assert(tail@ =~= Seq::new((m + 1) as nat, |k: int| s[len - 1 - k]));
        }
        m = m + 1;
    }
    let mut q: usize = 0;
    while q < count
        invariant
            q <= count,
            start + count == len,
            len == s.len(),
            tail@ == Seq::new(count as nat, |k: int| s[len - 1 - k]),
            stack@ == s.take(start as int) + tail@.take(q as int),
        decreases count - q,
    {
        stack.push(tail[q]);
        proof {
            assert(stack@ =~= s.take(start as int) + tail@.take(q + 1));
        }
        q = q + 1;
    }
    proof {
        assert(tail@.take(count as int) =~= tail@);
        assert(tail@ =~= s.skip(start as int).reverse());
    }
}

/// The known integer value of a stack value as a depth or count.
fn literal_depth(v: StackValue) -> (r: Option<usize>)
    ensures
        r == depth_of(v),
{
    match v.int_literal {
        Some(x) => if 0 <= x && (x as u64) <= (usize::MAX as u64) {
            Some(x as usize)
        } else {
            None
        },
        None => None,
    }
}

/// Make slots `0..n` exist, adding unknown ones.
fn grow(slots: &mut Vec<ValueType>, n: usize)
    ensures
        final(slots)@ == grown(old(slots)@, n as int),
{
    let ghost s = slots@;
    if slots.len() >= n {
        return;
    }
    while slots.len() < n
        invariant
            s.len() < n,
            s.len() <= slots@.len() <= n,
            slots@ == s + Seq::new((slots@.len() - s.len()) as nat, |i: int| ValueType::Unknown),
        decreases n - slots.len(),
    {
        slots.push(ValueType::Unknown);
        proof {
            assert(slots@ =~= s + Seq::new((slots@.len() - s.len()) as nat, |i: int| ValueType::Unknown));
        }
    }
}

/// Load slot `idx` onto the stack.
fn load(stack: &mut Vec<StackValue>, slots: &mut Vec<ValueType>, idx: Option<u8>)
    ensures
        (final(stack)@, final(slots)@) == loaded(old(stack)@, old(slots)@, idx),
{
    match idx {
        Some(i) => {
            grow(slots, i as usize + 1);
            let t = slots[i as usize];
            stack.push(StackValue::with_type(t));
        },
        None => stack.push(StackValue::unknown()),
    }
}

/// Store the top value into slot `idx`.
fn store(stack: &mut Vec<StackValue>, slots: &mut Vec<ValueType>, idx: Option<u8>)
    ensures
        (final(stack)@, final(slots)@) == stored(old(stack)@, old(slots)@, idx),
{
    let value = pop_or_unknown(stack);
    match idx {
        Some(i) => {
            grow(slots, i as usize + 1);
            let current = slots[i as usize];
            slots.set(i as usize, current.join(value.ty));
        },
        None => {},
    }
}

/// The integer a push operand carries.
pub fn int_literal_from_operand(operand: &Option<Operand>) -> (r: Option<i64>)
    ensures
        r == int_literal_of(crate::common::types::operand_opt_view(*operand)),
{
    match operand {
        Some(Operand::Integer(v)) => Some(*v),
        _ => None,
    }
}

/// The type a `CONVERT` operand names; `any` for another operand.
fn convert_target_of(instr: &Instruction) -> (r: ValueType)
    ensures
        r == convert_target(instr@.operand),
{
    match &instr.operand {
        Some(Operand::StackItemType(t)) => match t {
            StackItemType::Any => ValueType::Any,
            StackItemType::Pointer => ValueType::Pointer,
            StackItemType::Boolean => ValueType::Boolean,
            StackItemType::Integer => ValueType::Integer,
            StackItemType::ByteString => ValueType::ByteString,
            StackItemType::Buffer => ValueType::Buffer,
            StackItemType::Array => ValueType::Array,
            StackItemType::Struct => ValueType::Struct,
            StackItemType::MapItem => ValueType::Mapping,
            StackItemType::InteropInterface => ValueType::InteropInterface,
        },
        _ => ValueType::Any,
    }
}

/// The value a literal push puts on the stack.
fn literal_value(instr: &Instruction) -> (r: Option<StackValue>)
    ensures
        r == literal_of(instr@),
{
    match instr.opcode {
        OpCode::PUSHNULL => Some(StackValue::with_type(ValueType::Null)),
        OpCode::PUSHT | OpCode::PUSHF => Some(StackValue::with_type(ValueType::Boolean)),
        OpCode::PUSHDATA1 | OpCode::PUSHDATA2 | OpCode::PUSHDATA4 => Some(StackValue::with_type(ValueType::ByteString)),
        OpCode::PUSHINT8 | OpCode::PUSHINT16 | OpCode::PUSHINT32 | OpCode::PUSHINT64 | OpCode::PUSHINT128 | OpCode::PUSHINT256 | OpCode::PUSHM1 | OpCode::PUSH0 | OpCode::PUSH1 | OpCode::PUSH2 | OpCode::PUSH3 | OpCode::PUSH4 | OpCode::PUSH5 | OpCode::PUSH6 | OpCode::PUSH7 | OpCode::PUSH8 | OpCode::PUSH9 | OpCode::PUSH10 | OpCode::PUSH11 | OpCode::PUSH12 | OpCode::PUSH13 | OpCode::PUSH14 | OpCode::PUSH15 | OpCode::PUSH16 => Some(StackValue { ty: ValueType::Integer, int_literal: int_literal_from_operand(&instr.operand) }),
        OpCode::PUSHA => Some(StackValue::with_type(ValueType::Pointer)),
        _ => None,
    }
}

/// The fixed stack effect of an opcode, if it has one.
fn fixed_effect_of(op: OpCode) -> (r: Option<(u8, Option<ValueType>)>)
    ensures
        r == fixed_effect(op),
{
    match op {
        OpCode::DROP => Some((1u8, None)),
        OpCode::NEWARRAY0 => Some((0u8, Some(ValueType::Array))),
        OpCode::NEWARRAY => Some((1u8, Some(ValueType::Array))),
        OpCode::NEWARRAYT => Some((1u8, Some(ValueType::Array))),
        OpCode::NEWMAP => Some((0u8, Some(ValueType::Mapping))),
        OpCode::NEWSTRUCT0 => Some((0u8, Some(ValueType::Struct))),
        OpCode::NEWSTRUCT => Some((1u8, Some(ValueType::Struct))),
        OpCode::NEWBUFFER => Some((1u8, Some(ValueType::Buffer))),
        OpCode::UNPACK => Some((1u8, Some(ValueType::Unknown))),
        OpCode::PICKITEM => Some((2u8, Some(ValueType::Unknown))),
        OpCode::SETITEM => Some((3u8, None)),
        OpCode::APPEND => Some((2u8, None)),
        OpCode::REMOVE => Some((2u8, None)),
        OpCode::CLEARITEMS => Some((1u8, None)),
        OpCode::REVERSEITEMS => Some((1u8, None)),
        OpCode::MEMCPY => Some((5u8, None)),
        OpCode::POPITEM => Some((2u8, Some(ValueType::Unknown))),
        OpCode::SIZE => Some((1u8, Some(ValueType::Integer))),
        OpCode::HASKEY => Some((2u8, Some(ValueType::Boolean))),
        OpCode::ISNULL => Some((1u8, Some(ValueType::Boolean))),
        OpCode::ISTYPE => Some((1u8, Some(ValueType::Boolean))),
        OpCode::ADD => Some((2u8, Some(ValueType::Integer))),
        OpCode::SUB => Some((2u8, Some(ValueType::Integer))),
        OpCode::MUL => Some((2u8, Some(ValueType::Integer))),
        OpCode::DIV => Some((2u8, Some(ValueType::Integer))),
        OpCode::MOD => Some((2u8, Some(ValueType::Integer))),
        OpCode::POW => Some((2u8, Some(ValueType::Integer))),
        OpCode::MIN => Some((2u8, Some(ValueType::Integer))),
        OpCode::MAX => Some((2u8, Some(ValueType::Integer))),
        OpCode::SHL => Some((2u8, Some(ValueType::Integer))),
        OpCode::SHR => Some((2u8, Some(ValueType::Integer))),
        OpCode::MODMUL => Some((3u8, Some(ValueType::Integer))),
        OpCode::MODPOW => Some((3u8, Some(ValueType::Integer))),
        OpCode::WITHIN => Some((3u8, Some(ValueType::Boolean))),
        OpCode::SQRT => Some((1u8, Some(ValueType::Integer))),
        OpCode::ABS => Some((1u8, Some(ValueType::Integer))),
        OpCode::SIGN => Some((1u8, Some(ValueType::Integer))),
        OpCode::INC => Some((1u8, Some(ValueType::Integer))),
        OpCode::DEC => Some((1u8, Some(ValueType::Integer))),
        OpCode::NEGATE => Some((1u8, Some(ValueType::Integer))),
        OpCode::AND => Some((2u8, Some(ValueType::Integer))),
        OpCode::OR => Some((2u8, Some(ValueType::Integer))),
        OpCode::XOR => Some((2u8, Some(ValueType::Integer))),
        OpCode::INVERT => Some((1u8, Some(ValueType::Integer))),
        OpCode::NOT => Some((1u8, Some(ValueType::Boolean))),
        OpCode::BOOLAND => Some((2u8, Some(ValueType::Boolean))),
        OpCode::BOOLOR => Some((2u8, Some(ValueType::Boolean))),
        OpCode::EQUAL => Some((2u8, Some(ValueType::Boolean))),
        OpCode::NUMEQUAL => Some((2u8, Some(ValueType::Boolean))),
        OpCode::NOTEQUAL => Some((2u8, Some(ValueType::Boolean))),
        OpCode::NUMNOTEQUAL => Some((2u8, Some(ValueType::Boolean))),
        OpCode::GT => Some((2u8, Some(ValueType::Boolean))),
        OpCode::GE => Some((2u8, Some(ValueType::Boolean))),
        OpCode::LT => Some((2u8, Some(ValueType::Boolean))),
        OpCode::LE => Some((2u8, Some(ValueType::Boolean))),
        OpCode::NZ => Some((1u8, Some(ValueType::Boolean))),
        _ => None,
    }
}

/// Pack the values a count on top of the stack names, `per` values a count,
/// into a value of type `t`; the count is clamped to the stack depth.
fn pack(stack: &mut Vec<StackValue>, per: usize, t: ValueType)
    requires
        per == 1 || per == 2,
    ensures
        final(stack)@ == packed(popped(old(stack)@), depth_of(top_or_unknown(old(stack)@)), per as nat, t),
{
    let count = pop_or_unknown(stack);
    match literal_depth(count) {
        Some(n) => {
            let wanted = if per == 2 {
                if n > usize::MAX / 2 {
                    usize::MAX
                } else {
                    n * 2
                }
            } else {
                n
            };
            let m = if wanted < stack.len() {
                wanted
            } else {
                stack.len()
            };
            let ghost r = stack@;
            pop_n(stack, m);
            proof {
                assert(popped_n(r, m as nat) == popped_n(r, (per as nat) * (n as nat)));
            }
        },
        None => {},
    }
    stack.push(StackValue::with_type(t));
}

/// Apply a `SYSCALL`: a known service pops its arguments and may push a
/// result; an unknown one pushes an unknown value.
fn syscall(stack: &mut Vec<StackValue>, instr: &Instruction)
    ensures
        final(stack)@ == syscall_stack(old(stack)@, instr@.operand),
{
    match &instr.operand {
        Some(Operand::SyscallHash(h)) => match signature(*h) {
            Some((k, ret)) => {
                pop_n(stack, k as usize);
                if ret {
                    stack.push(StackValue::unknown());
                }
            },
            None => stack.push(StackValue::unknown()),
        },
        _ => stack.push(StackValue::unknown()),
    }
}

/// Apply an instruction that reorders or inspects the stack.
fn shuffle(stack: &mut Vec<StackValue>, instr: &Instruction)
    requires
        literal_of(instr@).is_none(),
        fixed_effect(instr.opcode).is_none(),
    ensures
        final(stack)@ == stack_step(old(stack)@, instr@),
{
    let len = stack.len();
    match instr.opcode {
        OpCode::CLEAR => {
            stack.clear();
        },
        OpCode::DEPTH => {
            stack.push(StackValue::integer_literal(len as i64));
        },
        OpCode::DUP => {
            let v = if len > 0 {
                stack[len - 1]
            } else {
                StackValue::unknown()
            };
            stack.push(v);
        },
        OpCode::SWAP => {
            if len >= 2 {
                let a = stack[len - 1];
                let b = stack[len - 2];
                stack.set(len - 1, b);
                stack.set(len - 2, a);
            }
        },
        OpCode::OVER => {
            let v = if len >= 2 {
                stack[len - 2]
            } else if len == 1 {
                stack[0]
            } else {
                StackValue::unknown()
            };
            stack.push(v);
        },
        OpCode::NIP => {
            if len >= 2 {
                stack.remove(len - 2);
            }
        },
        OpCode::ROT => {
            if len >= 3 {
                let top = stack[len - 1];
                let mid = stack[len - 2];
                let bottom = stack[len - 3];
                let ghost s = stack@;
                stack.truncate(len - 3);
                stack.push(mid);
                stack.push(top);
                stack.push(bottom);
                proof {
                    assert(stack@ =~= s.take(len - 3) + seq![s[len - 2], s[len - 1], s[len - 3]]);
                }
            } else {
                stack.clear();
            }
        },
        OpCode::TUCK => {
            if len >= 2 {
                let top = stack[len - 1];
                let second = stack[len - 2];
                let ghost s = stack@;
                stack.truncate(len - 2);
                stack.push(top);
                stack.push(second);
                stack.push(top);
                proof {
                    assert(stack@ =~= s.take(len - 2) + seq![s[len - 1], s[len - 2], s[len - 1]]);
                }
            } else {
                stack.clear();
            }
        },
        OpCode::PICK => {
            let index = pop_or_unknown(stack);
            let v = match literal_depth(index) {
                Some(d) => if d < stack.len() {
                    stack[stack.len() - 1 - d]
                } else {
                    StackValue::unknown()
                },
                None => StackValue::unknown(),
            };
            stack.push(v);
        },
        OpCode::ROLL => {
            let index = pop_or_unknown(stack);
            match literal_depth(index) {
                Some(d) => if d < stack.len() {
                    let pos = stack.len() - 1 - d;
                    let v = stack.remove(pos);
                    stack.push(v);
                },
                None => {},
            }
        },
        OpCode::XDROP => {
            let index = pop_or_unknown(stack);
            match literal_depth(index) {
                Some(d) => if d < stack.len() {
                    let pos = stack.len() - 1 - d;
                    stack.remove(pos);
                } else {
                    pop_or_unknown(stack);
                },
                None => {
                    pop_or_unknown(stack);
                },
            }
        },
        OpCode::REVERSE3 => reverse_top(stack, 3),
        OpCode::REVERSE4 => reverse_top(stack, 4),
        OpCode::REVERSEN => {
            let count = pop_or_unknown(stack);
            match literal_depth(count) {
                Some(d) => reverse_top(stack, d),
                None => {},
            }
        },
        OpCode::PACKARRAY => pack(stack, 1, ValueType::Array),
        OpCode::PACKSTRUCT => pack(stack, 1, ValueType::Struct),
        OpCode::PACKMAP => pack(stack, 2, ValueType::Mapping),
        OpCode::CONVERT => {
            pop_or_unknown(stack);
            stack.push(StackValue::with_type(convert_target_of(instr)));
        },
        OpCode::SYSCALL => syscall(stack, instr),
        _ => {},
    }
}

/// Apply an instruction that touches no slot.
fn apply_to_stack(stack: &mut Vec<StackValue>, instr: &Instruction)
    ensures
        final(stack)@ == stack_step(old(stack)@, instr@),
{
    match literal_value(instr) {
        Some(v) => {
            stack.push(v);
        },
        None => match fixed_effect_of(instr.opcode) {
            Some((k, t)) => {
                pop_n(stack, k as usize);
                match t {
                    Some(ty) => stack.push(StackValue::with_type(ty)),
                    None => {},
                }
            },
            None => shuffle(stack, instr),
        },
    }
}

/// The slot index an indexed load or store names.
fn slot_index(operand: &Option<Operand>) -> (r: Option<u8>)
    ensures
        r == slot_index_of(crate::common::types::operand_opt_view(*operand)),
{
    match operand {
        Some(Operand::SlotIndex(k)) => Some(*k),
        _ => None,
    }
}

/// The slot an instruction loads or stores.
pub(crate) fn slot_operation_of(instr: &Instruction) -> (r: Option<(SlotKind, bool, Option<u8>)>)
    ensures
        r == slot_operation(instr@),
{
    match instr.opcode {
        OpCode::LDLOC0 => Some((SlotKind::Local, false, Some(0u8))),
        OpCode::LDLOC1 => Some((SlotKind::Local, false, Some(1u8))),
        OpCode::LDLOC2 => Some((SlotKind::Local, false, Some(2u8))),
        OpCode::LDLOC3 => Some((SlotKind::Local, false, Some(3u8))),
        OpCode::LDLOC4 => Some((SlotKind::Local, false, Some(4u8))),
        OpCode::LDLOC5 => Some((SlotKind::Local, false, Some(5u8))),
        OpCode::LDLOC6 => Some((SlotKind::Local, false, Some(6u8))),
        OpCode::LDLOC => Some((SlotKind::Local, false, slot_index(&instr.operand))),
        OpCode::STLOC0 => Some((SlotKind::Local, true, Some(0u8))),
        OpCode::STLOC1 => Some((SlotKind::Local, true, Some(1u8))),
        OpCode::STLOC2 => Some((SlotKind::Local, true, Some(2u8))),
        OpCode::STLOC3 => Some((SlotKind::Local, true, Some(3u8))),
        OpCode::STLOC4 => Some((SlotKind::Local, true, Some(4u8))),
        OpCode::STLOC5 => Some((SlotKind::Local, true, Some(5u8))),
        OpCode::STLOC6 => Some((SlotKind::Local, true, Some(6u8))),
        OpCode::STLOC => Some((SlotKind::Local, true, slot_index(&instr.operand))),
        OpCode::LDARG0 => Some((SlotKind::Argument, false, Some(0u8))),
        OpCode::LDARG1 => Some((SlotKind::Argument, false, Some(1u8))),
        OpCode::LDARG2 => Some((SlotKind::Argument, false, Some(2u8))),
        OpCode::LDARG3 => Some((SlotKind::Argument, false, Some(3u8))),
        OpCode::LDARG4 => Some((SlotKind::Argument, false, Some(4u8))),
        OpCode::LDARG5 => Some((SlotKind::Argument, false, Some(5u8))),
        OpCode::LDARG6 => Some((SlotKind::Argument, false, Some(6u8))),
        OpCode::LDARG => Some((SlotKind::Argument, false, slot_index(&instr.operand))),
        OpCode::STARG0 => Some((SlotKind::Argument, true, Some(0u8))),
        OpCode::STARG1 => Some((SlotKind::Argument, true, Some(1u8))),
        OpCode::STARG2 => Some((SlotKind::Argument, true, Some(2u8))),
        OpCode::STARG3 => Some((SlotKind::Argument, true, Some(3u8))),
        OpCode::STARG4 => Some((SlotKind::Argument, true, Some(4u8))),
        OpCode::STARG5 => Some((SlotKind::Argument, true, Some(5u8))),
        OpCode::STARG6 => Some((SlotKind::Argument, true, Some(6u8))),
        OpCode::STARG => Some((SlotKind::Argument, true, slot_index(&instr.operand))),
        OpCode::LDSFLD0 => Some((SlotKind::Static, false, Some(0u8))),
        OpCode::LDSFLD1 => Some((SlotKind::Static, false, Some(1u8))),
        OpCode::LDSFLD2 => Some((SlotKind::Static, false, Some(2u8))),
        OpCode::LDSFLD3 => Some((SlotKind::Static, false, Some(3u8))),
        OpCode::LDSFLD4 => Some((SlotKind::Static, false, Some(4u8))),
        OpCode::LDSFLD5 => Some((SlotKind::Static, false, Some(5u8))),
        OpCode::LDSFLD6 => Some((SlotKind::Static, false, Some(6u8))),
        OpCode::LDSFLD => Some((SlotKind::Static, false, slot_index(&instr.operand))),
        OpCode::STSFLD0 => Some((SlotKind::Static, true, Some(0u8))),
        OpCode::STSFLD1 => Some((SlotKind::Static, true, Some(1u8))),
        OpCode::STSFLD2 => Some((SlotKind::Static, true, Some(2u8))),
        OpCode::STSFLD3 => Some((SlotKind::Static, true, Some(3u8))),
        OpCode::STSFLD4 => Some((SlotKind::Static, true, Some(4u8))),
        OpCode::STSFLD5 => Some((SlotKind::Static, true, Some(5u8))),
        OpCode::STSFLD6 => Some((SlotKind::Static, true, Some(6u8))),
        OpCode::STSFLD => Some((SlotKind::Static, true, slot_index(&instr.operand))),
        _ => None,
    }
}

/// Load or store a slot of the given list.
fn access(stack: &mut Vec<StackValue>, slots: &mut Vec<ValueType>, is_store: bool, idx: Option<u8>)
    ensures
        (final(stack)@, final(slots)@) == if is_store {
            stored(old(stack)@, old(slots)@, idx)
        } else {
            loaded(old(stack)@, old(slots)@, idx)
        },
{
    if is_store {
        store(stack, slots, idx);
    } else {
        load(stack, slots, idx);
    }
}

/// Apply one instruction to the abstract state.
fn apply(
    instr: &Instruction,
    stack: &mut Vec<StackValue>,
    locals: &mut Vec<ValueType>,
    arguments: &mut Vec<ValueType>,
    statics: &mut Vec<ValueType>,
)
    ensures
        state_of(final(stack)@, final(locals)@, final(arguments)@, final(statics)@) == step(
            state_of(old(stack)@, old(locals)@, old(arguments)@, old(statics)@),
            instr@,
        ),
{
    match slot_operation_of(instr) {
        Some((kind, is_store, idx)) => match kind {
            SlotKind::Local => access(stack, locals, is_store, idx),
            SlotKind::Argument => access(stack, arguments, is_store, idx),
            SlotKind::Static => access(stack, statics, is_store, idx),
        },
        None => match (instr.opcode, &instr.operand) {
            (OpCode::INITSSLOT, Some(Operand::Count(c))) => grow(statics, *c as usize),
            (OpCode::INITSLOT, Some(Operand::SlotInit { local_slots, static_slots })) => {
                grow(locals, *local_slots as usize);
                grow(arguments, *static_slots as usize);
            },
            _ => apply_to_stack(stack, instr),
        },
    }
}

/// Recover slot types over a run of instructions, starting from an empty
/// stack and the given slot types: the result is the abstract run of the
/// instructions, and the slot lists are left as the run leaves them.
pub fn infer_types_in_slice(
    instructions: &[Instruction],
    locals: &mut Vec<ValueType>,
    arguments: &mut Vec<ValueType>,
    statics: &mut Vec<ValueType>,
)
    ensures
        ({
            let r = run(
                state_of(Seq::empty(), old(locals)@, old(arguments)@, old(statics)@),
                instrs_view(instructions@),
            );
            &&& final(locals)@ == r.locals
            &&& final(arguments)@ == r.arguments
            &&& final(statics)@ == r.statics
        }),
{
    let ghost iv = instrs_view(instructions@);
    let ghost init = state_of(Seq::empty(), locals@, arguments@, statics@);
    let mut stack: Vec<StackValue> = Vec::new();
    let mut i: usize = 0;
    proof {
        assert(iv.take(0) =~= Seq::<InstructionView>::empty());
    }
    while i < instructions.len()
        invariant
            iv == instrs_view(instructions@),
            i <= instructions@.len(),
            state_of(stack@, locals@, arguments@, statics@) == run(init, iv.take(i as int)),
        decreases instructions.len() - i,
    {
        apply(&instructions[i], &mut stack, locals, arguments, statics);
        proof {
            assert(iv.take(i + 1).drop_last() =~= iv.take(i as int));
            assert(iv.take(i + 1).last() == iv[i as int]);
        }
        i = i + 1;
    }
    proof {
        assert(iv.take(i as int) =~= iv);
    }
}

/// The local and argument counts of the first `INITSLOT`.
pub fn scan_slot_counts(instructions: &[Instruction]) -> (r: Option<(usize, usize)>)
    ensures
        r == first_slot_counts(instrs_view(instructions@)),
{
    let ghost iv = instrs_view(instructions@);
    let mut i: usize = 0;
    proof {
        assert(iv.skip(0) =~= iv);
    }
    while i < instructions.len()
        invariant
            iv == instrs_view(instructions@),
            i <= instructions@.len(),
            first_slot_counts(iv) == first_slot_counts(iv.skip(i as int)),
        decreases instructions.len() - i,
    {
        proof {
            assert(iv.skip(i as int).drop_first() =~= iv.skip(i + 1));
        }
        if instructions[i].opcode == OpCode::INITSLOT {
            match &instructions[i].operand {
                Some(Operand::SlotInit { local_slots, static_slots }) => {
                    return Some((*local_slots as usize, *static_slots as usize));
                },
                _ => {},
            }
        }
        i = i + 1;
    }
    proof {
        assert(iv.skip(i as int) =~= Seq::<InstructionView>::empty());
    }
    None
}

/// The static slot count of the first `INITSSLOT`.
pub fn scan_static_slot_count(instructions: &[Instruction]) -> (r: Option<usize>)
    ensures
        r == first_static_count(instrs_view(instructions@)),
{
    let ghost iv = instrs_view(instructions@);
    let mut i: usize = 0;
    proof {
        assert(iv.skip(0) =~= iv);
    }
    while i < instructions.len()
        invariant
            iv == instrs_view(instructions@),
            i <= instructions@.len(),
            first_static_count(iv) == first_static_count(iv.skip(i as int)),
        decreases instructions.len() - i,
    {
        proof {
            assert(iv.skip(i as int).drop_first() =~= iv.skip(i + 1));
        }
        if instructions[i].opcode == OpCode::INITSSLOT {
            match &instructions[i].operand {
                Some(Operand::Count(c)) => {
                    return Some(*c as usize);
                },
                _ => {},
            }
        }
        i = i + 1;
    }
    proof {
        assert(iv.skip(i as int) =~= Seq::<InstructionView>::empty());
    }
    None
}

/// The type a manifest parameter kind names, ignoring ASCII case.
pub fn type_from_manifest(kind: &str) -> (r: ValueType)
    ensures
        r == manifest_type(lower_seq(kind@)),
{
    let lowered = ascii_lower(kind);
    let k = lowered.as_str();
    if str_eq(k, "any") {
        ValueType::Any
    } else if str_eq(k, "boolean") {
        ValueType::Boolean
    } else if str_eq(k, "integer") {
        ValueType::Integer
    } else if str_eq(k, "string") || str_eq(k, "bytearray") || str_eq(k, "signature") || str_eq(k, "hash160")
        || str_eq(k, "hash256") {
        ValueType::ByteString
    } else if str_eq(k, "array") {
        ValueType::Array
    } else if str_eq(k, "map") {
        ValueType::Mapping
    } else if str_eq(k, "interopinterface") {
        ValueType::InteropInterface
    } else {
        ValueType::Unknown
    }
}

/// A method of a script: its entry offset and name.
#[derive(Debug, Clone, PartialEq, Eq, Hash)]
pub struct MethodRef {
    pub offset: usize,
    pub name: String,
}

impl MethodRef {
    /// A method with no declared name, named `sub_0x` and at least four
    /// upper-case hexadecimal digits of its offset.
    pub fn synthetic(offset: usize) -> (r: Self)
        ensures
            r.offset == offset,
            r.name@ == "sub_"@ + hex_word(offset as nat),
    {
        let mut name = String::from_str("sub_");
        push_hex_word(&mut name, offset as u64);
        MethodRef { offset, name }
    }
}

/// The slot types recovered for one method.
pub struct MethodTypes {
    pub method: MethodRef,
    pub arguments: Vec<ValueType>,
    pub locals: Vec<ValueType>,
}

/// Recovered slot types: per method, and for the static slots.
pub struct TypeInfo {
    pub methods: Vec<MethodTypes>,
    pub statics: Vec<ValueType>,
}

} // verus!
