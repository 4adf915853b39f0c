//! Instructions, operands and expression atoms of the lifted representation.
use vstd::prelude::*;

use super::opcode::OpCode;

verus! {

/// Identifier of a block in a lifted function.
pub type BlockId = u32;

/// Neo VM stack item types, as named by the type byte of `CONVERT`/`ISTYPE`.
#[derive(Debug, Clone, Copy, PartialEq, Eq, Structural)]
pub enum StackItemType {
    Any,
    Pointer,
    Boolean,
    Integer,
    ByteString,
    Buffer,
    Array,
    Struct,
    MapItem,
    InteropInterface,
}

/// A decoded instruction operand.
#[derive(Debug, Clone, PartialEq, Eq)]
pub enum Operand {
    /// Small signed integer literal.
    Integer(i64),
    /// Little-endian two's-complement integer wider than 64 bits.
    BigInteger(Vec<u8>),
    /// Raw data pushed by `PUSHDATA*`.
    Bytes(Vec<u8>),
    /// Relative jump target of unspecified width.
    JumpTarget(i32),
    /// Relative jump target (8-bit form).
    JumpTarget8(i8),
    /// Relative jump target (32-bit form).
    JumpTarget32(i32),
    /// Method token index (`CALLA`).
    MethodToken(u16),
    /// Call token index (`CALLT`).
    CallToken(u16),
    /// Interop service hash (`SYSCALL`).
    SyscallHash(u32),
    /// Handler offsets of `TRY`/`TRY_L`.
    TryBlock { catch_offset: u32, finally_offset: Option<u32> },
    /// Element or item count.
    Count(u8),
    /// Slot or stack index.
    SlotIndex(u8),
    /// Slot counts of `INITSLOT`.
    SlotInit { local_slots: u8, static_slots: u8 },
    /// Size of a new buffer.
    BufferSize(u16),
    /// Type byte of `CONVERT`/`ISTYPE`.
    StackItemType(StackItemType),
}

/// Mathematical model of an operand: byte payloads as sequences.
pub enum OperandView {
    Integer(i64),
    BigInteger(Seq<u8>),
    Bytes(Seq<u8>),
    JumpTarget(i32),
    JumpTarget8(i8),
    JumpTarget32(i32),
    MethodToken(u16),
    CallToken(u16),
    SyscallHash(u32),
    TryBlock { catch_offset: u32, finally_offset: Option<u32> },
    Count(u8),
    SlotIndex(u8),
    SlotInit { local_slots: u8, static_slots: u8 },
    BufferSize(u16),
    StackItemType(StackItemType),
}

impl View for Operand {
    type V = OperandView;

    open spec fn view(&self) -> OperandView {
        match self {
            Operand::Integer(v) => OperandView::Integer(*v),
            Operand::BigInteger(b) => OperandView::BigInteger(b@),
            Operand::Bytes(b) => OperandView::Bytes(b@),
            Operand::JumpTarget(v) => OperandView::JumpTarget(*v),
            Operand::JumpTarget8(v) => OperandView::JumpTarget8(*v),
            Operand::JumpTarget32(v) => OperandView::JumpTarget32(*v),
            Operand::MethodToken(v) => OperandView::MethodToken(*v),
            Operand::CallToken(v) => OperandView::CallToken(*v),
            Operand::SyscallHash(v) => OperandView::SyscallHash(*v),
            Operand::TryBlock { catch_offset, finally_offset } => OperandView::TryBlock {
                catch_offset: *catch_offset,
                finally_offset: *finally_offset,
            },
            Operand::Count(v) => OperandView::Count(*v),
            Operand::SlotIndex(v) => OperandView::SlotIndex(*v),
            Operand::SlotInit { local_slots, static_slots } => OperandView::SlotInit {
                local_slots: *local_slots,
                static_slots: *static_slots,
            },
            Operand::BufferSize(v) => OperandView::BufferSize(*v),
            Operand::StackItemType(t) => OperandView::StackItemType(*t),
        }
    }
}

/// The model of an optional operand.
pub open spec fn operand_opt_view(o: Option<Operand>) -> Option<OperandView> {
    match o {
        Some(op) => Some(op@),
        None => None,
    }
}

/// One decoded instruction.
#[derive(Debug, Clone, PartialEq, Eq)]
pub struct Instruction {
    /// Byte offset of the opcode in the script.
    pub offset: u32,
    /// The opcode.
    pub opcode: OpCode,
    /// The decoded operand, if any.
    pub operand: Option<Operand>,
    /// Encoded size in bytes (opcode byte included).
    pub size: u8,
}

/// Model of an instruction.
pub struct InstructionView {
    pub offset: u32,
    pub opcode: OpCode,
    pub operand: Option<OperandView>,
    pub size: u8,
}

impl View for Instruction {
    type V = InstructionView;

    open spec fn view(&self) -> InstructionView {
        InstructionView {
            offset: self.offset,
            opcode: self.opcode,
            operand: operand_opt_view(self.operand),
            size: self.size,
        }
    }
}

/// A constant value in lifted code.
#[derive(Debug, Clone, PartialEq, Eq)]
pub enum Literal {
    Boolean(bool),
    Integer(i64),
    BigInteger(Vec<u8>),
    String(String),
    ByteArray(Vec<u8>),
    Hash160(Vec<u8>),
    Hash256(Vec<u8>),
    Null,
}

/// Model of a literal: byte payloads as sequences, strings as characters.
pub enum LiteralView {
    Boolean(bool),
    Integer(i64),
    BigInteger(Seq<u8>),
    String(Seq<char>),
    ByteArray(Seq<u8>),
    Hash160(Seq<u8>),
    Hash256(Seq<u8>),
    Null,
}

impl View for Literal {
    type V = LiteralView;

    open spec fn view(&self) -> LiteralView {
        match self {
            Literal::Boolean(b) => LiteralView::Boolean(*b),
            Literal::Integer(v) => LiteralView::Integer(*v),
            Literal::BigInteger(b) => LiteralView::BigInteger(b@),
            Literal::String(s) => LiteralView::String(s@),
            Literal::ByteArray(b) => LiteralView::ByteArray(b@),
            Literal::Hash160(b) => LiteralView::Hash160(b@),
            Literal::Hash256(b) => LiteralView::Hash256(b@),
            Literal::Null => LiteralView::Null,
        }
    }
}

/// Copy a byte vector.
pub fn clone_bytes(v: &Vec<u8>) -> (r: Vec<u8>)
    ensures
        r@ == v@,
{
    let mut out: Vec<u8> = Vec::new();
    let mut i: usize = 0;
    while i < v.len()
        invariant
            i <= v.len(),
            out@ == v@.take(i as int),
        decreases v.len() - i,
    {
        out.push(v[i]);
        i = i + 1;
        assert(out@ =~= v@.take(i as int));
    }
    assert(v@.take(i as int) =~= v@);
    out
}

impl Literal {
    /// Copy this literal.
    pub fn clone_literal(&self) -> (r: Literal)
        ensures
            r@ == self@,
    {
        match self {
            Literal::Boolean(b) => Literal::Boolean(*b),
            Literal::Integer(v) => Literal::Integer(*v),
            Literal::BigInteger(b) => Literal::BigInteger(clone_bytes(b)),
            Literal::String(s) => Literal::String(s.clone()),
            Literal::ByteArray(b) => Literal::ByteArray(clone_bytes(b)),
            Literal::Hash160(b) => Literal::Hash160(clone_bytes(b)),
            Literal::Hash256(b) => Literal::Hash256(clone_bytes(b)),
            Literal::Null => Literal::Null,
        }
    }
}

/// Storage class of a lifted variable.
#[derive(Debug, Clone, Copy, PartialEq, Eq, Structural)]
pub enum VariableType {
    Temporary,
    Local,
    Parameter,
    Static,
}

/// A named variable of lifted code.
#[derive(Debug, Clone, PartialEq, Eq)]
pub struct Variable {
    pub name: String,
    pub id: u32,
    pub var_type: VariableType,
}

/// Model of a variable.
pub struct VariableView {
    pub name: Seq<char>,
    pub id: u32,
    pub var_type: VariableType,
}

impl View for Variable {
    type V = VariableView;

    open spec fn view(&self) -> VariableView {
        VariableView { name: self.name@, id: self.id, var_type: self.var_type }
    }
}

impl Variable {
    /// Copy this variable.
    pub fn clone_variable(&self) -> (r: Variable)
        ensures
            r@ == self@,
    {
        Variable { name: self.name.clone(), id: self.id, var_type: self.var_type }
    }
}

/// Binary operators of lifted expressions.
#[derive(Debug, Clone, Copy, PartialEq, Eq, Structural)]
pub enum BinaryOperator {
    Add,
    Sub,
    Mul,
    Div,
    Mod,
    Pow,
    And,
    Or,
    Xor,
    ShiftLeft,
    ShiftRight,
    Equal,
    NotEqual,
    Less,
    LessEqual,
    Greater,
    GreaterEqual,
    BoolAnd,
    BoolOr,
}

/// Unary operators of lifted expressions.
#[derive(Debug, Clone, Copy, PartialEq, Eq, Structural)]
pub enum UnaryOperator {
    Not,
    Negate,
    BitwiseNot,
    BoolNot,
    Abs,
    Sign,
    Sqrt,
}

/// Contract storage operations.
#[derive(Debug, Clone, Copy, PartialEq, Eq, Structural)]
pub enum StorageOp {
    Get,
    Put,
    Delete,
    Find,
}

/// How a called contract is identified.
#[derive(Debug, Clone, PartialEq, Eq)]
pub enum ContractId {
    /// A 20-byte script hash.
    Hash(Vec<u8>),
    /// A symbolic name.
    Name(String),
}

} // verus!
