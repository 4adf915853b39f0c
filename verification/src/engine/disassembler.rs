//! Neo N3 bytecode disassembler: bytes to instructions.
use vstd::prelude::*;

use crate::common::config::DecompilerConfig;
use crate::common::errors::DisassemblyError;
use crate::common::opcode::{opcode_of, OpCode};
use crate::common::types::{
    operand_opt_view, Instruction, InstructionView, Operand, OperandView, StackItemType,
};

verus! {

/// A byte read as a two's-complement 8-bit integer.
pub open spec fn i8_of(b: u8) -> int {
    if b < 128 { b as int } else { b - 256 }
}

/// Little-endian unsigned value of two bytes.
pub open spec fn le16(d: Seq<u8>) -> int {
    d[0] + 256 * d[1]
}

/// Little-endian unsigned value of four bytes.
pub open spec fn le32(d: Seq<u8>) -> int {
    d[0] + 256 * d[1] + 65536 * d[2] + 16777216 * d[3]
}

/// Little-endian unsigned value of eight bytes.
pub open spec fn le64(d: Seq<u8>) -> int {
    le32(d) + 4294967296 * le32(d.skip(4))
}

/// Reinterpret an unsigned `bits`-wide value as two's complement.
pub open spec fn signed_of(v: int, half: int) -> int {
    if v < half { v } else { v - 2 * half }
}

/// A sign-extended byte reinterpreted as an unsigned 32-bit value.
pub open spec fn u32_of_i8(b: u8) -> u32 {
    if b < 128 { b as u32 } else { (b + 0xFFFF_FF00) as u32 }
}

/// The stack item type a `CONVERT`/`ISTYPE` type byte names.
pub open spec fn stack_item_type_of(b: u8) -> Option<StackItemType> {
    match b {
        0x00u8 => Some(StackItemType::Any),
        0x10u8 => Some(StackItemType::Boolean),
        0x21u8 => Some(StackItemType::Integer),
        0x28u8 => Some(StackItemType::ByteString),
        0x30u8 => Some(StackItemType::Buffer),
        0x40u8 => Some(StackItemType::Array),
        0x41u8 => Some(StackItemType::Struct),
        0x48u8 => Some(StackItemType::MapItem),
        0x60u8 => Some(StackItemType::InteropInterface),
        0x70u8 => Some(StackItemType::Pointer),
        _ => None,
    }
}

/// Outcome of decoding the operand bytes that follow an opcode.
pub enum OperandDecode {
    /// The operand (if the opcode takes one) and the number of operand bytes counted.
    Decoded(Option<OperandView>, u8),
    /// The bytes end inside the operand.
    Truncated,
    /// The opcode byte names no opcode.
    UnknownOpcode(u8),
    /// The type byte of `CONVERT`/`ISTYPE` names no stack item type.
    InvalidType,
}

/// Short (8-bit) relative jumps and `CALL`/`ENDTRY`.
pub open spec fn takes_jump8(op: OpCode) -> bool {
    matches!(op, OpCode::JMP | OpCode::JMPIF | OpCode::JMPIFNOT | OpCode::JMPEQ | OpCode::JMPNE
        | OpCode::JMPGT | OpCode::JMPGE | OpCode::JMPLT | OpCode::JMPLE | OpCode::CALL | OpCode::ENDTRY)
}

/// Long (32-bit) relative jumps and `CALL_L`/`ENDTRY_L`.
pub open spec fn takes_jump32(op: OpCode) -> bool {
    matches!(op, OpCode::JMP_L | OpCode::JMPIF_L | OpCode::JMPIFNOT_L | OpCode::JMPEQ_L
        | OpCode::JMPNE_L | OpCode::JMPGT_L | OpCode::JMPGE_L | OpCode::JMPLT_L | OpCode::JMPLE_L
        | OpCode::CALL_L | OpCode::ENDTRY_L)
}

/// Opcodes whose one-byte operand is a count.
pub open spec fn takes_count(op: OpCode) -> bool {
    matches!(op, OpCode::XDROP | OpCode::REVERSEN | OpCode::INITSSLOT | OpCode::NEWARRAY
        | OpCode::NEWARRAYT | OpCode::NEWSTRUCT)
}

/// Opcodes whose one-byte operand is a slot or stack index.
pub open spec fn takes_slot_index(op: OpCode) -> bool {
    matches!(op, OpCode::PICK | OpCode::ROLL | OpCode::LDSFLD | OpCode::STSFLD | OpCode::LDLOC
        | OpCode::STLOC | OpCode::LDARG | OpCode::STARG)
}

/// `d` holds at least `n` bytes.
pub open spec fn avail(d: Seq<u8>, n: int) -> bool {
    d.len() >= n
}

/// The operand that the bytes `d` after an opcode encode.
#[verifier::opaque]
pub open spec fn spec_decode_operand(op: OpCode, d: Seq<u8>) -> OperandDecode {
    match op {
        OpCode::PUSHINT8 => if !avail(d, 1) { OperandDecode::Truncated } else {
            OperandDecode::Decoded(Some(OperandView::Integer(i8_of(d[0]) as i64)), 1)
        },
        OpCode::PUSHINT16 => if !avail(d, 2) { OperandDecode::Truncated } else {
            OperandDecode::Decoded(Some(OperandView::Integer(signed_of(le16(d), 0x8000) as i64)), 2)
        },
        OpCode::PUSHINT32 => if !avail(d, 4) { OperandDecode::Truncated } else {
            OperandDecode::Decoded(
                Some(OperandView::Integer(signed_of(le32(d), 0x8000_0000) as i64)), 4)
        },
        OpCode::PUSHINT64 => if !avail(d, 8) { OperandDecode::Truncated } else {
            OperandDecode::Decoded(
                Some(OperandView::Integer(signed_of(le64(d), 0x8000_0000_0000_0000) as i64)), 8)
        },
        OpCode::PUSHINT128 => if !avail(d, 16) { OperandDecode::Truncated } else {
            OperandDecode::Decoded(Some(OperandView::BigInteger(d.take(16))), 16)
        },
        OpCode::PUSHINT256 => if !avail(d, 32) { OperandDecode::Truncated } else {
            OperandDecode::Decoded(Some(OperandView::BigInteger(d.take(32))), 32)
        },
        OpCode::PUSHDATA1 => if !avail(d, 1) || !avail(d, 1 + d[0]) { OperandDecode::Truncated } else {
            OperandDecode::Decoded(
                Some(OperandView::Bytes(d.subrange(1, 1 + d[0]))),
                if 1 + d[0] < 255 { (1 + d[0]) as u8 } else { 255u8 },
            )
        },
        OpCode::PUSHDATA2 => if !avail(d, 2) || !avail(d, 2 + le16(d)) { OperandDecode::Truncated } else {
            OperandDecode::Decoded(
                Some(OperandView::Bytes(d.subrange(2, 2 + le16(d)))),
                if 2 + le16(d) < 254 { (2 + le16(d)) as u8 } else { 254u8 },
            )
        },
        OpCode::PUSHDATA4 => if !avail(d, 4) || !avail(d, 4 + le32(d)) { OperandDecode::Truncated } else {
            OperandDecode::Decoded(
                Some(OperandView::Bytes(d.subrange(4, 4 + le32(d)))),
                if 4 + le32(d) < 254 { (4 + le32(d)) as u8 } else { 254u8 },
            )
        },
        OpCode::CALLA => if !avail(d, 2) { OperandDecode::Truncated } else {
            OperandDecode::Decoded(Some(OperandView::MethodToken(le16(d) as u16)), 2)
        },
        OpCode::CALLT => if !avail(d, 2) { OperandDecode::Truncated } else {
            OperandDecode::Decoded(Some(OperandView::CallToken(le16(d) as u16)), 2)
        },
        OpCode::SYSCALL => if !avail(d, 4) { OperandDecode::Truncated } else {
            OperandDecode::Decoded(Some(OperandView::SyscallHash(le32(d) as u32)), 4)
        },
        OpCode::TRY => if !avail(d, 2) { OperandDecode::Truncated } else {
            OperandDecode::Decoded(
                Some(OperandView::TryBlock {
                    catch_offset: u32_of_i8(d[0]),
                    finally_offset: if d[1] == 0 { None } else { Some(u32_of_i8(d[1])) },
                }),
                2,
            )
        },
        OpCode::TRY_L => if !avail(d, 8) { OperandDecode::Truncated } else {
            OperandDecode::Decoded(
                Some(OperandView::TryBlock {
                    catch_offset: le32(d) as u32,
                    finally_offset: if le32(d.skip(4)) == 0 { None } else {
                        Some(le32(d.skip(4)) as u32)
                    },
                }),
                8,
            )
        },
        OpCode::INITSLOT => if !avail(d, 2) { OperandDecode::Truncated } else {
            OperandDecode::Decoded(
                Some(OperandView::SlotInit { local_slots: d[0], static_slots: d[1] }), 2)
        },
        OpCode::NEWBUFFER => if !avail(d, 2) { OperandDecode::Truncated } else {
            OperandDecode::Decoded(Some(OperandView::BufferSize(le16(d) as u16)), 2)
        },
        OpCode::CONVERT | OpCode::ISTYPE => if !avail(d, 1) { OperandDecode::Truncated } else {
            match stack_item_type_of(d[0]) {
                Some(t) => OperandDecode::Decoded(Some(OperandView::StackItemType(t)), 1),
                None => OperandDecode::InvalidType,
            }
        },
        OpCode::UNKNOWN(b) => OperandDecode::UnknownOpcode(b),
        _ => if takes_jump8(op) {
            if !avail(d, 1) { OperandDecode::Truncated } else {
                OperandDecode::Decoded(Some(OperandView::JumpTarget8(i8_of(d[0]) as i8)), 1)
            }
        } else if takes_jump32(op) {
            if !avail(d, 4) { OperandDecode::Truncated } else {
                OperandDecode::Decoded(
                    Some(OperandView::JumpTarget32(signed_of(le32(d), 0x8000_0000) as i32)), 4)
            }
        } else if takes_count(op) {
            if !avail(d, 1) { OperandDecode::Truncated } else {
                OperandDecode::Decoded(Some(OperandView::Count(d[0])), 1)
            }
        } else if takes_slot_index(op) {
            if !avail(d, 1) { OperandDecode::Truncated } else {
                OperandDecode::Decoded(Some(OperandView::SlotIndex(d[0])), 1)
            }
        } else {
            OperandDecode::Decoded(None, 0)
        },
    }
}

/// Outcome of decoding one instruction.
pub enum InstructionDecode {
    Decoded(InstructionView),
    Truncated,
    UnknownOpcode(u8),
    InvalidType,
}

/// The instruction at the start of `data`, placed at `offset`.
///
/// The size counts the opcode byte and the operand bytes, capped at 255.
pub open spec fn spec_decode_instruction(data: Seq<u8>, offset: u32) -> InstructionDecode {
    if data.len() == 0 {
        InstructionDecode::Truncated
    } else {
        let op = opcode_of(data[0]);
        match spec_decode_operand(op, data.drop_first()) {
            OperandDecode::Decoded(operand, size) => InstructionDecode::Decoded(InstructionView {
                offset,
                opcode: op,
                operand,
                size: if 1 + size < 255 { (1 + size) as u8 } else { 255u8 },
            }),
            OperandDecode::Truncated => InstructionDecode::Truncated,
            OperandDecode::UnknownOpcode(b) => InstructionDecode::UnknownOpcode(b),
            OperandDecode::InvalidType => InstructionDecode::InvalidType,
        }
    }
}

/// `r` is what decoding outcome `d` at `offset` returns.
pub open spec fn decode_result_matches(
    r: Result<Instruction, DisassemblyError>,
    d: InstructionDecode,
    offset: u32,
) -> bool {
    match d {
        InstructionDecode::Decoded(iv) => r matches Ok(ins) && ins@ == iv,
        InstructionDecode::Truncated => r == Err::<Instruction, DisassemblyError>(
            DisassemblyError::TruncatedInstruction { offset },
        ),
        InstructionDecode::UnknownOpcode(b) => r == Err::<Instruction, DisassemblyError>(
            DisassemblyError::UnknownOpcode { opcode: b, offset },
        ),
        InstructionDecode::InvalidType => r matches Err(
            DisassemblyError::InvalidOperand { opcode, offset: o },
        ) && o == offset && opcode@ == "CONVERT/ISTYPE"@,
    }
}

/// Neo N3 bytecode disassembler.
pub struct Disassembler {
    /// Instruction decoder.
    decoder: InstructionDecoder,
    /// Configuration.
    config: DecompilerConfig,
}

/// Instruction decoder for Neo N3 bytecode.
pub struct InstructionDecoder;

fn read_u16(data: &[u8], i: usize) -> (r: u16)
    requires
        i + 2 <= data.len(),
    ensures
        r as int == le16(data@.skip(i as int)),
{
    data[i] as u16 + (data[i + 1] as u16) * 256
}

fn read_u32(data: &[u8], i: usize) -> (r: u32)
    requires
        i + 4 <= data.len(),
    ensures
        r as int == le32(data@.skip(i as int)),
{
    data[i] as u32 + (data[i + 1] as u32) * 256 + (data[i + 2] as u32) * 65536 + (data[i + 3]
        as u32) * 16777216
}

fn read_u64(data: &[u8], i: usize) -> (r: u64)
    requires
        i + 8 <= data.len(),
    ensures
        r as int == le64(data@.skip(i as int)),
{
    let lo = read_u32(data, i);
    let hi = read_u32(data, i + 4);
    assert(data@.skip(i as int).skip(4) =~= data@.skip(i + 4));
    lo as u64 + (hi as u64) * 4294967296
}

fn byte_as_i64(b: u8) -> (r: i64)
    ensures
        r as int == i8_of(b),
{
    if b < 128 { b as i64 } else { b as i64 - 256 }
}

fn byte_as_i8(b: u8) -> (r: i8)
    ensures
        r as int == i8_of(b),
{
    if b < 128 { b as i8 } else { (b as i16 - 256) as i8 }
}

fn byte_as_offset(b: u8) -> (r: u32)
    ensures
        r == u32_of_i8(b),
{
    if b < 128 { b as u32 } else { b as u32 + 0xFFFF_FF00 }
}

fn u32_as_i32(v: u32) -> (r: i32)
    ensures
        r as int == signed_of(v as int, 0x8000_0000),
{
    if v < 0x8000_0000 { v as i32 } else { ((v - 0x8000_0000) as i32) - 0x4000_0000 - 0x4000_0000 }
}

fn u64_as_i64(v: u64) -> (r: i64)
    ensures
        r as int == signed_of(v as int, 0x8000_0000_0000_0000),
{
    if v < 0x8000_0000_0000_0000 {
        v as i64
    } else {
        ((v - 0x8000_0000_0000_0000) as i64) - 0x4000_0000_0000_0000 - 0x4000_0000_0000_0000
    }
}

fn copy_bytes(data: &[u8], start: usize, len: usize) -> (r: Vec<u8>)
    requires
        start + len <= data.len(),
    ensures
        r@ == data@.subrange(start as int, start + len),
{
    let mut out: Vec<u8> = Vec::new();
    let mut i: usize = 0;
    while i < len
        invariant
            start + len <= data.len(),
            i <= len,
            out@ == data@.subrange(start as int, start + i),
        decreases len - i,
    {
        out.push(data[start + i]);
        i = i + 1;
        assert(out@ =~= data@.subrange(start as int, start + i));
    }
    out
}

impl Disassembler {
    /// Create a new disassembler with the given configuration.
    pub fn new(config: &DecompilerConfig) -> (r: Self)
        ensures
            r.config_view() == config@,
    {
        Disassembler { decoder: InstructionDecoder::new(), config: config.clone_config() }
    }
}

impl Disassembler {
    /// The configuration this disassembler was made with.
    pub closed spec fn config_view(&self) -> crate::common::config::DecompilerConfigView {
        self.config@
    }
}

impl InstructionDecoder {
    /// Create a new instruction decoder.
    pub fn new() -> (r: Self) {
        InstructionDecoder
    }

    /// Decode the stack item type named by a `CONVERT`/`ISTYPE` type byte.
    fn decode_stack_item_type(&self, byte: u8, offset: u32) -> (r: Result<StackItemType, DisassemblyError>)
        ensures
            match stack_item_type_of(byte) {
                Some(t) => r == Ok::<StackItemType, DisassemblyError>(t),
                None => r matches Err(DisassemblyError::InvalidOperand { opcode, offset: o })
                    && o == offset && opcode@ == "CONVERT/ISTYPE"@,
            },
    {
        match byte {
            0x00u8 => Ok(StackItemType::Any),
            0x10u8 => Ok(StackItemType::Boolean),
            0x21u8 => Ok(StackItemType::Integer),
            0x28u8 => Ok(StackItemType::ByteString),
            0x30u8 => Ok(StackItemType::Buffer),
            0x40u8 => Ok(StackItemType::Array),
            0x41u8 => Ok(StackItemType::Struct),
            0x48u8 => Ok(StackItemType::MapItem),
            0x60u8 => Ok(StackItemType::InteropInterface),
            0x70u8 => Ok(StackItemType::Pointer),
            _ => Err(DisassemblyError::InvalidOperand {
                opcode: String::from_str("CONVERT/ISTYPE"),
                offset,
            }),
        }
    }

    /// Decode the operand of `opcode`, whose bytes start at `data[start]`.
    fn decode_operand(&self, opcode: &OpCode, data: &[u8], start: usize, offset: u32) -> (r: Result<(Option<Operand>, u8), DisassemblyError>)
        requires
            start <= data.len(),
        ensures
            match spec_decode_operand(*opcode, data@.skip(start as int)) {
                OperandDecode::Decoded(operand, size) => r matches Ok((o, s)) && operand_opt_view(o) == operand && s == size,
                OperandDecode::Truncated => r == Err::<(Option<Operand>, u8), DisassemblyError>(DisassemblyError::TruncatedInstruction { offset }),
                OperandDecode::UnknownOpcode(b) => r == Err::<(Option<Operand>, u8), DisassemblyError>(DisassemblyError::UnknownOpcode { opcode: b, offset }),
                OperandDecode::InvalidType => r matches Err(DisassemblyError::InvalidOperand { opcode, offset: o }) && o == offset && opcode@ == "CONVERT/ISTYPE"@,
            },
            r matches Ok((_, s)) ==> s <= data.len() - start,
    {
        reveal(spec_decode_operand);
        let avail = data.len() - start;
        let ghost d = data@.skip(start as int);
        let trunc = DisassemblyError::TruncatedInstruction { offset };
        match *opcode {
            OpCode::PUSHINT8 => {
                if avail < 1 { return Err(trunc); }
                Ok((Some(Operand::Integer(byte_as_i64(data[start]))), 1))
            },
            OpCode::PUSHINT16 => {
                if avail < 2 { return Err(trunc); }
                let v = read_u16(data, start);
                let value: i64 = if v < 0x8000 { v as i64 } else { v as i64 - 0x10000 };
                Ok((Some(Operand::Integer(value)), 2))
            },
            OpCode::PUSHINT32 => {
                if avail < 4 { return Err(trunc); }
                let v = u32_as_i32(read_u32(data, start));
                Ok((Some(Operand::Integer(v as i64)), 4))
            },
            OpCode::PUSHINT64 => {
                if avail < 8 { return Err(trunc); }
                let v = u64_as_i64(read_u64(data, start));
                Ok((Some(Operand::Integer(v)), 8))
            },
            OpCode::PUSHINT128 => {
                if avail < 16 { return Err(trunc); }
                let bytes = copy_bytes(data, start, 16);
                assert(bytes@ =~= d.take(16));
                Ok((Some(Operand::BigInteger(bytes)), 16))
            },
            OpCode::PUSHINT256 => {
                if avail < 32 { return Err(trunc); }
                let bytes = copy_bytes(data, start, 32);
                assert(bytes@ =~= d.take(32));
                Ok((Some(Operand::BigInteger(bytes)), 32))
            },
            OpCode::PUSHDATA1 => {
                if avail < 1 { return Err(trunc); }
                let len = data[start] as usize;
                if avail - 1 < len { return Err(trunc); }
                let bytes = copy_bytes(data, start + 1, len);
                assert(bytes@ =~= d.subrange(1, 1 + d[0]));
                let size: u8 = if 1 + len < 255 { (1 + len) as u8 } else { 255u8 };
                Ok((Some(Operand::Bytes(bytes)), size))
            },
            OpCode::PUSHDATA2 => {
                if avail < 2 { return Err(trunc); }
                let len = read_u16(data, start) as usize;
                if avail - 2 < len { return Err(trunc); }
                let bytes = copy_bytes(data, start + 2, len);
                assert(bytes@ =~= d.subrange(2, 2 + le16(d)));
                let size: u8 = if 2 + len < 254 { (2 + len) as u8 } else { 254u8 };
                Ok((Some(Operand::Bytes(bytes)), size))
            },
            OpCode::PUSHDATA4 => {
                if avail < 4 { return Err(trunc); }
                let len = read_u32(data, start) as usize;
                if avail - 4 < len { return Err(trunc); }
                let bytes = copy_bytes(data, start + 4, len);
                assert(bytes@ =~= d.subrange(4, 4 + le32(d)));
                let size: u8 = if len < 250 { (4 + len) as u8 } else { 254u8 };
                Ok((Some(Operand::Bytes(bytes)), size))
            },
            OpCode::CALLA => {
                if avail < 2 { return Err(trunc); }
                Ok((Some(Operand::MethodToken(read_u16(data, start))), 2))
            },
            OpCode::CALLT => {
                if avail < 2 { return Err(trunc); }
                Ok((Some(Operand::CallToken(read_u16(data, start))), 2))
            },
            OpCode::SYSCALL => {
                if avail < 4 { return Err(trunc); }
                Ok((Some(Operand::SyscallHash(read_u32(data, start))), 4))
            },
            OpCode::TRY => {
                if avail < 2 { return Err(trunc); }
                let catch_offset = byte_as_offset(data[start]);
                let finally_offset = if data[start + 1] == 0 { None } else {
                    Some(byte_as_offset(data[start + 1]))
                };
                Ok((Some(Operand::TryBlock { catch_offset, finally_offset }), 2))
            },
            OpCode::TRY_L => {
                if avail < 8 { return Err(trunc); }
                let catch_offset = read_u32(data, start);
                let fin = read_u32(data, start + 4);
                assert(data@.skip(start as int).skip(4) =~= data@.skip(start + 4));
                let finally_offset = if fin == 0 { None } else { Some(fin) };
                Ok((Some(Operand::TryBlock { catch_offset, finally_offset }), 8))
            },
            OpCode::INITSLOT => {
                if avail < 2 { return Err(trunc); }
                Ok((Some(Operand::SlotInit { local_slots: data[start], static_slots: data[start + 1] }), 2))
            },
            OpCode::NEWBUFFER => {
                if avail < 2 { return Err(trunc); }
                Ok((Some(Operand::BufferSize(read_u16(data, start))), 2))
            },
            OpCode::CONVERT | OpCode::ISTYPE => {
                if avail < 1 { return Err(trunc); }
                let t = self.decode_stack_item_type(data[start], offset)?;
                Ok((Some(Operand::StackItemType(t)), 1))
            },
            OpCode::UNKNOWN(b) => Err(DisassemblyError::UnknownOpcode { opcode: b, offset }),
            OpCode::JMP | OpCode::JMPIF | OpCode::JMPIFNOT | OpCode::JMPEQ | OpCode::JMPNE
            | OpCode::JMPGT | OpCode::JMPGE | OpCode::JMPLT | OpCode::JMPLE | OpCode::CALL
            | OpCode::ENDTRY => {
                if avail < 1 { return Err(trunc); }
                Ok((Some(Operand::JumpTarget8(byte_as_i8(data[start]))), 1))
            },
            OpCode::JMP_L | OpCode::JMPIF_L | OpCode::JMPIFNOT_L | OpCode::JMPEQ_L
            | OpCode::JMPNE_L | OpCode::JMPGT_L | OpCode::JMPGE_L | OpCode::JMPLT_L
            | OpCode::JMPLE_L | OpCode::CALL_L | OpCode::ENDTRY_L => {
                if avail < 4 { return Err(trunc); }
                Ok((Some(Operand::JumpTarget32(u32_as_i32(read_u32(data, start)))), 4))
            },
            OpCode::XDROP | OpCode::REVERSEN | OpCode::INITSSLOT | OpCode::NEWARRAY
            | OpCode::NEWARRAYT | OpCode::NEWSTRUCT => {
                if avail < 1 { return Err(trunc); }
                Ok((Some(Operand::Count(data[start])), 1))
            },
            OpCode::PICK | OpCode::ROLL | OpCode::LDSFLD | OpCode::STSFLD | OpCode::LDLOC
            | OpCode::STLOC | OpCode::LDARG | OpCode::STARG => {
                if avail < 1 { return Err(trunc); }
                Ok((Some(Operand::SlotIndex(data[start])), 1))
            },
            _ => Ok((None, 0)),
        }
    }

    /// Decode the instruction at the start of `data`, which sits at `offset` in the script.
    pub fn decode_instruction(&self, data: &[u8], offset: u32) -> (r: Result<Instruction, DisassemblyError>)
        ensures
            decode_result_matches(r, spec_decode_instruction(data@, offset), offset),
    {
        assert(data@.skip(0) =~= data@);
        self.decode_instruction_at(data, 0, offset)
    }

    /// Decode the instruction whose opcode byte is `data[start]`.
    fn decode_instruction_at(&self, data: &[u8], start: usize, offset: u32) -> (r: Result<Instruction, DisassemblyError>)
        requires
            start <= data.len(),
        ensures
            decode_result_matches(r, spec_decode_instruction(data@.skip(start as int), offset), offset),
    {
        if start >= data.len() {
            return Err(DisassemblyError::TruncatedInstruction { offset });
        }
        let opcode = OpCode::from_byte(data[start]);
        assert(data@.skip(start + 1) =~= data@.skip(start as int).drop_first());
        let (operand, operand_size) = match self.decode_operand(&opcode, data, start + 1, offset) {
            Ok(pair) => pair,
            Err(e) => {
                return Err(e);
            },
        };
        let total_size: u8 = if (operand_size as usize) < 254 { 1 + operand_size } else { 255u8 };
        if 1 + operand_size as usize > data.len() - start {
            let available = data.len() - start - 1;
            let safe_size: u8 = if available < operand_size as usize { available as u8 } else { operand_size };
            return Ok(Instruction { offset, opcode, operand: None, size: 1 + safe_size });
        }
        Ok(Instruction { offset, opcode, operand, size: total_size })
    }
}

/// A decoded instruction is at least one byte long.
pub proof fn lemma_decoded_size_positive(data: Seq<u8>, offset: u32)
    ensures
        spec_decode_instruction(data, offset) matches InstructionDecode::Decoded(iv) ==> iv.size >= 1,
{
    if data.len() > 0 {
        let op = opcode_of(data[0]);
        match spec_decode_operand(op, data.drop_first()) {
            OperandDecode::Decoded(operand, size) => {
                assert(1 + size < 255 ==> ((1 + size) as u8) >= 1);
            },
            _ => {},
        }
    }
}

/// The integer pushed by `PUSHINT8`, `PUSHINT16`, `PUSHINT32` and `PUSHINT64` is the
/// two's-complement value of the 1, 2, 4 or 8 little-endian bytes after the opcode: it lies in
/// the signed range of that width and agrees with their unsigned reading modulo 2 to the
/// width, and the instruction spans the opcode and those bytes. So `01 18 FC` decodes to
/// `PUSHINT16 -1000`, three bytes long.
pub proof fn lemma_pushint_twos_complement(data: Seq<u8>, offset: u32)
    ensures
        data.len() >= 2 && data[0] == 0x00 ==> (spec_decode_instruction(data, offset) matches InstructionDecode::Decoded(iv)
            && (iv.operand matches Some(OperandView::Integer(v)) && iv.opcode == OpCode::PUSHINT8 && iv.size == 2
            && -0x80 <= v < 0x80 && (v - data[1]) % 0x100 == 0)),
        data.len() >= 3 && data[0] == 0x01 ==> (spec_decode_instruction(data, offset) matches InstructionDecode::Decoded(iv)
            && (iv.operand matches Some(OperandView::Integer(v)) && iv.opcode == OpCode::PUSHINT16 && iv.size == 3
            && -0x8000 <= v < 0x8000 && (v - (data[1] + 0x100 * data[2])) % 0x1_0000 == 0)),
        data.len() >= 5 && data[0] == 0x02 ==> (spec_decode_instruction(data, offset) matches InstructionDecode::Decoded(iv)
            && (iv.operand matches Some(OperandView::Integer(v)) && iv.opcode == OpCode::PUSHINT32 && iv.size == 5
            && -0x8000_0000 <= v < 0x8000_0000
            && (v - (data[1] + 0x100 * data[2] + 0x1_0000 * data[3] + 0x100_0000 * data[4])) % 0x1_0000_0000 == 0)),
        data.len() >= 9 && data[0] == 0x03 ==> (spec_decode_instruction(data, offset) matches InstructionDecode::Decoded(iv)
            && (iv.operand matches Some(OperandView::Integer(v)) && iv.opcode == OpCode::PUSHINT64 && iv.size == 9
            && (v - (data[1] + 0x100 * data[2] + 0x1_0000 * data[3] + 0x100_0000 * data[4] + 0x1_0000_0000 * data[5]
                + 0x100_0000_0000 * data[6] + 0x1_0000_0000_0000 * data[7] + 0x100_0000_0000_0000 * data[8]))
                % 0x1_0000_0000_0000_0000 == 0)),
{
    reveal(spec_decode_operand);
    if data.len() > 0 {
        let d = data.drop_first();
        if data.len() >= 9 {
            assert(le32(d.skip(4)) == d[4] + 256 * d[5] + 65536 * d[6] + 16777216 * d[7]);
        }
    }
}

/// A jump displacement is the two's-complement value of the operand bytes: one byte for the
/// short jumps, four little-endian bytes for the long ones, so `JMP FE` jumps two bytes back.
pub proof fn lemma_jump_displacement_signed(op: OpCode, d: Seq<u8>)
    ensures
        takes_jump8(op) && d.len() >= 1 ==> (spec_decode_operand(op, d) matches OperandDecode::Decoded(o, n)
            && (o matches Some(OperandView::JumpTarget8(t)) && n == 1 && (t - d[0]) % 0x100 == 0)),
        takes_jump32(op) && d.len() >= 4 ==> (spec_decode_operand(op, d) matches OperandDecode::Decoded(o, n)
            && (o matches Some(OperandView::JumpTarget32(t)) && n == 4
            && (t - (d[0] + 0x100 * d[1] + 0x1_0000 * d[2] + 0x100_0000 * d[3])) % 0x1_0000_0000 == 0)),
{
    reveal(spec_decode_operand);
}

/// The data pushes carry the bytes that follow their length prefix, which is one byte for
/// `PUSHDATA1` and two or four little-endian bytes for `PUSHDATA2` and `PUSHDATA4`; a script
/// that ends before the announced bytes is truncated. A syscall's hash is its four operand
/// bytes read little-endian, and a `CALLT` token its two.
pub proof fn lemma_little_endian_operands(op: OpCode, d: Seq<u8>)
    ensures
        op == OpCode::PUSHDATA1 && d.len() >= 1 ==> (if d.len() >= 1 + d[0] {
            spec_decode_operand(op, d) matches OperandDecode::Decoded(o, _) && o == Some(OperandView::Bytes(d.subrange(1, 1 + d[0])))
        } else {
            spec_decode_operand(op, d) is Truncated
        }),
        op == OpCode::PUSHDATA2 && d.len() >= 2 ==> (if d.len() >= 2 + d[0] + 0x100 * d[1] {
            spec_decode_operand(op, d) matches OperandDecode::Decoded(o, _)
                && o == Some(OperandView::Bytes(d.subrange(2, 2 + d[0] + 0x100 * d[1])))
        } else {
            spec_decode_operand(op, d) is Truncated
        }),
        op == OpCode::PUSHDATA4 && d.len() >= 4 ==> (if d.len() >= 4 + d[0] + 0x100 * d[1] + 0x1_0000 * d[2] + 0x100_0000 * d[3] {
            spec_decode_operand(op, d) matches OperandDecode::Decoded(o, _) && o == Some(OperandView::Bytes(
                d.subrange(4, 4 + d[0] + 0x100 * d[1] + 0x1_0000 * d[2] + 0x100_0000 * d[3]),
            ))
        } else {
            spec_decode_operand(op, d) is Truncated
        }),
        op == OpCode::SYSCALL && d.len() >= 4 ==> (spec_decode_operand(op, d) matches OperandDecode::Decoded(o, n)
            && (o matches Some(OperandView::SyscallHash(h)) && n == 4
            && h == d[0] + 0x100 * d[1] + 0x1_0000 * d[2] + 0x100_0000 * d[3])),
        op == OpCode::CALLT && d.len() >= 2 ==> (spec_decode_operand(op, d) matches OperandDecode::Decoded(o, n)
            && (o matches Some(OperandView::CallToken(t)) && n == 2 && t == d[0] + 0x100 * d[1])),
{
    reveal(spec_decode_operand);
    if d.len() >= 4 {
        assert(0 <= le32(d) < 0x1_0000_0000);
    }
    if d.len() >= 2 {
        assert(0 <= le16(d) < 0x1_0000);
    }
}

/// Why a linear sweep stopped early.
pub enum SweepFailure {
    UnknownOpcode(u8, u32),
    InvalidType(u32),
}

/// Outcome of a linear sweep over a script suffix.
pub enum SweepOutcome {
    Done(Seq<InstructionView>),
    Failed(SweepFailure),
}

/// Linear sweep from byte `pos`: decode, step over the instruction, repeat.
///
/// A truncated instruction becomes a one-byte instruction without operand and
/// the sweep goes on at the next byte; an unknown opcode or a bad type byte stops it.
pub open spec fn spec_sweep(bytes: Seq<u8>, pos: nat) -> SweepOutcome
    decreases bytes.len() + 256 - pos,
{
    if pos >= bytes.len() {
        SweepOutcome::Done(Seq::empty())
    } else {
        proof {
            lemma_decoded_size_positive(bytes.skip(pos as int), pos as u32);
        }
        match spec_decode_instruction(bytes.skip(pos as int), pos as u32) {
            InstructionDecode::Decoded(iv) => sweep_prepend(iv, spec_sweep(bytes, pos + iv.size as nat)),
            InstructionDecode::Truncated => sweep_prepend(
                InstructionView { offset: pos as u32, opcode: opcode_of(bytes[pos as int]), operand: None, size: 1 },
                spec_sweep(bytes, pos + 1),
            ),
            InstructionDecode::UnknownOpcode(b) => SweepOutcome::Failed(SweepFailure::UnknownOpcode(b, pos as u32)),
            InstructionDecode::InvalidType => SweepOutcome::Failed(SweepFailure::InvalidType(pos as u32)),
        }
    }
}

/// Put one instruction in front of a sweep outcome.
pub open spec fn sweep_prepend(iv: InstructionView, rest: SweepOutcome) -> SweepOutcome {
    sweep_join(seq![iv], rest)
}

/// Put instructions in front of a sweep outcome.
pub open spec fn sweep_join(prefix: Seq<InstructionView>, rest: SweepOutcome) -> SweepOutcome {
    match rest {
        SweepOutcome::Done(s) => SweepOutcome::Done(prefix + s),
        SweepOutcome::Failed(f) => SweepOutcome::Failed(f),
    }
}

/// `r` is what sweep outcome `o` returns.
pub open spec fn sweep_result_matches(r: Result<Vec<Instruction>, DisassemblyError>, o: SweepOutcome) -> bool {
    match o {
        SweepOutcome::Done(s) => r matches Ok(v) && v@.map_values(|i: Instruction| i@) == s,
        SweepOutcome::Failed(SweepFailure::UnknownOpcode(b, at)) =>
            r == Err::<Vec<Instruction>, DisassemblyError>(DisassemblyError::UnknownOpcode { opcode: b, offset: at }),
        SweepOutcome::Failed(SweepFailure::InvalidType(at)) => r matches Err(
            DisassemblyError::InvalidOperand { opcode, offset: o },
        ) && o == at && opcode@ == "CONVERT/ISTYPE"@,
    }
}

proof fn lemma_sweep_join_step(a: Seq<InstructionView>, iv: InstructionView, rest: SweepOutcome)
    ensures
        sweep_join(a, sweep_prepend(iv, rest)) == sweep_join(a.push(iv), rest),
{
    match rest {
        SweepOutcome::Done(t) => {
            assert(a + (seq![iv] + t) =~= a.push(iv) + t);
        },
        SweepOutcome::Failed(_) => {},
    }
}

/// A decoded operand does not run past the bytes it was decoded from.
proof fn lemma_operand_fits(op: OpCode, d: Seq<u8>)
    ensures
        spec_decode_operand(op, d) matches OperandDecode::Decoded(_, size) ==> size <= d.len(),
{
    reveal(spec_decode_operand);
    match op {
        OpCode::PUSHDATA1 => {
            if avail(d, 1) && avail(d, 1 + d[0]) {
                assert(1 + d[0] < 255 ==> ((1 + d[0]) as u8) == 1 + d[0]);
            }
        },
        OpCode::PUSHDATA2 => {
            if avail(d, 2) && avail(d, 2 + le16(d)) {
                assert(2 + le16(d) < 254 ==> ((2 + le16(d)) as u8) == 2 + le16(d));
            }
        },
        OpCode::PUSHDATA4 => {
            if avail(d, 4) && avail(d, 4 + le32(d)) {
                assert(4 + le32(d) < 254 ==> ((4 + le32(d)) as u8) == 4 + le32(d));
            }
        },
        _ => {},
    }
}

/// Offsets and sizes of a sweep from `pos`: the instructions follow one
/// another without gaps, the first at `pos`, and the last ends with the
/// bytes; there are none exactly when `pos` is at the end.
pub open spec fn chained(s: Seq<InstructionView>, pos: nat, len: nat) -> bool {
    &&& (s.len() == 0 <==> pos >= len)
    &&& s.len() > 0 ==> s[0].offset == pos
    &&& forall|i: int| 1 <= i < s.len() ==> (#[trigger] s[i]).offset == s[i - 1].offset + s[i - 1].size
    &&& s.len() > 0 ==> s.last().offset + s.last().size == len
}

proof fn lemma_sweep_chain(bytes: Seq<u8>, pos: nat)
    requires
        bytes.len() + 256 <= u32::MAX,
        pos <= bytes.len(),
    ensures
        spec_sweep(bytes, pos) matches SweepOutcome::Done(s) ==> chained(s, pos, bytes.len()),
    decreases bytes.len() + 256 - pos,
{
    if pos < bytes.len() {
        lemma_decoded_size_positive(bytes.skip(pos as int), pos as u32);
        let data = bytes.skip(pos as int);
        lemma_operand_fits(opcode_of(data[0]), data.drop_first());
        match spec_decode_instruction(data, pos as u32) {
            InstructionDecode::Decoded(iv) => {
                let next = pos + iv.size as nat;
                lemma_sweep_chain(bytes, next);
                if let SweepOutcome::Done(t) = spec_sweep(bytes, next) {
                    let s = seq![iv] + t;
                    assert(s[0] == iv);
                    assert(iv.offset == pos);
                    if t.len() > 0 {
                        assert(s[1] == t[0]);
                    }
                    assert forall|i: int| 1 <= i < s.len() implies (#[trigger] s[i]).offset == s[i - 1].offset + s[i - 1].size by {
                        assert(s[i] == t[i - 1]);
                        if i > 1 {
                            assert(s[i - 1] == t[i - 2]);
                        }
                    }
                    if t.len() > 0 {
                        assert(s.last() == t.last());
                    }
                }
            },
            InstructionDecode::Truncated => {
                let iv = InstructionView { offset: pos as u32, opcode: opcode_of(bytes[pos as int]), operand: None, size: 1 };
                lemma_sweep_chain(bytes, pos + 1);
                if let SweepOutcome::Done(t) = spec_sweep(bytes, pos + 1) {
                    let s = seq![iv] + t;
                    assert(s[0] == iv);
                    assert(iv.offset == pos);
                    if t.len() > 0 {
                        assert(s[1] == t[0]);
                    }
                    assert forall|i: int| 1 <= i < s.len() implies (#[trigger] s[i]).offset == s[i - 1].offset + s[i - 1].size by {
                        assert(s[i] == t[i - 1]);
                        if i > 1 {
                            assert(s[i - 1] == t[i - 2]);
                        }
                    }
                    if t.len() > 0 {
                        assert(s.last() == t.last());
                    }
                }
            },
            _ => {},
        }
    }
}

/// A successful disassembly covers the script without gaps: the first
/// instruction is at offset 0, each next one starts where the previous one
/// ends (by its recorded size), the last one ends with the script, and an
/// empty script gives no instructions.
pub proof fn lemma_disassembly_chain(bytes: Seq<u8>)
    requires
        bytes.len() + 256 <= u32::MAX,
    ensures
        spec_sweep(bytes, 0) matches SweepOutcome::Done(s) ==> chained(s, 0, bytes.len()),
{
    lemma_sweep_chain(bytes, 0);
}

impl Disassembler {
    /// Disassemble a script into its instruction stream by linear sweep.
    pub fn disassemble(&self, bytecode: &[u8]) -> (r: Result<Vec<Instruction>, DisassemblyError>)
        requires
            bytecode.len() + 256 <= u32::MAX,
        ensures
            sweep_result_matches(r, spec_sweep(bytecode@, 0)),
            r matches Ok(v) ==> chained(v@.map_values(|i: Instruction| i@), 0, bytecode@.len()),
    {
        proof {
            lemma_disassembly_chain(bytecode@);
        }
        let mut instructions: Vec<Instruction> = Vec::new();
        let mut offset: u32 = 0;
        while (offset as usize) < bytecode.len()
            invariant
                bytecode.len() + 256 <= u32::MAX,
                spec_sweep(bytecode@, 0) == sweep_join(
                    instructions@.map_values(|i: Instruction| i@),
                    spec_sweep(bytecode@, offset as nat),
                ),
            decreases bytecode.len() + 256 - offset,
        {
            let ghost before = instructions@.map_values(|i: Instruction| i@);
            proof {
                lemma_decoded_size_positive(bytecode@.skip(offset as int), offset);
            }
            match self.decoder.decode_instruction_at(bytecode, offset as usize, offset) {
                Ok(instruction) => {
                    let size = instruction.size;
                    let ghost iv = instruction@;
                    instructions.push(instruction);
                    proof {
                        assert(instructions@.map_values(|i: Instruction| i@) =~= before.push(iv));
                        lemma_sweep_join_step(before, iv, spec_sweep(bytecode@, offset as nat + size as nat));
                    }
                    offset = offset + size as u32;
                },
                Err(DisassemblyError::TruncatedInstruction { .. }) => {
                    let opcode = OpCode::from_byte(bytecode[offset as usize]);
                    let instruction = Instruction { offset, opcode, operand: None, size: 1 };
                    let ghost iv = instruction@;
                    instructions.push(instruction);
                    proof {
                        assert(instructions@.map_values(|i: Instruction| i@) =~= before.push(iv));
                        lemma_sweep_join_step(before, iv, spec_sweep(bytecode@, offset as nat + 1));
                    }
                    offset = offset + 1;
                },
                Err(other) => {
                    return Err(other);
                },
            }
        }
        proof {
            assert(instructions@.map_values(|i: Instruction| i@) + Seq::<InstructionView>::empty()
                =~= instructions@.map_values(|i: Instruction| i@));
        }
        Ok(instructions)
    }
}

} // verus!
