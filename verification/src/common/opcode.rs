//! Opcodes of the Neo N3 virtual machine and their byte encoding.
use vstd::prelude::*;

use crate::text::push_char;

verus! {

/// A Neo N3 VM opcode as decoded from one bytecode byte.
///
/// Bytes that name no opcode decode to `UNKNOWN` carrying the raw byte.
#[allow(non_camel_case_types)]
#[derive(Debug, Clone, Copy, PartialEq, Eq, Structural)]
pub enum OpCode {
    PUSHINT8,
    PUSHINT16,
    PUSHINT32,
    PUSHINT64,
    PUSHINT128,
    PUSHINT256,
    PUSHT,
    PUSHF,
    PUSHA,
    PUSHNULL,
    PUSHDATA1,
    PUSHDATA2,
    PUSHDATA4,
    PUSHM1,
    PUSH0,
    PUSH1,
    PUSH2,
    PUSH3,
    PUSH4,
    PUSH5,
    PUSH6,
    PUSH7,
    PUSH8,
    PUSH9,
    PUSH10,
    PUSH11,
    PUSH12,
    PUSH13,
    PUSH14,
    PUSH15,
    PUSH16,
    NOP,
    JMP,
    JMP_L,
    JMPIF,
    JMPIF_L,
    JMPIFNOT,
    JMPIFNOT_L,
    JMPEQ,
    JMPEQ_L,
    JMPNE,
    JMPNE_L,
    JMPGT,
    JMPGT_L,
    JMPGE,
    JMPGE_L,
    JMPLT,
    JMPLT_L,
    JMPLE,
    JMPLE_L,
    CALL,
    CALL_L,
    CALLA,
    CALLT,
    ABORT,
    ASSERT,
    THROW,
    TRY,
    TRY_L,
    ENDTRY,
    ENDTRY_L,
    ENDFINALLY,
    RET,
    SYSCALL,
    DEPTH,
    DROP,
    NIP,
    XDROP,
    CLEAR,
    DUP,
    OVER,
    PICK,
    TUCK,
    SWAP,
    ROT,
    ROLL,
    REVERSE3,
    REVERSE4,
    REVERSEN,
    INITSSLOT,
    INITSLOT,
    LDSFLD0,
    LDSFLD1,
    LDSFLD2,
    LDSFLD3,
    LDSFLD4,
    LDSFLD5,
    LDSFLD6,
    LDSFLD,
    STSFLD0,
    STSFLD1,
    STSFLD2,
    STSFLD3,
    STSFLD4,
    STSFLD5,
    STSFLD6,
    STSFLD,
    LDLOC0,
    LDLOC1,
    LDLOC2,
    LDLOC3,
    LDLOC4,
    LDLOC5,
    LDLOC6,
    LDLOC,
    STLOC0,
    STLOC1,
    STLOC2,
    STLOC3,
    STLOC4,
    STLOC5,
    STLOC6,
    STLOC,
    LDARG0,
    LDARG1,
    LDARG2,
    LDARG3,
    LDARG4,
    LDARG5,
    LDARG6,
    LDARG,
    STARG0,
    STARG1,
    STARG2,
    STARG3,
    STARG4,
    STARG5,
    STARG6,
    STARG,
    NEWBUFFER,
    MEMCPY,
    CAT,
    SUBSTR,
    LEFT,
    RIGHT,
    INVERT,
    AND,
    OR,
    XOR,
    EQUAL,
    NOTEQUAL,
    SIGN,
    ABS,
    NEGATE,
    INC,
    DEC,
    ADD,
    SUB,
    MUL,
    DIV,
    MOD,
    POW,
    SQRT,
    MODMUL,
    MODPOW,
    SHL,
    SHR,
    NOT,
    BOOLAND,
    BOOLOR,
    NZ,
    NUMEQUAL,
    NUMNOTEQUAL,
    LT,
    LE,
    GT,
    GE,
    MIN,
    MAX,
    WITHIN,
    PACKMAP,
    PACKSTRUCT,
    PACKARRAY,
    UNPACK,
    NEWARRAY0,
    NEWARRAY,
    NEWARRAYT,
    NEWSTRUCT0,
    NEWSTRUCT,
    NEWMAP,
    SIZE,
    HASKEY,
    KEYS,
    VALUES,
    PICKITEM,
    APPEND,
    SETITEM,
    REVERSEITEMS,
    REMOVE,
    CLEARITEMS,
    POPITEM,
    ISNULL,
    ISTYPE,
    CONVERT,
    ABORTMSG,
    ASSERTMSG,
    UNKNOWN(u8),
}

/// The opcode that a bytecode byte stands for.
///
/// This is the stock Neo N3 layout, except that `LDLOC`, `STLOC`, `NEWBUFFER`,
/// `ADD`, `NEWARRAY` and `CONVERT` are encoded at 0x68, 0x69, 0x73, 0x8E, 0xAD
/// and 0xC2, and the opcodes those bytes otherwise hold take the freed bytes.
pub open spec fn opcode_of(b: u8) -> OpCode {
    match b {
        0x00u8 => OpCode::PUSHINT8,
        0x01u8 => OpCode::PUSHINT16,
        0x02u8 => OpCode::PUSHINT32,
        0x03u8 => OpCode::PUSHINT64,
        0x04u8 => OpCode::PUSHINT128,
        0x05u8 => OpCode::PUSHINT256,
        0x08u8 => OpCode::PUSHT,
        0x09u8 => OpCode::PUSHF,
        0x0Au8 => OpCode::PUSHA,
        0x0Bu8 => OpCode::PUSHNULL,
        0x0Cu8 => OpCode::PUSHDATA1,
        0x0Du8 => OpCode::PUSHDATA2,
        0x0Eu8 => OpCode::PUSHDATA4,
        0x0Fu8 => OpCode::PUSHM1,
        0x10u8 => OpCode::PUSH0,
        0x11u8 => OpCode::PUSH1,
        0x12u8 => OpCode::PUSH2,
        0x13u8 => OpCode::PUSH3,
        0x14u8 => OpCode::PUSH4,
        0x15u8 => OpCode::PUSH5,
        0x16u8 => OpCode::PUSH6,
        0x17u8 => OpCode::PUSH7,
        0x18u8 => OpCode::PUSH8,
        0x19u8 => OpCode::PUSH9,
        0x1Au8 => OpCode::PUSH10,
        0x1Bu8 => OpCode::PUSH11,
        0x1Cu8 => OpCode::PUSH12,
        0x1Du8 => OpCode::PUSH13,
        0x1Eu8 => OpCode::PUSH14,
        0x1Fu8 => OpCode::PUSH15,
        0x20u8 => OpCode::PUSH16,
        0x21u8 => OpCode::NOP,
        0x22u8 => OpCode::JMP,
        0x23u8 => OpCode::JMP_L,
        0x24u8 => OpCode::JMPIF,
        0x25u8 => OpCode::JMPIF_L,
        0x26u8 => OpCode::JMPIFNOT,
        0x27u8 => OpCode::JMPIFNOT_L,
        0x28u8 => OpCode::JMPEQ,
        0x29u8 => OpCode::JMPEQ_L,
        0x2Au8 => OpCode::JMPNE,
        0x2Bu8 => OpCode::JMPNE_L,
        0x2Cu8 => OpCode::JMPGT,
        0x2Du8 => OpCode::JMPGT_L,
        0x2Eu8 => OpCode::JMPGE,
        0x2Fu8 => OpCode::JMPGE_L,
        0x30u8 => OpCode::JMPLT,
        0x31u8 => OpCode::JMPLT_L,
        0x32u8 => OpCode::JMPLE,
        0x33u8 => OpCode::JMPLE_L,
        0x34u8 => OpCode::CALL,
        0x35u8 => OpCode::CALL_L,
        0x36u8 => OpCode::CALLA,
        0x37u8 => OpCode::CALLT,
        0x38u8 => OpCode::ABORT,
        0x39u8 => OpCode::ASSERT,
        0x3Au8 => OpCode::THROW,
        0x3Bu8 => OpCode::TRY,
        0x3Cu8 => OpCode::TRY_L,
        0x3Du8 => OpCode::ENDTRY,
        0x3Eu8 => OpCode::ENDTRY_L,
        0x3Fu8 => OpCode::ENDFINALLY,
        0x40u8 => OpCode::RET,
        0x41u8 => OpCode::SYSCALL,
        0x43u8 => OpCode::DEPTH,
        0x45u8 => OpCode::DROP,
        0x46u8 => OpCode::NIP,
        0x48u8 => OpCode::XDROP,
        0x49u8 => OpCode::CLEAR,
        0x4Au8 => OpCode::DUP,
        0x4Bu8 => OpCode::OVER,
        0x4Du8 => OpCode::PICK,
        0x4Eu8 => OpCode::TUCK,
        0x50u8 => OpCode::SWAP,
        0x51u8 => OpCode::ROT,
        0x52u8 => OpCode::ROLL,
        0x53u8 => OpCode::REVERSE3,
        0x54u8 => OpCode::REVERSE4,
        0x55u8 => OpCode::REVERSEN,
        0x56u8 => OpCode::INITSSLOT,
        0x57u8 => OpCode::INITSLOT,
        0x58u8 => OpCode::LDSFLD0,
        0x59u8 => OpCode::LDSFLD1,
        0x5Au8 => OpCode::LDSFLD2,
        0x5Bu8 => OpCode::LDSFLD3,
        0x5Cu8 => OpCode::LDSFLD4,
        0x5Du8 => OpCode::LDSFLD5,
        0x5Eu8 => OpCode::LDSFLD6,
        0x5Fu8 => OpCode::LDSFLD,
        0x60u8 => OpCode::STSFLD0,
        0x61u8 => OpCode::STSFLD1,
        0x62u8 => OpCode::STSFLD2,
        0x63u8 => OpCode::STSFLD3,
        0x64u8 => OpCode::STSFLD4,
        0x65u8 => OpCode::STSFLD5,
        0x66u8 => OpCode::STSFLD6,
        0x67u8 => OpCode::STSFLD,
        0x68u8 => OpCode::LDLOC,
        0x69u8 => OpCode::STLOC,
        0x6Au8 => OpCode::LDLOC2,
        0x6Bu8 => OpCode::LDLOC3,
        0x6Cu8 => OpCode::LDLOC4,
        0x6Du8 => OpCode::LDLOC5,
        0x6Eu8 => OpCode::LDLOC6,
        0x6Fu8 => OpCode::LDLOC0,
        0x70u8 => OpCode::STLOC0,
        0x71u8 => OpCode::STLOC1,
        0x72u8 => OpCode::STLOC2,
        0x73u8 => OpCode::NEWBUFFER,
        0x74u8 => OpCode::STLOC4,
        0x75u8 => OpCode::STLOC5,
        0x76u8 => OpCode::STLOC6,
        0x77u8 => OpCode::LDLOC1,
        0x78u8 => OpCode::LDARG0,
        0x79u8 => OpCode::LDARG1,
        0x7Au8 => OpCode::LDARG2,
        0x7Bu8 => OpCode::LDARG3,
        0x7Cu8 => OpCode::LDARG4,
        0x7Du8 => OpCode::LDARG5,
        0x7Eu8 => OpCode::LDARG6,
        0x7Fu8 => OpCode::LDARG,
        0x80u8 => OpCode::STARG0,
        0x81u8 => OpCode::STARG1,
        0x82u8 => OpCode::STARG2,
        0x83u8 => OpCode::STARG3,
        0x84u8 => OpCode::STARG4,
        0x85u8 => OpCode::STARG5,
        0x86u8 => OpCode::STARG6,
        0x87u8 => OpCode::STARG,
        0x88u8 => OpCode::STLOC3,
        0x89u8 => OpCode::MEMCPY,
        0x8Bu8 => OpCode::CAT,
        0x8Cu8 => OpCode::SUBSTR,
        0x8Du8 => OpCode::LEFT,
        0x8Eu8 => OpCode::ADD,
        0x90u8 => OpCode::INVERT,
        0x91u8 => OpCode::AND,
        0x92u8 => OpCode::OR,
        0x93u8 => OpCode::XOR,
        0x97u8 => OpCode::EQUAL,
        0x98u8 => OpCode::NOTEQUAL,
        0x99u8 => OpCode::SIGN,
        0x9Au8 => OpCode::ABS,
        0x9Bu8 => OpCode::NEGATE,
        0x9Cu8 => OpCode::INC,
        0x9Du8 => OpCode::DEC,
        0x9Eu8 => OpCode::RIGHT,
        0x9Fu8 => OpCode::SUB,
        0xA0u8 => OpCode::MUL,
        0xA1u8 => OpCode::DIV,
        0xA2u8 => OpCode::MOD,
        0xA3u8 => OpCode::POW,
        0xA4u8 => OpCode::SQRT,
        0xA5u8 => OpCode::MODMUL,
        0xA6u8 => OpCode::MODPOW,
        0xA8u8 => OpCode::SHL,
        0xA9u8 => OpCode::SHR,
        0xAAu8 => OpCode::NOT,
        0xABu8 => OpCode::BOOLAND,
        0xACu8 => OpCode::BOOLOR,
        0xADu8 => OpCode::NEWARRAY,
        0xB1u8 => OpCode::NZ,
        0xB3u8 => OpCode::NUMEQUAL,
        0xB4u8 => OpCode::NUMNOTEQUAL,
        0xB5u8 => OpCode::LT,
        0xB6u8 => OpCode::LE,
        0xB7u8 => OpCode::GT,
        0xB8u8 => OpCode::GE,
        0xB9u8 => OpCode::MIN,
        0xBAu8 => OpCode::MAX,
        0xBBu8 => OpCode::WITHIN,
        0xBEu8 => OpCode::PACKMAP,
        0xBFu8 => OpCode::PACKSTRUCT,
        0xC0u8 => OpCode::PACKARRAY,
        0xC1u8 => OpCode::UNPACK,
        0xC2u8 => OpCode::CONVERT,
        0xC4u8 => OpCode::NEWARRAYT,
        0xC5u8 => OpCode::NEWSTRUCT0,
        0xC6u8 => OpCode::NEWSTRUCT,
        0xC8u8 => OpCode::NEWMAP,
        0xCAu8 => OpCode::SIZE,
        0xCBu8 => OpCode::HASKEY,
        0xCCu8 => OpCode::KEYS,
        0xCDu8 => OpCode::VALUES,
        0xCEu8 => OpCode::PICKITEM,
        0xCFu8 => OpCode::APPEND,
        0xD0u8 => OpCode::SETITEM,
        0xD1u8 => OpCode::REVERSEITEMS,
        0xD2u8 => OpCode::REMOVE,
        0xD3u8 => OpCode::CLEARITEMS,
        0xD4u8 => OpCode::POPITEM,
        0xD8u8 => OpCode::ISNULL,
        0xD9u8 => OpCode::ISTYPE,
        0xDBu8 => OpCode::NEWARRAY0,
        0xE0u8 => OpCode::ABORTMSG,
        0xE1u8 => OpCode::ASSERTMSG,
        _ => OpCode::UNKNOWN(b),
    }
}

impl OpCode {
    /// Decode one bytecode byte.
    pub fn from_byte(b: u8) -> (r: OpCode)
        ensures
            r == opcode_of(b),
    {
        match b {
            0x00u8 => OpCode::PUSHINT8,
            0x01u8 => OpCode::PUSHINT16,
            0x02u8 => OpCode::PUSHINT32,
            0x03u8 => OpCode::PUSHINT64,
            0x04u8 => OpCode::PUSHINT128,
            0x05u8 => OpCode::PUSHINT256,
            0x08u8 => OpCode::PUSHT,
            0x09u8 => OpCode::PUSHF,
            0x0Au8 => OpCode::PUSHA,
            0x0Bu8 => OpCode::PUSHNULL,
            0x0Cu8 => OpCode::PUSHDATA1,
            0x0Du8 => OpCode::PUSHDATA2,
            0x0Eu8 => OpCode::PUSHDATA4,
            0x0Fu8 => OpCode::PUSHM1,
            0x10u8 => OpCode::PUSH0,
            0x11u8 => OpCode::PUSH1,
            0x12u8 => OpCode::PUSH2,
            0x13u8 => OpCode::PUSH3,
            0x14u8 => OpCode::PUSH4,
            0x15u8 => OpCode::PUSH5,
            0x16u8 => OpCode::PUSH6,
            0x17u8 => OpCode::PUSH7,
            0x18u8 => OpCode::PUSH8,
            0x19u8 => OpCode::PUSH9,
            0x1Au8 => OpCode::PUSH10,
            0x1Bu8 => OpCode::PUSH11,
            0x1Cu8 => OpCode::PUSH12,
            0x1Du8 => OpCode::PUSH13,
            0x1Eu8 => OpCode::PUSH14,
            0x1Fu8 => OpCode::PUSH15,
            0x20u8 => OpCode::PUSH16,
            0x21u8 => OpCode::NOP,
            0x22u8 => OpCode::JMP,
            0x23u8 => OpCode::JMP_L,
            0x24u8 => OpCode::JMPIF,
            0x25u8 => OpCode::JMPIF_L,
            0x26u8 => OpCode::JMPIFNOT,
            0x27u8 => OpCode::JMPIFNOT_L,
            0x28u8 => OpCode::JMPEQ,
            0x29u8 => OpCode::JMPEQ_L,
            0x2Au8 => OpCode::JMPNE,
            0x2Bu8 => OpCode::JMPNE_L,
            0x2Cu8 => OpCode::JMPGT,
            0x2Du8 => OpCode::JMPGT_L,
            0x2Eu8 => OpCode::JMPGE,
            0x2Fu8 => OpCode::JMPGE_L,
            0x30u8 => OpCode::JMPLT,
            0x31u8 => OpCode::JMPLT_L,
            0x32u8 => OpCode::JMPLE,
            0x33u8 => OpCode::JMPLE_L,
            0x34u8 => OpCode::CALL,
            0x35u8 => OpCode::CALL_L,
            0x36u8 => OpCode::CALLA,
            0x37u8 => OpCode::CALLT,
            0x38u8 => OpCode::ABORT,
            0x39u8 => OpCode::ASSERT,
            0x3Au8 => OpCode::THROW,
            0x3Bu8 => OpCode::TRY,
            0x3Cu8 => OpCode::TRY_L,
            0x3Du8 => OpCode::ENDTRY,
            0x3Eu8 => OpCode::ENDTRY_L,
            0x3Fu8 => OpCode::ENDFINALLY,
            0x40u8 => OpCode::RET,
            0x41u8 => OpCode::SYSCALL,
            0x43u8 => OpCode::DEPTH,
            0x45u8 => OpCode::DROP,
            0x46u8 => OpCode::NIP,
            0x48u8 => OpCode::XDROP,
            0x49u8 => OpCode::CLEAR,
            0x4Au8 => OpCode::DUP,
            0x4Bu8 => OpCode::OVER,
            0x4Du8 => OpCode::PICK,
            0x4Eu8 => OpCode::TUCK,
            0x50u8 => OpCode::SWAP,
            0x51u8 => OpCode::ROT,
            0x52u8 => OpCode::ROLL,
            0x53u8 => OpCode::REVERSE3,
            0x54u8 => OpCode::REVERSE4,
            0x55u8 => OpCode::REVERSEN,
            0x56u8 => OpCode::INITSSLOT,
            0x57u8 => OpCode::INITSLOT,
            0x58u8 => OpCode::LDSFLD0,
            0x59u8 => OpCode::LDSFLD1,
            0x5Au8 => OpCode::LDSFLD2,
            0x5Bu8 => OpCode::LDSFLD3,
            0x5Cu8 => OpCode::LDSFLD4,
            0x5Du8 => OpCode::LDSFLD5,
            0x5Eu8 => OpCode::LDSFLD6,
            0x5Fu8 => OpCode::LDSFLD,
            0x60u8 => OpCode::STSFLD0,
            0x61u8 => OpCode::STSFLD1,
            0x62u8 => OpCode::STSFLD2,
            0x63u8 => OpCode::STSFLD3,
            0x64u8 => OpCode::STSFLD4,
            0x65u8 => OpCode::STSFLD5,
            0x66u8 => OpCode::STSFLD6,
            0x67u8 => OpCode::STSFLD,
            0x68u8 => OpCode::LDLOC,
            0x69u8 => OpCode::STLOC,
            0x6Au8 => OpCode::LDLOC2,
            0x6Bu8 => OpCode::LDLOC3,
            0x6Cu8 => OpCode::LDLOC4,
            0x6Du8 => OpCode::LDLOC5,
            0x6Eu8 => OpCode::LDLOC6,
            0x6Fu8 => OpCode::LDLOC0,
            0x70u8 => OpCode::STLOC0,
            0x71u8 => OpCode::STLOC1,
            0x72u8 => OpCode::STLOC2,
            0x73u8 => OpCode::NEWBUFFER,
            0x74u8 => OpCode::STLOC4,
            0x75u8 => OpCode::STLOC5,
            0x76u8 => OpCode::STLOC6,
            0x77u8 => OpCode::LDLOC1,
            0x78u8 => OpCode::LDARG0,
            0x79u8 => OpCode::LDARG1,
            0x7Au8 => OpCode::LDARG2,
            0x7Bu8 => OpCode::LDARG3,
            0x7Cu8 => OpCode::LDARG4,
            0x7Du8 => OpCode::LDARG5,
            0x7Eu8 => OpCode::LDARG6,
            0x7Fu8 => OpCode::LDARG,
            0x80u8 => OpCode::STARG0,
            0x81u8 => OpCode::STARG1,
            0x82u8 => OpCode::STARG2,
            0x83u8 => OpCode::STARG3,
            0x84u8 => OpCode::STARG4,
            0x85u8 => OpCode::STARG5,
            0x86u8 => OpCode::STARG6,
            0x87u8 => OpCode::STARG,
            0x88u8 => OpCode::STLOC3,
            0x89u8 => OpCode::MEMCPY,
            0x8Bu8 => OpCode::CAT,
            0x8Cu8 => OpCode::SUBSTR,
            0x8Du8 => OpCode::LEFT,
            0x8Eu8 => OpCode::ADD,
            0x90u8 => OpCode::INVERT,
            0x91u8 => OpCode::AND,
            0x92u8 => OpCode::OR,
            0x93u8 => OpCode::XOR,
            0x97u8 => OpCode::EQUAL,
            0x98u8 => OpCode::NOTEQUAL,
            0x99u8 => OpCode::SIGN,
            0x9Au8 => OpCode::ABS,
            0x9Bu8 => OpCode::NEGATE,
            0x9Cu8 => OpCode::INC,
            0x9Du8 => OpCode::DEC,
            0x9Eu8 => OpCode::RIGHT,
            0x9Fu8 => OpCode::SUB,
            0xA0u8 => OpCode::MUL,
            0xA1u8 => OpCode::DIV,
            0xA2u8 => OpCode::MOD,
            0xA3u8 => OpCode::POW,
            0xA4u8 => OpCode::SQRT,
            0xA5u8 => OpCode::MODMUL,
            0xA6u8 => OpCode::MODPOW,
            0xA8u8 => OpCode::SHL,
            0xA9u8 => OpCode::SHR,
            0xAAu8 => OpCode::NOT,
            0xABu8 => OpCode::BOOLAND,
            0xACu8 => OpCode::BOOLOR,
            0xADu8 => OpCode::NEWARRAY,
            0xB1u8 => OpCode::NZ,
            0xB3u8 => OpCode::NUMEQUAL,
            0xB4u8 => OpCode::NUMNOTEQUAL,
            0xB5u8 => OpCode::LT,
            0xB6u8 => OpCode::LE,
            0xB7u8 => OpCode::GT,
            0xB8u8 => OpCode::GE,
            0xB9u8 => OpCode::MIN,
            0xBAu8 => OpCode::MAX,
            0xBBu8 => OpCode::WITHIN,
            0xBEu8 => OpCode::PACKMAP,
            0xBFu8 => OpCode::PACKSTRUCT,
            0xC0u8 => OpCode::PACKARRAY,
            0xC1u8 => OpCode::UNPACK,
            0xC2u8 => OpCode::CONVERT,
            0xC4u8 => OpCode::NEWARRAYT,
            0xC5u8 => OpCode::NEWSTRUCT0,
            0xC6u8 => OpCode::NEWSTRUCT,
            0xC8u8 => OpCode::NEWMAP,
            0xCAu8 => OpCode::SIZE,
            0xCBu8 => OpCode::HASKEY,
            0xCCu8 => OpCode::KEYS,
            0xCDu8 => OpCode::VALUES,
            0xCEu8 => OpCode::PICKITEM,
            0xCFu8 => OpCode::APPEND,
            0xD0u8 => OpCode::SETITEM,
            0xD1u8 => OpCode::REVERSEITEMS,
            0xD2u8 => OpCode::REMOVE,
            0xD3u8 => OpCode::CLEARITEMS,
            0xD4u8 => OpCode::POPITEM,
            0xD8u8 => OpCode::ISNULL,
            0xD9u8 => OpCode::ISTYPE,
            0xDBu8 => OpCode::NEWARRAY0,
            0xE0u8 => OpCode::ABORTMSG,
            0xE1u8 => OpCode::ASSERTMSG,
            _ => OpCode::UNKNOWN(b),
        }
    }

    /// Jump instructions, conditional or not, short or long form.
    pub open spec fn spec_is_jump(self) -> bool {
        matches!(self, OpCode::JMP | OpCode::JMP_L | OpCode::JMPIF | OpCode::JMPIF_L | OpCode::JMPIFNOT | OpCode::JMPIFNOT_L | OpCode::JMPEQ | OpCode::JMPEQ_L | OpCode::JMPNE | OpCode::JMPNE_L | OpCode::JMPGT | OpCode::JMPGT_L | OpCode::JMPGE | OpCode::JMPGE_L | OpCode::JMPLT | OpCode::JMPLT_L | OpCode::JMPLE | OpCode::JMPLE_L)
    }

    /// Whether this opcode is a jump.
    pub fn is_jump(&self) -> (r: bool)
        ensures
            r == self.spec_is_jump(),
    {
        matches!(*self, OpCode::JMP | OpCode::JMP_L | OpCode::JMPIF | OpCode::JMPIF_L | OpCode::JMPIFNOT | OpCode::JMPIFNOT_L | OpCode::JMPEQ | OpCode::JMPEQ_L | OpCode::JMPNE | OpCode::JMPNE_L | OpCode::JMPGT | OpCode::JMPGT_L | OpCode::JMPGE | OpCode::JMPGE_L | OpCode::JMPLT | OpCode::JMPLT_L | OpCode::JMPLE | OpCode::JMPLE_L)
    }

    /// Instructions that transfer control to other code and come back.
    pub open spec fn spec_is_call(self) -> bool {
        matches!(self, OpCode::CALL | OpCode::CALL_L | OpCode::CALLA | OpCode::CALLT | OpCode::SYSCALL)
    }

    /// Whether this opcode is a call (internal, dynamic, token or syscall).
    pub fn is_call(&self) -> (r: bool)
        ensures
            r == self.spec_is_call(),
    {
        matches!(*self, OpCode::CALL | OpCode::CALL_L | OpCode::CALLA | OpCode::CALLT | OpCode::SYSCALL)
    }

    /// Instructions after which control never simply falls through.
    pub open spec fn spec_is_terminator(self) -> bool {
        self.spec_is_jump() || matches!(self, OpCode::RET | OpCode::ABORT | OpCode::ABORTMSG | OpCode::THROW
            | OpCode::ENDTRY | OpCode::ENDTRY_L | OpCode::ENDFINALLY)
    }

    /// Whether this opcode ends a basic block.
    pub fn is_terminator(&self) -> (r: bool)
        ensures
            r == self.spec_is_terminator(),
    {
        self.is_jump() || matches!(*self, OpCode::RET | OpCode::ABORT | OpCode::ABORTMSG | OpCode::THROW
            | OpCode::ENDTRY | OpCode::ENDTRY_L | OpCode::ENDFINALLY)
    }

    /// The long (32-bit operand) form of an opcode that has one, else the opcode itself.
    pub open spec fn spec_to_long_form(self) -> OpCode {
        match self {
            OpCode::JMP => OpCode::JMP_L,
            OpCode::JMPIF => OpCode::JMPIF_L,
            OpCode::JMPIFNOT => OpCode::JMPIFNOT_L,
            OpCode::JMPEQ => OpCode::JMPEQ_L,
            OpCode::JMPNE => OpCode::JMPNE_L,
            OpCode::JMPGT => OpCode::JMPGT_L,
            OpCode::JMPGE => OpCode::JMPGE_L,
            OpCode::JMPLT => OpCode::JMPLT_L,
            OpCode::JMPLE => OpCode::JMPLE_L,
            OpCode::CALL => OpCode::CALL_L,
            OpCode::TRY => OpCode::TRY_L,
            OpCode::ENDTRY => OpCode::ENDTRY_L,
            other => other,
        }
    }

    /// Opcodes with a 32-bit operand whose short form takes an 8-bit one.
    pub open spec fn spec_is_long_form(self) -> bool {
        matches!(self, OpCode::JMP_L | OpCode::JMPIF_L | OpCode::JMPIFNOT_L | OpCode::JMPEQ_L | OpCode::JMPNE_L | OpCode::JMPGT_L | OpCode::JMPGE_L | OpCode::JMPLT_L | OpCode::JMPLE_L | OpCode::CALL_L | OpCode::TRY_L | OpCode::ENDTRY_L)
    }

    /// Opcodes with a distinct long form.
    pub open spec fn spec_has_long_form(self) -> bool {
        matches!(self, OpCode::JMP | OpCode::JMPIF | OpCode::JMPIFNOT | OpCode::JMPEQ | OpCode::JMPNE | OpCode::JMPGT | OpCode::JMPGE | OpCode::JMPLT | OpCode::JMPLE | OpCode::CALL | OpCode::TRY | OpCode::ENDTRY)
    }

    /// Whether this opcode is the long form of a short/long pair.
    pub fn is_long_form(&self) -> (r: bool)
        ensures
            r == self.spec_is_long_form(),
    {
        matches!(*self, OpCode::JMP_L | OpCode::JMPIF_L | OpCode::JMPIFNOT_L | OpCode::JMPEQ_L | OpCode::JMPNE_L | OpCode::JMPGT_L | OpCode::JMPGE_L | OpCode::JMPLT_L | OpCode::JMPLE_L | OpCode::CALL_L | OpCode::TRY_L | OpCode::ENDTRY_L)
    }

    /// Whether this opcode is the short form of a short/long pair.
    pub fn has_long_form(&self) -> (r: bool)
        ensures
            r == self.spec_has_long_form(),
    {
        matches!(*self, OpCode::JMP | OpCode::JMPIF | OpCode::JMPIFNOT | OpCode::JMPEQ | OpCode::JMPNE | OpCode::JMPGT | OpCode::JMPGE | OpCode::JMPLT | OpCode::JMPLE | OpCode::CALL | OpCode::TRY | OpCode::ENDTRY)
    }

    /// The long form of this opcode, or the opcode itself when it has none.
    pub fn to_long_form(&self) -> (r: OpCode)
        ensures
            r == self.spec_to_long_form(),
    {
        match *self {
            OpCode::JMP => OpCode::JMP_L,
            OpCode::JMPIF => OpCode::JMPIF_L,
            OpCode::JMPIFNOT => OpCode::JMPIFNOT_L,
            OpCode::JMPEQ => OpCode::JMPEQ_L,
            OpCode::JMPNE => OpCode::JMPNE_L,
            OpCode::JMPGT => OpCode::JMPGT_L,
            OpCode::JMPGE => OpCode::JMPGE_L,
            OpCode::JMPLT => OpCode::JMPLT_L,
            OpCode::JMPLE => OpCode::JMPLE_L,
            OpCode::CALL => OpCode::CALL_L,
            OpCode::TRY => OpCode::TRY_L,
            OpCode::ENDTRY => OpCode::ENDTRY_L,
            other => other,
        }
    }
}

/// The name of an opcode as the disassembly prints it; an unknown byte
/// prints as `UNKNOWN_` and two upper-case hexadecimal digits.
pub open spec fn opcode_name(op: OpCode) -> Seq<char> {
    match op {
        OpCode::PUSHINT8 => "PUSHINT8"@,
        OpCode::PUSHINT16 => "PUSHINT16"@,
        OpCode::PUSHINT32 => "PUSHINT32"@,
        OpCode::PUSHINT64 => "PUSHINT64"@,
        OpCode::PUSHINT128 => "PUSHINT128"@,
        OpCode::PUSHINT256 => "PUSHINT256"@,
        OpCode::PUSHT => "PUSHT"@,
        OpCode::PUSHF => "PUSHF"@,
        OpCode::PUSHA => "PUSHA"@,
        OpCode::PUSHNULL => "PUSHNULL"@,
        OpCode::PUSHDATA1 => "PUSHDATA1"@,
        OpCode::PUSHDATA2 => "PUSHDATA2"@,
        OpCode::PUSHDATA4 => "PUSHDATA4"@,
        OpCode::PUSHM1 => "PUSHM1"@,
        OpCode::PUSH0 => "PUSH0"@,
        OpCode::PUSH1 => "PUSH1"@,
        OpCode::PUSH2 => "PUSH2"@,
        OpCode::PUSH3 => "PUSH3"@,
        OpCode::PUSH4 => "PUSH4"@,
        OpCode::PUSH5 => "PUSH5"@,
        OpCode::PUSH6 => "PUSH6"@,
        OpCode::PUSH7 => "PUSH7"@,
        OpCode::PUSH8 => "PUSH8"@,
        OpCode::PUSH9 => "PUSH9"@,
        OpCode::PUSH10 => "PUSH10"@,
        OpCode::PUSH11 => "PUSH11"@,
        OpCode::PUSH12 => "PUSH12"@,
        OpCode::PUSH13 => "PUSH13"@,
        OpCode::PUSH14 => "PUSH14"@,
        OpCode::PUSH15 => "PUSH15"@,
        OpCode::PUSH16 => "PUSH16"@,
        OpCode::NOP => "NOP"@,
        OpCode::JMP => "JMP"@,
        OpCode::JMP_L => "JMP_L"@,
        OpCode::JMPIF => "JMPIF"@,
        OpCode::JMPIF_L => "JMPIF_L"@,
        OpCode::JMPIFNOT => "JMPIFNOT"@,
        OpCode::JMPIFNOT_L => "JMPIFNOT_L"@,
        OpCode::JMPEQ => "JMPEQ"@,
        OpCode::JMPEQ_L => "JMPEQ_L"@,
        OpCode::JMPNE => "JMPNE"@,
        OpCode::JMPNE_L => "JMPNE_L"@,
        OpCode::JMPGT => "JMPGT"@,
        OpCode::JMPGT_L => "JMPGT_L"@,
        OpCode::JMPGE => "JMPGE"@,
        OpCode::JMPGE_L => "JMPGE_L"@,
        OpCode::JMPLT => "JMPLT"@,
        OpCode::JMPLT_L => "JMPLT_L"@,
        OpCode::JMPLE => "JMPLE"@,
        OpCode::JMPLE_L => "JMPLE_L"@,
        OpCode::CALL => "CALL"@,
        OpCode::CALL_L => "CALL_L"@,
        OpCode::CALLA => "CALLA"@,
        OpCode::CALLT => "CALLT"@,
        OpCode::ABORT => "ABORT"@,
        OpCode::ASSERT => "ASSERT"@,
        OpCode::THROW => "THROW"@,
        OpCode::TRY => "TRY"@,
        OpCode::TRY_L => "TRY_L"@,
        OpCode::ENDTRY => "ENDTRY"@,
        OpCode::ENDTRY_L => "ENDTRY_L"@,
        OpCode::ENDFINALLY => "ENDFINALLY"@,
        OpCode::RET => "RET"@,
        OpCode::SYSCALL => "SYSCALL"@,
        OpCode::DEPTH => "DEPTH"@,
        OpCode::DROP => "DROP"@,
        OpCode::NIP => "NIP"@,
        OpCode::XDROP => "XDROP"@,
        OpCode::CLEAR => "CLEAR"@,
        OpCode::DUP => "DUP"@,
        OpCode::OVER => "OVER"@,
        OpCode::PICK => "PICK"@,
        OpCode::TUCK => "TUCK"@,
        OpCode::SWAP => "SWAP"@,
        OpCode::ROT => "ROT"@,
        OpCode::ROLL => "ROLL"@,
        OpCode::REVERSE3 => "REVERSE3"@,
        OpCode::REVERSE4 => "REVERSE4"@,
        OpCode::REVERSEN => "REVERSEN"@,
        OpCode::INITSSLOT => "INITSSLOT"@,
        OpCode::INITSLOT => "INITSLOT"@,
        OpCode::LDSFLD0 => "LDSFLD0"@,
        OpCode::LDSFLD1 => "LDSFLD1"@,
        OpCode::LDSFLD2 => "LDSFLD2"@,
        OpCode::LDSFLD3 => "LDSFLD3"@,
        OpCode::LDSFLD4 => "LDSFLD4"@,
        OpCode::LDSFLD5 => "LDSFLD5"@,
        OpCode::LDSFLD6 => "LDSFLD6"@,
        OpCode::LDSFLD => "LDSFLD"@,
        OpCode::STSFLD0 => "STSFLD0"@,
        OpCode::STSFLD1 => "STSFLD1"@,
        OpCode::STSFLD2 => "STSFLD2"@,
        OpCode::STSFLD3 => "STSFLD3"@,
        OpCode::STSFLD4 => "STSFLD4"@,
        OpCode::STSFLD5 => "STSFLD5"@,
        OpCode::STSFLD6 => "STSFLD6"@,
        OpCode::STSFLD => "STSFLD"@,
        OpCode::LDLOC0 => "LDLOC0"@,
        OpCode::LDLOC1 => "LDLOC1"@,
        OpCode::LDLOC2 => "LDLOC2"@,
        OpCode::LDLOC3 => "LDLOC3"@,
        OpCode::LDLOC4 => "LDLOC4"@,
        OpCode::LDLOC5 => "LDLOC5"@,
        OpCode::LDLOC6 => "LDLOC6"@,
        OpCode::LDLOC => "LDLOC"@,
        OpCode::STLOC0 => "STLOC0"@,
        OpCode::STLOC1 => "STLOC1"@,
        OpCode::STLOC2 => "STLOC2"@,
        OpCode::STLOC3 => "STLOC3"@,
        OpCode::STLOC4 => "STLOC4"@,
        OpCode::STLOC5 => "STLOC5"@,
        OpCode::STLOC6 => "STLOC6"@,
        OpCode::STLOC => "STLOC"@,
        OpCode::LDARG0 => "LDARG0"@,
        OpCode::LDARG1 => "LDARG1"@,
        OpCode::LDARG2 => "LDARG2"@,
        OpCode::LDARG3 => "LDARG3"@,
        OpCode::LDARG4 => "LDARG4"@,
        OpCode::LDARG5 => "LDARG5"@,
        OpCode::LDARG6 => "LDARG6"@,
        OpCode::LDARG => "LDARG"@,
        OpCode::STARG0 => "STARG0"@,
        OpCode::STARG1 => "STARG1"@,
        OpCode::STARG2 => "STARG2"@,
        OpCode::STARG3 => "STARG3"@,
        OpCode::STARG4 => "STARG4"@,
        OpCode::STARG5 => "STARG5"@,
        OpCode::STARG6 => "STARG6"@,
        OpCode::STARG => "STARG"@,
        OpCode::NEWBUFFER => "NEWBUFFER"@,
        OpCode::MEMCPY => "MEMCPY"@,
        OpCode::CAT => "CAT"@,
        OpCode::SUBSTR => "SUBSTR"@,
        OpCode::LEFT => "LEFT"@,
        OpCode::RIGHT => "RIGHT"@,
        OpCode::INVERT => "INVERT"@,
        OpCode::AND => "AND"@,
        OpCode::OR => "OR"@,
        OpCode::XOR => "XOR"@,
        OpCode::EQUAL => "EQUAL"@,
        OpCode::NOTEQUAL => "NOTEQUAL"@,
        OpCode::SIGN => "SIGN"@,
        OpCode::ABS => "ABS"@,
        OpCode::NEGATE => "NEGATE"@,
        OpCode::INC => "INC"@,
        OpCode::DEC => "DEC"@,
        OpCode::ADD => "ADD"@,
        OpCode::SUB => "SUB"@,
        OpCode::MUL => "MUL"@,
        OpCode::DIV => "DIV"@,
        OpCode::MOD => "MOD"@,
        OpCode::POW => "POW"@,
        OpCode::SQRT => "SQRT"@,
        OpCode::MODMUL => "MODMUL"@,
        OpCode::MODPOW => "MODPOW"@,
        OpCode::SHL => "SHL"@,
        OpCode::SHR => "SHR"@,
        OpCode::NOT => "NOT"@,
        OpCode::BOOLAND => "BOOLAND"@,
        OpCode::BOOLOR => "BOOLOR"@,
        OpCode::NZ => "NZ"@,
        OpCode::NUMEQUAL => "NUMEQUAL"@,
        OpCode::NUMNOTEQUAL => "NUMNOTEQUAL"@,
        OpCode::LT => "LT"@,
        OpCode::LE => "LE"@,
        OpCode::GT => "GT"@,
        OpCode::GE => "GE"@,
        OpCode::MIN => "MIN"@,
        OpCode::MAX => "MAX"@,
        OpCode::WITHIN => "WITHIN"@,
        OpCode::PACKMAP => "PACKMAP"@,
        OpCode::PACKSTRUCT => "PACKSTRUCT"@,
        OpCode::PACKARRAY => "PACKARRAY"@,
        OpCode::UNPACK => "UNPACK"@,
        OpCode::NEWARRAY0 => "NEWARRAY0"@,
        OpCode::NEWARRAY => "NEWARRAY"@,
        OpCode::NEWARRAYT => "NEWARRAYT"@,
        OpCode::NEWSTRUCT0 => "NEWSTRUCT0"@,
        OpCode::NEWSTRUCT => "NEWSTRUCT"@,
        OpCode::NEWMAP => "NEWMAP"@,
        OpCode::SIZE => "SIZE"@,
        OpCode::HASKEY => "HASKEY"@,
        OpCode::KEYS => "KEYS"@,
        OpCode::VALUES => "VALUES"@,
        OpCode::PICKITEM => "PICKITEM"@,
        OpCode::APPEND => "APPEND"@,
        OpCode::SETITEM => "SETITEM"@,
        OpCode::REVERSEITEMS => "REVERSEITEMS"@,
        OpCode::REMOVE => "REMOVE"@,
        OpCode::CLEARITEMS => "CLEARITEMS"@,
        OpCode::POPITEM => "POPITEM"@,
        OpCode::ISNULL => "ISNULL"@,
        OpCode::ISTYPE => "ISTYPE"@,
        OpCode::CONVERT => "CONVERT"@,
        OpCode::ABORTMSG => "ABORTMSG"@,
        OpCode::ASSERTMSG => "ASSERTMSG"@,
        OpCode::UNKNOWN(b) => "UNKNOWN_"@ + seq![upper_hex_digit(b / 16), upper_hex_digit(b % 16)],
    }
}

/// Upper-case hexadecimal digit for a value below 16.
pub open spec fn upper_hex_digit(d: u8) -> char {
    if d < 10 { ((48 + d) as u8) as char } else { ((55 + d) as u8) as char }
}

fn upper_hex_digit_char(d: u8) -> (r: char)
    requires
        d < 16,
    ensures
        r == upper_hex_digit(d),
{
    if d < 10 { (48 + d) as char } else { (55 + d) as char }
}

fn known_name(op: OpCode) -> (r: &'static str)
    requires
        !(op is UNKNOWN),
    ensures
        r@ == opcode_name(op),
{
    match op {
        OpCode::PUSHINT8 => "PUSHINT8",
        OpCode::PUSHINT16 => "PUSHINT16",
        OpCode::PUSHINT32 => "PUSHINT32",
        OpCode::PUSHINT64 => "PUSHINT64",
        OpCode::PUSHINT128 => "PUSHINT128",
        OpCode::PUSHINT256 => "PUSHINT256",
        OpCode::PUSHT => "PUSHT",
        OpCode::PUSHF => "PUSHF",
        OpCode::PUSHA => "PUSHA",
        OpCode::PUSHNULL => "PUSHNULL",
        OpCode::PUSHDATA1 => "PUSHDATA1",
        OpCode::PUSHDATA2 => "PUSHDATA2",
        OpCode::PUSHDATA4 => "PUSHDATA4",
        OpCode::PUSHM1 => "PUSHM1",
        OpCode::PUSH0 => "PUSH0",
        OpCode::PUSH1 => "PUSH1",
        OpCode::PUSH2 => "PUSH2",
        OpCode::PUSH3 => "PUSH3",
        OpCode::PUSH4 => "PUSH4",
        OpCode::PUSH5 => "PUSH5",
        OpCode::PUSH6 => "PUSH6",
        OpCode::PUSH7 => "PUSH7",
        OpCode::PUSH8 => "PUSH8",
        OpCode::PUSH9 => "PUSH9",
        OpCode::PUSH10 => "PUSH10",
        OpCode::PUSH11 => "PUSH11",
        OpCode::PUSH12 => "PUSH12",
        OpCode::PUSH13 => "PUSH13",
        OpCode::PUSH14 => "PUSH14",
        OpCode::PUSH15 => "PUSH15",
        OpCode::PUSH16 => "PUSH16",
        OpCode::NOP => "NOP",
        OpCode::JMP => "JMP",
        OpCode::JMP_L => "JMP_L",
        OpCode::JMPIF => "JMPIF",
        OpCode::JMPIF_L => "JMPIF_L",
        OpCode::JMPIFNOT => "JMPIFNOT",
        OpCode::JMPIFNOT_L => "JMPIFNOT_L",
        OpCode::JMPEQ => "JMPEQ",
        OpCode::JMPEQ_L => "JMPEQ_L",
        OpCode::JMPNE => "JMPNE",
        OpCode::JMPNE_L => "JMPNE_L",
        OpCode::JMPGT => "JMPGT",
        OpCode::JMPGT_L => "JMPGT_L",
        OpCode::JMPGE => "JMPGE",
        OpCode::JMPGE_L => "JMPGE_L",
        OpCode::JMPLT => "JMPLT",
        OpCode::JMPLT_L => "JMPLT_L",
        OpCode::JMPLE => "JMPLE",
        OpCode::JMPLE_L => "JMPLE_L",
        OpCode::CALL => "CALL",
        OpCode::CALL_L => "CALL_L",
        OpCode::CALLA => "CALLA",
        OpCode::CALLT => "CALLT",
        OpCode::ABORT => "ABORT",
        OpCode::ASSERT => "ASSERT",
        OpCode::THROW => "THROW",
        OpCode::TRY => "TRY",
        OpCode::TRY_L => "TRY_L",
        OpCode::ENDTRY => "ENDTRY",
        OpCode::ENDTRY_L => "ENDTRY_L",
        OpCode::ENDFINALLY => "ENDFINALLY",
        OpCode::RET => "RET",
        OpCode::SYSCALL => "SYSCALL",
        OpCode::DEPTH => "DEPTH",
        OpCode::DROP => "DROP",
        OpCode::NIP => "NIP",
        OpCode::XDROP => "XDROP",
        OpCode::CLEAR => "CLEAR",
        OpCode::DUP => "DUP",
        OpCode::OVER => "OVER",
        OpCode::PICK => "PICK",
        OpCode::TUCK => "TUCK",
        OpCode::SWAP => "SWAP",
        OpCode::ROT => "ROT",
        OpCode::ROLL => "ROLL",
        OpCode::REVERSE3 => "REVERSE3",
        OpCode::REVERSE4 => "REVERSE4",
        OpCode::REVERSEN => "REVERSEN",
        OpCode::INITSSLOT => "INITSSLOT",
        OpCode::INITSLOT => "INITSLOT",
        OpCode::LDSFLD0 => "LDSFLD0",
        OpCode::LDSFLD1 => "LDSFLD1",
        OpCode::LDSFLD2 => "LDSFLD2",
        OpCode::LDSFLD3 => "LDSFLD3",
        OpCode::LDSFLD4 => "LDSFLD4",
        OpCode::LDSFLD5 => "LDSFLD5",
        OpCode::LDSFLD6 => "LDSFLD6",
        OpCode::LDSFLD => "LDSFLD",
        OpCode::STSFLD0 => "STSFLD0",
        OpCode::STSFLD1 => "STSFLD1",
        OpCode::STSFLD2 => "STSFLD2",
        OpCode::STSFLD3 => "STSFLD3",
        OpCode::STSFLD4 => "STSFLD4",
        OpCode::STSFLD5 => "STSFLD5",
        OpCode::STSFLD6 => "STSFLD6",
        OpCode::STSFLD => "STSFLD",
        OpCode::LDLOC0 => "LDLOC0",
        OpCode::LDLOC1 => "LDLOC1",
        OpCode::LDLOC2 => "LDLOC2",
        OpCode::LDLOC3 => "LDLOC3",
        OpCode::LDLOC4 => "LDLOC4",
        OpCode::LDLOC5 => "LDLOC5",
        OpCode::LDLOC6 => "LDLOC6",
        OpCode::LDLOC => "LDLOC",
        OpCode::STLOC0 => "STLOC0",
        OpCode::STLOC1 => "STLOC1",
        OpCode::STLOC2 => "STLOC2",
        OpCode::STLOC3 => "STLOC3",
        OpCode::STLOC4 => "STLOC4",
        OpCode::STLOC5 => "STLOC5",
        OpCode::STLOC6 => "STLOC6",
        OpCode::STLOC => "STLOC",
        OpCode::LDARG0 => "LDARG0",
        OpCode::LDARG1 => "LDARG1",
        OpCode::LDARG2 => "LDARG2",
        OpCode::LDARG3 => "LDARG3",
        OpCode::LDARG4 => "LDARG4",
        OpCode::LDARG5 => "LDARG5",
        OpCode::LDARG6 => "LDARG6",
        OpCode::LDARG => "LDARG",
        OpCode::STARG0 => "STARG0",
        OpCode::STARG1 => "STARG1",
        OpCode::STARG2 => "STARG2",
        OpCode::STARG3 => "STARG3",
        OpCode::STARG4 => "STARG4",
        OpCode::STARG5 => "STARG5",
        OpCode::STARG6 => "STARG6",
        OpCode::STARG => "STARG",
        OpCode::NEWBUFFER => "NEWBUFFER",
        OpCode::MEMCPY => "MEMCPY",
        OpCode::CAT => "CAT",
        OpCode::SUBSTR => "SUBSTR",
        OpCode::LEFT => "LEFT",
        OpCode::RIGHT => "RIGHT",
        OpCode::INVERT => "INVERT",
        OpCode::AND => "AND",
        OpCode::OR => "OR",
        OpCode::XOR => "XOR",
        OpCode::EQUAL => "EQUAL",
        OpCode::NOTEQUAL => "NOTEQUAL",
        OpCode::SIGN => "SIGN",
        OpCode::ABS => "ABS",
        OpCode::NEGATE => "NEGATE",
        OpCode::INC => "INC",
        OpCode::DEC => "DEC",
        OpCode::ADD => "ADD",
        OpCode::SUB => "SUB",
        OpCode::MUL => "MUL",
        OpCode::DIV => "DIV",
        OpCode::MOD => "MOD",
        OpCode::POW => "POW",
        OpCode::SQRT => "SQRT",
        OpCode::MODMUL => "MODMUL",
        OpCode::MODPOW => "MODPOW",
        OpCode::SHL => "SHL",
        OpCode::SHR => "SHR",
        OpCode::NOT => "NOT",
        OpCode::BOOLAND => "BOOLAND",
        OpCode::BOOLOR => "BOOLOR",
        OpCode::NZ => "NZ",
        OpCode::NUMEQUAL => "NUMEQUAL",
        OpCode::NUMNOTEQUAL => "NUMNOTEQUAL",
        OpCode::LT => "LT",
        OpCode::LE => "LE",
        OpCode::GT => "GT",
        OpCode::GE => "GE",
        OpCode::MIN => "MIN",
        OpCode::MAX => "MAX",
        OpCode::WITHIN => "WITHIN",
        OpCode::PACKMAP => "PACKMAP",
        OpCode::PACKSTRUCT => "PACKSTRUCT",
        OpCode::PACKARRAY => "PACKARRAY",
        OpCode::UNPACK => "UNPACK",
        OpCode::NEWARRAY0 => "NEWARRAY0",
        OpCode::NEWARRAY => "NEWARRAY",
        OpCode::NEWARRAYT => "NEWARRAYT",
        OpCode::NEWSTRUCT0 => "NEWSTRUCT0",
        OpCode::NEWSTRUCT => "NEWSTRUCT",
        OpCode::NEWMAP => "NEWMAP",
        OpCode::SIZE => "SIZE",
        OpCode::HASKEY => "HASKEY",
        OpCode::KEYS => "KEYS",
        OpCode::VALUES => "VALUES",
        OpCode::PICKITEM => "PICKITEM",
        OpCode::APPEND => "APPEND",
        OpCode::SETITEM => "SETITEM",
        OpCode::REVERSEITEMS => "REVERSEITEMS",
        OpCode::REMOVE => "REMOVE",
        OpCode::CLEARITEMS => "CLEARITEMS",
        OpCode::POPITEM => "POPITEM",
        OpCode::ISNULL => "ISNULL",
        OpCode::ISTYPE => "ISTYPE",
        OpCode::CONVERT => "CONVERT",
        OpCode::ABORTMSG => "ABORTMSG",
        OpCode::ASSERTMSG => "ASSERTMSG",
        OpCode::UNKNOWN(_) => "",
    }
}

impl OpCode {
    /// The name of this opcode as the disassembly prints it.
    pub fn name(&self) -> (r: String)
        ensures
            r@ == opcode_name(*self),
    {
        match *self {
            OpCode::UNKNOWN(b) => {
                let mut s = String::from_str("UNKNOWN_");
                push_char(&mut s, upper_hex_digit_char(b / 16));
                push_char(&mut s, upper_hex_digit_char(b % 16));
                assert(s@ =~= opcode_name(*self));
                s
            },
            other => String::from_str(known_name(other)),
        }
    }
}

/// The bytecode byte of an opcode.
#[verifier::opaque]
pub open spec fn opcode_byte(op: OpCode) -> u8 {
    match op {
        OpCode::PUSHINT8 => 0x00u8,
        OpCode::PUSHINT16 => 0x01u8,
        OpCode::PUSHINT32 => 0x02u8,
        OpCode::PUSHINT64 => 0x03u8,
        OpCode::PUSHINT128 => 0x04u8,
        OpCode::PUSHINT256 => 0x05u8,
        OpCode::PUSHT => 0x08u8,
        OpCode::PUSHF => 0x09u8,
        OpCode::PUSHA => 0x0Au8,
        OpCode::PUSHNULL => 0x0Bu8,
        OpCode::PUSHDATA1 => 0x0Cu8,
        OpCode::PUSHDATA2 => 0x0Du8,
        OpCode::PUSHDATA4 => 0x0Eu8,
        OpCode::PUSHM1 => 0x0Fu8,
        OpCode::PUSH0 => 0x10u8,
        OpCode::PUSH1 => 0x11u8,
        OpCode::PUSH2 => 0x12u8,
        OpCode::PUSH3 => 0x13u8,
        OpCode::PUSH4 => 0x14u8,
        OpCode::PUSH5 => 0x15u8,
        OpCode::PUSH6 => 0x16u8,
        OpCode::PUSH7 => 0x17u8,
        OpCode::PUSH8 => 0x18u8,
        OpCode::PUSH9 => 0x19u8,
        OpCode::PUSH10 => 0x1Au8,
        OpCode::PUSH11 => 0x1Bu8,
        OpCode::PUSH12 => 0x1Cu8,
        OpCode::PUSH13 => 0x1Du8,
        OpCode::PUSH14 => 0x1Eu8,
        OpCode::PUSH15 => 0x1Fu8,
        OpCode::PUSH16 => 0x20u8,
        OpCode::NOP => 0x21u8,
        OpCode::JMP => 0x22u8,
        OpCode::JMP_L => 0x23u8,
        OpCode::JMPIF => 0x24u8,
        OpCode::JMPIF_L => 0x25u8,
        OpCode::JMPIFNOT => 0x26u8,
        OpCode::JMPIFNOT_L => 0x27u8,
        OpCode::JMPEQ => 0x28u8,
        OpCode::JMPEQ_L => 0x29u8,
        OpCode::JMPNE => 0x2Au8,
        OpCode::JMPNE_L => 0x2Bu8,
        OpCode::JMPGT => 0x2Cu8,
        OpCode::JMPGT_L => 0x2Du8,
        OpCode::JMPGE => 0x2Eu8,
        OpCode::JMPGE_L => 0x2Fu8,
        OpCode::JMPLT => 0x30u8,
        OpCode::JMPLT_L => 0x31u8,
        OpCode::JMPLE => 0x32u8,
        OpCode::JMPLE_L => 0x33u8,
        OpCode::CALL => 0x34u8,
        OpCode::CALL_L => 0x35u8,
        OpCode::CALLA => 0x36u8,
        OpCode::CALLT => 0x37u8,
        OpCode::ABORT => 0x38u8,
        OpCode::ASSERT => 0x39u8,
        OpCode::THROW => 0x3Au8,
        OpCode::TRY => 0x3Bu8,
        OpCode::TRY_L => 0x3Cu8,
        OpCode::ENDTRY => 0x3Du8,
        OpCode::ENDTRY_L => 0x3Eu8,
        OpCode::ENDFINALLY => 0x3Fu8,
        OpCode::RET => 0x40u8,
        OpCode::SYSCALL => 0x41u8,
        OpCode::DEPTH => 0x43u8,
        OpCode::DROP => 0x45u8,
        OpCode::NIP => 0x46u8,
        OpCode::XDROP => 0x48u8,
        OpCode::CLEAR => 0x49u8,
        OpCode::DUP => 0x4Au8,
        OpCode::OVER => 0x4Bu8,
        OpCode::PICK => 0x4Du8,
        OpCode::TUCK => 0x4Eu8,
        OpCode::SWAP => 0x50u8,
        OpCode::ROT => 0x51u8,
        OpCode::ROLL => 0x52u8,
        OpCode::REVERSE3 => 0x53u8,
        OpCode::REVERSE4 => 0x54u8,
        OpCode::REVERSEN => 0x55u8,
        OpCode::INITSSLOT => 0x56u8,
        OpCode::INITSLOT => 0x57u8,
        OpCode::LDSFLD0 => 0x58u8,
        OpCode::LDSFLD1 => 0x59u8,
        OpCode::LDSFLD2 => 0x5Au8,
        OpCode::LDSFLD3 => 0x5Bu8,
        OpCode::LDSFLD4 => 0x5Cu8,
        OpCode::LDSFLD5 => 0x5Du8,
        OpCode::LDSFLD6 => 0x5Eu8,
        OpCode::LDSFLD => 0x5Fu8,
        OpCode::STSFLD0 => 0x60u8,
        OpCode::STSFLD1 => 0x61u8,
        OpCode::STSFLD2 => 0x62u8,
        OpCode::STSFLD3 => 0x63u8,
        OpCode::STSFLD4 => 0x64u8,
        OpCode::STSFLD5 => 0x65u8,
        OpCode::STSFLD6 => 0x66u8,
        OpCode::STSFLD => 0x67u8,
        OpCode::LDLOC => 0x68u8,
        OpCode::STLOC => 0x69u8,
        OpCode::LDLOC2 => 0x6Au8,
        OpCode::LDLOC3 => 0x6Bu8,
        OpCode::LDLOC4 => 0x6Cu8,
        OpCode::LDLOC5 => 0x6Du8,
        OpCode::LDLOC6 => 0x6Eu8,
        OpCode::LDLOC0 => 0x6Fu8,
        OpCode::STLOC0 => 0x70u8,
        OpCode::STLOC1 => 0x71u8,
        OpCode::STLOC2 => 0x72u8,
        OpCode::NEWBUFFER => 0x73u8,
        OpCode::STLOC4 => 0x74u8,
        OpCode::STLOC5 => 0x75u8,
        OpCode::STLOC6 => 0x76u8,
        OpCode::LDLOC1 => 0x77u8,
        OpCode::LDARG0 => 0x78u8,
        OpCode::LDARG1 => 0x79u8,
        OpCode::LDARG2 => 0x7Au8,
        OpCode::LDARG3 => 0x7Bu8,
        OpCode::LDARG4 => 0x7Cu8,
        OpCode::LDARG5 => 0x7Du8,
        OpCode::LDARG6 => 0x7Eu8,
        OpCode::LDARG => 0x7Fu8,
        OpCode::STARG0 => 0x80u8,
        OpCode::STARG1 => 0x81u8,
        OpCode::STARG2 => 0x82u8,
        OpCode::STARG3 => 0x83u8,
        OpCode::STARG4 => 0x84u8,
        OpCode::STARG5 => 0x85u8,
        OpCode::STARG6 => 0x86u8,
        OpCode::STARG => 0x87u8,
        OpCode::STLOC3 => 0x88u8,
        OpCode::MEMCPY => 0x89u8,
        OpCode::CAT => 0x8Bu8,
        OpCode::SUBSTR => 0x8Cu8,
        OpCode::LEFT => 0x8Du8,
        OpCode::ADD => 0x8Eu8,
        OpCode::INVERT => 0x90u8,
        OpCode::AND => 0x91u8,
        OpCode::OR => 0x92u8,
        OpCode::XOR => 0x93u8,
        OpCode::EQUAL => 0x97u8,
        OpCode::NOTEQUAL => 0x98u8,
        OpCode::SIGN => 0x99u8,
        OpCode::ABS => 0x9Au8,
        OpCode::NEGATE => 0x9Bu8,
        OpCode::INC => 0x9Cu8,
        OpCode::DEC => 0x9Du8,
        OpCode::RIGHT => 0x9Eu8,
        OpCode::SUB => 0x9Fu8,
        OpCode::MUL => 0xA0u8,
        OpCode::DIV => 0xA1u8,
        OpCode::MOD => 0xA2u8,
        OpCode::POW => 0xA3u8,
        OpCode::SQRT => 0xA4u8,
        OpCode::MODMUL => 0xA5u8,
        OpCode::MODPOW => 0xA6u8,
        OpCode::SHL => 0xA8u8,
        OpCode::SHR => 0xA9u8,
        OpCode::NOT => 0xAAu8,
        OpCode::BOOLAND => 0xABu8,
        OpCode::BOOLOR => 0xACu8,
        OpCode::NEWARRAY => 0xADu8,
        OpCode::NZ => 0xB1u8,
        OpCode::NUMEQUAL => 0xB3u8,
        OpCode::NUMNOTEQUAL => 0xB4u8,
        OpCode::LT => 0xB5u8,
        OpCode::LE => 0xB6u8,
        OpCode::GT => 0xB7u8,
        OpCode::GE => 0xB8u8,
        OpCode::MIN => 0xB9u8,
        OpCode::MAX => 0xBAu8,
        OpCode::WITHIN => 0xBBu8,
        OpCode::PACKMAP => 0xBEu8,
        OpCode::PACKSTRUCT => 0xBFu8,
        OpCode::PACKARRAY => 0xC0u8,
        OpCode::UNPACK => 0xC1u8,
        OpCode::CONVERT => 0xC2u8,
        OpCode::NEWARRAYT => 0xC4u8,
        OpCode::NEWSTRUCT0 => 0xC5u8,
        OpCode::NEWSTRUCT => 0xC6u8,
        OpCode::NEWMAP => 0xC8u8,
        OpCode::SIZE => 0xCAu8,
        OpCode::HASKEY => 0xCBu8,
        OpCode::KEYS => 0xCCu8,
        OpCode::VALUES => 0xCDu8,
        OpCode::PICKITEM => 0xCEu8,
        OpCode::APPEND => 0xCFu8,
        OpCode::SETITEM => 0xD0u8,
        OpCode::REVERSEITEMS => 0xD1u8,
        OpCode::REMOVE => 0xD2u8,
        OpCode::CLEARITEMS => 0xD3u8,
        OpCode::POPITEM => 0xD4u8,
        OpCode::ISNULL => 0xD8u8,
        OpCode::ISTYPE => 0xD9u8,
        OpCode::NEWARRAY0 => 0xDBu8,
        OpCode::ABORTMSG => 0xE0u8,
        OpCode::ASSERTMSG => 0xE1u8,
        OpCode::UNKNOWN(b) => b,
    }
}

impl OpCode {
    /// The bytecode byte of this opcode.
    pub fn byte(&self) -> (r: u8)
        ensures
            r == opcode_byte(*self),
    {
        reveal(opcode_byte);
        match self {
            OpCode::PUSHINT8 => 0x00u8,
            OpCode::PUSHINT16 => 0x01u8,
            OpCode::PUSHINT32 => 0x02u8,
            OpCode::PUSHINT64 => 0x03u8,
            OpCode::PUSHINT128 => 0x04u8,
            OpCode::PUSHINT256 => 0x05u8,
            OpCode::PUSHT => 0x08u8,
            OpCode::PUSHF => 0x09u8,
            OpCode::PUSHA => 0x0Au8,
            OpCode::PUSHNULL => 0x0Bu8,
            OpCode::PUSHDATA1 => 0x0Cu8,
            OpCode::PUSHDATA2 => 0x0Du8,
            OpCode::PUSHDATA4 => 0x0Eu8,
            OpCode::PUSHM1 => 0x0Fu8,
            OpCode::PUSH0 => 0x10u8,
            OpCode::PUSH1 => 0x11u8,
            OpCode::PUSH2 => 0x12u8,
            OpCode::PUSH3 => 0x13u8,
            OpCode::PUSH4 => 0x14u8,
            OpCode::PUSH5 => 0x15u8,
            OpCode::PUSH6 => 0x16u8,
            OpCode::PUSH7 => 0x17u8,
            OpCode::PUSH8 => 0x18u8,
            OpCode::PUSH9 => 0x19u8,
            OpCode::PUSH10 => 0x1Au8,
            OpCode::PUSH11 => 0x1Bu8,
            OpCode::PUSH12 => 0x1Cu8,
            OpCode::PUSH13 => 0x1Du8,
            OpCode::PUSH14 => 0x1Eu8,
            OpCode::PUSH15 => 0x1Fu8,
            OpCode::PUSH16 => 0x20u8,
            OpCode::NOP => 0x21u8,
            OpCode::JMP => 0x22u8,
            OpCode::JMP_L => 0x23u8,
            OpCode::JMPIF => 0x24u8,
            OpCode::JMPIF_L => 0x25u8,
            OpCode::JMPIFNOT => 0x26u8,
            OpCode::JMPIFNOT_L => 0x27u8,
            OpCode::JMPEQ => 0x28u8,
            OpCode::JMPEQ_L => 0x29u8,
            OpCode::JMPNE => 0x2Au8,
            OpCode::JMPNE_L => 0x2Bu8,
            OpCode::JMPGT => 0x2Cu8,
            OpCode::JMPGT_L => 0x2Du8,
            OpCode::JMPGE => 0x2Eu8,
            OpCode::JMPGE_L => 0x2Fu8,
            OpCode::JMPLT => 0x30u8,
            OpCode::JMPLT_L => 0x31u8,
            OpCode::JMPLE => 0x32u8,
            OpCode::JMPLE_L => 0x33u8,
            OpCode::CALL => 0x34u8,
            OpCode::CALL_L => 0x35u8,
            OpCode::CALLA => 0x36u8,
            OpCode::CALLT => 0x37u8,
            OpCode::ABORT => 0x38u8,
            OpCode::ASSERT => 0x39u8,
            OpCode::THROW => 0x3Au8,
            OpCode::TRY => 0x3Bu8,
            OpCode::TRY_L => 0x3Cu8,
            OpCode::ENDTRY => 0x3Du8,
            OpCode::ENDTRY_L => 0x3Eu8,
            OpCode::ENDFINALLY => 0x3Fu8,
            OpCode::RET => 0x40u8,
            OpCode::SYSCALL => 0x41u8,
            OpCode::DEPTH => 0x43u8,
            OpCode::DROP => 0x45u8,
            OpCode::NIP => 0x46u8,
            OpCode::XDROP => 0x48u8,
            OpCode::CLEAR => 0x49u8,
            OpCode::DUP => 0x4Au8,
            OpCode::OVER => 0x4Bu8,
            OpCode::PICK => 0x4Du8,
            OpCode::TUCK => 0x4Eu8,
            OpCode::SWAP => 0x50u8,
            OpCode::ROT => 0x51u8,
            OpCode::ROLL => 0x52u8,
            OpCode::REVERSE3 => 0x53u8,
            OpCode::REVERSE4 => 0x54u8,
            OpCode::REVERSEN => 0x55u8,
            OpCode::INITSSLOT => 0x56u8,
            OpCode::INITSLOT => 0x57u8,
            OpCode::LDSFLD0 => 0x58u8,
            OpCode::LDSFLD1 => 0x59u8,
            OpCode::LDSFLD2 => 0x5Au8,
            OpCode::LDSFLD3 => 0x5Bu8,
            OpCode::LDSFLD4 => 0x5Cu8,
            OpCode::LDSFLD5 => 0x5Du8,
            OpCode::LDSFLD6 => 0x5Eu8,
            OpCode::LDSFLD => 0x5Fu8,
            OpCode::STSFLD0 => 0x60u8,
            OpCode::STSFLD1 => 0x61u8,
            OpCode::STSFLD2 => 0x62u8,
            OpCode::STSFLD3 => 0x63u8,
            OpCode::STSFLD4 => 0x64u8,
            OpCode::STSFLD5 => 0x65u8,
            OpCode::STSFLD6 => 0x66u8,
            OpCode::STSFLD => 0x67u8,
            OpCode::LDLOC => 0x68u8,
            OpCode::STLOC => 0x69u8,
            OpCode::LDLOC2 => 0x6Au8,
            OpCode::LDLOC3 => 0x6Bu8,
            OpCode::LDLOC4 => 0x6Cu8,
            OpCode::LDLOC5 => 0x6Du8,
            OpCode::LDLOC6 => 0x6Eu8,
            OpCode::LDLOC0 => 0x6Fu8,
            OpCode::STLOC0 => 0x70u8,
            OpCode::STLOC1 => 0x71u8,
            OpCode::STLOC2 => 0x72u8,
            OpCode::NEWBUFFER => 0x73u8,
            OpCode::STLOC4 => 0x74u8,
            OpCode::STLOC5 => 0x75u8,
            OpCode::STLOC6 => 0x76u8,
            OpCode::LDLOC1 => 0x77u8,
            OpCode::LDARG0 => 0x78u8,
            OpCode::LDARG1 => 0x79u8,
            OpCode::LDARG2 => 0x7Au8,
            OpCode::LDARG3 => 0x7Bu8,
            OpCode::LDARG4 => 0x7Cu8,
            OpCode::LDARG5 => 0x7Du8,
            OpCode::LDARG6 => 0x7Eu8,
            OpCode::LDARG => 0x7Fu8,
            OpCode::STARG0 => 0x80u8,
            OpCode::STARG1 => 0x81u8,
            OpCode::STARG2 => 0x82u8,
            OpCode::STARG3 => 0x83u8,
            OpCode::STARG4 => 0x84u8,
            OpCode::STARG5 => 0x85u8,
            OpCode::STARG6 => 0x86u8,
            OpCode::STARG => 0x87u8,
            OpCode::STLOC3 => 0x88u8,
            OpCode::MEMCPY => 0x89u8,
            OpCode::CAT => 0x8Bu8,
            OpCode::SUBSTR => 0x8Cu8,
            OpCode::LEFT => 0x8Du8,
            OpCode::ADD => 0x8Eu8,
            OpCode::INVERT => 0x90u8,
            OpCode::AND => 0x91u8,
            OpCode::OR => 0x92u8,
            OpCode::XOR => 0x93u8,
            OpCode::EQUAL => 0x97u8,
            OpCode::NOTEQUAL => 0x98u8,
            OpCode::SIGN => 0x99u8,
            OpCode::ABS => 0x9Au8,
            OpCode::NEGATE => 0x9Bu8,
            OpCode::INC => 0x9Cu8,
            OpCode::DEC => 0x9Du8,
            OpCode::RIGHT => 0x9Eu8,
            OpCode::SUB => 0x9Fu8,
            OpCode::MUL => 0xA0u8,
            OpCode::DIV => 0xA1u8,
            OpCode::MOD => 0xA2u8,
            OpCode::POW => 0xA3u8,
            OpCode::SQRT => 0xA4u8,
            OpCode::MODMUL => 0xA5u8,
            OpCode::MODPOW => 0xA6u8,
            OpCode::SHL => 0xA8u8,
            OpCode::SHR => 0xA9u8,
            OpCode::NOT => 0xAAu8,
            OpCode::BOOLAND => 0xABu8,
            OpCode::BOOLOR => 0xACu8,
            OpCode::NEWARRAY => 0xADu8,
            OpCode::NZ => 0xB1u8,
            OpCode::NUMEQUAL => 0xB3u8,
            OpCode::NUMNOTEQUAL => 0xB4u8,
            OpCode::LT => 0xB5u8,
            OpCode::LE => 0xB6u8,
            OpCode::GT => 0xB7u8,
            OpCode::GE => 0xB8u8,
            OpCode::MIN => 0xB9u8,
            OpCode::MAX => 0xBAu8,
            OpCode::WITHIN => 0xBBu8,
            OpCode::PACKMAP => 0xBEu8,
            OpCode::PACKSTRUCT => 0xBFu8,
            OpCode::PACKARRAY => 0xC0u8,
            OpCode::UNPACK => 0xC1u8,
            OpCode::CONVERT => 0xC2u8,
            OpCode::NEWARRAYT => 0xC4u8,
            OpCode::NEWSTRUCT0 => 0xC5u8,
            OpCode::NEWSTRUCT => 0xC6u8,
            OpCode::NEWMAP => 0xC8u8,
            OpCode::SIZE => 0xCAu8,
            OpCode::HASKEY => 0xCBu8,
            OpCode::KEYS => 0xCCu8,
            OpCode::VALUES => 0xCDu8,
            OpCode::PICKITEM => 0xCEu8,
            OpCode::APPEND => 0xCFu8,
            OpCode::SETITEM => 0xD0u8,
            OpCode::REVERSEITEMS => 0xD1u8,
            OpCode::REMOVE => 0xD2u8,
            OpCode::CLEARITEMS => 0xD3u8,
            OpCode::POPITEM => 0xD4u8,
            OpCode::ISNULL => 0xD8u8,
            OpCode::ISTYPE => 0xD9u8,
            OpCode::NEWARRAY0 => 0xDBu8,
            OpCode::ABORTMSG => 0xE0u8,
            OpCode::ASSERTMSG => 0xE1u8,
            OpCode::UNKNOWN(b) => *b,
        }
    }
}

} // verus!
