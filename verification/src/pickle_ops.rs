//! Opcodes, protocol versions and the error taxonomy of the pickle
//! interpreter.  The opcode set is closed: every byte either maps to one
//! known opcode or is rejected, as [`PickleOpcode::new`] states.

use vstd::prelude::*;

verus! {

/// The full opcode alphabet of the wire format.  Only a subset is
/// implemented by the interpreter; the rest decode but are rejected as
/// unsupported operations.
#[allow(non_camel_case_types)]
#[derive(Debug, PartialEq, Eq, Structural, Clone, Copy)]
pub enum PickleOpcode {
    MARK,
    STOP,
    POP,
    POP_MARK,
    DUP,
    FLOAT,
    INT,
    BININT,
    BININT1,
    LONG,
    BININT2,
    NONE,
    PERSID,
    BINPERSID,
    REDUCE,
    STRING,
    BINSTRING,
    SHORT_BINSTRING,
    UNICODE,
    BINUNICODE,
    APPEND,
    BUILD,
    GLOBAL,
    DICT,
    EMPTY_DICT,
    APPENDS,
    GET,
    BINGET,
    INST,
    LONG_BINGET,
    LIST,
    EMPTY_LIST,
    OBJ,
    PUT,
    BINPUT,
    LONG_BINPUT,
    SETITEM,
    TUPLE,
    EMPTY_TUPLE,
    SETITEMS,
    BINFLOAT,
    PROTO,
    NEWOBJ,
    EXT1,
    EXT2,
    EXT4,
    TUPLE1,
    TUPLE2,
    TUPLE3,
    NEWTRUE,
    NEWFALSE,
    LONG1,
    LONG4,
    BINBYTES,
    SHORT_BINBYTES,
    SHORT_BINUNICODE,
    BINUNICODE8,
    BINBYTES8,
    EMPTY_SET,
    ADDITEMS,
    FROZENSET,
    NEWOBJ_EX,
    STACK_GLOBAL,
    MEMOIZE,
    FRAME,
    BYTEARRAY8,
    NEXT_BUFFER,
    READONLY_BUFFER,
}

/// The opcode a byte stands for, or `None` for a byte outside the alphabet.
pub open spec fn spec_opcode(value: u8) -> Option<PickleOpcode> {
    match value {
        0x28u8 => Some(PickleOpcode::MARK),
        0x2Eu8 => Some(PickleOpcode::STOP),
        0x30u8 => Some(PickleOpcode::POP),
        0x31u8 => Some(PickleOpcode::POP_MARK),
        0x32u8 => Some(PickleOpcode::DUP),
        0x46u8 => Some(PickleOpcode::FLOAT),
        0x49u8 => Some(PickleOpcode::INT),
        0x4Au8 => Some(PickleOpcode::BININT),
        0x4Bu8 => Some(PickleOpcode::BININT1),
        0x4Cu8 => Some(PickleOpcode::LONG),
        0x4Du8 => Some(PickleOpcode::BININT2),
        0x4Eu8 => Some(PickleOpcode::NONE),
        0x50u8 => Some(PickleOpcode::PERSID),
        0x51u8 => Some(PickleOpcode::BINPERSID),
        0x52u8 => Some(PickleOpcode::REDUCE),
        0x53u8 => Some(PickleOpcode::STRING),
        0x54u8 => Some(PickleOpcode::BINSTRING),
        0x55u8 => Some(PickleOpcode::SHORT_BINSTRING),
        0x56u8 => Some(PickleOpcode::UNICODE),
        0x58u8 => Some(PickleOpcode::BINUNICODE),
        0x61u8 => Some(PickleOpcode::APPEND),
        0x62u8 => Some(PickleOpcode::BUILD),
        0x63u8 => Some(PickleOpcode::GLOBAL),
        0x64u8 => Some(PickleOpcode::DICT),
        0x7Du8 => Some(PickleOpcode::EMPTY_DICT),
        0x65u8 => Some(PickleOpcode::APPENDS),
        0x67u8 => Some(PickleOpcode::GET),
        0x68u8 => Some(PickleOpcode::BINGET),
        0x69u8 => Some(PickleOpcode::INST),
        0x6Au8 => Some(PickleOpcode::LONG_BINGET),
        0x6Cu8 => Some(PickleOpcode::LIST),
        0x5Du8 => Some(PickleOpcode::EMPTY_LIST),
        0x6Fu8 => Some(PickleOpcode::OBJ),
        0x70u8 => Some(PickleOpcode::PUT),
        0x71u8 => Some(PickleOpcode::BINPUT),
        0x72u8 => Some(PickleOpcode::LONG_BINPUT),
        0x73u8 => Some(PickleOpcode::SETITEM),
        0x74u8 => Some(PickleOpcode::TUPLE),
        0x29u8 => Some(PickleOpcode::EMPTY_TUPLE),
        0x75u8 => Some(PickleOpcode::SETITEMS),
        0x47u8 => Some(PickleOpcode::BINFLOAT),
        0x80u8 => Some(PickleOpcode::PROTO),
        0x81u8 => Some(PickleOpcode::NEWOBJ),
        0x82u8 => Some(PickleOpcode::EXT1),
        0x83u8 => Some(PickleOpcode::EXT2),
        0x84u8 => Some(PickleOpcode::EXT4),
        0x85u8 => Some(PickleOpcode::TUPLE1),
        0x86u8 => Some(PickleOpcode::TUPLE2),
        0x87u8 => Some(PickleOpcode::TUPLE3),
        0x88u8 => Some(PickleOpcode::NEWTRUE),
        0x89u8 => Some(PickleOpcode::NEWFALSE),
        0x8Au8 => Some(PickleOpcode::LONG1),
        0x8Bu8 => Some(PickleOpcode::LONG4),
        0x42u8 => Some(PickleOpcode::BINBYTES),
        0x43u8 => Some(PickleOpcode::SHORT_BINBYTES),
        0x8Cu8 => Some(PickleOpcode::SHORT_BINUNICODE),
        0x8Du8 => Some(PickleOpcode::BINUNICODE8),
        0x8Eu8 => Some(PickleOpcode::BINBYTES8),
        0x8Fu8 => Some(PickleOpcode::EMPTY_SET),
        0x90u8 => Some(PickleOpcode::ADDITEMS),
        0x91u8 => Some(PickleOpcode::FROZENSET),
        0x92u8 => Some(PickleOpcode::NEWOBJ_EX),
        0x93u8 => Some(PickleOpcode::STACK_GLOBAL),
        0x94u8 => Some(PickleOpcode::MEMOIZE),
        0x95u8 => Some(PickleOpcode::FRAME),
        0x96u8 => Some(PickleOpcode::BYTEARRAY8),
        0x97u8 => Some(PickleOpcode::NEXT_BUFFER),
        0x98u8 => Some(PickleOpcode::READONLY_BUFFER),
        _ => None,
    }
}

impl PickleOpcode {
    /// Decode one opcode byte; a byte outside the alphabet is an
    /// `InvalidOperation` error, never a silent default.
    pub fn new(value: u8) -> (r: Result<PickleOpcode, PickleError>)
        ensures
            match spec_opcode(value) {
                Some(op) => r matches Ok(o) && o == op,
                None => r matches Err(e) && e == PickleError::InvalidOperation(value),
            },
    {
        match value {
            0x28 => Ok(PickleOpcode::MARK),
            0x2E => Ok(PickleOpcode::STOP),
            0x30 => Ok(PickleOpcode::POP),
            0x31 => Ok(PickleOpcode::POP_MARK),
            0x32 => Ok(PickleOpcode::DUP),
            0x46 => Ok(PickleOpcode::FLOAT),
            0x49 => Ok(PickleOpcode::INT),
            0x4A => Ok(PickleOpcode::BININT),
            0x4B => Ok(PickleOpcode::BININT1),
            0x4C => Ok(PickleOpcode::LONG),
            0x4D => Ok(PickleOpcode::BININT2),
            0x4E => Ok(PickleOpcode::NONE),
            0x50 => Ok(PickleOpcode::PERSID),
            0x51 => Ok(PickleOpcode::BINPERSID),
            0x52 => Ok(PickleOpcode::REDUCE),
            0x53 => Ok(PickleOpcode::STRING),
            0x54 => Ok(PickleOpcode::BINSTRING),
            0x55 => Ok(PickleOpcode::SHORT_BINSTRING),
            0x56 => Ok(PickleOpcode::UNICODE),
            0x58 => Ok(PickleOpcode::BINUNICODE),
            0x61 => Ok(PickleOpcode::APPEND),
            0x62 => Ok(PickleOpcode::BUILD),
            0x63 => Ok(PickleOpcode::GLOBAL),
            0x64 => Ok(PickleOpcode::DICT),
            0x7D => Ok(PickleOpcode::EMPTY_DICT),
            0x65 => Ok(PickleOpcode::APPENDS),
            0x67 => Ok(PickleOpcode::GET),
            0x68 => Ok(PickleOpcode::BINGET),
            0x69 => Ok(PickleOpcode::INST),
            0x6A => Ok(PickleOpcode::LONG_BINGET),
            0x6C => Ok(PickleOpcode::LIST),
            0x5D => Ok(PickleOpcode::EMPTY_LIST),
            0x6F => Ok(PickleOpcode::OBJ),
            0x70 => Ok(PickleOpcode::PUT),
            0x71 => Ok(PickleOpcode::BINPUT),
            0x72 => Ok(PickleOpcode::LONG_BINPUT),
            0x73 => Ok(PickleOpcode::SETITEM),
            0x74 => Ok(PickleOpcode::TUPLE),
            0x29 => Ok(PickleOpcode::EMPTY_TUPLE),
            0x75 => Ok(PickleOpcode::SETITEMS),
            0x47 => Ok(PickleOpcode::BINFLOAT),
            0x80 => Ok(PickleOpcode::PROTO),
            0x81 => Ok(PickleOpcode::NEWOBJ),
            0x82 => Ok(PickleOpcode::EXT1),
            0x83 => Ok(PickleOpcode::EXT2),
            0x84 => Ok(PickleOpcode::EXT4),
            0x85 => Ok(PickleOpcode::TUPLE1),
            0x86 => Ok(PickleOpcode::TUPLE2),
            0x87 => Ok(PickleOpcode::TUPLE3),
            0x88 => Ok(PickleOpcode::NEWTRUE),
            0x89 => Ok(PickleOpcode::NEWFALSE),
            0x8A => Ok(PickleOpcode::LONG1),
            0x8B => Ok(PickleOpcode::LONG4),
            0x42 => Ok(PickleOpcode::BINBYTES),
            0x43 => Ok(PickleOpcode::SHORT_BINBYTES),
            0x8C => Ok(PickleOpcode::SHORT_BINUNICODE),
            0x8D => Ok(PickleOpcode::BINUNICODE8),
            0x8E => Ok(PickleOpcode::BINBYTES8),
            0x8F => Ok(PickleOpcode::EMPTY_SET),
            0x90 => Ok(PickleOpcode::ADDITEMS),
            0x91 => Ok(PickleOpcode::FROZENSET),
            0x92 => Ok(PickleOpcode::NEWOBJ_EX),
            0x93 => Ok(PickleOpcode::STACK_GLOBAL),
            0x94 => Ok(PickleOpcode::MEMOIZE),
            0x95 => Ok(PickleOpcode::FRAME),
            0x96 => Ok(PickleOpcode::BYTEARRAY8),
            0x97 => Ok(PickleOpcode::NEXT_BUFFER),
            0x98 => Ok(PickleOpcode::READONLY_BUFFER),
            _ => Err(PickleError::InvalidOperation(value)),
        }
    }
}

/// A protocol revision named by the stream's leading declaration.
#[derive(Debug, PartialEq, Eq, Structural, Clone, Copy)]
pub enum PickleProtocol {
    Unknown,
    Protocol1,
    Protocol2,
    Protocol3,
    Protocol4,
    Protocol5,
}

/// The protocol a version byte declares: revisions 2 through 5 are
/// accepted, revision 1 is rejected as unsupported, anything else as
/// unknown.
pub open spec fn spec_protocol(value: u8) -> Result<PickleProtocol, PickleError> {
    match value {
        1u8 => Err(PickleError::UnsupportedProtocol(PickleProtocol::Protocol1)),
        2u8 => Ok(PickleProtocol::Protocol2),
        3u8 => Ok(PickleProtocol::Protocol3),
        4u8 => Ok(PickleProtocol::Protocol4),
        5u8 => Ok(PickleProtocol::Protocol5),
        _ => Err(PickleError::UnknownProtocol(value)),
    }
}

impl PickleProtocol {
    pub fn from(value: u8) -> (r: Result<Self, PickleError>)
        ensures
            r == spec_protocol(value),
    {
        match value {
            1 => Err(PickleError::UnsupportedProtocol(PickleProtocol::Protocol1)),
            2 => Ok(PickleProtocol::Protocol2),
            3 => Ok(PickleProtocol::Protocol3),
            4 => Ok(PickleProtocol::Protocol4),
            5 => Ok(PickleProtocol::Protocol5),
            v => Err(PickleError::UnknownProtocol(v)),
        }
    }
}

/// Everything that can go fatally wrong while interpreting a pickle
/// stream.  Every failure unwinds to the caller with exactly one of these.
#[derive(Debug, PartialEq, Eq, Structural, Clone, Copy)]
pub enum PickleError {
    /// A protocol byte outside the known set.
    UnknownProtocol(u8),
    /// A known but rejected protocol revision.
    UnsupportedProtocol(PickleProtocol),
    /// A pop or peek on an empty operand stack.
    StackEmpty,
    /// A pop or peek that found the mark sentinel where a value was needed.
    StackMark,
    /// A memo retrieval past the end of the table.
    MemoIndexOutOfBounds,
    /// A memo retrieval from a slot never stored to.
    MemoIndexEmpty,
    /// A memo peek on an empty table.
    MemoEmpty,
    /// A missing leading protocol declaration, or a second one mid-stream.
    PickleInvalidProtocolOperation,
    /// A recognized opcode the interpreter deliberately does not implement.
    UnsupportedOperation(PickleOpcode),
    /// An opcode byte outside the alphabet.
    InvalidOperation(u8),
    /// A narrowing conversion against an incompatible value shape.
    CannotTryInto,
    /// The stream ended inside an opcode or its operand.
    OutOfData,
    /// A length-prefixed string operand that was not valid UTF-8.
    StringNotUtf8,
}

} // verus!
