//! The operation codes of the instruction word, and the plain values that
//! its fields hold.
use vstd::prelude::*;
use vstd::std_specs::convert::TryFromSpecImpl;

verus! {

/// An operation of the machine.
#[derive(Debug, Clone, Copy, PartialEq, Eq, Structural)]
pub enum OpCode {
    /// Do nothing.
    NOP,
}

/// The byte that was offered as an operation code and is none.
#[derive(Debug, Clone, Copy, PartialEq, Eq, Structural)]
pub struct InvalidOpCode(pub u8);

/// What goes wrong when an instruction word is taken apart or put
/// together.
#[derive(Debug)]
pub enum ArchError {
    /// The byte is no operation code.
    InvalidOpcode(u8),
    /// An integer does not fit the native type that was to hold it.
    ValueOutOfRange(std::num::TryFromIntError),
}

/// The number of a register.
#[derive(Debug, Clone, Copy, PartialEq, Eq, Structural)]
pub struct Register(pub u8);

/// An immediate operand.
#[derive(Debug, Clone, Copy, PartialEq, Eq, Structural)]
pub struct Immediate(pub i64);

impl OpCode {
    /// The byte that the operation is written with.
    pub open spec fn code(self) -> u8 {
        match self {
            OpCode::NOP => 0x00,
        }
    }

    /// The byte that the operation is written with.
    pub fn to_u8(self) -> (r: u8)
        ensures
            r == self.code(),
    {
        match self {
            OpCode::NOP => 0x00,
        }
    }
}

impl TryFromSpecImpl<u8> for OpCode {
    open spec fn obeys_try_from_spec() -> bool {
        true
    }

    open spec fn try_from_spec(value: u8) -> Result<OpCode, InvalidOpCode> {
        if value == 0x00 {
            Ok(OpCode::NOP)
        } else {
            Err(InvalidOpCode(value))
        }
    }
}

impl TryFrom<u8> for OpCode {
    type Error = InvalidOpCode;

    /// The operation that is written with the byte `value`.
    fn try_from(value: u8) -> (r: Result<OpCode, InvalidOpCode>)
        ensures
            r is Ok <==> value == 0x00,
            r matches Ok(op) ==> op.code() == value,
            r matches Err(e) ==> e == InvalidOpCode(value),
    {
        match value {
            0x00 => Ok(OpCode::NOP),
            _ => Err(InvalidOpCode(value)),
        }
    }
}

} // verus!
