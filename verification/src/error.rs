//! The reasons for which execution halts.

use vstd::prelude::*;
use crate::text::{hex_byte, push_hex_byte};

verus! {

#[derive(Debug, Clone, PartialEq, Eq, Structural)]
pub enum EvmError {
    StackUnderflow,
    StackOverflow,
    OutOfGas,
    InvalidJump,
    InvalidOpcode(u8),
    WriteProtection,
    CallDepthExceeded,
    InvalidMemoryAccess,
    ReturnDataOutOfBounds,
}

/// The message that describes an error.
pub open spec fn error_message(e: EvmError) -> Seq<char> {
    match e {
        EvmError::StackUnderflow => "stack underflow"@,
        EvmError::StackOverflow => "stack overflow"@,
        EvmError::OutOfGas => "out of gas"@,
        EvmError::InvalidJump => "invalid jump destination"@,
        EvmError::InvalidOpcode(op) => "invalid opcode: 0x"@ + hex_byte(op),
        EvmError::WriteProtection => "write protection violation"@,
        EvmError::CallDepthExceeded => "call depth exceeded"@,
        EvmError::InvalidMemoryAccess => "invalid memory access"@,
        EvmError::ReturnDataOutOfBounds => "return data out of bounds"@,
    }
}

impl EvmError {
    /// The human-readable message of this error.
    pub fn to_string(&self) -> (r: String)
        ensures
            r@ == error_message(*self),
    {
        match self {
            EvmError::StackUnderflow => String::from_str("stack underflow"),
            EvmError::StackOverflow => String::from_str("stack overflow"),
            EvmError::OutOfGas => String::from_str("out of gas"),
            EvmError::InvalidJump => String::from_str("invalid jump destination"),
            EvmError::InvalidOpcode(op) => {
                let mut s = String::from_str("invalid opcode: 0x");
                push_hex_byte(&mut s, *op);
                s
            },
            EvmError::WriteProtection => String::from_str("write protection violation"),
            EvmError::CallDepthExceeded => String::from_str("call depth exceeded"),
            EvmError::InvalidMemoryAccess => String::from_str("invalid memory access"),
            EvmError::ReturnDataOutOfBounds => String::from_str("return data out of bounds"),
        }
    }
}

} // verus!
