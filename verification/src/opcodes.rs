//! Transparent script opcodes.

use vstd::prelude::*;

verus! {

/// Supported opcodes: those used to generate P2SH and P2PKH scripts.
#[derive(Clone, Copy, Debug, PartialEq, Eq, Structural)]
pub enum OpCode {
    /// Returns 1 if the inputs are exactly equal, 0 otherwise.
    Equal,
    /// The input is hashed twice: first with SHA-256 and then with
    /// RIPEMD-160.
    Hash160,
    /// Pushes the next 20 bytes onto the stack.
    Push20Bytes,
    /// Duplicates the top stack item.
    Dup,
    /// Same as `Equal`, but runs verification afterward.
    EqualVerify,
    /// Verifies a signature against a public key: 1 if the signature is
    /// valid for the hash and public key, 0 otherwise.
    CheckSig,
}

/// The byte each opcode stands for in a script.
pub open spec fn spec_opcode_byte(op: OpCode) -> u8 {
    match op {
        OpCode::Equal => 0x87,
        OpCode::Hash160 => 0xa9,
        OpCode::Push20Bytes => 0x14,
        OpCode::Dup => 0x76,
        OpCode::EqualVerify => 0x88,
        OpCode::CheckSig => 0xac,
    }
}

impl OpCode {
    /// The byte this opcode stands for in a script.
    pub fn byte_value(self) -> (r: u8)
        ensures
            r == spec_opcode_byte(self),
    {
        match self {
            OpCode::Equal => 0x87,
            OpCode::Hash160 => 0xa9,
            OpCode::Push20Bytes => 0x14,
            OpCode::Dup => 0x76,
            OpCode::EqualVerify => 0x88,
            OpCode::CheckSig => 0xac,
        }
    }
}

} // verus!
