//! The ways in which an assembly run can fail.

use vstd::prelude::*;

verus! {

/// Why a program could not be assembled. A run that fails produces no output at all.
#[derive(Clone, Copy, Debug, PartialEq, Eq, Structural)]
pub enum AssembleError {
    /// The destination field is not one of the eight destination mnemonics.
    InvalidDest,
    /// The jump field is not one of the seven jump mnemonics.
    InvalidJump,
    /// The computation field is not one of the computation mnemonics.
    InvalidComp,
    /// An instruction was to be encoded without a computation field.
    MissingComp,
    /// A machine word would not have been exactly sixteen characters wide.
    WordSize,
    /// A label or a variable would have received an address above 65535.
    AddressRange,
    /// A label definition was met where an instruction had to be encoded.
    UnexpectedLabel,
}

impl AssembleError {
    /// The text of the message, as a spec-level string.
    pub open spec fn message_text(self) -> Seq<char> {
        match self {
            AssembleError::InvalidDest => "Invalid dest"@,
            AssembleError::InvalidJump => "Invalid jump condition"@,
            AssembleError::InvalidComp => "Invalid comp"@,
            AssembleError::MissingComp => "No comp provided!"@,
            AssembleError::WordSize => "Wrong size, should be 16 chars!"@,
            AssembleError::AddressRange => "Address out of range"@,
            AssembleError::UnexpectedLabel => "Unexpected label definition"@,
        }
    }

    /// A short description of the error, for diagnostics.
    pub fn message(&self) -> (s: String)
        ensures
            s@ == self.message_text(),
    {
        match self {
            AssembleError::InvalidDest => "Invalid dest".to_string(),
            AssembleError::InvalidJump => "Invalid jump condition".to_string(),
            AssembleError::InvalidComp => "Invalid comp".to_string(),
            AssembleError::MissingComp => "No comp provided!".to_string(),
            AssembleError::WordSize => "Wrong size, should be 16 chars!".to_string(),
            AssembleError::AddressRange => "Address out of range".to_string(),
            AssembleError::UnexpectedLabel => "Unexpected label definition".to_string(),
        }
    }
}

} // verus!
