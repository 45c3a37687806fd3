use vstd::prelude::*;

verus! {

/// The failures that the library reports.
#[derive(Debug, Clone, Copy, PartialEq, Eq, Structural)]
pub enum CalcifyError {
    /// A velocity at or above the speed of light.
    LightSpeedError,
    /// A key that is already taken, or one that is absent.
    KeyError,
    /// Malformed or structurally inconsistent encoded data.
    ParseError,
    /// A fixed-arity decode received the wrong element count.
    LengthError,
    /// A decode of the write-only `Object` branch tag.
    ObjectBranchDeserializeError,
}

impl CalcifyError {
    /// The message of each error.
    pub open spec fn message_of(self) -> Seq<char> {
        match self {
            CalcifyError::LightSpeedError => "Velocity greater than calcify::C_LIGHT."@,
            CalcifyError::KeyError => "Invalid Key"@,
            CalcifyError::ParseError => "Error on parse in Deserializable."@,
            CalcifyError::LengthError => "Invalid slice length"@,
            CalcifyError::ObjectBranchDeserializeError => "Attempted to deserialize Object Branch."@,
        }
    }

    /// A short human-readable message for the error.
    pub fn message(&self) -> (r: &'static str)
        ensures
            r@ == self.message_of(),
    {
        match self {
            CalcifyError::LightSpeedError => "Velocity greater than calcify::C_LIGHT.",
            CalcifyError::KeyError => "Invalid Key",
            CalcifyError::ParseError => "Error on parse in Deserializable.",
            CalcifyError::LengthError => "Invalid slice length",
            CalcifyError::ObjectBranchDeserializeError => "Attempted to deserialize Object Branch.",
        }
    }
}

} // verus!
