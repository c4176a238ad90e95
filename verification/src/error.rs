use vstd::prelude::*;

verus! {

/// Why a JSON tree could not be decoded into a typed value.
#[derive(Clone, Copy, Debug, PartialEq, Eq, Structural)]
pub enum DecodeError {
    /// The discriminator or payload field is missing, or the payload has the
    /// wrong JSON shape for its declared type.
    MalformedEnvelope,
    /// The discriminator is not one of the known type names.
    UnknownType,
    /// The payload of an Integer or Float does not fully parse as a number.
    NumericParseError,
    /// A ByteArray element is not an integer in `[0, 255]`.
    ByteValueOutOfRange,
    /// A temporal payload does not match its grammar.
    TemporalParseError,
    /// A Path payload is empty, of even length, or does not alternate
    /// between nodes and relationships.
    InvalidPathShape,
    /// The envelopes are nested deeper than the depth limit allows.
    RecursionLimitExceeded,
}

impl DecodeError {
    /// The name of the error, as written in the enumeration.
    pub fn name(&self) -> (r: &'static str)
        ensures
            r@ == match *self {
                DecodeError::MalformedEnvelope => "MalformedEnvelope"@,
                DecodeError::UnknownType => "UnknownType"@,
                DecodeError::NumericParseError => "NumericParseError"@,
                DecodeError::ByteValueOutOfRange => "ByteValueOutOfRange"@,
                DecodeError::TemporalParseError => "TemporalParseError"@,
                DecodeError::InvalidPathShape => "InvalidPathShape"@,
                DecodeError::RecursionLimitExceeded => "RecursionLimitExceeded"@,
            },
    {
        match self {
            DecodeError::MalformedEnvelope => "MalformedEnvelope",
            DecodeError::UnknownType => "UnknownType",
            DecodeError::NumericParseError => "NumericParseError",
            DecodeError::ByteValueOutOfRange => "ByteValueOutOfRange",
            DecodeError::TemporalParseError => "TemporalParseError",
            DecodeError::InvalidPathShape => "InvalidPathShape",
            DecodeError::RecursionLimitExceeded => "RecursionLimitExceeded",
        }
    }
}

} // verus!
