use vstd::prelude::*;

verus! {

/// Outcome codes for a failed verifier invocation.
///
/// The first four variants mirror the host's own primitive error signals;
/// the remaining ones are protocol-level rejections. Every failure surfaces
/// to the host as a small positive integer, see [`Error::code`].
#[derive(Clone, Copy, Debug, PartialEq, Eq, Structural)]
pub enum Error {
    IndexOutOfBound,
    ItemMissing,
    LengthNotEnough,
    Encoding,
    InvalidArgs,
    TooManyCells,
    InvalidTypeID,
    InvalidData,
    BalanceError,
    ComponentDefinitionNotFound,
    InvalidComponentDefinition,
}

impl Error {
    /// The integer exit code reported to the host: host-primitive errors
    /// occupy 1 to 4, protocol errors follow from 5 on.
    pub fn code(&self) -> (c: u8)
        ensures
            c == self.spec_code(),
    {
        match self {
            Error::IndexOutOfBound => 1,
            Error::ItemMissing => 2,
            Error::LengthNotEnough => 3,
            Error::Encoding => 4,
            Error::InvalidArgs => 5,
            Error::TooManyCells => 6,
            Error::InvalidTypeID => 7,
            Error::InvalidData => 8,
            Error::BalanceError => 9,
            Error::ComponentDefinitionNotFound => 10,
            Error::InvalidComponentDefinition => 11,
        }
    }

    pub open spec fn spec_code(&self) -> u8 {
        match self {
            Error::IndexOutOfBound => 1,
            Error::ItemMissing => 2,
            Error::LengthNotEnough => 3,
            Error::Encoding => 4,
            Error::InvalidArgs => 5,
            Error::TooManyCells => 6,
            Error::InvalidTypeID => 7,
            Error::InvalidData => 8,
            Error::BalanceError => 9,
            Error::ComponentDefinitionNotFound => 10,
            Error::InvalidComponentDefinition => 11,
        }
    }
}

/// Structural faults that make a byte buffer unreadable as a record.
///
/// The taxonomy follows the record format: a buffer too short for its
/// header, a total-size prefix that disagrees with the buffer length, an
/// offset table that is not non-decreasing or misshapen, a field count
/// outside what the schema admits, and an unrecognized variant tag.
#[derive(Clone, Copy, Debug, PartialEq, Eq, Structural)]
pub enum DecodeError {
    HeaderIsBroken,
    TotalSizeNotMatch,
    OffsetsNotMatch,
    FieldCountNotMatch,
    UnknownItem,
}

} // verus!
