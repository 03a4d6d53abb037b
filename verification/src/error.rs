//! Error kinds shared by every layer, and their mapping to boundary status codes.
use vstd::prelude::*;

verus! {

/// What went wrong in a registry, accessor, query, cursor or codec operation.
#[derive(Clone, Copy, Debug, PartialEq, Eq, Structural)]
pub enum ErrorKind {
    /// A name or id that is not registered.
    UnknownType,
    /// A record type declared with more fields than a schema can hold.
    TooManyFields,
    /// A query grown beyond the number of terms it can hold.
    TooManyTerms,
    /// An accessor or a decoded value whose type disagrees with the field's declared type.
    TypeMismatch,
    /// An offset, index or address outside the record, batch or address space it refers to.
    OffsetOutOfBounds,
    /// A type tag that the operation cannot encode, decode or register.
    UnsupportedType,
    /// A cursor advanced after it reported that nothing is left.
    CursorExhausted,
    /// Wire bytes that do not parse as a self-describing record.
    MalformedPayload,
    /// An entity handle or record address that refers to nothing live.
    InvalidHandle,
    /// A declaration with an empty, over-long or repeated name, or with mismatched lists.
    InvalidDefinition,
    /// A registry, entity store or address space with no identifier left to give.
    CapacityExceeded,
}

impl ErrorKind {
    /// The status code that crosses the boundary for this error; 0 is reserved for success.
    pub open spec fn spec_status_code(self) -> u32 {
        match self {
            ErrorKind::UnknownType => 1,
            ErrorKind::TooManyFields => 2,
            ErrorKind::TooManyTerms => 3,
            ErrorKind::TypeMismatch => 4,
            ErrorKind::OffsetOutOfBounds => 5,
            ErrorKind::UnsupportedType => 6,
            ErrorKind::CursorExhausted => 7,
            ErrorKind::MalformedPayload => 8,
            ErrorKind::InvalidHandle => 9,
            ErrorKind::InvalidDefinition => 10,
            ErrorKind::CapacityExceeded => 11,
        }
    }

    /// True for errors caused by bad input that the caller can correct; false for
    /// those that show a broken invariant of a collaborator (a stale handle or
    /// address, an access outside a record).
    pub open spec fn spec_is_recoverable(self) -> bool {
        match self {
            ErrorKind::InvalidHandle => false,
            ErrorKind::OffsetOutOfBounds => false,
            _ => true,
        }
    }

    /// A short diagnostic text for this error.
    pub open spec fn spec_message(self) -> Seq<char> {
        match self {
            ErrorKind::UnknownType => "unknown type"@,
            ErrorKind::TooManyFields => "too many fields"@,
            ErrorKind::TooManyTerms => "too many terms"@,
            ErrorKind::TypeMismatch => "type mismatch"@,
            ErrorKind::OffsetOutOfBounds => "offset out of bounds"@,
            ErrorKind::UnsupportedType => "unsupported type"@,
            ErrorKind::CursorExhausted => "cursor exhausted"@,
            ErrorKind::MalformedPayload => "malformed payload"@,
            ErrorKind::InvalidHandle => "invalid handle"@,
            ErrorKind::InvalidDefinition => "invalid definition"@,
            ErrorKind::CapacityExceeded => "capacity exceeded"@,
        }
    }

    /// A short diagnostic text for this error.
    pub fn message(&self) -> (text: &'static str)
        ensures
            text@ == self.spec_message(),
    {
        match self {
            ErrorKind::UnknownType => "unknown type",
            ErrorKind::TooManyFields => "too many fields",
            ErrorKind::TooManyTerms => "too many terms",
            ErrorKind::TypeMismatch => "type mismatch",
            ErrorKind::OffsetOutOfBounds => "offset out of bounds",
            ErrorKind::UnsupportedType => "unsupported type",
            ErrorKind::CursorExhausted => "cursor exhausted",
            ErrorKind::MalformedPayload => "malformed payload",
            ErrorKind::InvalidHandle => "invalid handle",
            ErrorKind::InvalidDefinition => "invalid definition",
            ErrorKind::CapacityExceeded => "capacity exceeded",
        }
    }

    /// The status code that crosses the boundary for this error; never 0.
    pub fn status_code(&self) -> (code: u32)
        ensures
            code == self.spec_status_code(),
            1 <= code <= 11,
    {
        match self {
            ErrorKind::UnknownType => 1,
            ErrorKind::TooManyFields => 2,
            ErrorKind::TooManyTerms => 3,
            ErrorKind::TypeMismatch => 4,
            ErrorKind::OffsetOutOfBounds => 5,
            ErrorKind::UnsupportedType => 6,
            ErrorKind::CursorExhausted => 7,
            ErrorKind::MalformedPayload => 8,
            ErrorKind::InvalidHandle => 9,
            ErrorKind::InvalidDefinition => 10,
            ErrorKind::CapacityExceeded => 11,
        }
    }

    /// True if the error is one that the caller can correct.
    pub fn is_recoverable(&self) -> (r: bool)
        ensures
            r == self.spec_is_recoverable(),
    {
        match self {
            ErrorKind::InvalidHandle => false,
            ErrorKind::OffsetOutOfBounds => false,
            _ => true,
        }
    }
}

} // verus!
