//! The closed set of field types, their byte widths and their one-byte tags.
use vstd::prelude::*;
use crate::error::ErrorKind;

verus! {

/// The type of one field of a record.
///
/// The first eleven are scalars stored in place, little-endian. `F32` and `F64`
/// are stored and exchanged as their IEEE-754 bit patterns. `String`, `Pointer`,
/// `U32Array` and `F32Array` are indirections: the record holds an
/// address-sized slot whose target belongs to whichever side allocated it.
#[derive(Clone, Copy, Debug, PartialEq, Eq, Structural)]
pub enum Type {
    U8,
    U16,
    U32,
    U64,
    I8,
    I16,
    I32,
    I64,
    F32,
    F64,
    Bool,
    String,
    Pointer,
    U32Array,
    F32Array,
}

impl Type {
    /// Bytes that a field of this type occupies in a record.
    pub open spec fn spec_width(self) -> nat {
        match self {
            Type::U8 | Type::I8 | Type::Bool => 1,
            Type::U16 | Type::I16 => 2,
            Type::U32 | Type::I32 | Type::F32 => 4,
            _ => 8,
        }
    }

    /// The tag that stands for this type in declarations and on the wire.
    pub open spec fn spec_tag(self) -> u8 {
        match self {
            Type::U8 => 0,
            Type::U16 => 1,
            Type::U32 => 2,
            Type::U64 => 3,
            Type::I8 => 4,
            Type::I16 => 5,
            Type::I32 => 6,
            Type::I64 => 7,
            Type::F32 => 8,
            Type::F64 => 9,
            Type::Bool => 10,
            Type::String => 11,
            Type::Pointer => 12,
            Type::U32Array => 13,
            Type::F32Array => 14,
        }
    }

    /// The type that a tag stands for, if any.
    pub open spec fn spec_from_tag(tag: u8) -> Option<Type> {
        if tag == 0 {
            Some(Type::U8)
        } else if tag == 1 {
            Some(Type::U16)
        } else if tag == 2 {
            Some(Type::U32)
        } else if tag == 3 {
            Some(Type::U64)
        } else if tag == 4 {
            Some(Type::I8)
        } else if tag == 5 {
            Some(Type::I16)
        } else if tag == 6 {
            Some(Type::I32)
        } else if tag == 7 {
            Some(Type::I64)
        } else if tag == 8 {
            Some(Type::F32)
        } else if tag == 9 {
            Some(Type::F64)
        } else if tag == 10 {
            Some(Type::Bool)
        } else if tag == 11 {
            Some(Type::String)
        } else if tag == 12 {
            Some(Type::Pointer)
        } else if tag == 13 {
            Some(Type::U32Array)
        } else if tag == 14 {
            Some(Type::F32Array)
        } else {
            None
        }
    }

    /// True for the types whose value lives in the record itself, which are the
    /// ones a codec can carry; false for the indirections.
    pub open spec fn spec_is_scalar(self) -> bool {
        self.spec_tag() <= 10
    }

    /// Bytes that a field of this type occupies in a record.
    pub fn width(&self) -> (w: u32)
        ensures
            w == self.spec_width(),
            1 <= w <= 8,
    {
        match self {
            Type::U8 | Type::I8 | Type::Bool => 1,
            Type::U16 | Type::I16 => 2,
            Type::U32 | Type::I32 | Type::F32 => 4,
            _ => 8,
        }
    }

    /// The tag that stands for this type in declarations and on the wire.
    pub fn tag(&self) -> (t: u8)
        ensures
            t == self.spec_tag(),
            t <= 14,
    {
        match self {
            Type::U8 => 0,
            Type::U16 => 1,
            Type::U32 => 2,
            Type::U64 => 3,
            Type::I8 => 4,
            Type::I16 => 5,
            Type::I32 => 6,
            Type::I64 => 7,
            Type::F32 => 8,
            Type::F64 => 9,
            Type::Bool => 10,
            Type::String => 11,
            Type::Pointer => 12,
            Type::U32Array => 13,
            Type::F32Array => 14,
        }
    }

    /// True if a value of this type lives in the record itself.
    pub fn is_scalar(&self) -> (r: bool)
        ensures
            r == self.spec_is_scalar(),
    {
        self.tag() <= 10
    }
}

/// Resolves a declared member type tag. Tags above 14 name no type and are
/// rejected with `UnsupportedType`.
pub fn get_member_type(member_type: u8) -> (r: Result<Type, ErrorKind>)
    ensures
        r == match Type::spec_from_tag(member_type) {
            Some(t) => Ok::<Type, ErrorKind>(t),
            None => Err::<Type, ErrorKind>(ErrorKind::UnsupportedType),
        },
{
    if member_type == 0 {
        Ok(Type::U8)
    } else if member_type == 1 {
        Ok(Type::U16)
    } else if member_type == 2 {
        Ok(Type::U32)
    } else if member_type == 3 {
        Ok(Type::U64)
    } else if member_type == 4 {
        Ok(Type::I8)
    } else if member_type == 5 {
        Ok(Type::I16)
    } else if member_type == 6 {
        Ok(Type::I32)
    } else if member_type == 7 {
        Ok(Type::I64)
    } else if member_type == 8 {
        Ok(Type::F32)
    } else if member_type == 9 {
        Ok(Type::F64)
    } else if member_type == 10 {
        Ok(Type::Bool)
    } else if member_type == 11 {
        Ok(Type::String)
    } else if member_type == 12 {
        Ok(Type::Pointer)
    } else if member_type == 13 {
        Ok(Type::U32Array)
    } else if member_type == 14 {
        Ok(Type::F32Array)
    } else {
        Err(ErrorKind::UnsupportedType)
    }
}

/// A tag names the type it was taken from, and no two types share a tag.
pub proof fn lemma_tag_round_trip(t: Type)
    ensures
        Type::spec_from_tag(t.spec_tag()) == Some(t),
{
}

} // verus!
