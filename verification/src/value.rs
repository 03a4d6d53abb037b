//! Typed scalar values and the raw numbers that stand for them in memory.
//!
//! A value of width `w` bytes is stored as the unsigned number below 256 to the
//! `w` with the same bits: an unsigned integer as itself, a signed integer in
//! two's complement, a float as its IEEE-754 bit pattern, a boolean as 0 or 1.
use vstd::prelude::*;
use crate::bytes::pow256;
use crate::error::ErrorKind;
use crate::types::Type;

verus! {

/// One scalar value together with its type. `F32` and `F64` hold the bit
/// pattern of the float.
#[derive(Clone, Copy, Debug, PartialEq, Eq, Structural)]
pub enum DynamicType {
    U8(u8),
    U16(u16),
    U32(u32),
    U64(u64),
    I8(i8),
    I16(i16),
    I32(i32),
    I64(i64),
    F32(u32),
    F64(u64),
    Bool(bool),
}

/// The unsigned number below `modulus` with the same bit pattern as the signed `v`.
pub open spec fn to_unsigned(v: int, modulus: int) -> int {
    if v >= 0 {
        v
    } else {
        v + modulus
    }
}

/// The signed number with the same bit pattern as the unsigned `u` below `modulus`.
pub open spec fn to_signed(u: int, modulus: int) -> int {
    if 2 * u < modulus {
        u
    } else {
        u - modulus
    }
}

impl DynamicType {
    /// The type of the value.
    pub open spec fn spec_type(self) -> Type {
        match self {
            DynamicType::U8(_) => Type::U8,
            DynamicType::U16(_) => Type::U16,
            DynamicType::U32(_) => Type::U32,
            DynamicType::U64(_) => Type::U64,
            DynamicType::I8(_) => Type::I8,
            DynamicType::I16(_) => Type::I16,
            DynamicType::I32(_) => Type::I32,
            DynamicType::I64(_) => Type::I64,
            DynamicType::F32(_) => Type::F32,
            DynamicType::F64(_) => Type::F64,
            DynamicType::Bool(_) => Type::Bool,
        }
    }

    /// The raw number that stands for the value in memory.
    pub open spec fn spec_raw(self) -> u64 {
        match self {
            DynamicType::U8(v) => v as u64,
            DynamicType::U16(v) => v as u64,
            DynamicType::U32(v) => v as u64,
            DynamicType::U64(v) => v,
            DynamicType::I8(v) => to_unsigned(v as int, 0x100) as u64,
            DynamicType::I16(v) => to_unsigned(v as int, 0x1_0000) as u64,
            DynamicType::I32(v) => to_unsigned(v as int, 0x1_0000_0000) as u64,
            DynamicType::I64(v) => to_unsigned(v as int, 0x1_0000_0000_0000_0000) as u64,
            DynamicType::F32(v) => v as u64,
            DynamicType::F64(v) => v,
            DynamicType::Bool(v) => if v {
                1
            } else {
                0
            },
        }
    }

    /// The value of type `ty` that the raw number `raw` stands for: the low
    /// bytes of `raw` read as `ty`, any nonzero number as `true`. The
    /// indirections have no value.
    pub open spec fn spec_from_raw(ty: Type, raw: u64) -> Option<DynamicType> {
        match ty {
            Type::U8 => Some(DynamicType::U8((raw % 0x100) as u8)),
            Type::U16 => Some(DynamicType::U16((raw % 0x1_0000) as u16)),
            Type::U32 => Some(DynamicType::U32((raw % 0x1_0000_0000) as u32)),
            Type::U64 => Some(DynamicType::U64(raw)),
            Type::I8 => Some(DynamicType::I8(to_signed(raw as int % 0x100, 0x100) as i8)),
            Type::I16 => Some(DynamicType::I16(to_signed(raw as int % 0x1_0000, 0x1_0000) as i16)),
            Type::I32 => Some(
                DynamicType::I32(to_signed(raw as int % 0x1_0000_0000, 0x1_0000_0000) as i32),
            ),
            Type::I64 => Some(
                DynamicType::I64(to_signed(raw as int, 0x1_0000_0000_0000_0000) as i64),
            ),
            Type::F32 => Some(DynamicType::F32((raw % 0x1_0000_0000) as u32)),
            Type::F64 => Some(DynamicType::F64(raw)),
            Type::Bool => Some(DynamicType::Bool(raw != 0)),
            _ => None,
        }
    }

    /// The type of the value.
    pub fn type_(&self) -> (t: Type)
        ensures
            t == self.spec_type(),
            t.spec_is_scalar(),
    {
        match self {
            DynamicType::U8(_) => Type::U8,
            DynamicType::U16(_) => Type::U16,
            DynamicType::U32(_) => Type::U32,
            DynamicType::U64(_) => Type::U64,
            DynamicType::I8(_) => Type::I8,
            DynamicType::I16(_) => Type::I16,
            DynamicType::I32(_) => Type::I32,
            DynamicType::I64(_) => Type::I64,
            DynamicType::F32(_) => Type::F32,
            DynamicType::F64(_) => Type::F64,
            DynamicType::Bool(_) => Type::Bool,
        }
    }

    /// The raw number that stands for the value in memory.
    pub fn raw(&self) -> (r: u64)
        ensures
            r == self.spec_raw(),
            r < pow256(self.spec_type().spec_width()),
    {
        proof {
            crate::bytes::lemma_pow256(0);
        }
        match self {
            DynamicType::U8(v) => *v as u64,
            DynamicType::U16(v) => *v as u64,
            DynamicType::U32(v) => *v as u64,
            DynamicType::U64(v) => *v,
            DynamicType::I8(v) => if *v >= 0 {
                *v as u64
            } else {
                (*v as i64 + 0x100) as u64
            },
            DynamicType::I16(v) => if *v >= 0 {
                *v as u64
            } else {
                (*v as i64 + 0x1_0000) as u64
            },
            DynamicType::I32(v) => if *v >= 0 {
                *v as u64
            } else {
                (*v as i64 + 0x1_0000_0000) as u64
            },
            DynamicType::I64(v) => if *v >= 0 {
                *v as u64
            } else {
                (*v as i128 + 0x1_0000_0000_0000_0000) as u64
            },
            DynamicType::F32(v) => *v as u64,
            DynamicType::F64(v) => *v,
            DynamicType::Bool(v) => if *v {
                1
            } else {
                0
            },
        }
    }

    /// Reads the raw number `raw` as a value of type `ty`; `UnsupportedType`
    /// for the indirections, which have no value.
    pub fn from_raw(ty: Type, raw: u64) -> (r: Result<DynamicType, ErrorKind>)
        ensures
            r == match DynamicType::spec_from_raw(ty, raw) {
                Some(v) => Ok::<DynamicType, ErrorKind>(v),
                None => Err::<DynamicType, ErrorKind>(ErrorKind::UnsupportedType),
            },
            r is Ok <==> ty.spec_is_scalar(),
            r matches Ok(v) ==> v.spec_type() == ty,
    {
        match ty {
            Type::U8 => Ok(DynamicType::U8((raw % 0x100) as u8)),
            Type::U16 => Ok(DynamicType::U16((raw % 0x1_0000) as u16)),
            Type::U32 => Ok(DynamicType::U32((raw % 0x1_0000_0000) as u32)),
            Type::U64 => Ok(DynamicType::U64(raw)),
            Type::I8 => {
                let u: u64 = raw % 0x100;
                Ok(
                    DynamicType::I8(
                        if u < 0x80 {
                            u as i8
                        } else {
                            (u as i64 - 0x100) as i8
                        },
                    ),
                )
            },
            Type::I16 => {
                let u: u64 = raw % 0x1_0000;
                Ok(
                    DynamicType::I16(
                        if u < 0x8000 {
                            u as i16
                        } else {
                            (u as i64 - 0x1_0000) as i16
                        },
                    ),
                )
            },
            Type::I32 => {
                let u: u64 = raw % 0x1_0000_0000;
                Ok(
                    DynamicType::I32(
                        if u < 0x8000_0000 {
                            u as i32
                        } else {
                            (u as i64 - 0x1_0000_0000) as i32
                        },
                    ),
                )
            },
            Type::I64 => Ok(
                DynamicType::I64(
                    if raw < 0x8000_0000_0000_0000 {
                        raw as i64
                    } else {
                        (raw as i128 - 0x1_0000_0000_0000_0000) as i64
                    },
                ),
            ),
            Type::F32 => Ok(DynamicType::F32((raw % 0x1_0000_0000) as u32)),
            Type::F64 => Ok(DynamicType::F64(raw)),
            Type::Bool => Ok(DynamicType::Bool(raw != 0)),
            _ => Err(ErrorKind::UnsupportedType),
        }
    }
}

/// A value is read back from its own raw number, and that number fits the
/// value's width.
pub proof fn lemma_raw_round_trip(v: DynamicType)
    ensures
        DynamicType::spec_from_raw(v.spec_type(), v.spec_raw()) == Some(v),
        v.spec_raw() < pow256(v.spec_type().spec_width()),
        v.spec_type().spec_is_scalar(),
{
    crate::bytes::lemma_pow256(0);
}

/// Reading a raw number as a type and taking the raw number of the result
/// gives the low bytes of the number back, except that a boolean keeps only
/// whether the number was zero.
pub proof fn lemma_from_raw_raw(ty: Type, raw: u64)
    requires
        ty.spec_is_scalar(),
        raw < pow256(ty.spec_width()),
    ensures
        DynamicType::spec_from_raw(ty, raw) matches Some(v) && v.spec_type() == ty && (ty
            != Type::Bool ==> v.spec_raw() == raw),
{
    crate::bytes::lemma_pow256(0);
}

} // verus!
