//! Typed field accessors on the records of a world, one pair per field type.
//!
//! Every accessor takes the address of a record and the byte offset of a
//! field. A stale or foreign address is `InvalidHandle`; an offset at which no
//! field starts is `OffsetOutOfBounds`; a field declared with another type
//! than the accessor's is `TypeMismatch`. Signed integers are stored in two's
//! complement, floats as their IEEE-754 bit patterns, booleans as one byte
//! that is zero for `false`, and the indirections as an address-sized slot
//! whose target these accessors never touch.
use vstd::prelude::*;
use crate::bytes::lemma_pow256;
use crate::error::ErrorKind;
use crate::types::Type;
use crate::value::{to_signed, to_unsigned};
use crate::world::World;

verus! {

/// Writes `value` to the `u8` field at `offset` of the record at
/// `component_ptr`. On refusal nothing changes.
pub fn flecs_component_set_member_u8(
    world: &mut World,
    component_ptr: u64,
    offset: u32,
    value: u8,
) -> (r: Result<(), ErrorKind>)
    requires
        old(world).wf(),
    ensures
        final(world).wf(),
        match old(world)@.set(component_ptr, offset as nat, Type::U8, value as u64) {
            Ok(w) => r is Ok && final(world)@ == w,
            Err(e) => r == Err::<(), ErrorKind>(e) && final(world)@ == old(world)@,
        },
{
    let raw: u64 = value as u64;
    world.set_member(component_ptr, offset, Type::U8, raw)
}

/// Reads the `u8` field at `offset` of the record at `component_ptr`.
pub fn flecs_component_get_member_u8(world: &World, component_ptr: u64, offset: u32) -> (r:
    Result<u8, ErrorKind>)
    requires
        world.wf(),
    ensures
        r == match world@.get(component_ptr, offset as nat, Type::U8) {
            Ok(raw) => Ok::<u8, ErrorKind>(raw as u8),
            Err(e) => Err::<u8, ErrorKind>(e),
        },
{
    proof {
        lemma_pow256(1);
    }
    match world.get_member(component_ptr, offset, Type::U8) {
        Ok(raw) => Ok(raw as u8),
        Err(e) => Err(e),
    }
}

/// Writes `value` to the `u16` field at `offset` of the record at
/// `component_ptr`. On refusal nothing changes.
pub fn flecs_component_set_member_u16(
    world: &mut World,
    component_ptr: u64,
    offset: u32,
    value: u16,
) -> (r: Result<(), ErrorKind>)
    requires
        old(world).wf(),
    ensures
        final(world).wf(),
        match old(world)@.set(component_ptr, offset as nat, Type::U16, value as u64) {
            Ok(w) => r is Ok && final(world)@ == w,
            Err(e) => r == Err::<(), ErrorKind>(e) && final(world)@ == old(world)@,
        },
{
    let raw: u64 = value as u64;
    world.set_member(component_ptr, offset, Type::U16, raw)
}

/// Reads the `u16` field at `offset` of the record at `component_ptr`.
pub fn flecs_component_get_member_u16(world: &World, component_ptr: u64, offset: u32) -> (r:
    Result<u16, ErrorKind>)
    requires
        world.wf(),
    ensures
        r == match world@.get(component_ptr, offset as nat, Type::U16) {
            Ok(raw) => Ok::<u16, ErrorKind>(raw as u16),
            Err(e) => Err::<u16, ErrorKind>(e),
        },
{
    proof {
        lemma_pow256(2);
    }
    match world.get_member(component_ptr, offset, Type::U16) {
        Ok(raw) => Ok(raw as u16),
        Err(e) => Err(e),
    }
}

/// Writes `value` to the `u32` field at `offset` of the record at
/// `component_ptr`. On refusal nothing changes.
pub fn flecs_component_set_member_u32(
    world: &mut World,
    component_ptr: u64,
    offset: u32,
    value: u32,
) -> (r: Result<(), ErrorKind>)
    requires
        old(world).wf(),
    ensures
        final(world).wf(),
        match old(world)@.set(component_ptr, offset as nat, Type::U32, value as u64) {
            Ok(w) => r is Ok && final(world)@ == w,
            Err(e) => r == Err::<(), ErrorKind>(e) && final(world)@ == old(world)@,
        },
{
    let raw: u64 = value as u64;
    world.set_member(component_ptr, offset, Type::U32, raw)
}

/// Reads the `u32` field at `offset` of the record at `component_ptr`.
pub fn flecs_component_get_member_u32(world: &World, component_ptr: u64, offset: u32) -> (r:
    Result<u32, ErrorKind>)
    requires
        world.wf(),
    ensures
        r == match world@.get(component_ptr, offset as nat, Type::U32) {
            Ok(raw) => Ok::<u32, ErrorKind>(raw as u32),
            Err(e) => Err::<u32, ErrorKind>(e),
        },
{
    proof {
        lemma_pow256(4);
    }
    match world.get_member(component_ptr, offset, Type::U32) {
        Ok(raw) => Ok(raw as u32),
        Err(e) => Err(e),
    }
}

/// Writes `value` to the `u64` field at `offset` of the record at
/// `component_ptr`. On refusal nothing changes.
pub fn flecs_component_set_member_u64(
    world: &mut World,
    component_ptr: u64,
    offset: u32,
    value: u64,
) -> (r: Result<(), ErrorKind>)
    requires
        old(world).wf(),
    ensures
        final(world).wf(),
        match old(world)@.set(component_ptr, offset as nat, Type::U64, value) {
            Ok(w) => r is Ok && final(world)@ == w,
            Err(e) => r == Err::<(), ErrorKind>(e) && final(world)@ == old(world)@,
        },
{
    let raw: u64 = value;
    world.set_member(component_ptr, offset, Type::U64, raw)
}

/// Reads the `u64` field at `offset` of the record at `component_ptr`.
pub fn flecs_component_get_member_u64(world: &World, component_ptr: u64, offset: u32) -> (r:
    Result<u64, ErrorKind>)
    requires
        world.wf(),
    ensures
        r == match world@.get(component_ptr, offset as nat, Type::U64) {
            Ok(raw) => Ok::<u64, ErrorKind>(raw),
            Err(e) => Err::<u64, ErrorKind>(e),
        },
{
    proof {
        lemma_pow256(8);
    }
    match world.get_member(component_ptr, offset, Type::U64) {
        Ok(raw) => Ok(raw),
        Err(e) => Err(e),
    }
}

/// Writes `value` to the `i8` field at `offset` of the record at
/// `component_ptr`. On refusal nothing changes.
pub fn flecs_component_set_member_i8(
    world: &mut World,
    component_ptr: u64,
    offset: u32,
    value: i8,
) -> (r: Result<(), ErrorKind>)
    requires
        old(world).wf(),
    ensures
        final(world).wf(),
        match old(world)@.set(component_ptr, offset as nat, Type::I8, to_unsigned(value as int, 0x100) as u64) {
            Ok(w) => r is Ok && final(world)@ == w,
            Err(e) => r == Err::<(), ErrorKind>(e) && final(world)@ == old(world)@,
        },
{
    let raw: u64 = if value >= 0 {
        value as u64
    } else {
        (value as i64 + 0x100) as u64
    };
    world.set_member(component_ptr, offset, Type::I8, raw)
}

/// Reads the `i8` field at `offset` of the record at `component_ptr`.
pub fn flecs_component_get_member_i8(world: &World, component_ptr: u64, offset: u32) -> (r:
    Result<i8, ErrorKind>)
    requires
        world.wf(),
    ensures
        r == match world@.get(component_ptr, offset as nat, Type::I8) {
            Ok(raw) => Ok::<i8, ErrorKind>(to_signed(raw as int, 0x100) as i8),
            Err(e) => Err::<i8, ErrorKind>(e),
        },
{
    proof {
        lemma_pow256(1);
    }
    match world.get_member(component_ptr, offset, Type::I8) {
        Ok(raw) => Ok(if raw < 0x80 {
            raw as i8
        } else {
            (raw as i64 - 0x100) as i8
        }),
        Err(e) => Err(e),
    }
}

/// Writes `value` to the `i16` field at `offset` of the record at
/// `component_ptr`. On refusal nothing changes.
pub fn flecs_component_set_member_i16(
    world: &mut World,
    component_ptr: u64,
    offset: u32,
    value: i16,
) -> (r: Result<(), ErrorKind>)
    requires
        old(world).wf(),
    ensures
        final(world).wf(),
        match old(world)@.set(component_ptr, offset as nat, Type::I16, to_unsigned(value as int, 0x1_0000) as u64) {
            Ok(w) => r is Ok && final(world)@ == w,
            Err(e) => r == Err::<(), ErrorKind>(e) && final(world)@ == old(world)@,
        },
{
    let raw: u64 = if value >= 0 {
        value as u64
    } else {
        (value as i64 + 0x1_0000) as u64
    };
    world.set_member(component_ptr, offset, Type::I16, raw)
}

/// Reads the `i16` field at `offset` of the record at `component_ptr`.
pub fn flecs_component_get_member_i16(world: &World, component_ptr: u64, offset: u32) -> (r:
    Result<i16, ErrorKind>)
    requires
        world.wf(),
    ensures
        r == match world@.get(component_ptr, offset as nat, Type::I16) {
            Ok(raw) => Ok::<i16, ErrorKind>(to_signed(raw as int, 0x1_0000) as i16),
            Err(e) => Err::<i16, ErrorKind>(e),
        },
{
    proof {
        lemma_pow256(2);
    }
    match world.get_member(component_ptr, offset, Type::I16) {
        Ok(raw) => Ok(if raw < 0x8000 {
            raw as i16
        } else {
            (raw as i64 - 0x1_0000) as i16
        }),
        Err(e) => Err(e),
    }
}

/// Writes `value` to the `i32` field at `offset` of the record at
/// `component_ptr`. On refusal nothing changes.
pub fn flecs_component_set_member_i32(
    world: &mut World,
    component_ptr: u64,
    offset: u32,
    value: i32,
) -> (r: Result<(), ErrorKind>)
    requires
        old(world).wf(),
    ensures
        final(world).wf(),
        match old(world)@.set(component_ptr, offset as nat, Type::I32, to_unsigned(value as int, 0x1_0000_0000) as u64) {
            Ok(w) => r is Ok && final(world)@ == w,
            Err(e) => r == Err::<(), ErrorKind>(e) && final(world)@ == old(world)@,
        },
{
    let raw: u64 = if value >= 0 {
        value as u64
    } else {
        (value as i64 + 0x1_0000_0000) as u64
    };
    world.set_member(component_ptr, offset, Type::I32, raw)
}

/// Reads the `i32` field at `offset` of the record at `component_ptr`.
pub fn flecs_component_get_member_i32(world: &World, component_ptr: u64, offset: u32) -> (r:
    Result<i32, ErrorKind>)
    requires
        world.wf(),
    ensures
        r == match world@.get(component_ptr, offset as nat, Type::I32) {
            Ok(raw) => Ok::<i32, ErrorKind>(to_signed(raw as int, 0x1_0000_0000) as i32),
            Err(e) => Err::<i32, ErrorKind>(e),
        },
{
    proof {
        lemma_pow256(4);
    }
    match world.get_member(component_ptr, offset, Type::I32) {
        Ok(raw) => Ok(if raw < 0x8000_0000 {
            raw as i32
        } else {
            (raw as i64 - 0x1_0000_0000) as i32
        }),
        Err(e) => Err(e),
    }
}

/// Writes `value` to the `i64` field at `offset` of the record at
/// `component_ptr`. On refusal nothing changes.
pub fn flecs_component_set_member_i64(
    world: &mut World,
    component_ptr: u64,
    offset: u32,
    value: i64,
) -> (r: Result<(), ErrorKind>)
    requires
        old(world).wf(),
    ensures
        final(world).wf(),
        match old(world)@.set(component_ptr, offset as nat, Type::I64, to_unsigned(value as int, 0x1_0000_0000_0000_0000) as u64) {
            Ok(w) => r is Ok && final(world)@ == w,
            Err(e) => r == Err::<(), ErrorKind>(e) && final(world)@ == old(world)@,
        },
{
    let raw: u64 = if value >= 0 {
        value as u64
    } else {
        (value as i128 + 0x1_0000_0000_0000_0000) as u64
    };
    world.set_member(component_ptr, offset, Type::I64, raw)
}

/// Reads the `i64` field at `offset` of the record at `component_ptr`.
pub fn flecs_component_get_member_i64(world: &World, component_ptr: u64, offset: u32) -> (r:
    Result<i64, ErrorKind>)
    requires
        world.wf(),
    ensures
        r == match world@.get(component_ptr, offset as nat, Type::I64) {
            Ok(raw) => Ok::<i64, ErrorKind>(to_signed(raw as int, 0x1_0000_0000_0000_0000) as i64),
            Err(e) => Err::<i64, ErrorKind>(e),
        },
{
    proof {
        lemma_pow256(8);
    }
    match world.get_member(component_ptr, offset, Type::I64) {
        Ok(raw) => Ok(if raw < 0x8000_0000_0000_0000 {
            raw as i64
        } else {
            (raw as i128 - 0x1_0000_0000_0000_0000) as i64
        }),
        Err(e) => Err(e),
    }
}

/// Writes the bit pattern `value` to the `f32` field at `offset` of the record at
/// `component_ptr`. On refusal nothing changes.
pub fn flecs_component_set_member_f32(
    world: &mut World,
    component_ptr: u64,
    offset: u32,
    value: u32,
) -> (r: Result<(), ErrorKind>)
    requires
        old(world).wf(),
    ensures
        final(world).wf(),
        match old(world)@.set(component_ptr, offset as nat, Type::F32, value as u64) {
            Ok(w) => r is Ok && final(world)@ == w,
            Err(e) => r == Err::<(), ErrorKind>(e) && final(world)@ == old(world)@,
        },
{
    let raw: u64 = value as u64;
    world.set_member(component_ptr, offset, Type::F32, raw)
}

/// Reads the bit pattern of the `f32` field at `offset` of the record at `component_ptr`.
pub fn flecs_component_get_member_f32(world: &World, component_ptr: u64, offset: u32) -> (r:
    Result<u32, ErrorKind>)
    requires
        world.wf(),
    ensures
        r == match world@.get(component_ptr, offset as nat, Type::F32) {
            Ok(raw) => Ok::<u32, ErrorKind>(raw as u32),
            Err(e) => Err::<u32, ErrorKind>(e),
        },
{
    proof {
        lemma_pow256(4);
    }
    match world.get_member(component_ptr, offset, Type::F32) {
        Ok(raw) => Ok(raw as u32),
        Err(e) => Err(e),
    }
}

/// Writes the bit pattern `value` to the `f64` field at `offset` of the record at
/// `component_ptr`. On refusal nothing changes.
pub fn flecs_component_set_member_f64(
    world: &mut World,
    component_ptr: u64,
    offset: u32,
    value: u64,
) -> (r: Result<(), ErrorKind>)
    requires
        old(world).wf(),
    ensures
        final(world).wf(),
        match old(world)@.set(component_ptr, offset as nat, Type::F64, value) {
            Ok(w) => r is Ok && final(world)@ == w,
            Err(e) => r == Err::<(), ErrorKind>(e) && final(world)@ == old(world)@,
        },
{
    let raw: u64 = value;
    world.set_member(component_ptr, offset, Type::F64, raw)
}

/// Reads the bit pattern of the `f64` field at `offset` of the record at `component_ptr`.
pub fn flecs_component_get_member_f64(world: &World, component_ptr: u64, offset: u32) -> (r:
    Result<u64, ErrorKind>)
    requires
        world.wf(),
    ensures
        r == match world@.get(component_ptr, offset as nat, Type::F64) {
            Ok(raw) => Ok::<u64, ErrorKind>(raw),
            Err(e) => Err::<u64, ErrorKind>(e),
        },
{
    proof {
        lemma_pow256(8);
    }
    match world.get_member(component_ptr, offset, Type::F64) {
        Ok(raw) => Ok(raw),
        Err(e) => Err(e),
    }
}

/// Writes the bit pattern `value` to the `f32` field at `offset` of the record at
/// `component_ptr`. On refusal nothing changes.
pub fn flecs_component_set_member_float(
    world: &mut World,
    component_ptr: u64,
    offset: u32,
    value: u32,
) -> (r: Result<(), ErrorKind>)
    requires
        old(world).wf(),
    ensures
        final(world).wf(),
        match old(world)@.set(component_ptr, offset as nat, Type::F32, value as u64) {
            Ok(w) => r is Ok && final(world)@ == w,
            Err(e) => r == Err::<(), ErrorKind>(e) && final(world)@ == old(world)@,
        },
{
    let raw: u64 = value as u64;
    world.set_member(component_ptr, offset, Type::F32, raw)
}

/// Reads the bit pattern of the `f32` field at `offset` of the record at `component_ptr`.
pub fn flecs_component_get_member_float(world: &World, component_ptr: u64, offset: u32) -> (r:
    Result<u32, ErrorKind>)
    requires
        world.wf(),
    ensures
        r == match world@.get(component_ptr, offset as nat, Type::F32) {
            Ok(raw) => Ok::<u32, ErrorKind>(raw as u32),
            Err(e) => Err::<u32, ErrorKind>(e),
        },
{
    proof {
        lemma_pow256(4);
    }
    match world.get_member(component_ptr, offset, Type::F32) {
        Ok(raw) => Ok(raw as u32),
        Err(e) => Err(e),
    }
}

/// Writes `value` to the `bool` field at `offset` of the record at
/// `component_ptr`. On refusal nothing changes.
pub fn flecs_component_set_member_bool(
    world: &mut World,
    component_ptr: u64,
    offset: u32,
    value: bool,
) -> (r: Result<(), ErrorKind>)
    requires
        old(world).wf(),
    ensures
        final(world).wf(),
        match old(world)@.set(component_ptr, offset as nat, Type::Bool, if value {
            1u64
        } else {
            0u64
        }) {
            Ok(w) => r is Ok && final(world)@ == w,
            Err(e) => r == Err::<(), ErrorKind>(e) && final(world)@ == old(world)@,
        },
{
    let raw: u64 = if value {
        1
    } else {
        0
    };
    world.set_member(component_ptr, offset, Type::Bool, raw)
}

/// Reads the `bool` field at `offset` of the record at `component_ptr`.
pub fn flecs_component_get_member_bool(world: &World, component_ptr: u64, offset: u32) -> (r:
    Result<bool, ErrorKind>)
    requires
        world.wf(),
    ensures
        r == match world@.get(component_ptr, offset as nat, Type::Bool) {
            Ok(raw) => Ok::<bool, ErrorKind>(raw != 0),
            Err(e) => Err::<bool, ErrorKind>(e),
        },
{
    proof {
        lemma_pow256(1);
    }
    match world.get_member(component_ptr, offset, Type::Bool) {
        Ok(raw) => Ok(raw != 0),
        Err(e) => Err(e),
    }
}

/// Writes the address `value` to the slot of the text field at `offset` of the record at
/// `component_ptr`. On refusal nothing changes.
pub fn flecs_component_set_member_string(
    world: &mut World,
    component_ptr: u64,
    offset: u32,
    value: u64,
) -> (r: Result<(), ErrorKind>)
    requires
        old(world).wf(),
    ensures
        final(world).wf(),
        match old(world)@.set(component_ptr, offset as nat, Type::String, value) {
            Ok(w) => r is Ok && final(world)@ == w,
            Err(e) => r == Err::<(), ErrorKind>(e) && final(world)@ == old(world)@,
        },
{
    let raw: u64 = value;
    world.set_member(component_ptr, offset, Type::String, raw)
}

/// Reads the address in the slot of the text field at `offset` of the record at `component_ptr`.
pub fn flecs_component_get_member_string(world: &World, component_ptr: u64, offset: u32) -> (r:
    Result<u64, ErrorKind>)
    requires
        world.wf(),
    ensures
        r == match world@.get(component_ptr, offset as nat, Type::String) {
            Ok(raw) => Ok::<u64, ErrorKind>(raw),
            Err(e) => Err::<u64, ErrorKind>(e),
        },
{
    proof {
        lemma_pow256(8);
    }
    match world.get_member(component_ptr, offset, Type::String) {
        Ok(raw) => Ok(raw),
        Err(e) => Err(e),
    }
}

/// Writes the address `value` to the slot of the `u32` array field at `offset` of the record at
/// `component_ptr`. On refusal nothing changes.
pub fn flecs_component_set_member_u32array(
    world: &mut World,
    component_ptr: u64,
    offset: u32,
    value: u64,
) -> (r: Result<(), ErrorKind>)
    requires
        old(world).wf(),
    ensures
        final(world).wf(),
        match old(world)@.set(component_ptr, offset as nat, Type::U32Array, value) {
            Ok(w) => r is Ok && final(world)@ == w,
            Err(e) => r == Err::<(), ErrorKind>(e) && final(world)@ == old(world)@,
        },
{
    let raw: u64 = value;
    world.set_member(component_ptr, offset, Type::U32Array, raw)
}

/// Reads the address in the slot of the `u32` array field at `offset` of the record at `component_ptr`.
pub fn flecs_component_get_member_u32array(world: &World, component_ptr: u64, offset: u32) -> (r:
    Result<u64, ErrorKind>)
    requires
        world.wf(),
    ensures
        r == match world@.get(component_ptr, offset as nat, Type::U32Array) {
            Ok(raw) => Ok::<u64, ErrorKind>(raw),
            Err(e) => Err::<u64, ErrorKind>(e),
        },
{
    proof {
        lemma_pow256(8);
    }
    match world.get_member(component_ptr, offset, Type::U32Array) {
        Ok(raw) => Ok(raw),
        Err(e) => Err(e),
    }
}

/// Writes the address `value` to the slot of the `f32` array field at `offset` of the record at
/// `component_ptr`. On refusal nothing changes.
pub fn flecs_component_set_member_f32array(
    world: &mut World,
    component_ptr: u64,
    offset: u32,
    value: u64,
) -> (r: Result<(), ErrorKind>)
    requires
        old(world).wf(),
    ensures
        final(world).wf(),
        match old(world)@.set(component_ptr, offset as nat, Type::F32Array, value) {
            Ok(w) => r is Ok && final(world)@ == w,
            Err(e) => r == Err::<(), ErrorKind>(e) && final(world)@ == old(world)@,
        },
{
    let raw: u64 = value;
    world.set_member(component_ptr, offset, Type::F32Array, raw)
}

/// Reads the address in the slot of the `f32` array field at `offset` of the record at `component_ptr`.
pub fn flecs_component_get_member_f32array(world: &World, component_ptr: u64, offset: u32) -> (r:
    Result<u64, ErrorKind>)
    requires
        world.wf(),
    ensures
        r == match world@.get(component_ptr, offset as nat, Type::F32Array) {
            Ok(raw) => Ok::<u64, ErrorKind>(raw),
            Err(e) => Err::<u64, ErrorKind>(e),
        },
{
    proof {
        lemma_pow256(8);
    }
    match world.get_member(component_ptr, offset, Type::F32Array) {
        Ok(raw) => Ok(raw),
        Err(e) => Err(e),
    }
}

/// Writes the address `value` to the slot of the pointer field at `offset` of the record at
/// `component_ptr`. On refusal nothing changes.
pub fn flecs_component_set_member_ptr(
    world: &mut World,
    component_ptr: u64,
    offset: u32,
    value: u64,
) -> (r: Result<(), ErrorKind>)
    requires
        old(world).wf(),
    ensures
        final(world).wf(),
        match old(world)@.set(component_ptr, offset as nat, Type::Pointer, value) {
            Ok(w) => r is Ok && final(world)@ == w,
            Err(e) => r == Err::<(), ErrorKind>(e) && final(world)@ == old(world)@,
        },
{
    let raw: u64 = value;
    world.set_member(component_ptr, offset, Type::Pointer, raw)
}

/// Reads the address in the slot of the pointer field at `offset` of the record at `component_ptr`.
pub fn flecs_component_get_member_ptr(world: &World, component_ptr: u64, offset: u32) -> (r:
    Result<u64, ErrorKind>)
    requires
        world.wf(),
    ensures
        r == match world@.get(component_ptr, offset as nat, Type::Pointer) {
            Ok(raw) => Ok::<u64, ErrorKind>(raw),
            Err(e) => Err::<u64, ErrorKind>(e),
        },
{
    proof {
        lemma_pow256(8);
    }
    match world.get_member(component_ptr, offset, Type::Pointer) {
        Ok(raw) => Ok(raw),
        Err(e) => Err(e),
    }
}

} // verus!
