//! Field accessors: typed reads and writes of raw record memory at the byte
//! offsets that a schema assigns.
//!
//! Every access names an offset and a type. It is refused with
//! `OffsetOutOfBounds` when no field of the schema starts at the offset or the
//! field does not lie within the memory given, and with `TypeMismatch` when the
//! field there was declared with another type. Bytes are never reinterpreted.
use vstd::prelude::*;
use crate::bytes::{
    le_bytes, le_value, lemma_le_round_trip, lemma_le_value_bound, lemma_pow256, lemma_splice,
    pow256, read_le, splice, write_le,
};
use crate::error::ErrorKind;
use crate::schema::{ecs_struct_desc_t, lemma_field_in_record, lemma_fields_disjoint, StructView};
use crate::types::Type;

verus! {

/// The bytes of field `i` of `schema` in `data`.
pub open spec fn field_bytes(schema: StructView, data: Seq<u8>, i: int) -> Seq<u8> {
    let m = schema.members[i];
    data.subrange(m.offset as int, (m.offset + m.type_.spec_width()) as int)
}

/// The raw number that field `i` of `schema` holds in `data`.
pub open spec fn field_raw(schema: StructView, data: Seq<u8>, i: int) -> u64 {
    le_value(field_bytes(schema, data, i)) as u64
}

/// Why an access of type `ty` at `offset` is refused, if it is.
pub open spec fn access_error(schema: StructView, len: nat, offset: nat, ty: Type) -> Option<
    ErrorKind,
> {
    match schema.field_at(offset) {
        None => Some(ErrorKind::OffsetOutOfBounds),
        Some(i) => {
            let m = schema.members[i];
            if m.type_ != ty {
                Some(ErrorKind::TypeMismatch)
            } else if m.offset + m.type_.spec_width() > len {
                Some(ErrorKind::OffsetOutOfBounds)
            } else {
                None
            }
        },
    }
}

/// What a read of type `ty` at `offset` returns.
pub open spec fn spec_get_raw(schema: StructView, data: Seq<u8>, offset: nat, ty: Type) -> Result<
    u64,
    ErrorKind,
> {
    match access_error(schema, data.len(), offset, ty) {
        Some(e) => Err(e),
        None => Ok(field_raw(schema, data, schema.field_at(offset).unwrap())),
    }
}

/// The memory after a write of the raw number `raw` as type `ty` at `offset`:
/// the low bytes of `raw`, as many as the type is wide, replace the field's bytes.
pub open spec fn spec_set_raw(
    schema: StructView,
    data: Seq<u8>,
    offset: nat,
    ty: Type,
    raw: u64,
) -> Result<Seq<u8>, ErrorKind> {
    match access_error(schema, data.len(), offset, ty) {
        Some(e) => Err(e),
        None => Ok(splice(data, offset as int, le_bytes(raw as nat, ty.spec_width()))),
    }
}

/// Reads the field of type `ty` that starts at `offset`.
#[verifier::rlimit(40)]
pub fn get_raw(schema: &ecs_struct_desc_t, data: &[u8], offset: u32, ty: Type) -> (r: Result<
    u64,
    ErrorKind,
>)
    requires
        schema.wf(),
    ensures
        r == spec_get_raw(schema@, data@, offset as nat, ty),
        r matches Ok(raw) ==> raw < pow256(ty.spec_width()),
{
    let i: usize = match schema.member_at(offset) {
        Some(i) => i,
        None => {
            return Err(ErrorKind::OffsetOutOfBounds);
        },
    };
    let m = schema.member(i);
    if m.type_ != ty {
        return Err(ErrorKind::TypeMismatch);
    }
    let width: usize = ty.width() as usize;
    let start: usize = offset as usize;
    if data.len() < width || start > data.len() - width {
        return Err(ErrorKind::OffsetOutOfBounds);
    }
    Ok(read_le(data, start, width))
}

/// Writes the low bytes of `raw` to the field of type `ty` that starts at
/// `offset`. On refusal the memory is unchanged.
#[verifier::rlimit(40)]
pub fn set_raw(
    schema: &ecs_struct_desc_t,
    data: &mut Vec<u8>,
    offset: u32,
    ty: Type,
    raw: u64,
) -> (r: Result<(), ErrorKind>)
    requires
        schema.wf(),
    ensures
        match spec_set_raw(schema@, old(data)@, offset as nat, ty, raw) {
            Ok(d) => r is Ok && final(data)@ == d,
            Err(e) => r == Err::<(), ErrorKind>(e) && final(data)@ == old(data)@,
        },
{
    let i: usize = match schema.member_at(offset) {
        Some(i) => i,
        None => {
            return Err(ErrorKind::OffsetOutOfBounds);
        },
    };
    let m = schema.member(i);
    if m.type_ != ty {
        return Err(ErrorKind::TypeMismatch);
    }
    let width: usize = ty.width() as usize;
    let start: usize = offset as usize;
    if data.len() < width || start > data.len() - width {
        return Err(ErrorKind::OffsetOutOfBounds);
    }
    write_le(data, start, width, raw);
    Ok(())
}

/// A field that was written reads back as the number written, cut to the
/// field's width; the memory keeps its length.
#[verifier::rlimit(40)]
pub proof fn law_set_then_get(schema: StructView, data: Seq<u8>, offset: nat, ty: Type, raw: u64)
    requires
        schema.wf(),
        spec_set_raw(schema, data, offset, ty, raw) is Ok,
    ensures
        ({
            let after = spec_set_raw(schema, data, offset, ty, raw).unwrap();
            &&& after.len() == data.len()
            &&& spec_get_raw(schema, after, offset, ty) == Ok::<u64, ErrorKind>(
                (raw as nat % pow256(ty.spec_width())) as u64,
            )
            &&& raw < pow256(ty.spec_width()) ==> spec_get_raw(schema, after, offset, ty) == Ok::<
                u64,
                ErrorKind,
            >(raw)
        }),
{
    let width = ty.spec_width();
    let bytes = le_bytes(raw as nat, width);
    lemma_le_round_trip(raw as nat, width);
    lemma_splice(data, offset as int, bytes);
    lemma_pow256(width);
}

/// A write to one field leaves every other field of the record as it was.
#[verifier::rlimit(40)]
pub proof fn law_set_keeps_others(
    schema: StructView,
    data: Seq<u8>,
    offset: nat,
    ty: Type,
    raw: u64,
    j: int,
)
    requires
        schema.wf(),
        spec_set_raw(schema, data, offset, ty, raw) is Ok,
        0 <= j < schema.members.len(),
        schema.members[j].offset != offset,
        data.len() == schema.size(),
    ensures
        field_raw(schema, spec_set_raw(schema, data, offset, ty, raw).unwrap(), j) == field_raw(
            schema,
            data,
            j,
        ),
{
    let i = schema.field_at(offset).unwrap();
    let bytes = le_bytes(raw as nat, ty.spec_width());
    lemma_splice(data, offset as int, bytes);
    lemma_field_in_record(schema, j);
    if i < j {
        lemma_fields_disjoint(schema, i, j);
    } else if j < i {
        lemma_fields_disjoint(schema, j, i);
    }
}

/// What a field holds is below 256 to the power of its width.
pub proof fn lemma_field_raw_bound(schema: StructView, data: Seq<u8>, i: int)
    requires
        schema.wf(),
        0 <= i < schema.members.len(),
        data.len() >= schema.size(),
    ensures
        field_raw(schema, data, i) < pow256(schema.members[i].type_.spec_width()),
        field_raw(schema, data, i) == le_value(field_bytes(schema, data, i)),
        field_bytes(schema, data, i).len() == schema.members[i].type_.spec_width(),
{
    let m = schema.members[i];
    lemma_field_in_record(schema, i);
    lemma_le_value_bound(field_bytes(schema, data, i));
    lemma_pow256(m.type_.spec_width());
}

} // verus!
