use flecs_core::api::{
    flecs_component_create, flecs_delete_entity, flecs_entity_add_component, flecs_entity_create,
    flecs_entity_get_component, flecs_entity_remove_component,
};
use flecs_core::bytes::{read_le, write_le};
use flecs_core::error::ErrorKind;
use flecs_core::members::{
    flecs_component_get_member_bool, flecs_component_get_member_f32,
    flecs_component_get_member_f32array, flecs_component_get_member_f64,
    flecs_component_get_member_float, flecs_component_get_member_i16,
    flecs_component_get_member_i32, flecs_component_get_member_i64, flecs_component_get_member_i8,
    flecs_component_get_member_ptr, flecs_component_get_member_string,
    flecs_component_get_member_u16, flecs_component_get_member_u32,
    flecs_component_get_member_u32array, flecs_component_get_member_u64,
    flecs_component_get_member_u8, flecs_component_set_member_bool,
    flecs_component_set_member_f32, flecs_component_set_member_f32array,
    flecs_component_set_member_f64, flecs_component_set_member_float,
    flecs_component_set_member_i16, flecs_component_set_member_i32,
    flecs_component_set_member_i64, flecs_component_set_member_i8, flecs_component_set_member_ptr,
    flecs_component_set_member_string, flecs_component_set_member_u16,
    flecs_component_set_member_u32, flecs_component_set_member_u32array,
    flecs_component_set_member_u64, flecs_component_set_member_u8,
};
use flecs_core::record::{get_raw, set_raw};
use flecs_core::schema::ecs_struct_desc_t;
use flecs_core::types::Type;
use flecs_core::value::DynamicType;
use flecs_core::world::World;

fn names(list: &[&str]) -> Vec<String> {
    list.iter().map(|s| s.to_string()).collect()
}

/// A world with one type that has a field of every type, and one entity
/// carrying a record of it. Returns the world and the record's address.
fn world_with_every_type() -> (World, u64) {
    let mut world = World::new();
    let tags: Vec<u8> = (0..15).collect();
    let fields: Vec<String> = (0..15).map(|i| format!("f{}", i)).collect();
    let id = flecs_component_create(&mut world, "Everything", &fields, &tags).unwrap();
    let e = flecs_entity_create(&mut world).unwrap();
    let ptr = flecs_entity_get_component(&mut world, e, id).unwrap();
    (world, ptr)
}

// Offsets of the fields of `Everything`: widths 1,2,4,8,1,2,4,8,4,8,1,8,8,8,8.
const OFF_U8: u32 = 0;
const OFF_U16: u32 = 1;
const OFF_U32: u32 = 3;
const OFF_U64: u32 = 7;
const OFF_I8: u32 = 15;
const OFF_I16: u32 = 16;
const OFF_I32: u32 = 18;
const OFF_I64: u32 = 22;
const OFF_F32: u32 = 30;
const OFF_F64: u32 = 34;
const OFF_BOOL: u32 = 42;
const OFF_STRING: u32 = 43;
const OFF_PTR: u32 = 51;
const OFF_U32ARRAY: u32 = 59;
const OFF_F32ARRAY: u32 = 67;

#[test]
fn little_endian_read_and_write() {
    let mut data = vec![0u8; 8];
    write_le(&mut data, 2, 4, 0x1122_3344);
    assert_eq!(data, vec![0, 0, 0x44, 0x33, 0x22, 0x11, 0, 0]);
    assert_eq!(read_le(&data, 2, 4), 0x1122_3344);
    assert_eq!(read_le(&data, 2, 2), 0x3344);
    assert_eq!(read_le(&data, 0, 8), 0x0000_1122_3344_0000);
    assert_eq!(read_le(&data, 3, 0), 0);
    write_le(&mut data, 0, 1, 0x1FF);
    assert_eq!(data[0], 0xFF);
    assert_eq!(data[1], 0);
    write_le(&mut data, 0, 8, u64::MAX);
    assert_eq!(read_le(&data, 0, 8), u64::MAX);
}

#[test]
fn raw_numbers_of_values() {
    assert_eq!(DynamicType::U8(200).raw(), 200);
    assert_eq!(DynamicType::I8(-1).raw(), 0xFF);
    assert_eq!(DynamicType::I8(-128).raw(), 0x80);
    assert_eq!(DynamicType::I16(-2).raw(), 0xFFFE);
    assert_eq!(DynamicType::I32(-1).raw(), 0xFFFF_FFFF);
    assert_eq!(DynamicType::I64(-1).raw(), u64::MAX);
    assert_eq!(DynamicType::I64(i64::MIN).raw(), 0x8000_0000_0000_0000);
    assert_eq!(DynamicType::F32(1.5f32.to_bits()).raw(), 0x3FC0_0000);
    assert_eq!(DynamicType::Bool(true).raw(), 1);
    assert_eq!(DynamicType::Bool(false).raw(), 0);
    assert_eq!(DynamicType::I8(-1).type_(), Type::I8);
}

#[test]
fn values_of_raw_numbers() {
    assert_eq!(DynamicType::from_raw(Type::U8, 0x1FF), Ok(DynamicType::U8(0xFF)));
    assert_eq!(DynamicType::from_raw(Type::I8, 0xFF), Ok(DynamicType::I8(-1)));
    assert_eq!(DynamicType::from_raw(Type::I8, 0x7F), Ok(DynamicType::I8(127)));
    assert_eq!(DynamicType::from_raw(Type::I16, 0x8000), Ok(DynamicType::I16(i16::MIN)));
    assert_eq!(DynamicType::from_raw(Type::I32, 0xFFFF_FFFE), Ok(DynamicType::I32(-2)));
    assert_eq!(DynamicType::from_raw(Type::I64, u64::MAX), Ok(DynamicType::I64(-1)));
    assert_eq!(DynamicType::from_raw(Type::U64, u64::MAX), Ok(DynamicType::U64(u64::MAX)));
    assert_eq!(DynamicType::from_raw(Type::Bool, 2), Ok(DynamicType::Bool(true)));
    assert_eq!(DynamicType::from_raw(Type::Bool, 0), Ok(DynamicType::Bool(false)));
    assert_eq!(DynamicType::from_raw(Type::F64, 7), Ok(DynamicType::F64(7)));
    assert_eq!(DynamicType::from_raw(Type::String, 7), Err(ErrorKind::UnsupportedType));
    assert_eq!(DynamicType::from_raw(Type::Pointer, 7), Err(ErrorKind::UnsupportedType));
}

#[test]
fn accessors_on_plain_memory() {
    let d = ecs_struct_desc_t::new(1, "P", &names(&["a", "b"]), &vec![Type::U16, Type::U32]).unwrap();
    let mut data = vec![0u8; 6];
    assert_eq!(set_raw(&d, &mut data, 0, Type::U16, 0xABCD), Ok(()));
    assert_eq!(set_raw(&d, &mut data, 2, Type::U32, 0x0102_0304), Ok(()));
    assert_eq!(data, vec![0xCD, 0xAB, 4, 3, 2, 1]);
    assert_eq!(get_raw(&d, &data, 0, Type::U16), Ok(0xABCD));
    assert_eq!(get_raw(&d, &data, 2, Type::U32), Ok(0x0102_0304));
    assert_eq!(get_raw(&d, &data, 1, Type::U8), Err(ErrorKind::OffsetOutOfBounds));
    assert_eq!(get_raw(&d, &data, 6, Type::U8), Err(ErrorKind::OffsetOutOfBounds));
    assert_eq!(get_raw(&d, &data, 0, Type::I16), Err(ErrorKind::TypeMismatch));
    assert_eq!(set_raw(&d, &mut data, 2, Type::F32, 0), Err(ErrorKind::TypeMismatch));
    assert_eq!(data, vec![0xCD, 0xAB, 4, 3, 2, 1]);
}

#[test]
fn accessors_check_the_memory_given() {
    let d = ecs_struct_desc_t::new(1, "P", &names(&["a", "b"]), &vec![Type::U16, Type::U32]).unwrap();
    let mut short = vec![0u8; 5];
    assert_eq!(get_raw(&d, &short, 0, Type::U16), Ok(0));
    assert_eq!(get_raw(&d, &short, 2, Type::U32), Err(ErrorKind::OffsetOutOfBounds));
    assert_eq!(set_raw(&d, &mut short, 2, Type::U32, 1), Err(ErrorKind::OffsetOutOfBounds));
    assert_eq!(short, vec![0u8; 5]);
}

#[test]
fn a_write_cuts_the_number_to_the_field() {
    let d = ecs_struct_desc_t::new(1, "P", &names(&["a", "b"]), &vec![Type::U8, Type::U8]).unwrap();
    let mut data = vec![0u8; 2];
    assert_eq!(set_raw(&d, &mut data, 0, Type::U8, 0x1234), Ok(()));
    assert_eq!(data, vec![0x34, 0]);
    assert_eq!(get_raw(&d, &data, 0, Type::U8), Ok(0x34));
}

#[test]
fn a_fresh_record_reads_as_zero() {
    let (world, ptr) = world_with_every_type();
    assert_eq!(flecs_component_get_member_u8(&world, ptr, OFF_U8), Ok(0));
    assert_eq!(flecs_component_get_member_i64(&world, ptr, OFF_I64), Ok(0));
    assert_eq!(flecs_component_get_member_bool(&world, ptr, OFF_BOOL), Ok(false));
    assert_eq!(flecs_component_get_member_ptr(&world, ptr, OFF_PTR), Ok(0));
}

#[test]
fn unsigned_members_round_trip() {
    let (mut world, ptr) = world_with_every_type();
    assert_eq!(flecs_component_set_member_u8(&mut world, ptr, OFF_U8, 0xAB), Ok(()));
    assert_eq!(flecs_component_set_member_u16(&mut world, ptr, OFF_U16, 0xBEEF), Ok(()));
    assert_eq!(flecs_component_set_member_u32(&mut world, ptr, OFF_U32, 0xDEAD_BEEF), Ok(()));
    assert_eq!(flecs_component_set_member_u64(&mut world, ptr, OFF_U64, u64::MAX - 1), Ok(()));
    assert_eq!(flecs_component_get_member_u8(&world, ptr, OFF_U8), Ok(0xAB));
    assert_eq!(flecs_component_get_member_u16(&world, ptr, OFF_U16), Ok(0xBEEF));
    assert_eq!(flecs_component_get_member_u32(&world, ptr, OFF_U32), Ok(0xDEAD_BEEF));
    assert_eq!(flecs_component_get_member_u64(&world, ptr, OFF_U64), Ok(u64::MAX - 1));
}

#[test]
fn signed_members_round_trip() {
    let (mut world, ptr) = world_with_every_type();
    for v in [i8::MIN, -1, 0, 1, i8::MAX] {
        assert_eq!(flecs_component_set_member_i8(&mut world, ptr, OFF_I8, v), Ok(()));
        assert_eq!(flecs_component_get_member_i8(&world, ptr, OFF_I8), Ok(v));
    }
    for v in [i16::MIN, -300, 0, 300, i16::MAX] {
        assert_eq!(flecs_component_set_member_i16(&mut world, ptr, OFF_I16, v), Ok(()));
        assert_eq!(flecs_component_get_member_i16(&world, ptr, OFF_I16), Ok(v));
    }
    for v in [i32::MIN, -70000, 0, 70000, i32::MAX] {
        assert_eq!(flecs_component_set_member_i32(&mut world, ptr, OFF_I32, v), Ok(()));
        assert_eq!(flecs_component_get_member_i32(&world, ptr, OFF_I32), Ok(v));
    }
    for v in [i64::MIN, -5_000_000_000, 0, 5_000_000_000, i64::MAX] {
        assert_eq!(flecs_component_set_member_i64(&mut world, ptr, OFF_I64, v), Ok(()));
        assert_eq!(flecs_component_get_member_i64(&world, ptr, OFF_I64), Ok(v));
    }
}

#[test]
fn float_members_round_trip_as_bits() {
    let (mut world, ptr) = world_with_every_type();
    assert_eq!(flecs_component_set_member_f32(&mut world, ptr, OFF_F32, 1.5f32.to_bits()), Ok(()));
    assert_eq!(flecs_component_set_member_f64(&mut world, ptr, OFF_F64, (-2.25f64).to_bits()), Ok(()));
    let x = f32::from_bits(flecs_component_get_member_f32(&world, ptr, OFF_F32).unwrap());
    let y = f64::from_bits(flecs_component_get_member_f64(&world, ptr, OFF_F64).unwrap());
    assert_eq!(x, 1.5);
    assert_eq!(y, -2.25);
    assert_eq!(flecs_component_set_member_float(&mut world, ptr, OFF_F32, (-0.5f32).to_bits()), Ok(()));
    let z = f32::from_bits(flecs_component_get_member_float(&world, ptr, OFF_F32).unwrap());
    assert_eq!(z, -0.5);
}

#[test]
fn bool_members_round_trip() {
    let (mut world, ptr) = world_with_every_type();
    assert_eq!(flecs_component_set_member_bool(&mut world, ptr, OFF_BOOL, true), Ok(()));
    assert_eq!(flecs_component_get_member_bool(&world, ptr, OFF_BOOL), Ok(true));
    assert_eq!(flecs_component_set_member_bool(&mut world, ptr, OFF_BOOL, false), Ok(()));
    assert_eq!(flecs_component_get_member_bool(&world, ptr, OFF_BOOL), Ok(false));
}

#[test]
fn indirection_slots_hold_an_address() {
    let (mut world, ptr) = world_with_every_type();
    assert_eq!(flecs_component_set_member_string(&mut world, ptr, OFF_STRING, 0x1000), Ok(()));
    assert_eq!(flecs_component_set_member_ptr(&mut world, ptr, OFF_PTR, 0x2000), Ok(()));
    assert_eq!(flecs_component_set_member_u32array(&mut world, ptr, OFF_U32ARRAY, 0x3000), Ok(()));
    assert_eq!(flecs_component_set_member_f32array(&mut world, ptr, OFF_F32ARRAY, u64::MAX), Ok(()));
    assert_eq!(flecs_component_get_member_string(&world, ptr, OFF_STRING), Ok(0x1000));
    assert_eq!(flecs_component_get_member_ptr(&world, ptr, OFF_PTR), Ok(0x2000));
    assert_eq!(flecs_component_get_member_u32array(&world, ptr, OFF_U32ARRAY), Ok(0x3000));
    assert_eq!(flecs_component_get_member_f32array(&world, ptr, OFF_F32ARRAY), Ok(u64::MAX));
}

#[test]
fn a_write_leaves_the_neighbours_alone() {
    let (mut world, ptr) = world_with_every_type();
    flecs_component_set_member_u8(&mut world, ptr, OFF_U8, 0x11).unwrap();
    flecs_component_set_member_u32(&mut world, ptr, OFF_U32, 0x3333_3333).unwrap();
    flecs_component_set_member_u16(&mut world, ptr, OFF_U16, 0xFFFF).unwrap();
    assert_eq!(flecs_component_get_member_u8(&world, ptr, OFF_U8), Ok(0x11));
    assert_eq!(flecs_component_get_member_u32(&world, ptr, OFF_U32), Ok(0x3333_3333));
    assert_eq!(flecs_component_get_member_u16(&world, ptr, OFF_U16), Ok(0xFFFF));
}

#[test]
fn the_wrong_accessor_is_a_type_mismatch() {
    let (mut world, ptr) = world_with_every_type();
    assert_eq!(flecs_component_get_member_u8(&world, ptr, OFF_I8), Err(ErrorKind::TypeMismatch));
    assert_eq!(flecs_component_get_member_i8(&world, ptr, OFF_U8), Err(ErrorKind::TypeMismatch));
    assert_eq!(flecs_component_get_member_u32(&world, ptr, OFF_F32), Err(ErrorKind::TypeMismatch));
    assert_eq!(flecs_component_get_member_f32(&world, ptr, OFF_U32), Err(ErrorKind::TypeMismatch));
    assert_eq!(flecs_component_get_member_ptr(&world, ptr, OFF_STRING), Err(ErrorKind::TypeMismatch));
    assert_eq!(flecs_component_get_member_u64(&world, ptr, OFF_PTR), Err(ErrorKind::TypeMismatch));
    assert_eq!(
        flecs_component_set_member_u64(&mut world, ptr, OFF_I64, 1),
        Err(ErrorKind::TypeMismatch)
    );
    assert_eq!(flecs_component_get_member_i64(&world, ptr, OFF_I64), Ok(0));
}

#[test]
fn an_offset_where_no_field_starts_is_out_of_bounds() {
    let (mut world, ptr) = world_with_every_type();
    assert_eq!(flecs_component_get_member_u8(&world, ptr, 2), Err(ErrorKind::OffsetOutOfBounds));
    assert_eq!(flecs_component_get_member_u8(&world, ptr, 75), Err(ErrorKind::OffsetOutOfBounds));
    assert_eq!(
        flecs_component_get_member_u8(&world, ptr, u32::MAX),
        Err(ErrorKind::OffsetOutOfBounds)
    );
    assert_eq!(
        flecs_component_set_member_u16(&mut world, ptr, 2, 1),
        Err(ErrorKind::OffsetOutOfBounds)
    );
}

#[test]
fn a_stale_or_foreign_address_is_an_invalid_handle() {
    let (mut world, ptr) = world_with_every_type();
    assert_eq!(flecs_component_get_member_u8(&world, 0, 0), Err(ErrorKind::InvalidHandle));
    assert_eq!(flecs_component_get_member_u8(&world, ptr + 1, 0), Err(ErrorKind::InvalidHandle));
    assert_eq!(
        flecs_component_get_member_u8(&world, ptr + (1u64 << 32), 0),
        Err(ErrorKind::InvalidHandle)
    );
    assert_eq!(
        flecs_component_set_member_u8(&mut world, u64::MAX, 0, 1),
        Err(ErrorKind::InvalidHandle)
    );
    flecs_entity_remove_component(&mut world, 1, 1).unwrap();
    assert_eq!(flecs_component_get_member_u8(&world, ptr, 0), Err(ErrorKind::InvalidHandle));
    flecs_entity_add_component(&mut world, 1, 1).unwrap();
    assert_eq!(flecs_component_get_member_u8(&world, ptr, 0), Ok(0));
    flecs_delete_entity(&mut world, 1).unwrap();
    assert_eq!(flecs_component_get_member_u8(&world, ptr, 0), Err(ErrorKind::InvalidHandle));
}

#[test]
fn a_record_address_names_entity_and_type() {
    let mut world = World::new();
    let a = flecs_component_create(&mut world, "A", &names(&["v"]), &vec![0]).unwrap();
    let b = flecs_component_create(&mut world, "B", &names(&["v"]), &vec![0]).unwrap();
    let e1 = flecs_entity_create(&mut world).unwrap();
    let e2 = flecs_entity_create(&mut world).unwrap();
    assert_eq!(flecs_entity_get_component(&mut world, e1, a), Ok((1u64 << 32) + 1));
    assert_eq!(flecs_entity_get_component(&mut world, e1, b), Ok((1u64 << 32) + 2));
    assert_eq!(flecs_entity_get_component(&mut world, e2, b), Ok((2u64 << 32) + 2));
    let p1 = (1u64 << 32) + 2;
    let p2 = (2u64 << 32) + 2;
    flecs_component_set_member_u8(&mut world, p1, 0, 10).unwrap();
    flecs_component_set_member_u8(&mut world, p2, 0, 20).unwrap();
    assert_eq!(flecs_component_get_member_u8(&world, p1, 0), Ok(10));
    assert_eq!(flecs_component_get_member_u8(&world, p2, 0), Ok(20));
    assert_eq!(flecs_component_get_member_u8(&world, (1u64 << 32) + 1, 0), Ok(0));
}
