use flecs_core::api::{
    flecs_component_create, flecs_delete_entity, flecs_deserialize_entity_sync,
    flecs_entity_add_component, flecs_entity_add_tag, flecs_entity_create,
    flecs_entity_get_component, flecs_entity_has_component, flecs_entity_remove_component,
    flecs_is_valid, flecs_serialize_component, flecs_serialize_entity, flecs_tag_create,
};
use flecs_core::codec::SerializedComponent;
use flecs_core::cursor::FieldArray;
use flecs_core::error::ErrorKind;
use flecs_core::frame::{frame_entity, parse_entity};
use flecs_core::iteration::{
    flecs_filter_build, flecs_filter_create, flecs_filter_iter, flecs_filter_iter_component,
    flecs_filter_next, flecs_filter_with, flecs_iter_ptrs, flecs_query_build, flecs_query_create,
    flecs_query_entity, flecs_query_field, flecs_query_field_size, flecs_query_iter,
    flecs_query_iter_component, flecs_query_next, flecs_query_with, flecs_query_with_or,
    flecs_query_without,
};
use flecs_core::members::{
    flecs_component_get_member_f32, flecs_component_get_member_u8,
    flecs_component_set_member_f32, flecs_component_set_member_u8,
};
use flecs_core::value::DynamicType;
use flecs_core::wire::decode;
use flecs_core::world::World;

fn names(list: &[&str]) -> Vec<String> {
    list.iter().map(|s| s.to_string()).collect()
}

fn world_with_position() -> (World, u64) {
    let mut world = World::new();
    let position =
        flecs_component_create(&mut world, "Position", &names(&["x", "y"]), &vec![8, 8]).unwrap();
    (world, position)
}

/// Walks a cursor to its end and returns the entities of every batch.
fn collect(world: &World, with: &[u64], without: &[u64], any: &[u64]) -> Vec<Vec<u64>> {
    let mut desc = flecs_query_create();
    flecs_query_with(&mut desc, with).unwrap();
    flecs_query_without(&mut desc, without).unwrap();
    flecs_query_with_or(&mut desc, any).unwrap();
    let query = flecs_query_build(desc);
    let mut iter = flecs_query_iter(world, &query);
    let mut out = Vec::new();
    while flecs_query_next(&mut iter).unwrap() {
        out.push(iter.entities());
    }
    out
}

#[test]
fn position_scenario() {
    let (mut world, position) = world_with_position();
    let d = world.describe(position).unwrap();
    assert_eq!((d.member(0).name.as_str(), d.member(0).offset), ("x", 0));
    assert_eq!((d.member(1).name.as_str(), d.member(1).offset), ("y", 4));

    let e = flecs_entity_create(&mut world).unwrap();
    let ptr = flecs_entity_get_component(&mut world, e, position).unwrap();
    assert_eq!(flecs_component_set_member_f32(&mut world, ptr, 0, 1.5f32.to_bits()), Ok(()));
    assert_eq!(flecs_component_set_member_f32(&mut world, ptr, 4, (-2.0f32).to_bits()), Ok(()));

    let c = flecs_serialize_component(&world, e, position).unwrap();
    assert_eq!(c.name, "Position");
    let fields = decode(&c.payload).unwrap();
    assert_eq!(fields.len(), 2);
    assert_eq!(fields[0].name, "x");
    assert_eq!(fields[0].value, DynamicType::F32(1.5f32.to_bits()));
    assert_eq!(fields[1].name, "y");
    assert_eq!(fields[1].value, DynamicType::F32((-2.0f32).to_bits()));

    assert_eq!(flecs_entity_has_component(&world, e, position), Ok(true));

    assert_eq!(flecs_delete_entity(&mut world, e), Ok(()));
    assert!(!flecs_is_valid(&world, e));
    assert_eq!(flecs_entity_has_component(&world, e, position), Err(ErrorKind::InvalidHandle));
    assert_eq!(flecs_component_get_member_f32(&world, ptr, 0), Err(ErrorKind::InvalidHandle));
    assert_eq!(
        flecs_component_set_member_f32(&mut world, ptr, 0, 0),
        Err(ErrorKind::InvalidHandle)
    );
    assert_eq!(flecs_serialize_component(&world, e, position).err(), Some(ErrorKind::InvalidHandle));
    assert_eq!(flecs_serialize_entity(&world, e).err(), Some(ErrorKind::InvalidHandle));
    assert_eq!(flecs_entity_get_component(&mut world, e, position), Err(ErrorKind::InvalidHandle));
    assert_eq!(flecs_entity_add_component(&mut world, e, position), Err(ErrorKind::InvalidHandle));
    assert_eq!(flecs_delete_entity(&mut world, e), Err(ErrorKind::InvalidHandle));
}

#[test]
fn handles_count_up_and_are_never_reused() {
    let mut world = World::new();
    assert_eq!(flecs_entity_create(&mut world), Ok(1));
    assert_eq!(flecs_entity_create(&mut world), Ok(2));
    assert!(flecs_is_valid(&world, 1));
    assert!(flecs_is_valid(&world, 2));
    assert!(!flecs_is_valid(&world, 0));
    assert!(!flecs_is_valid(&world, 3));
    flecs_delete_entity(&mut world, 1).unwrap();
    assert_eq!(flecs_entity_create(&mut world), Ok(3));
    assert!(!flecs_is_valid(&world, 1));
    assert!(flecs_is_valid(&world, 3));
    assert_eq!(flecs_delete_entity(&mut world, 0), Err(ErrorKind::InvalidHandle));
    assert_eq!(flecs_delete_entity(&mut world, 9), Err(ErrorKind::InvalidHandle));
}

#[test]
fn attach_has_detach() {
    let (mut world, position) = world_with_position();
    let frozen = flecs_tag_create(&mut world, "Frozen").unwrap();
    let e = flecs_entity_create(&mut world).unwrap();
    assert_eq!(flecs_entity_has_component(&world, e, position), Ok(false));
    assert_eq!(flecs_entity_add_component(&mut world, e, position), Ok(()));
    assert_eq!(flecs_entity_add_tag(&mut world, e, frozen), Ok(()));
    assert_eq!(flecs_entity_has_component(&world, e, position), Ok(true));
    assert_eq!(flecs_entity_has_component(&world, e, frozen), Ok(true));
    assert_eq!(world.entity_types(e), Ok(vec![position, frozen]));
    assert_eq!(flecs_entity_remove_component(&mut world, e, position), Ok(()));
    assert_eq!(flecs_entity_has_component(&world, e, position), Ok(false));
    assert_eq!(flecs_entity_has_component(&world, e, frozen), Ok(true));
    assert_eq!(flecs_entity_remove_component(&mut world, e, position), Ok(()));
    assert_eq!(world.entity_types(e), Ok(vec![frozen]));
    assert_eq!(world.entity_types(7), Err(ErrorKind::InvalidHandle));
}

#[test]
fn attaching_twice_keeps_the_record() {
    let (mut world, position) = world_with_position();
    let e = flecs_entity_create(&mut world).unwrap();
    let ptr = flecs_entity_get_component(&mut world, e, position).unwrap();
    flecs_component_set_member_f32(&mut world, ptr, 0, 42).unwrap();
    assert_eq!(flecs_entity_add_component(&mut world, e, position), Ok(()));
    assert_eq!(flecs_entity_get_component(&mut world, e, position), Ok(ptr));
    assert_eq!(flecs_component_get_member_f32(&world, ptr, 0), Ok(42));
    assert_eq!(world.entity_types(e), Ok(vec![position]));
}

#[test]
fn a_record_attached_again_starts_from_zero() {
    let (mut world, position) = world_with_position();
    let e = flecs_entity_create(&mut world).unwrap();
    let ptr = flecs_entity_get_component(&mut world, e, position).unwrap();
    flecs_component_set_member_f32(&mut world, ptr, 0, 42).unwrap();
    flecs_entity_remove_component(&mut world, e, position).unwrap();
    assert_eq!(flecs_entity_get_component(&mut world, e, position), Ok(ptr));
    assert_eq!(flecs_component_get_member_f32(&world, ptr, 0), Ok(0));
}

#[test]
fn unknown_types_and_entities_are_told_apart() {
    let (mut world, position) = world_with_position();
    let e = flecs_entity_create(&mut world).unwrap();
    assert_eq!(flecs_entity_has_component(&world, e, 99), Err(ErrorKind::UnknownType));
    assert_eq!(flecs_entity_has_component(&world, e, 0), Err(ErrorKind::UnknownType));
    assert_eq!(flecs_entity_has_component(&world, 99, position), Err(ErrorKind::InvalidHandle));
    assert_eq!(flecs_entity_has_component(&world, 99, 99), Err(ErrorKind::InvalidHandle));
    assert_eq!(flecs_entity_add_component(&mut world, e, 99), Err(ErrorKind::UnknownType));
    assert_eq!(flecs_entity_get_component(&mut world, e, 99), Err(ErrorKind::UnknownType));
    assert_eq!(flecs_entity_remove_component(&mut world, e, 99), Err(ErrorKind::UnknownType));
    assert_eq!(flecs_entity_remove_component(&mut world, 99, position), Err(ErrorKind::InvalidHandle));
    assert_eq!(flecs_serialize_component(&world, e, 99).err(), Some(ErrorKind::UnknownType));
    assert_eq!(flecs_serialize_component(&world, e, position).err(), Some(ErrorKind::InvalidHandle));
}

#[test]
fn serializing_an_entity_lists_its_records_in_attach_order() {
    let (mut world, position) = world_with_position();
    let frozen = flecs_tag_create(&mut world, "Frozen").unwrap();
    let health = flecs_component_create(&mut world, "Health", &names(&["hp"]), &vec![0]).unwrap();
    let e = flecs_entity_create(&mut world).unwrap();
    let hp = flecs_entity_get_component(&mut world, e, health).unwrap();
    flecs_entity_add_tag(&mut world, e, frozen).unwrap();
    flecs_entity_add_component(&mut world, e, position).unwrap();
    flecs_component_set_member_u8(&mut world, hp, 0, 77).unwrap();
    let all = flecs_serialize_entity(&world, e).unwrap();
    assert_eq!(
        all,
        vec![
            SerializedComponent { name: "Health".to_string(), payload: vec![1, 2, 0, b'h', b'p', 0, 77] },
            SerializedComponent { name: "Frozen".to_string(), payload: vec![0] },
            SerializedComponent {
                name: "Position".to_string(),
                payload: vec![2, 1, 0, b'x', 8, 0, 0, 0, 0, 1, 0, b'y', 8, 0, 0, 0, 0],
            },
        ]
    );
    let empty = flecs_entity_create(&mut world).unwrap();
    assert_eq!(flecs_serialize_entity(&world, empty), Ok(Vec::new()));
}

#[test]
fn an_entity_with_a_pointer_field_cannot_be_serialized() {
    let (mut world, position) = world_with_position();
    let label = flecs_component_create(&mut world, "Label", &names(&["text"]), &vec![11]).unwrap();
    let e = flecs_entity_create(&mut world).unwrap();
    flecs_entity_add_component(&mut world, e, position).unwrap();
    flecs_entity_add_component(&mut world, e, label).unwrap();
    assert!(flecs_serialize_component(&world, e, position).is_ok());
    assert_eq!(flecs_serialize_component(&world, e, label).err(), Some(ErrorKind::UnsupportedType));
    assert_eq!(flecs_serialize_entity(&world, e).err(), Some(ErrorKind::UnsupportedType));
}

#[test]
fn an_entity_travels_from_one_world_to_another() {
    let (mut source, position) = world_with_position();
    let health = flecs_component_create(&mut source, "Health", &names(&["hp"]), &vec![0]).unwrap();
    let e = flecs_entity_create(&mut source).unwrap();
    let p = flecs_entity_get_component(&mut source, e, position).unwrap();
    let h = flecs_entity_get_component(&mut source, e, health).unwrap();
    flecs_component_set_member_f32(&mut source, p, 0, 1.5f32.to_bits()).unwrap();
    flecs_component_set_member_f32(&mut source, p, 4, (-2.0f32).to_bits()).unwrap();
    flecs_component_set_member_u8(&mut source, h, 0, 9).unwrap();
    let wire = flecs_serialize_entity(&source, e).unwrap();

    // The target registers the same types in another order.
    let mut target = World::new();
    let health2 = flecs_component_create(&mut target, "Health", &names(&["hp"]), &vec![0]).unwrap();
    let position2 =
        flecs_component_create(&mut target, "Position", &names(&["x", "y"]), &vec![8, 8]).unwrap();
    let _other = flecs_entity_create(&mut target).unwrap();
    let e2 = flecs_entity_create(&mut target).unwrap();
    assert_eq!(flecs_deserialize_entity_sync(&mut target, e2, &wire), Ok(()));
    assert_eq!(target.entity_types(e2), Ok(vec![position2, health2]));
    let p2 = flecs_entity_get_component(&mut target, e2, position2).unwrap();
    let h2 = flecs_entity_get_component(&mut target, e2, health2).unwrap();
    assert_eq!(flecs_component_get_member_f32(&target, p2, 0), Ok(1.5f32.to_bits()));
    assert_eq!(flecs_component_get_member_f32(&target, p2, 4), Ok((-2.0f32).to_bits()));
    assert_eq!(flecs_component_get_member_u8(&target, h2, 0), Ok(9));
    assert_eq!(flecs_serialize_entity(&target, e2), Ok(wire));
}

#[test]
fn schemas_that_differ_share_the_fields_they_have_in_common() {
    let mut source = World::new();
    let a = flecs_component_create(&mut source, "P", &names(&["x", "y", "z"]), &vec![0, 0, 0]).unwrap();
    let e = flecs_entity_create(&mut source).unwrap();
    let p = flecs_entity_get_component(&mut source, e, a).unwrap();
    flecs_component_set_member_u8(&mut source, p, 0, 1).unwrap();
    flecs_component_set_member_u8(&mut source, p, 1, 2).unwrap();
    flecs_component_set_member_u8(&mut source, p, 2, 3).unwrap();
    let wire = flecs_serialize_entity(&source, e).unwrap();

    let mut target = World::new();
    let b = flecs_component_create(&mut target, "P", &names(&["w", "z", "x"]), &vec![0, 0, 0]).unwrap();
    let e2 = flecs_entity_create(&mut target).unwrap();
    let p2 = flecs_entity_get_component(&mut target, e2, b).unwrap();
    flecs_component_set_member_u8(&mut target, p2, 0, 50).unwrap();
    assert_eq!(flecs_deserialize_entity_sync(&mut target, e2, &wire), Ok(()));
    assert_eq!(flecs_component_get_member_u8(&target, p2, 0), Ok(50));
    assert_eq!(flecs_component_get_member_u8(&target, p2, 1), Ok(3));
    assert_eq!(flecs_component_get_member_u8(&target, p2, 2), Ok(1));
}

#[test]
fn deserializing_stops_at_the_first_component_that_fails() {
    let (mut world, position) = world_with_position();
    let e = flecs_entity_create(&mut world).unwrap();
    let good = SerializedComponent {
        name: "Position".to_string(),
        payload: vec![1, 1, 0, b'x', 8, 1, 0, 0, 0],
    };
    let unknown = SerializedComponent { name: "Velocity".to_string(), payload: vec![0] };
    let later = SerializedComponent {
        name: "Position".to_string(),
        payload: vec![1, 1, 0, b'y', 8, 2, 0, 0, 0],
    };
    assert_eq!(
        flecs_deserialize_entity_sync(&mut world, e, &vec![good, unknown, later]),
        Err(ErrorKind::UnknownType)
    );
    let ptr = flecs_entity_get_component(&mut world, e, position).unwrap();
    assert_eq!(flecs_component_get_member_f32(&world, ptr, 0), Ok(1));
    assert_eq!(flecs_component_get_member_f32(&world, ptr, 4), Ok(0));
}

#[test]
fn a_component_that_fails_leaves_the_entity_as_it_was() {
    let (mut world, position) = world_with_position();
    let e = flecs_entity_create(&mut world).unwrap();
    let mismatch = SerializedComponent {
        name: "Position".to_string(),
        payload: vec![2, 1, 0, b'x', 8, 1, 0, 0, 0, 1, 0, b'y', 2, 2, 0, 0, 0],
    };
    assert_eq!(
        flecs_deserialize_entity_sync(&mut world, e, &vec![mismatch]),
        Err(ErrorKind::TypeMismatch)
    );
    assert_eq!(flecs_entity_has_component(&world, e, position), Ok(false));
    let malformed = SerializedComponent { name: "Position".to_string(), payload: vec![1] };
    assert_eq!(
        flecs_deserialize_entity_sync(&mut world, e, &vec![malformed]),
        Err(ErrorKind::MalformedPayload)
    );
    assert_eq!(flecs_entity_has_component(&world, e, position), Ok(false));
    assert_eq!(
        flecs_deserialize_entity_sync(&mut world, 99, &Vec::new()),
        Ok(())
    );
    let tag = SerializedComponent { name: "Position".to_string(), payload: vec![0] };
    assert_eq!(
        flecs_deserialize_entity_sync(&mut world, 99, &vec![tag]),
        Err(ErrorKind::InvalidHandle)
    );
}

#[test]
fn a_query_lists_the_live_entities_that_match() {
    let (mut world, a) = world_with_position();
    let b = flecs_tag_create(&mut world, "B").unwrap();
    let c = flecs_tag_create(&mut world, "C").unwrap();
    let e1 = flecs_entity_create(&mut world).unwrap(); // a
    let e2 = flecs_entity_create(&mut world).unwrap(); // a, b
    let e3 = flecs_entity_create(&mut world).unwrap(); // b
    let e4 = flecs_entity_create(&mut world).unwrap(); // nothing
    let e5 = flecs_entity_create(&mut world).unwrap(); // a, c, then deleted
    let e6 = flecs_entity_create(&mut world).unwrap(); // a, c
    for (e, ids) in [(e1, vec![a]), (e2, vec![a, b]), (e3, vec![b]), (e5, vec![a, c]), (e6, vec![a, c])] {
        for id in ids {
            flecs_entity_add_component(&mut world, e, id).unwrap();
        }
    }
    flecs_delete_entity(&mut world, e5).unwrap();

    assert_eq!(collect(&world, &[a], &[b], &[]), vec![vec![e1], vec![e6]]);
    assert_eq!(collect(&world, &[a], &[], &[]), vec![vec![e1], vec![e2], vec![e6]]);
    assert_eq!(collect(&world, &[], &[a], &[]), vec![vec![e3], vec![e4]]);
    assert_eq!(collect(&world, &[], &[], &[b, c]), vec![vec![e2], vec![e3], vec![e6]]);
    assert_eq!(collect(&world, &[a, b, c], &[], &[]), Vec::<Vec<u64>>::new());
    assert_eq!(
        collect(&world, &[], &[], &[]),
        vec![vec![e1], vec![e2], vec![e3], vec![e4], vec![e6]]
    );
    assert_eq!(collect(&world, &[99], &[], &[]), Vec::<Vec<u64>>::new());
    assert_eq!(collect(&world, &[], &[99], &[]).len(), 5);
    let _ = e4;
}

#[test]
fn a_batch_gives_each_term_its_field_array() {
    let (mut world, position) = world_with_position();
    let health = flecs_component_create(&mut world, "Health", &names(&["hp"]), &vec![0]).unwrap();
    let e1 = flecs_entity_create(&mut world).unwrap();
    let e2 = flecs_entity_create(&mut world).unwrap();
    flecs_entity_add_component(&mut world, e1, position).unwrap();
    flecs_entity_add_component(&mut world, e2, position).unwrap();
    flecs_entity_add_component(&mut world, e2, health).unwrap();

    let mut desc = flecs_query_create();
    flecs_query_with(&mut desc, &[position]).unwrap();
    desc.with(&[health], flecs_core::query::Operator::Optional).unwrap();
    let query = flecs_query_build(desc);
    let mut iter = flecs_query_iter(&world, &query);

    assert_eq!(flecs_iter_ptrs(&iter), Vec::<u64>::new());
    assert_eq!(flecs_query_next(&mut iter), Ok(true));
    assert_eq!(flecs_iter_ptrs(&iter), vec![(1u64 << 32) + position, 0]);
    assert_eq!(flecs_query_entity(&iter, 1, 0), Ok(e1));
    assert_eq!(iter.field_array(0), Ok(FieldArray { base: (1u64 << 32) + position, stride: 8 }));
    assert_eq!(iter.field_array(1), Ok(FieldArray { base: 0, stride: 0 }));
    assert_eq!(flecs_query_field(&iter, 1, 1, 0), Ok(0));
    assert_eq!(flecs_query_field_size(&iter, 0), Ok(8));

    assert_eq!(flecs_query_next(&mut iter), Ok(true));
    assert_eq!(flecs_query_entity(&iter, 1, 0), Ok(e2));
    let p = flecs_query_field(&iter, 0, 1, 0).unwrap();
    let h = flecs_query_field(&iter, 1, 1, 0).unwrap();
    assert_eq!(p, (2u64 << 32) + position);
    assert_eq!(h, (2u64 << 32) + health);
    assert_eq!(flecs_query_field_size(&iter, 1), Ok(1));
    flecs_component_set_member_u8(&mut world, h, 0, 5).unwrap();
    flecs_component_set_member_f32(&mut world, p, 4, 6).unwrap();
    assert_eq!(flecs_component_get_member_u8(&world, h, 0), Ok(5));
    assert_eq!(flecs_component_get_member_f32(&world, p, 4), Ok(6));

    assert_eq!(flecs_query_next(&mut iter), Ok(false));
    assert_eq!(flecs_query_next(&mut iter), Err(ErrorKind::CursorExhausted));
}

#[test]
fn filters_run_like_queries() {
    let (mut world, position) = world_with_position();
    let e = flecs_entity_create(&mut world).unwrap();
    flecs_entity_add_component(&mut world, e, position).unwrap();
    let mut desc = flecs_filter_create();
    flecs_filter_with(&mut desc, &[position]).unwrap();
    let filter = flecs_filter_build(desc);
    let mut iter = flecs_filter_iter(&world, &filter);
    assert_eq!(flecs_filter_next(&mut iter), Ok(true));
    assert_eq!(iter.entities(), vec![e]);
    assert_eq!(flecs_filter_next(&mut iter), Ok(false));
}

#[test]
fn an_element_of_a_component_array() {
    let (world, position) = world_with_position();
    assert_eq!(flecs_query_iter_component(&world, 0x1000, 0, 4, position), Ok(0x1000));
    assert_eq!(flecs_query_iter_component(&world, 0x1000, 3, 4, position), Ok(0x1018));
    assert_eq!(flecs_filter_iter_component(&world, 0x1000, 2, 4, position), Ok(0x1010));
    assert_eq!(
        flecs_query_iter_component(&world, 0x1000, 4, 4, position),
        Err(ErrorKind::OffsetOutOfBounds)
    );
    assert_eq!(
        flecs_query_iter_component(&world, u64::MAX - 7, 1, 4, position),
        Err(ErrorKind::OffsetOutOfBounds)
    );
    assert_eq!(flecs_query_iter_component(&world, u64::MAX - 8, 1, 4, position), Ok(u64::MAX));
    assert_eq!(flecs_query_iter_component(&world, 0, 3, 4, position), Ok(0));
    assert_eq!(
        flecs_query_iter_component(&world, 0x1000, 0, 4, 99),
        Err(ErrorKind::UnknownType)
    );
}

#[test]
fn serializing_listed_types_follows_the_list() {
    let (mut world, position) = world_with_position();
    let health = flecs_component_create(&mut world, "Health", &names(&["hp"]), &vec![0]).unwrap();
    let e = flecs_entity_create(&mut world).unwrap();
    flecs_entity_add_component(&mut world, e, position).unwrap();
    flecs_entity_add_component(&mut world, e, health).unwrap();
    let listed = world.serialize_components(e, &[health, position]).unwrap();
    assert_eq!(listed.len(), 2);
    assert_eq!(listed[0].name, "Health");
    assert_eq!(listed[1].name, "Position");
    assert_eq!(world.serialize_components(e, &[]), Ok(Vec::new()));
    assert_eq!(world.serialize_components(e, &[health, 99]).err(), Some(ErrorKind::UnknownType));
    assert_eq!(world.serialize_components(9, &[health]).err(), Some(ErrorKind::InvalidHandle));
    flecs_entity_remove_component(&mut world, e, health).unwrap();
    assert_eq!(world.serialize_components(e, &[position, health]).err(), Some(ErrorKind::InvalidHandle));
}

#[test]
fn an_entity_crosses_as_bytes() {
    let (mut source, position) = world_with_position();
    let e = flecs_entity_create(&mut source).unwrap();
    let p = flecs_entity_get_component(&mut source, e, position).unwrap();
    flecs_component_set_member_f32(&mut source, p, 0, 1.5f32.to_bits()).unwrap();
    let bytes = frame_entity(&flecs_serialize_entity(&source, e).unwrap()).unwrap();

    let (mut target, position2) = world_with_position();
    let e2 = flecs_entity_create(&mut target).unwrap();
    let components = parse_entity(&bytes).unwrap();
    assert_eq!(flecs_deserialize_entity_sync(&mut target, e2, &components), Ok(()));
    let p2 = flecs_entity_get_component(&mut target, e2, position2).unwrap();
    assert_eq!(flecs_component_get_member_f32(&target, p2, 0), Ok(1.5f32.to_bits()));
}
