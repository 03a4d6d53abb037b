//! The flat call surface over a world: record types, entities and the codec.
//! Every call takes and returns plain values only.
use vstd::prelude::*;
use crate::codec::{
    component_views, decode_all, decoded_views, spec_decode_all, DecodedComponent,
    SerializedComponent,
};
use crate::error::ErrorKind;
use crate::registry::{register_error, spec_lookup, spec_register};
use crate::schema::{name_views, MAX_FIELDS};
use crate::types::{get_member_type, Type};
use crate::world::{record_address, World};

verus! {

/// The types that a list of member type tags names, when every tag names one.
pub open spec fn tag_types(tags: Seq<u8>) -> Seq<Type> {
    Seq::new(tags.len(), |i: int| Type::spec_from_tag(tags[i]).unwrap())
}

/// Every tag of the list names a type.
pub open spec fn tags_known(tags: Seq<u8>) -> bool {
    forall|i: int| 0 <= i < tags.len() ==> Type::spec_from_tag(#[trigger] tags[i]) is Some
}

/// Why creating a component type is refused, if it is: `TooManyFields` for
/// more member names than `MAX_FIELDS`, whatever else is wrong; else
/// `UnsupportedType` when a member type tag names no type; else for the
/// reasons a registration is refused.
pub open spec fn create_error(
    world: crate::world::WorldView,
    name: Seq<char>,
    names: Seq<Seq<char>>,
    tags: Seq<u8>,
) -> Option<ErrorKind> {
    if names.len() > MAX_FIELDS {
        Some(ErrorKind::TooManyFields)
    } else if !tags_known(tags) {
        Some(ErrorKind::UnsupportedType)
    } else {
        register_error(world.registry, name, names, tag_types(tags))
    }
}

/// Resolves a list of member type tags.
fn member_types_of(tags: &Vec<u8>) -> (r: Result<Vec<Type>, ErrorKind>)
    ensures
        match r {
            Ok(v) => tags_known(tags@) && v@ == tag_types(tags@),
            Err(e) => e == ErrorKind::UnsupportedType && !tags_known(tags@),
        },
{
    let mut out: Vec<Type> = Vec::new();
    let mut i: usize = 0;
    while i < tags.len()
        invariant
            i <= tags.len(),
            out@.len() == i,
            forall|k: int| 0 <= k < i ==> Type::spec_from_tag(#[trigger] tags@[k]) == Some(out@[k]),
        decreases tags.len() - i,
    {
        match get_member_type(tags[i]) {
            Ok(t) => {
                out.push(t);
            },
            Err(e) => {
                assert(Type::spec_from_tag(tags@[i as int]) is None);
                return Err(e);
            },
        }
        i += 1;
    }
    assert(out@ =~= tag_types(tags@));
    Ok(out)
}

/// Declares a component type called `component_name` with one member per
/// entry of `member_names`, typed by the tag at the same place of
/// `member_types`, and returns the id of the new type. Members are laid out
/// in order without padding. On refusal the world is unchanged.
pub fn flecs_component_create(
    world: &mut World,
    component_name: &str,
    member_names: &Vec<String>,
    member_types: &Vec<u8>,
) -> (r: Result<u64, ErrorKind>)
    requires
        old(world).wf(),
    ensures
        final(world).wf(),
        final(world)@.entities == old(world)@.entities,
        match r {
            Ok(id) => {
                &&& create_error(
                    old(world)@,
                    component_name@,
                    name_views(member_names@),
                    member_types@,
                ) is None
                &&& id == old(world)@.registry.len() + 1
                &&& final(world)@.registry == spec_register(
                    old(world)@.registry,
                    component_name@,
                    name_views(member_names@),
                    tag_types(member_types@),
                )
            },
            Err(e) => {
                &&& create_error(
                    old(world)@,
                    component_name@,
                    name_views(member_names@),
                    member_types@,
                ) == Some(e)
                &&& final(world)@ == old(world)@
            },
        },
{
    if member_names.len() > MAX_FIELDS {
        return Err(ErrorKind::TooManyFields);
    }
    let types: Vec<Type> = match member_types_of(member_types) {
        Ok(t) => t,
        Err(e) => {
            return Err(e);
        },
    };
    world.register(component_name, member_names, &types)
}

/// Declares a tag: a component type called `tag_name` with no members.
pub fn flecs_tag_create(world: &mut World, tag_name: &str) -> (r: Result<u64, ErrorKind>)
    requires
        old(world).wf(),
    ensures
        final(world).wf(),
        final(world)@.entities == old(world)@.entities,
        match r {
            Ok(id) => {
                &&& register_error(
                    old(world)@.registry,
                    tag_name@,
                    Seq::<Seq<char>>::empty(),
                    Seq::<Type>::empty(),
                ) is None
                &&& id == old(world)@.registry.len() + 1
                &&& final(world)@.registry == spec_register(
                    old(world)@.registry,
                    tag_name@,
                    Seq::<Seq<char>>::empty(),
                    Seq::<Type>::empty(),
                )
            },
            Err(e) => {
                &&& register_error(
                    old(world)@.registry,
                    tag_name@,
                    Seq::<Seq<char>>::empty(),
                    Seq::<Type>::empty(),
                ) == Some(e)
                &&& final(world)@ == old(world)@
            },
        },
{
    let names: Vec<String> = Vec::new();
    let types: Vec<Type> = Vec::new();
    assert(name_views(names@) =~= Seq::<Seq<char>>::empty());
    assert(types@ =~= Seq::<Type>::empty());
    world.register(tag_name, &names, &types)
}

/// The id of the component type called `name`; `UnknownType` when no type
/// has that name.
pub fn flecs_component_get(world: &World, name: &str) -> (r: Result<u64, ErrorKind>)
    requires
        world.wf(),
    ensures
        r == match spec_lookup(world@.registry, name@) {
            Some(id) => Ok::<u64, ErrorKind>(id),
            None => Err::<u64, ErrorKind>(ErrorKind::UnknownType),
        },
{
    world.lookup(name)
}

/// The id of the component type called `name`; `UnknownType` when no type
/// has that name.
pub fn flecs_component_lookup(world: &World, name: &str) -> (r: Result<u64, ErrorKind>)
    requires
        world.wf(),
    ensures
        r == match spec_lookup(world@.registry, name@) {
            Some(id) => Ok::<u64, ErrorKind>(id),
            None => Err::<u64, ErrorKind>(ErrorKind::UnknownType),
        },
{
    world.lookup(name)
}

/// Creates an entity with nothing attached and returns its handle.
pub fn flecs_entity_create(world: &mut World) -> (r: Result<u64, ErrorKind>)
    requires
        old(world).wf(),
    ensures
        final(world).wf(),
        match r {
            Ok(handle) => {
                &&& old(world)@.entities.len() < crate::world::MAX_ENTITIES
                &&& handle == old(world)@.entities.len() + 1
                &&& final(world)@ == old(world)@.created()
                &&& final(world)@.is_valid(handle)
            },
            Err(e) => {
                &&& e == ErrorKind::CapacityExceeded
                &&& old(world)@.entities.len() >= crate::world::MAX_ENTITIES
                &&& final(world)@ == old(world)@
            },
        },
{
    world.create_entity()
}

/// Attaches a zeroed record of the type `component` to `entity`, unless one
/// is attached already.
pub fn flecs_entity_add_component(world: &mut World, entity: u64, component: u64) -> (r: Result<
    (),
    ErrorKind,
>)
    requires
        old(world).wf(),
    ensures
        final(world).wf(),
        final(world)@ == old(world)@.after_attach(entity, component),
        match r {
            Ok(_) => old(world)@.pair_error(entity, component) is None && final(world)@.has(
                entity,
                component,
            ) == Ok::<bool, ErrorKind>(true),
            Err(e) => old(world)@.pair_error(entity, component) == Some(e),
        },
{
    match world.attach(entity, component) {
        Ok(_) => Ok(()),
        Err(e) => Err(e),
    }
}

/// Attaches the tag `tag` to `entity`, unless it is attached already.
pub fn flecs_entity_add_tag(world: &mut World, entity: u64, tag: u64) -> (r: Result<(), ErrorKind>)
    requires
        old(world).wf(),
    ensures
        final(world).wf(),
        final(world)@ == old(world)@.after_attach(entity, tag),
        match r {
            Ok(_) => old(world)@.pair_error(entity, tag) is None && final(world)@.has(entity, tag)
                == Ok::<bool, ErrorKind>(true),
            Err(e) => old(world)@.pair_error(entity, tag) == Some(e),
        },
{
    match world.attach(entity, tag) {
        Ok(_) => Ok(()),
        Err(e) => Err(e),
    }
}

/// The address of the record of the type `component` on `entity`. A zeroed
/// record is attached first when the entity has none of that type.
pub fn flecs_entity_get_component(world: &mut World, entity: u64, component: u64) -> (r: Result<
    u64,
    ErrorKind,
>)
    requires
        old(world).wf(),
    ensures
        final(world).wf(),
        final(world)@ == old(world)@.after_attach(entity, component),
        r == match old(world)@.pair_error(entity, component) {
            Some(e) => Err::<u64, ErrorKind>(e),
            None => Ok::<u64, ErrorKind>(record_address(entity, component) as u64),
        },
        r is Ok ==> final(world)@.has(entity, component) == Ok::<bool, ErrorKind>(true),
{
    world.attach(entity, component)
}

/// Removes the record of the type `component` from `entity`, if one is attached.
pub fn flecs_entity_remove_component(world: &mut World, entity: u64, component: u64) -> (r: Result<
    (),
    ErrorKind,
>)
    requires
        old(world).wf(),
    ensures
        final(world).wf(),
        final(world)@ == old(world)@.after_detach(entity, component),
        match r {
            Ok(_) => old(world)@.pair_error(entity, component) is None && final(world)@.has(
                entity,
                component,
            ) == Ok::<bool, ErrorKind>(false),
            Err(e) => old(world)@.pair_error(entity, component) == Some(e),
        },
{
    world.detach(entity, component)
}

/// Deletes `entity` with everything attached to it.
pub fn flecs_delete_entity(world: &mut World, entity: u64) -> (r: Result<(), ErrorKind>)
    requires
        old(world).wf(),
    ensures
        final(world).wf(),
        match r {
            Ok(_) => old(world)@.is_valid(entity) && final(world)@ == old(world)@.deleted(entity),
            Err(e) => {
                &&& e == ErrorKind::InvalidHandle
                &&& !old(world)@.is_valid(entity)
                &&& final(world)@ == old(world)@
            },
        },
{
    world.delete_entity(entity)
}

/// True if a record of the type `component` is attached to `entity`.
pub fn flecs_entity_has_component(world: &World, entity: u64, component: u64) -> (r: Result<
    bool,
    ErrorKind,
>)
    requires
        world.wf(),
    ensures
        r == world@.has(entity, component),
{
    world.has(entity, component)
}

/// True if `entity` names a live entity.
pub fn flecs_is_valid(world: &World, entity: u64) -> (r: bool)
    ensures
        r == world@.is_valid(entity),
{
    world.is_valid(entity)
}

/// Serializes the record of the type `component_id` on `entity_id`: the
/// type's name and a payload with one entry per field, in declaration order.
pub fn flecs_serialize_component(world: &World, entity_id: u64, component_id: u64) -> (r: Result<
    SerializedComponent,
    ErrorKind,
>)
    requires
        world.wf(),
    ensures
        match world@.serialize_component(entity_id, component_id) {
            Ok(c) => r matches Ok(sc) && sc@ == c,
            Err(e) => r matches Err(e2) && e2 == e,
        },
{
    world.serialize_component(entity_id, component_id)
}

/// Serializes every record of `entity_id`, in attach order.
pub fn flecs_serialize_entity(world: &World, entity_id: u64) -> (r: Result<
    Vec<SerializedComponent>,
    ErrorKind,
>)
    requires
        world.wf(),
    ensures
        match world@.serialize_entity(entity_id) {
            Ok(cs) => r matches Ok(v) && component_views(v@) == cs,
            Err(e) => r matches Err(e2) && e2 == e,
        },
{
    world.serialize_entity(entity_id)
}

/// Applies serialized components to `entity_id` in order: each is looked up
/// by name, decoded, and written field by field into the entity's record of
/// that type, which is attached first if missing. Stops at the first
/// component that fails; the ones before it stay applied.
pub fn flecs_deserialize_entity_sync(
    world: &mut World,
    entity_id: u64,
    components_serialized: &Vec<SerializedComponent>,
) -> (r: Result<(), ErrorKind>)
    requires
        old(world).wf(),
    ensures
        final(world).wf(),
        final(world)@ == old(world)@.deserialize_state(
            entity_id,
            component_views(components_serialized@),
        ),
        r == old(world)@.deserialize_result(entity_id, component_views(components_serialized@)),
{
    world.deserialize_entity_sync(entity_id, components_serialized)
}

/// Decodes serialized components into their names and typed fields, in
/// order, without touching any entity.
pub fn flecs_deserialize_entity(components_serialized: &Vec<SerializedComponent>) -> (r: Result<
    Vec<DecodedComponent>,
    ErrorKind,
>)
    ensures
        match spec_decode_all(
            component_views(components_serialized@),
            components_serialized@.len(),
        ) {
            Ok(ds) => r matches Ok(v) && decoded_views(v@) == ds,
            Err(e) => r matches Err(e2) && e2 == e,
        },
{
    decode_all(components_serialized)
}

} // verus!
