//! The world: one owned context that holds the registry and a small entity
//! store, passed by reference to every operation.
//!
//! Entity handles are handed out in creation order, starting at 1, and are
//! never reused: once an entity is deleted its handle stays invalid for good.
//! A record is addressed by `handle * 2^32 + type id`, so the address of a
//! record is never 0 and names the entity and the type whose record it is.
use vstd::prelude::*;
use crate::codec::{
    apply, component_views, encode, lemma_apply_keeps_len, record_error, spec_apply, spec_encode,
    ComponentView, SerializedComponent,
};
use crate::cursor::{batch_views, batches_fit, Batch, BatchView, Cursor, CursorView, FieldArray};
use crate::error::ErrorKind;
use crate::query::{spec_matches, Query, QueryTerm};
use crate::wire::{decode, field_views, spec_decode, FieldView, SerializedField};
use crate::record::{get_raw, set_raw, spec_get_raw, spec_set_raw};
use crate::registry::{
    register_error, registry_wf, spec_describe, spec_lookup, spec_register, Registry,
};
use crate::schema::{ecs_struct_desc_t, name_views, StructView};
use crate::types::Type;

verus! {

/// The most entities a world can ever create.
pub const MAX_ENTITIES: usize = 0xFFFF_FFFF;

/// The number of record addresses set aside for each entity handle.
pub const ADDRESS_SPAN: u64 = 0x1_0000_0000;

/// One record attached to an entity.
struct Attached {
    component: u64,
    data: Vec<u8>,
}

/// One entity slot.
struct Entity {
    alive: bool,
    records: Vec<Attached>,
}

/// What an attached record is, as a mathematical value.
pub struct AttachedView {
    pub component: u64,
    pub data: Seq<u8>,
}

/// What an entity is, as a mathematical value.
pub struct EntityView {
    pub alive: bool,
    pub records: Seq<AttachedView>,
}

/// What a world is, as a mathematical value.
pub struct WorldView {
    pub registry: Seq<StructView>,
    pub entities: Seq<EntityView>,
}

impl View for Attached {
    type V = AttachedView;

    closed spec fn view(&self) -> AttachedView {
        AttachedView { component: self.component, data: self.data@ }
    }
}

impl View for Entity {
    type V = EntityView;

    closed spec fn view(&self) -> EntityView {
        EntityView {
            alive: self.alive,
            records: Seq::new(self.records@.len(), |i: int| self.records@[i]@),
        }
    }
}

/// The address of the record of type `component` on the entity `handle`.
pub open spec fn record_address(handle: u64, component: u64) -> int {
    handle * ADDRESS_SPAN + component
}

impl EntityView {
    /// The ids of the types attached, in attach order.
    pub open spec fn ids(self) -> Seq<u64> {
        Seq::new(self.records.len(), |i: int| self.records[i].component)
    }

    /// Place of the record of type `component`, if it is attached.
    pub open spec fn find(self, component: u64) -> Option<int> {
        if exists|i: int| 0 <= i < self.records.len() && self.records[i].component == component {
            Some(
                choose|i: int| 0 <= i < self.records.len() && self.records[i].component == component,
            )
        } else {
            None
        }
    }

    /// The entity invariant within a registry: a deleted entity holds nothing;
    /// every record is of a registered type and of that type's size; no type
    /// is attached twice.
    pub open spec fn wf(self, registry: Seq<StructView>) -> bool {
        &&& !self.alive ==> self.records.len() == 0
        &&& forall|i: int|
            0 <= i < self.records.len() ==> 1 <= (#[trigger] self.records[i]).component
                <= registry.len() && self.records[i].data.len() == registry[self.records[i].component
                - 1].size()
        &&& forall|i: int, j: int|
            0 <= i < j < self.records.len() ==> self.records[i].component
                != self.records[j].component
    }
}

impl WorldView {
    /// The world invariant.
    pub open spec fn wf(self) -> bool {
        &&& registry_wf(self.registry)
        &&& self.entities.len() <= MAX_ENTITIES
        &&& forall|e: int| 0 <= e < self.entities.len() ==> (#[trigger] self.entities[e]).wf(self.registry)
    }

    /// True if `handle` names a live entity.
    pub open spec fn is_valid(self, handle: u64) -> bool {
        1 <= handle <= self.entities.len() && self.entities[handle - 1].alive
    }

    /// True if `handle` was handed out once and names no live entity any more.
    pub open spec fn is_deleted(self, handle: u64) -> bool {
        1 <= handle <= self.entities.len() && !self.entities[handle - 1].alive
    }

    /// The live entity that `handle` names.
    pub open spec fn entity(self, handle: u64) -> EntityView
        recommends
            self.is_valid(handle),
    {
        self.entities[handle - 1]
    }

    /// Why an operation on the entity `handle` and the type `component` is
    /// refused, if it is: `InvalidHandle` for a handle that names no live
    /// entity, else `UnknownType` for an id that is not registered.
    pub open spec fn pair_error(self, handle: u64, component: u64) -> Option<ErrorKind> {
        if !self.is_valid(handle) {
            Some(ErrorKind::InvalidHandle)
        } else if spec_describe(self.registry, component) is None {
            Some(ErrorKind::UnknownType)
        } else {
            None
        }
    }

    /// What `has` returns.
    pub open spec fn has(self, handle: u64, component: u64) -> Result<bool, ErrorKind> {
        match self.pair_error(handle, component) {
            Some(e) => Err(e),
            None => Ok(self.entity(handle).find(component) is Some),
        }
    }

    /// The world with one more entity, live and with nothing attached.
    pub open spec fn created(self) -> WorldView {
        WorldView {
            entities: self.entities.push(EntityView { alive: true, records: Seq::empty() }),
            ..self
        }
    }

    /// The world with the entity `handle` replaced by `entity`.
    pub open spec fn with_entity(self, handle: u64, entity: EntityView) -> WorldView {
        WorldView { entities: self.entities.update(handle - 1, entity), ..self }
    }

    /// The world after the entity `handle` is deleted: the entity is dead and
    /// its records are gone.
    pub open spec fn deleted(self, handle: u64) -> WorldView {
        self.with_entity(handle, EntityView { alive: false, records: Seq::empty() })
    }

    /// The world after a zeroed record of type `component` is attached to the
    /// entity `handle`, behind the records it already has.
    pub open spec fn attached(self, handle: u64, component: u64) -> WorldView {
        let e = self.entity(handle);
        let size = self.registry[component - 1].size();
        self.with_entity(
            handle,
            EntityView {
                records: e.records.push(
                    AttachedView { component, data: Seq::new(size, |i: int| 0u8) },
                ),
                ..e
            },
        )
    }

    /// The world after the record at place `i` of the entity `handle` is
    /// removed; the records behind it move up by one.
    pub open spec fn detached(self, handle: u64, i: int) -> WorldView {
        let e = self.entity(handle);
        self.with_entity(handle, EntityView { records: e.records.remove(i), ..e })
    }

    /// The world after `attach`: unchanged when the type is attached already.
    pub open spec fn after_attach(self, handle: u64, component: u64) -> WorldView {
        if self.pair_error(handle, component) is Some || self.entity(handle).find(component)
            is Some {
            self
        } else {
            self.attached(handle, component)
        }
    }

    /// The world after `detach`: unchanged when the type is not attached.
    pub open spec fn after_detach(self, handle: u64, component: u64) -> WorldView {
        if self.pair_error(handle, component) is Some {
            self
        } else {
            match self.entity(handle).find(component) {
                None => self,
                Some(i) => self.detached(handle, i),
            }
        }
    }

    /// The entity and the place among its records that a record address
    /// names. An address whose entity is not live, or whose type is not
    /// attached to it, is `InvalidHandle`.
    pub open spec fn locate(self, address: u64) -> Result<(u64, int), ErrorKind> {
        let handle = address / ADDRESS_SPAN;
        let component = address % ADDRESS_SPAN;
        if !self.is_valid(handle) {
            Err(ErrorKind::InvalidHandle)
        } else {
            match self.entity(handle).find(component) {
                None => Err(ErrorKind::InvalidHandle),
                Some(i) => Ok((handle, i)),
            }
        }
    }

    /// What a read of type `ty` at `offset` of the record at `address` returns.
    pub open spec fn get(self, address: u64, offset: nat, ty: Type) -> Result<u64, ErrorKind> {
        match self.locate(address) {
            Err(e) => Err(e),
            Ok((handle, i)) => {
                let rec = self.entity(handle).records[i];
                spec_get_raw(self.registry[rec.component - 1], rec.data, offset, ty)
            },
        }
    }

    /// The world after a write of `raw` as type `ty` at `offset` of the record
    /// at `address`, when the write is not refused.
    pub open spec fn set(self, address: u64, offset: nat, ty: Type, raw: u64) -> Result<
        WorldView,
        ErrorKind,
    > {
        match self.locate(address) {
            Err(e) => Err(e),
            Ok((handle, i)) => {
                let rec = self.entity(handle).records[i];
                match spec_set_raw(self.registry[rec.component - 1], rec.data, offset, ty, raw) {
                    Err(e) => Err(e),
                    Ok(data) => Ok(self.with_data(handle, i, data)),
                }
            },
        }
    }

    /// The schema of the record at place `i` of the entity `handle`.
    pub open spec fn schema_of(self, handle: u64, i: int) -> StructView {
        self.registry[self.entity(handle).records[i].component - 1]
    }

    /// Where the records of type `id` lie for the one-entity batch of
    /// `handle`: at the record's address, with the record's size as stride;
    /// at 0 when the type is not attached.
    pub open spec fn column_of(self, handle: u64, id: u64) -> FieldArray {
        match self.entity(handle).find(id) {
            None => FieldArray { base: 0, stride: 0 },
            Some(i) => FieldArray {
                base: record_address(handle, id) as u64,
                stride: self.schema_of(handle, i).size() as u32,
            },
        }
    }

    /// The batch that holds the entity `handle` alone.
    pub open spec fn batch_of(self, terms: Seq<QueryTerm>, handle: u64) -> BatchView {
        BatchView {
            entities: seq![handle],
            columns: Seq::new(terms.len(), |t: int| self.column_of(handle, terms[t].id)),
        }
    }

    /// True if `handle` names a live entity that matches the query.
    pub open spec fn entity_matches(self, terms: Seq<QueryTerm>, handle: u64) -> bool {
        self.is_valid(handle) && spec_matches(terms, self.entity(handle).ids().to_set())
    }

    /// The batches that the query yields over the first `n` entities: one
    /// batch per live matching entity, in handle order.
    pub open spec fn query_batches(self, terms: Seq<QueryTerm>, n: nat) -> Seq<BatchView>
        decreases n,
    {
        if n == 0 {
            Seq::empty()
        } else {
            let before = self.query_batches(terms, (n - 1) as nat);
            if self.entity_matches(terms, n as u64) {
                before.push(self.batch_of(terms, n as u64))
            } else {
                before
            }
        }
    }

    /// What serializing the record of type `component` on the entity `handle`
    /// returns. A type that is registered but not attached is `InvalidHandle`.
    pub open spec fn serialize_component(self, handle: u64, component: u64) -> Result<
        ComponentView,
        ErrorKind,
    > {
        match self.pair_error(handle, component) {
            Some(e) => Err(e),
            None => match self.entity(handle).find(component) {
                None => Err(ErrorKind::InvalidHandle),
                Some(i) => self.serialize_record(handle, i),
            },
        }
    }

    /// What serializing the record at place `i` of the entity `handle` returns.
    pub open spec fn serialize_record(self, handle: u64, i: int) -> Result<
        ComponentView,
        ErrorKind,
    > {
        let rec = self.entity(handle).records[i];
        match record_error(self.schema_of(handle, i), rec.data.len()) {
            Some(e) => Err(e),
            None => Ok(spec_encode(self.schema_of(handle, i), rec.data)),
        }
    }

    /// What serializing the first `n` records of the entity `handle` returns:
    /// their serialized forms in attach order, or the error of the first
    /// record that cannot be encoded.
    pub open spec fn serialize_records(self, handle: u64, n: nat) -> Result<
        Seq<ComponentView>,
        ErrorKind,
    >
        decreases n,
    {
        if n == 0 {
            Ok(Seq::empty())
        } else {
            match self.serialize_records(handle, (n - 1) as nat) {
                Err(e) => Err(e),
                Ok(before) => match self.serialize_record(handle, n - 1) {
                    Err(e) => Err(e),
                    Ok(c) => Ok(before.push(c)),
                },
            }
        }
    }

    /// What serializing the records of the first `n` of the types `ids` on
    /// the entity `handle` returns: their serialized forms in the order of
    /// `ids`, or the error of the first that fails.
    pub open spec fn serialize_listed(self, handle: u64, ids: Seq<u64>, n: nat) -> Result<
        Seq<ComponentView>,
        ErrorKind,
    >
        decreases n,
    {
        if n == 0 {
            Ok(Seq::empty())
        } else {
            match self.serialize_listed(handle, ids, (n - 1) as nat) {
                Err(e) => Err(e),
                Ok(before) => match self.serialize_component(handle, ids[n - 1]) {
                    Err(e) => Err(e),
                    Ok(c) => Ok(before.push(c)),
                },
            }
        }
    }

    /// What serializing the whole entity `handle` returns.
    pub open spec fn serialize_entity(self, handle: u64) -> Result<Seq<ComponentView>, ErrorKind> {
        if !self.is_valid(handle) {
            Err(ErrorKind::InvalidHandle)
        } else {
            self.serialize_records(handle, self.entity(handle).records.len())
        }
    }

    /// The world after one serialized component is applied to the entity
    /// `handle`: the type is looked up by name, the payload is decoded, a
    /// zeroed record is attached if the entity has none of that type, and the
    /// decoded fields are applied to the record. On any error the world is
    /// as it was.
    #[verifier::opaque]
    pub open spec fn deserialize_one(self, handle: u64, c: ComponentView) -> Result<
        WorldView,
        ErrorKind,
    > {
        if !self.is_valid(handle) {
            Err(ErrorKind::InvalidHandle)
        } else {
            match spec_lookup(self.registry, c.name) {
                None => Err(ErrorKind::UnknownType),
                Some(id) => match spec_decode(c.payload) {
                    Err(e) => Err(e),
                    Ok(fields) => {
                        let w = self.after_attach(handle, id);
                        let i = w.entity(handle).find(id).unwrap();
                        match spec_apply(w.schema_of(handle, i), w.entity(handle).records[i].data, fields) {
                            Err(e) => Err(e),
                            Ok(data) => Ok(w.with_data(handle, i, data)),
                        }
                    },
                },
            }
        }
    }

    /// The world after serialized components are applied to the entity
    /// `handle` in order, up to the first one that fails.
    pub open spec fn deserialize_state(self, handle: u64, cs: Seq<ComponentView>) -> WorldView
        decreases cs.len(),
    {
        if cs.len() == 0 {
            self
        } else {
            match self.deserialize_one(handle, cs[0]) {
                Err(_) => self,
                Ok(w) => w.deserialize_state(handle, cs.drop_first()),
            }
        }
    }

    /// What applying serialized components to the entity `handle` returns:
    /// the error of the first one that fails, if any does.
    pub open spec fn deserialize_result(self, handle: u64, cs: Seq<ComponentView>) -> Result<
        (),
        ErrorKind,
    >
        decreases cs.len(),
    {
        if cs.len() == 0 {
            Ok(())
        } else {
            match self.deserialize_one(handle, cs[0]) {
                Err(e) => Err(e),
                Ok(w) => w.deserialize_result(handle, cs.drop_first()),
            }
        }
    }

    /// The world after the record at place `i` of the entity `handle` gets
    /// the bytes `data`.
    pub open spec fn with_data(self, handle: u64, i: int, data: Seq<u8>) -> WorldView {
        let e = self.entity(handle);
        self.with_entity(
            handle,
            EntityView {
                records: e.records.update(i, AttachedView { data, ..e.records[i] }),
                ..e
            },
        )
    }
}

/// The owned context of every operation.
pub struct World {
    registry: Registry,
    entities: Vec<Entity>,
}

impl View for World {
    type V = WorldView;

    closed spec fn view(&self) -> WorldView {
        WorldView {
            registry: self.registry@,
            entities: Seq::new(self.entities@.len(), |i: int| self.entities@[i]@),
        }
    }
}

impl World {
    /// The world invariant.
    pub closed spec fn wf(&self) -> bool {
        &&& self.registry.wf()
        &&& self@.wf()
    }

    /// A well-formed world has a well-formed view.
    pub proof fn lemma_wf(&self)
        requires
            self.wf(),
        ensures
            self@.wf(),
    {
    }

    /// A world with no types and no entities.
    pub fn new() -> (w: World)
        ensures
            w.wf(),
            w@ == (WorldView {
                registry: Seq::<StructView>::empty(),
                entities: Seq::<EntityView>::empty(),
            }),
    {
        let w = World { registry: Registry::new(), entities: Vec::new() };
        assert(w@.entities =~= Seq::<EntityView>::empty());
        w
    }

    /// The registry of record types.
    pub fn registry(&self) -> (r: &Registry)
        requires
            self.wf(),
        ensures
            r.wf(),
            r@ == self@.registry,
    {
        &self.registry
    }

    /// True if `handle` names a live entity.
    pub fn is_valid(&self, handle: u64) -> (r: bool)
        ensures
            r == self@.is_valid(handle),
    {
        if handle == 0 || handle > self.entities.len() as u64 {
            return false;
        }
        let e = &self.entities[(handle - 1) as usize];
        assert(e@ == self@.entities[handle - 1]);
        e.alive
    }

    /// Creates an entity with nothing attached and returns its handle, which
    /// is one more than the number of entities created before.
    pub fn create_entity(&mut self) -> (r: Result<u64, ErrorKind>)
        requires
            old(self).wf(),
        ensures
            final(self).wf(),
            match r {
                Ok(handle) => {
                    &&& old(self)@.entities.len() < MAX_ENTITIES
                    &&& handle == old(self)@.entities.len() + 1
                    &&& final(self)@ == old(self)@.created()
                },
                Err(e) => {
                    &&& e == ErrorKind::CapacityExceeded
                    &&& old(self)@.entities.len() >= MAX_ENTITIES
                    &&& final(self)@ == old(self)@
                },
            },
    {
        if self.entities.len() >= MAX_ENTITIES {
            return Err(ErrorKind::CapacityExceeded);
        }
        let ghost before = self@;
        let e = Entity { alive: true, records: Vec::new() };
        assert(e@.records =~= Seq::<AttachedView>::empty());
        self.entities.push(e);
        assert(self@.entities =~= before.created().entities);
        Ok(self.entities.len() as u64)
    }

    /// Deletes the entity `handle` with everything attached to it. The handle
    /// is invalid from then on.
    #[verifier::rlimit(40)]
    pub fn delete_entity(&mut self, handle: u64) -> (r: Result<(), ErrorKind>)
        requires
            old(self).wf(),
        ensures
            final(self).wf(),
            match r {
                Ok(_) => old(self)@.is_valid(handle) && final(self)@ == old(self)@.deleted(handle),
                Err(e) => {
                    &&& e == ErrorKind::InvalidHandle
                    &&& !old(self)@.is_valid(handle)
                    &&& final(self)@ == old(self)@
                },
            },
    {
        if !self.is_valid(handle) {
            return Err(ErrorKind::InvalidHandle);
        }
        let ghost before = self@;
        let i: usize = (handle - 1) as usize;
        let e = &mut self.entities[i];
        e.alive = false;
        e.records = Vec::new();
        proof {
            assert(self.entities@[i as int]@.records =~= Seq::<AttachedView>::empty());
            assert(self@.entities =~= before.deleted(handle).entities);
        }
        Ok(())
    }

    /// Registers a record type; see `Registry::register`. Entities are untouched.
    #[verifier::rlimit(40)]
    pub fn register(
        &mut self,
        name: &str,
        member_names: &Vec<String>,
        member_types: &Vec<Type>,
    ) -> (r: Result<u64, ErrorKind>)
        requires
            old(self).wf(),
        ensures
            final(self).wf(),
            final(self)@.entities == old(self)@.entities,
            match r {
                Ok(id) => {
                    &&& register_error(
                        old(self)@.registry,
                        name@,
                        name_views(member_names@),
                        member_types@,
                    ) is None
                    &&& id == old(self)@.registry.len() + 1
                    &&& final(self)@.registry == spec_register(
                        old(self)@.registry,
                        name@,
                        name_views(member_names@),
                        member_types@,
                    )
                },
                Err(e) => {
                    &&& register_error(
                        old(self)@.registry,
                        name@,
                        name_views(member_names@),
                        member_types@,
                    ) == Some(e)
                    &&& final(self)@ == old(self)@
                },
            },
    {
        let ghost before = self@;
        let r = self.registry.register(name, member_names, member_types);
        proof {
            self.registry.lemma_wf();
            assert(self@.entities =~= before.entities);
            assert forall|e: int| 0 <= e < self@.entities.len() implies (#[trigger] self@.entities[e]).wf(
                self@.registry,
            ) by {
                assert(before.entities[e].wf(before.registry));
            }
        }
        r
    }

    /// Resolves a registered name to its type id; `UnknownType` for any other name.
    pub fn lookup(&self, name: &str) -> (r: Result<u64, ErrorKind>)
        requires
            self.wf(),
        ensures
            r == match spec_lookup(self@.registry, name@) {
                Some(id) => Ok::<u64, ErrorKind>(id),
                None => Err::<u64, ErrorKind>(ErrorKind::UnknownType),
            },
    {
        self.registry.lookup(name)
    }

    /// The schema registered under `id`; `UnknownType` for any other id.
    pub fn describe(&self, id: u64) -> (r: Result<&ecs_struct_desc_t, ErrorKind>)
        requires
            self.wf(),
        ensures
            match r {
                Ok(d) => spec_describe(self@.registry, id) == Some(d@) && d.wf() && d@.entity == id,
                Err(e) => spec_describe(self@.registry, id) is None && e == ErrorKind::UnknownType,
            },
    {
        self.registry.describe(id)
    }

    /// Checks that `handle` names a live entity and `component` a registered type.
    fn check_pair(&self, handle: u64, component: u64) -> (r: Result<(), ErrorKind>)
        requires
            self.wf(),
        ensures
            match r {
                Ok(_) => self@.pair_error(handle, component) is None,
                Err(e) => self@.pair_error(handle, component) == Some(e),
            },
    {
        if !self.is_valid(handle) {
            return Err(ErrorKind::InvalidHandle);
        }
        match self.registry.describe(component) {
            Ok(_) => Ok(()),
            Err(e) => Err(e),
        }
    }

    /// True if a record of type `component` is attached to the entity `handle`.
    #[verifier::rlimit(40)]
    pub fn has(&self, handle: u64, component: u64) -> (r: Result<bool, ErrorKind>)
        requires
            self.wf(),
        ensures
            r == self@.has(handle, component),
    {
        match self.check_pair(handle, component) {
            Err(e) => Err(e),
            Ok(_) => {
                let e = &self.entities[(handle - 1) as usize];
                assert(e@ == self@.entities[handle - 1]);
                Ok(find_record(e, component).is_some())
            },
        }
    }

    /// Attaches a zeroed record of type `component` to the entity `handle`,
    /// unless one is attached already, and returns the record's address.
    #[verifier::rlimit(40)]
    pub fn attach(&mut self, handle: u64, component: u64) -> (r: Result<u64, ErrorKind>)
        requires
            old(self).wf(),
        ensures
            final(self).wf(),
            final(self)@ == old(self)@.after_attach(handle, component),
            r == match old(self)@.pair_error(handle, component) {
                Some(e) => Err::<u64, ErrorKind>(e),
                None => Ok::<u64, ErrorKind>(record_address(handle, component) as u64),
            },
            r is Ok ==> final(self)@.has(handle, component) == Ok::<bool, ErrorKind>(true),
    {
        match self.check_pair(handle, component) {
            Err(e) => {
                return Err(e);
            },
            Ok(_) => {},
        }
        let ghost before = self@;
        proof {
            self.registry.lemma_wf();
        }
        let address: u64 = handle * ADDRESS_SPAN + component;
        let i: usize = (handle - 1) as usize;
        let size: usize = match self.registry.describe(component) {
            Ok(d) => d.size() as usize,
            Err(e) => {
                return Err(e);
            },
        };
        assert(self.entities@[i as int]@ == before.entities[handle - 1]);
        if find_record(&self.entities[i], component).is_some() {
            return Ok(address);
        }
        let data: Vec<u8> = zeroed(size);
        let e = &mut self.entities[i];
        e.records.push(Attached { component, data });
        proof {
            let after = before.attached(handle, component);
            assert(self.entities@[i as int]@.records =~= after.entities[i as int].records);
            assert(self@.entities =~= after.entities);
            let ev = self@.entities[i as int];
            assert(ev.records[ev.records.len() - 1].component == component);
        }
        Ok(address)
    }

    /// Removes the record of type `component` from the entity `handle`, if
    /// one is attached.
    #[verifier::rlimit(40)]
    pub fn detach(&mut self, handle: u64, component: u64) -> (r: Result<(), ErrorKind>)
        requires
            old(self).wf(),
        ensures
            final(self).wf(),
            final(self)@ == old(self)@.after_detach(handle, component),
            match r {
                Ok(_) => old(self)@.pair_error(handle, component) is None,
                Err(e) => old(self)@.pair_error(handle, component) == Some(e),
            },
            r is Ok ==> final(self)@.has(handle, component) == Ok::<bool, ErrorKind>(false),
    {
        match self.check_pair(handle, component) {
            Err(e) => {
                return Err(e);
            },
            Ok(_) => {},
        }
        let ghost before = self@;
        let i: usize = (handle - 1) as usize;
        assert(self.entities@[i as int]@ == before.entities[handle - 1]);
        match find_record(&self.entities[i], component) {
            None => {},
            Some(j) => {
                let e = &mut self.entities[i];
                e.records.remove(j);
                proof {
                    let after = before.detached(handle, j as int);
                    assert(self.entities@[i as int]@.records =~= after.entities[i as int].records);
                    assert(self@.entities =~= after.entities);
                }
            },
        }
        Ok(())
    }

    /// Finds the record that `address` names: the place of its entity and its
    /// place among the entity's records.
    #[verifier::rlimit(40)]
    fn locate(&self, address: u64) -> (r: Result<(usize, usize), ErrorKind>)
        requires
            self.wf(),
        ensures
            match r {
                Ok((i, j)) => self@.locate(address) == Ok::<(u64, int), ErrorKind>(
                    ((i + 1) as u64, j as int),
                ) && i < self.entities@.len() && j < self.entities@[i as int].records@.len()
                    && self.entities@[i as int]@ == self@.entities[i as int],
                Err(e) => self@.locate(address) == Err::<(u64, int), ErrorKind>(e),
            },
    {
        let handle: u64 = address / ADDRESS_SPAN;
        let component: u64 = address % ADDRESS_SPAN;
        if !self.is_valid(handle) {
            return Err(ErrorKind::InvalidHandle);
        }
        let i: usize = (handle - 1) as usize;
        assert(self.entities@[i as int]@ == self@.entities[handle - 1]);
        match find_record(&self.entities[i], component) {
            None => Err(ErrorKind::InvalidHandle),
            Some(j) => Ok((i, j)),
        }
    }

    /// Reads the field of type `ty` that starts at `offset` of the record at
    /// place `j` of the entity at place `i`.
    #[verifier::rlimit(40)]
    fn read_record(&self, i: usize, j: usize, offset: u32, ty: Type) -> (r: Result<u64, ErrorKind>)
        requires
            self.wf(),
            i < self@.entities.len(),
            j < self@.entities[i as int].records.len(),
        ensures
            r == spec_get_raw(
                self@.registry[self@.entities[i as int].records[j as int].component - 1],
                self@.entities[i as int].records[j as int].data,
                offset as nat,
                ty,
            ),
            r matches Ok(raw) ==> raw < crate::bytes::pow256(ty.spec_width()),
    {
        let e = &self.entities[i];
        let rec = &e.records[j];
        proof {
            self.registry.lemma_wf();
            assert(e@ == self@.entities[i as int]);
            assert(rec@ == e@.records[j as int]);
            assert(self@.entities[i as int].wf(self@.registry));
            assert(1 <= rec@.component <= self@.registry.len());
        }
        match self.registry.describe(rec.component) {
            Ok(schema) => get_raw(schema, rec.data.as_slice(), offset, ty),
            Err(e) => Err(e),
        }
    }

    /// Reads the field of type `ty` that starts at `offset` of the record at
    /// `address`.
    #[verifier::rlimit(40)]
    pub fn get_member(&self, address: u64, offset: u32, ty: Type) -> (r: Result<u64, ErrorKind>)
        requires
            self.wf(),
        ensures
            r == self@.get(address, offset as nat, ty),
            r matches Ok(raw) ==> raw < crate::bytes::pow256(ty.spec_width()),
    {
        match self.locate(address) {
            Ok((i, j)) => self.read_record(i, j, offset, ty),
            Err(e) => Err(e),
        }
    }

    /// Writes the low bytes of `raw` to the field of type `ty` that starts at
    /// `offset` of the record at `address`. On refusal nothing changes.
    #[verifier::rlimit(40)]
    pub fn set_member(&mut self, address: u64, offset: u32, ty: Type, raw: u64) -> (r: Result<
        (),
        ErrorKind,
    >)
        requires
            old(self).wf(),
        ensures
            final(self).wf(),
            match old(self)@.set(address, offset as nat, ty, raw) {
                Ok(w) => r is Ok && final(self)@ == w,
                Err(e) => r == Err::<(), ErrorKind>(e) && final(self)@ == old(self)@,
            },
    {
        let (i, j) = match self.locate(address) {
            Ok(p) => p,
            Err(e) => {
                return Err(e);
            },
        };
        let ghost before = self@;
        let ghost rec_before = self@.entities[i as int].records[j as int];
        assert(self.entities@[i as int].records@[j as int]@ == rec_before);
        proof {
            self.registry.lemma_wf();
        }
        let component: u64 = self.entities[i].records[j].component;
        let schema = match self.registry.describe(component) {
            Ok(schema) => schema,
            Err(e) => {
                return Err(e);
            },
        };
        let e = &mut self.entities[i];
        let rec = &mut e.records[j];
        let r = set_raw(schema, &mut rec.data, offset, ty, raw);
        proof {
            match spec_set_raw(schema@, rec_before.data, offset as nat, ty, raw) {
                Ok(data) => {
                    let after = before.with_data((i + 1) as u64, j as int, data);
                    crate::bytes::lemma_splice(
                        rec_before.data,
                        offset as int,
                        crate::bytes::le_bytes(raw as nat, ty.spec_width()),
                    );
                    assert(self.entities@[i as int]@.records =~= after.entities[i as int].records);
                    assert(self@.entities =~= after.entities);
                },
                Err(_) => {
                    assert(self.entities@[i as int]@.records =~= before.entities[i as int].records);
                    assert(self@.entities =~= before.entities);
                },
            }
        }
        r
    }

    /// The ids of the types attached to the entity `handle`, in attach order.
    pub fn entity_types(&self, handle: u64) -> (r: Result<Vec<u64>, ErrorKind>)
        requires
            self.wf(),
        ensures
            match r {
                Ok(v) => self@.is_valid(handle) && v@ == self@.entity(handle).ids(),
                Err(e) => e == ErrorKind::InvalidHandle && !self@.is_valid(handle),
            },
    {
        if !self.is_valid(handle) {
            return Err(ErrorKind::InvalidHandle);
        }
        let e = &self.entities[(handle - 1) as usize];
        assert(e@ == self@.entities[handle - 1]);
        Ok(entity_ids(e))
    }

    /// The field array of the type `id` for the one-entity batch of the live
    /// entity at place `k`.
    #[verifier::rlimit(40)]
    fn column(&self, k: usize, id: u64) -> (r: FieldArray)
        requires
            self.wf(),
            k < self@.entities.len(),
            self@.entities[k as int].alive,
        ensures
            r == self@.column_of((k + 1) as u64, id),
    {
        let e = &self.entities[k];
        assert(e@ == self@.entities[k as int]);
        proof {
            self.registry.lemma_wf();
        }
        match find_record(e, id) {
            None => FieldArray { base: 0, stride: 0 },
            Some(j) => {
                assert(e@.records[j as int].component == id);
                let ghost i = self@.entity((k + 1) as u64).find(id).unwrap();
                assert(e@.records[i].component == id);
                match self.registry.describe(id) {
                    Ok(d) => FieldArray {
                        base: (k as u64 + 1) * ADDRESS_SPAN + id,
                        stride: d.size(),
                    },
                    Err(_) => FieldArray { base: 0, stride: 0 },
                }
            },
        }
    }

    /// Runs a query: a cursor over one batch per live entity that matches, in
    /// handle order, each batch with one field array per term of the query.
    #[verifier::rlimit(40)]
    pub fn query(&self, q: &Query) -> (c: Cursor)
        requires
            self.wf(),
        ensures
            c.wf(),
            c@ == (CursorView {
                batches: self@.query_batches(q@, self@.entities.len()),
                position: 0,
                exhausted: false,
            }),
    {
        let ghost terms = q@;
        let n: usize = self.entities.len();
        let mut batches: Vec<Batch> = Vec::new();
        let mut k: usize = 0;
        assert(batch_views(batches@) =~= self@.query_batches(terms, 0));
        while k < n
            invariant
                k <= n,
                n == self@.entities.len(),
                self.wf(),
                terms == q@,
                batch_views(batches@) == self@.query_batches(terms, k as nat),
                batches_fit(batch_views(batches@)),
            decreases n - k,
        {
            let ghost before = batch_views(batches@);
            let e = &self.entities[k];
            assert(e@ == self@.entities[k as int]);
            let mut listed: bool = false;
            if e.alive {
                let ids = entity_ids(e);
                if q.matches(ids.as_slice()) {
                    let handle: u64 = k as u64 + 1;
                    let mut columns: Vec<FieldArray> = Vec::new();
                    let m: usize = q.len();
                    let mut t: usize = 0;
                    while t < m
                        invariant
                            t <= m,
                            m == terms.len(),
                            terms == q@,
                            self.wf(),
                            k < self@.entities.len(),
                            self@.entities[k as int].alive,
                            columns@.len() == t,
                            forall|j: int|
                                0 <= j < t ==> #[trigger] columns@[j] == self@.column_of(
                                    (k + 1) as u64,
                                    terms[j].id,
                                ),
                        decreases m - t,
                    {
                        let term = match q.term(t) {
                            Some(term) => term,
                            None => QueryTerm { id: 0, oper: crate::query::Operator::And },
                        };
                        columns.push(self.column(k, term.id));
                        t += 1;
                    }
                    let mut entities: Vec<u64> = Vec::new();
                    entities.push(handle);
                    let batch = Batch { entities, columns };
                    proof {
                        assert(batch@.entities =~= seq![handle]);
                        assert(batch@.columns =~= self@.batch_of(terms, handle).columns);
                    }
                    batches.push(batch);
                    listed = true;
                }
            }
            proof {
                let next = self@.query_batches(terms, (k + 1) as nat);
                if listed {
                    assert(batch_views(batches@) =~= before.push(
                        self@.batch_of(terms, (k + 1) as u64),
                    ));
                } else {
                    assert(batch_views(batches@) =~= before);
                }
                assert(batch_views(batches@) == next);
            }
            k += 1;
        }
        Cursor::over(batches)
    }

    /// Serializes the record of type `component` on the entity `handle`.
    #[verifier::rlimit(40)]
    pub fn serialize_component(&self, handle: u64, component: u64) -> (r: Result<
        SerializedComponent,
        ErrorKind,
    >)
        requires
            self.wf(),
        ensures
            match self@.serialize_component(handle, component) {
                Ok(c) => r matches Ok(sc) && sc@ == c,
                Err(e) => r matches Err(e2) && e2 == e,
            },
    {
        match self.check_pair(handle, component) {
            Err(e) => {
                return Err(e);
            },
            Ok(_) => {},
        }
        let i: usize = (handle - 1) as usize;
        let e = &self.entities[i];
        assert(e@ == self@.entities[handle - 1]);
        match find_record(e, component) {
            None => Err(ErrorKind::InvalidHandle),
            Some(j) => {
                let ghost k = self@.entity(handle).find(component).unwrap();
                assert(e@.records[k].component == component);
                assert(k == j);
                self.serialize_record(i, j)
            },
        }
    }

    /// Serializes the record at place `j` of the entity at place `i`.
    #[verifier::rlimit(40)]
    fn serialize_record(&self, i: usize, j: usize) -> (r: Result<SerializedComponent, ErrorKind>)
        requires
            self.wf(),
            i < self@.entities.len(),
            j < self@.entities[i as int].records.len(),
        ensures
            match self@.serialize_record((i + 1) as u64, j as int) {
                Ok(c) => r matches Ok(sc) && sc@ == c,
                Err(e) => r matches Err(e2) && e2 == e,
            },
    {
        let e = &self.entities[i];
        assert(e@ == self@.entities[i as int]);
        let rec = &e.records[j];
        assert(rec@ == e@.records[j as int]);
        proof {
            self.registry.lemma_wf();
        }
        match self.registry.describe(rec.component) {
            Ok(schema) => encode(schema, rec.data.as_slice()),
            Err(e) => Err(e),
        }
    }

    /// Serializes every record of the entity `handle`, in attach order. The
    /// first record that cannot be encoded decides the error.
    #[verifier::rlimit(40)]
    pub fn serialize_entity(&self, handle: u64) -> (r: Result<Vec<SerializedComponent>, ErrorKind>)
        requires
            self.wf(),
        ensures
            match self@.serialize_entity(handle) {
                Ok(cs) => r matches Ok(v) && component_views(v@) == cs,
                Err(e) => r matches Err(e2) && e2 == e,
            },
    {
        if !self.is_valid(handle) {
            return Err(ErrorKind::InvalidHandle);
        }
        let i: usize = (handle - 1) as usize;
        let n: usize = self.entities[i].records.len();
        assert(self.entities@[i as int]@ == self@.entities[handle - 1]);
        let mut out: Vec<SerializedComponent> = Vec::new();
        let mut j: usize = 0;
        assert(component_views(out@) =~= Seq::<ComponentView>::empty());
        while j < n
            invariant
                j <= n,
                self.wf(),
                i == handle - 1,
                i < self@.entities.len(),
                n == self@.entities[i as int].records.len(),
                self@.serialize_records(handle, j as nat) == Ok::<Seq<ComponentView>, ErrorKind>(
                    component_views(out@),
                ),
            decreases n - j,
        {
            let ghost before = component_views(out@);
            match self.serialize_record(i, j) {
                Err(e) => {
                    proof {
                        assert(self@.serialize_records(handle, (j + 1) as nat) == Err::<
                            Seq<ComponentView>,
                            ErrorKind,
                        >(e));
                        lemma_serialize_records_error(self@, handle, (j + 1) as nat, n as nat);
                    }
                    return Err(e);
                },
                Ok(c) => {
                    let ghost cv = c@;
                    out.push(c);
                    assert(component_views(out@) =~= before.push(cv));
                },
            }
            j += 1;
        }
        Ok(out)
    }

    /// Serializes the records of the types `ids` on the entity `handle`, in
    /// the order of `ids`. The first type that fails decides the error.
    #[verifier::rlimit(40)]
    pub fn serialize_components(&self, handle: u64, ids: &[u64]) -> (r: Result<
        Vec<SerializedComponent>,
        ErrorKind,
    >)
        requires
            self.wf(),
        ensures
            match self@.serialize_listed(handle, ids@, ids@.len()) {
                Ok(cs) => r matches Ok(v) && component_views(v@) == cs,
                Err(e) => r matches Err(e2) && e2 == e,
            },
    {
        let n: usize = ids.len();
        let mut out: Vec<SerializedComponent> = Vec::new();
        let mut j: usize = 0;
        assert(component_views(out@) =~= Seq::<ComponentView>::empty());
        while j < n
            invariant
                j <= n,
                n == ids@.len(),
                self.wf(),
                self@.serialize_listed(handle, ids@, j as nat) == Ok::<
                    Seq<ComponentView>,
                    ErrorKind,
                >(component_views(out@)),
            decreases n - j,
        {
            let ghost before = component_views(out@);
            match self.serialize_component(handle, ids[j]) {
                Err(e) => {
                    proof {
                        assert(self@.serialize_listed(handle, ids@, (j + 1) as nat) == Err::<
                            Seq<ComponentView>,
                            ErrorKind,
                        >(e));
                        lemma_serialize_listed_error(self@, handle, ids@, (j + 1) as nat, n as nat);
                    }
                    return Err(e);
                },
                Ok(c) => {
                    let ghost cv = c@;
                    out.push(c);
                    assert(component_views(out@) =~= before.push(cv));
                },
            }
            j += 1;
        }
        Ok(out)
    }

    /// Applies one serialized component to the entity `handle`: looks the
    /// type up by name, decodes the payload, attaches a zeroed record if the
    /// entity has none of that type, and applies the decoded fields to the
    /// record. On any error the world is as it was.
    #[verifier::rlimit(40)]
    pub fn deserialize_component(&mut self, handle: u64, component: &SerializedComponent) -> (r:
        Result<(), ErrorKind>)
        requires
            old(self).wf(),
        ensures
            final(self).wf(),
            match old(self)@.deserialize_one(handle, component@) {
                Ok(w) => r is Ok && final(self)@ == w,
                Err(e) => r == Err::<(), ErrorKind>(e) && final(self)@ == old(self)@,
            },
    {
        reveal(WorldView::deserialize_one);
        if !self.is_valid(handle) {
            return Err(ErrorKind::InvalidHandle);
        }
        let id: u64 = match self.registry.lookup(component.name.as_str()) {
            Ok(id) => id,
            Err(e) => {
                return Err(e);
            },
        };
        let fields: Vec<SerializedField> = match decode(component.payload.as_slice()) {
            Ok(f) => f,
            Err(e) => {
                return Err(e);
            },
        };
        let ghost before = self@;
        let ghost views = field_views(fields@);
        proof {
            self.registry.lemma_wf();
        }
        let schema = match self.registry.describe(id) {
            Ok(schema) => schema,
            Err(e) => {
                return Err(e);
            },
        };
        let i: usize = (handle - 1) as usize;
        proof {
            assert(self.entities@[i as int]@ == before.entities[handle - 1]);
            assert(before.entities[i as int].wf(before.registry));
            assert(spec_lookup(before.registry, component@.name) == Some(id));
            assert(spec_decode(component@.payload) == Ok::<Seq<FieldView>, ErrorKind>(views));
            assert(before.pair_error(handle, id) is None);
            assert(before.registry[id - 1] == schema@);
        }
        match find_record(&self.entities[i], id) {
            Some(j) => {
                let ghost k = before.entity(handle).find(id).unwrap();
                assert(before.entity(handle).records[k].component == id);
                assert(k == j);
                let ghost rec_before = before.entities[i as int].records[j as int];
                assert(self.entities@[i as int].records@[j as int]@ == rec_before);
                assert(before.after_attach(handle, id) == before);
                assert(before.schema_of(handle, j as int) == schema@);
                let e = &mut self.entities[i];
                let rec = &mut e.records[j];
                let r = apply(schema, &mut rec.data, &fields);
                proof {
                    match spec_apply(schema@, rec_before.data, views) {
                        Ok(data) => {
                            let after = before.with_data(handle, j as int, data);
                            lemma_apply_keeps_len(schema@, rec_before.data, views);
                            assert(self.entities@[i as int]@.records
                                =~= after.entities[i as int].records);
                            assert(self@.entities =~= after.entities);
                        },
                        Err(_) => {
                            assert(self.entities@[i as int]@.records
                                =~= before.entities[i as int].records);
                            assert(self@.entities =~= before.entities);
                        },
                    }
                }
                r
            },
            None => {
                let mut data: Vec<u8> = zeroed(schema.size() as usize);
                let ghost zeros = data@;
                proof {
                    let w = before.attached(handle, id);
                    assert(before.entity(handle).find(id) is None);
                    assert(before.after_attach(handle, id) == w);
                    let last = before.entities[i as int].records.len() as int;
                    assert(w.entity(handle).records[last].component == id);
                    assert(w.entity(handle).records[last].data =~= zeros);
                    let k = w.entity(handle).find(id).unwrap();
                    assert(w.entity(handle).records[k].component == id);
                    assert(k == last);
                    assert(w.schema_of(handle, last) == schema@);
                }
                match apply(schema, &mut data, &fields) {
                    Err(e) => Err(e),
                    Ok(_) => {
                        let ghost filled = data@;
                        let e = &mut self.entities[i];
                        e.records.push(Attached { component: id, data });
                        proof {
                            let w = before.attached(handle, id);
                            let last = before.entities[i as int].records.len() as int;
                            assert(w.entity(handle).records[last].component == id);
                            let k = w.entity(handle).find(id).unwrap();
                            assert(w.entity(handle).records[k].component == id);
                            assert(k == last);
                            let after = w.with_data(handle, k, filled);
                            lemma_apply_keeps_len(schema@, zeros, views);
                            assert(self.entities@[i as int]@.records
                                =~= after.entities[i as int].records);
                            assert(self@.entities =~= after.entities);
                        }
                        Ok(())
                    },
                }
            },
        }
    }

    /// Applies serialized components to the entity `handle` in order and
    /// stops at the first that fails; the ones before it stay applied.
    #[verifier::rlimit(40)]
    pub fn deserialize_entity_sync(&mut self, handle: u64, components: &Vec<SerializedComponent>) -> (r:
        Result<(), ErrorKind>)
        requires
            old(self).wf(),
        ensures
            final(self).wf(),
            final(self)@ == old(self)@.deserialize_state(handle, component_views(components@)),
            r == old(self)@.deserialize_result(handle, component_views(components@)),
    {
        let ghost before = self@;
        let ghost views = component_views(components@);
        let mut i: usize = 0;
        assert(views.skip(0) =~= views);
        while i < components.len()
            invariant
                i <= components.len(),
                self.wf(),
                before == old(self)@,
                views == component_views(components@),
                before.deserialize_state(handle, views) == self@.deserialize_state(
                    handle,
                    views.skip(i as int),
                ),
                before.deserialize_result(handle, views) == self@.deserialize_result(
                    handle,
                    views.skip(i as int),
                ),
            decreases components.len() - i,
        {
            let ghost cur = self@;
            let ghost rest = views.skip(i as int);
            proof {
                assert(rest.len() > 0);
                assert(rest[0] == components@[i as int]@);
                assert(rest.drop_first() =~= views.skip(i + 1));
            }
            match self.deserialize_component(handle, &components[i]) {
                Ok(_) => {
                    proof {
                        let w = cur.deserialize_one(handle, rest[0]).unwrap();
                        assert(self@ == w);
                        assert(cur.deserialize_state(handle, rest) == w.deserialize_state(
                            handle,
                            rest.drop_first(),
                        ));
                        assert(cur.deserialize_result(handle, rest) == w.deserialize_result(
                            handle,
                            rest.drop_first(),
                        ));
                    }
                },
                Err(e) => {
                    proof {
                        assert(cur.deserialize_state(handle, rest) == cur);
                        assert(cur.deserialize_result(handle, rest) == Err::<(), ErrorKind>(e));
                    }
                    return Err(e);
                },
            }
            i += 1;
        }
        proof {
            assert(views.skip(components@.len() as int).len() == 0);
        }
        Ok(())
    }
}

/// Once a listed type fails, serializing more of the list fails the same way.
proof fn lemma_serialize_listed_error(w: WorldView, handle: u64, ids: Seq<u64>, j: nat, n: nat)
    requires
        j <= n,
        w.serialize_listed(handle, ids, j) is Err,
    ensures
        w.serialize_listed(handle, ids, n) == w.serialize_listed(handle, ids, j),
    decreases n - j,
{
    if j < n {
        lemma_serialize_listed_error(w, handle, ids, j, (n - 1) as nat);
    }
}

/// Once a record cannot be encoded, serializing more records fails the same way.
proof fn lemma_serialize_records_error(w: WorldView, handle: u64, j: nat, n: nat)
    requires
        j <= n,
        w.serialize_records(handle, j) is Err,
    ensures
        w.serialize_records(handle, n) == w.serialize_records(handle, j),
    decreases n - j,
{
    if j < n {
        lemma_serialize_records_error(w, handle, j, (n - 1) as nat);
    }
}

/// The ids of the types attached to `e`, in attach order.
fn entity_ids(e: &Entity) -> (r: Vec<u64>)
    ensures
        r@ == e@.ids(),
{
    let mut out: Vec<u64> = Vec::new();
    let mut i: usize = 0;
    while i < e.records.len()
        invariant
            i <= e.records.len(),
            out@.len() == i,
            forall|k: int| 0 <= k < i ==> out@[k] == e@.ids()[k],
        decreases e.records.len() - i,
    {
        out.push(e.records[i].component);
        i += 1;
    }
    assert(out@ =~= e@.ids());
    out
}

/// Place of the record of type `component` among the records of `e`.
fn find_record(e: &Entity, component: u64) -> (r: Option<usize>)
    ensures
        match r {
            Some(i) => i < e@.records.len() && e@.records[i as int].component == component && (
            forall|k: int| 0 <= k < i ==> e@.records[k].component != component),
            None => e@.find(component) is None,
        },
        r is Some <==> e@.find(component) is Some,
{
    let mut i: usize = 0;
    while i < e.records.len()
        invariant
            i <= e.records.len(),
            forall|k: int| 0 <= k < i ==> e@.records[k].component != component,
        decreases e.records.len() - i,
    {
        if e.records[i].component == component {
            assert(e@.records[i as int].component == component);
            return Some(i);
        }
        i += 1;
    }
    None
}

/// A vector of `n` zero bytes.
fn zeroed(n: usize) -> (r: Vec<u8>)
    ensures
        r@ == Seq::new(n as nat, |i: int| 0u8),
{
    let mut out: Vec<u8> = Vec::new();
    let mut i: usize = 0;
    while i < n
        invariant
            i <= n,
            out@ == Seq::new(i as nat, |k: int| 0u8),
        decreases n - i,
    {
        out.push(0);
        i += 1;
        assert(out@ =~= Seq::new(i as nat, |k: int| 0u8));
    }
    out
}

} // verus!
