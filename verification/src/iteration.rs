//! The flat call surface for queries, filters and the cursors over their
//! results. A filter and a query are built, run and walked in the same way;
//! both sets of calls work on the same builder, query and cursor types.
use vstd::prelude::*;
use crate::cursor::{element_of, element_result, Cursor, CursorView, FieldArray};
use crate::error::ErrorKind;
use crate::query::{batch_terms, Operator, Query, QueryBuilder, QueryTerm, MAX_TERMS};
use crate::registry::spec_describe;
use crate::world::World;

verus! {

/// What asking for the record of term `term_index` at place `index` returns
/// when the caller takes the batch to hold `count` entities: the element's
/// address, for an index below both `count` and the batch's own count.
pub open spec fn field_result(c: CursorView, term_index: int, count: nat, index: nat) -> Result<
    u64,
    ErrorKind,
> {
    if term_index < 0 {
        Err(ErrorKind::OffsetOutOfBounds)
    } else {
        match c.field_array_element(term_index as nat, index) {
            Err(e) => Err(e),
            Ok(a) => if index >= count {
                Err(ErrorKind::OffsetOutOfBounds)
            } else {
                Ok(a)
            },
        }
    }
}

/// What asking for the element size of term `term_index` returns: the stride
/// of the term's array.
pub open spec fn field_size_result(c: CursorView, term_index: int) -> Result<usize, ErrorKind> {
    if term_index < 0 {
        Err(ErrorKind::OffsetOutOfBounds)
    } else {
        match c.field_array(term_index as nat) {
            Err(e) => Err(e),
            Ok(a) => Ok(a.stride as usize),
        }
    }
}

/// What asking for the first `count` records of term `term_index` returns:
/// their addresses in the batch's order, when the batch holds that many.
pub open spec fn field_list_result(c: CursorView, term_index: int, count: nat) -> Result<
    Seq<u64>,
    ErrorKind,
> {
    if term_index < 0 {
        Err(ErrorKind::OffsetOutOfBounds)
    } else {
        match c.field_list(term_index as nat) {
            Err(e) => Err(e),
            Ok(s) => if count > s.len() {
                Err(ErrorKind::OffsetOutOfBounds)
            } else {
                Ok(s.take(count as int))
            },
        }
    }
}

/// What asking for the entity at place `index` returns when the caller takes
/// the batch to hold `count` entities.
pub open spec fn entity_result(c: CursorView, count: nat, index: nat) -> Result<u64, ErrorKind> {
    match c.entity_at(index) {
        Err(e) => Err(e),
        Ok(h) => if index >= count {
            Err(ErrorKind::OffsetOutOfBounds)
        } else {
            Ok(h)
        },
    }
}

/// What asking for element `component_index` of an array of `count` records
/// of the type `component_id` at `component_array_ptr` returns: `UnknownType`
/// for an unregistered type, `OffsetOutOfBounds` for an index not below
/// `count`, else the array's address plus the index times the type's size.
pub open spec fn iter_component_result(
    world: crate::world::WorldView,
    component_array_ptr: u64,
    component_index: nat,
    count: nat,
    component_id: u64,
) -> Result<u64, ErrorKind> {
    match spec_describe(world.registry, component_id) {
        None => Err(ErrorKind::UnknownType),
        Some(d) => if component_index >= count {
            Err(ErrorKind::OffsetOutOfBounds)
        } else {
            element_result(
                FieldArray { base: component_array_ptr, stride: d.size() as u32 },
                component_index,
            )
        },
    }
}

/// The first `count` of `items`.
fn first_of(items: Vec<u64>, count: usize) -> (r: Vec<u64>)
    requires
        count <= items@.len(),
    ensures
        r@ == items@.take(count as int),
{
    let mut out: Vec<u64> = Vec::new();
    let mut i: usize = 0;
    while i < count
        invariant
            i <= count <= items@.len(),
            out@ == items@.take(i as int),
        decreases count - i,
    {
        proof {
            assert(items@.take(i + 1) =~= items@.take(i as int).push(items@[i as int]));
        }
        out.push(items[i]);
        i += 1;
    }
    out
}

/// The number of entities in the cursor's current batch; 0 when it stands on none.
pub fn flecs_iter_count(iter: &Cursor) -> (r: u32)
    requires
        iter.wf(),
    ensures
        r == iter@.count(),
{
    iter.count()
}

/// The number of entities in the cursor's current batch; 0 when it stands on none.
pub fn flecs_query_iter_count(iter: &Cursor) -> (r: u32)
    requires
        iter.wf(),
    ensures
        r == iter@.count(),
{
    iter.count()
}

/// The entities of the cursor's current batch, in order; none when it stands
/// on no batch.
pub fn flecs_iter_entities(iter: &Cursor) -> (r: Vec<u64>)
    requires
        iter.wf(),
    ensures
        r@ == match iter@.current() {
            Some(b) => b.entities,
            None => Seq::<u64>::empty(),
        },
{
    iter.entities()
}

/// The base address of every term's array for the cursor's current batch, in
/// term order; none when it stands on no batch.
pub fn flecs_iter_ptrs(iter: &Cursor) -> (r: Vec<u64>)
    requires
        iter.wf(),
    ensures
        r@ == iter@.bases(),
{
    iter.bases()
}

/// The base address of every term's array for the cursor's current batch, in
/// term order; none when it stands on no batch.
pub fn flecs_query_iter_ptrs(iter: &Cursor) -> (r: Vec<u64>)
    requires
        iter.wf(),
    ensures
        r@ == iter@.bases(),
{
    iter.bases()
}

/// An empty query builder.
pub fn flecs_query_create() -> (r: QueryBuilder)
    ensures
        r.wf(),
        r@ == Seq::<QueryTerm>::empty(),
{
    QueryBuilder::new()
}

/// Appends one `And` term per id, in order, and returns the new free index:
/// the number of terms the builder now holds. When the terms would not all
/// fit, none is appended and the call fails with `TooManyTerms`.
pub fn flecs_query_with(query_desc: &mut QueryBuilder, ids: &[u64]) -> (r: Result<u8, ErrorKind>)
    requires
        old(query_desc).wf(),
    ensures
        final(query_desc).wf(),
        match r {
            Ok(next) => {
                &&& old(query_desc)@.len() + ids@.len() <= MAX_TERMS
                &&& final(query_desc)@ == old(query_desc)@ + batch_terms(ids@, Operator::And)
                &&& next == old(query_desc)@.len() + ids@.len()
            },
            Err(e) => {
                &&& e == ErrorKind::TooManyTerms
                &&& old(query_desc)@.len() + ids@.len() > MAX_TERMS
                &&& final(query_desc)@ == old(query_desc)@
            },
        },
{
    query_desc.with(ids, Operator::And)
}

/// Appends one `Not` term per id, in order, and returns the new free index.
/// When the terms would not all fit, none is appended and the call fails
/// with `TooManyTerms`.
pub fn flecs_query_without(query_desc: &mut QueryBuilder, ids: &[u64]) -> (r: Result<u8, ErrorKind>)
    requires
        old(query_desc).wf(),
    ensures
        final(query_desc).wf(),
        match r {
            Ok(next) => {
                &&& old(query_desc)@.len() + ids@.len() <= MAX_TERMS
                &&& final(query_desc)@ == old(query_desc)@ + batch_terms(ids@, Operator::Not)
                &&& next == old(query_desc)@.len() + ids@.len()
            },
            Err(e) => {
                &&& e == ErrorKind::TooManyTerms
                &&& old(query_desc)@.len() + ids@.len() > MAX_TERMS
                &&& final(query_desc)@ == old(query_desc)@
            },
        },
{
    query_desc.with(ids, Operator::Not)
}

/// Appends one `Or` term per id, in order, and returns the new free index.
/// When the terms would not all fit, none is appended and the call fails
/// with `TooManyTerms`.
pub fn flecs_query_with_or(query_desc: &mut QueryBuilder, ids: &[u64]) -> (r: Result<u8, ErrorKind>)
    requires
        old(query_desc).wf(),
    ensures
        final(query_desc).wf(),
        match r {
            Ok(next) => {
                &&& old(query_desc)@.len() + ids@.len() <= MAX_TERMS
                &&& final(query_desc)@ == old(query_desc)@ + batch_terms(ids@, Operator::Or)
                &&& next == old(query_desc)@.len() + ids@.len()
            },
            Err(e) => {
                &&& e == ErrorKind::TooManyTerms
                &&& old(query_desc)@.len() + ids@.len() > MAX_TERMS
                &&& final(query_desc)@ == old(query_desc)@
            },
        },
{
    query_desc.with(ids, Operator::Or)
}

/// Ends construction: the query holds the builder's terms, in order, and
/// cannot change any more.
pub fn flecs_query_build(desc: QueryBuilder) -> (r: Query)
    requires
        desc.wf(),
    ensures
        r.wf(),
        r@ == desc@,
{
    desc.build()
}

/// Runs the query: a cursor that stands before the first batch of its result.
pub fn flecs_query_iter(world: &World, query: &Query) -> (r: Cursor)
    requires
        world.wf(),
    ensures
        r.wf(),
        r@ == (CursorView {
            batches: world@.query_batches(query@, world@.entities.len()),
            position: 0,
            exhausted: false,
        }),
{
    world.query(query)
}

/// Moves the cursor to the next batch: `Ok(true)` when it now stands on one,
/// `Ok(false)` when none was left, `CursorExhausted` when it had said so before.
pub fn flecs_query_next(iter: &mut Cursor) -> (r: Result<bool, ErrorKind>)
    requires
        old(iter).wf(),
    ensures
        final(iter).wf(),
        r == old(iter)@.advance_result(),
        final(iter)@ == old(iter)@.advanced(),
{
    iter.advance()
}

/// The address of element `component_index` of an array of `count` records
/// of the type `component_id` that starts at `component_array_ptr`.
pub fn flecs_query_iter_component(
    world: &World,
    component_array_ptr: u64,
    component_index: u32,
    count: u32,
    component_id: u64,
) -> (r: Result<u64, ErrorKind>)
    requires
        world.wf(),
    ensures
        r == iter_component_result(
            world@,
            component_array_ptr,
            component_index as nat,
            count as nat,
            component_id,
        ),
{
    let stride: u32 = match world.describe(component_id) {
        Ok(d) => d.size(),
        Err(e) => {
            return Err(e);
        },
    };
    if component_index >= count {
        return Err(ErrorKind::OffsetOutOfBounds);
    }
    element_of(FieldArray { base: component_array_ptr, stride }, component_index)
}

/// The address of the record of term `term_index` for the entity at place
/// `index` of the current batch, which the caller takes to hold `count` entities.
pub fn flecs_query_field(iter: &Cursor, term_index: i32, count: u32, index: u32) -> (r: Result<
    u64,
    ErrorKind,
>)
    requires
        iter.wf(),
    ensures
        r == field_result(iter@, term_index as int, count as nat, index as nat),
{
    if term_index < 0 {
        return Err(ErrorKind::OffsetOutOfBounds);
    }
    match iter.field_array_element(term_index as u32, index) {
        Err(e) => Err(e),
        Ok(a) => if index >= count {
            Err(ErrorKind::OffsetOutOfBounds)
        } else {
            Ok(a)
        },
    }
}

/// The size in bytes of one record of term `term_index` in the current batch.
pub fn flecs_query_field_size(iter: &Cursor, term_index: i32) -> (r: Result<usize, ErrorKind>)
    requires
        iter.wf(),
    ensures
        r == field_size_result(iter@, term_index as int),
{
    if term_index < 0 {
        return Err(ErrorKind::OffsetOutOfBounds);
    }
    match iter.field_array(term_index as u32) {
        Err(e) => Err(e),
        Ok(a) => Ok(a.stride as usize),
    }
}

/// The addresses of the records of term `term_index` for the first `count`
/// entities of the current batch, in the batch's order.
pub fn flecs_query_field_list(iter: &Cursor, term_index: i32, count: u32) -> (r: Result<
    Vec<u64>,
    ErrorKind,
>)
    requires
        iter.wf(),
    ensures
        match field_list_result(iter@, term_index as int, count as nat) {
            Ok(s) => r matches Ok(v) && v@ == s,
            Err(e) => r matches Err(e2) && e2 == e,
        },
{
    if term_index < 0 {
        return Err(ErrorKind::OffsetOutOfBounds);
    }
    match iter.field_list(term_index as u32) {
        Err(e) => Err(e),
        Ok(all) => if count as usize > all.len() {
            Err(ErrorKind::OffsetOutOfBounds)
        } else {
            Ok(first_of(all, count as usize))
        },
    }
}

/// The entity at place `index` of the current batch, which the caller takes
/// to hold `count` entities.
pub fn flecs_query_entity(iter: &Cursor, count: u32, index: u32) -> (r: Result<u64, ErrorKind>)
    requires
        iter.wf(),
    ensures
        r == entity_result(iter@, count as nat, index as nat),
{
    match iter.entity_at(index) {
        Err(e) => Err(e),
        Ok(h) => if index >= count {
            Err(ErrorKind::OffsetOutOfBounds)
        } else {
            Ok(h)
        },
    }
}

/// The entities of the current batch, in order; none when the cursor stands
/// on no batch.
pub fn flecs_query_entity_list(iter: &Cursor) -> (r: Vec<u64>)
    requires
        iter.wf(),
    ensures
        r@ == match iter@.current() {
            Some(b) => b.entities,
            None => Seq::<u64>::empty(),
        },
{
    iter.entities()
}

/// An empty filter builder.
pub fn flecs_filter_create() -> (r: QueryBuilder)
    ensures
        r.wf(),
        r@ == Seq::<QueryTerm>::empty(),
{
    QueryBuilder::new()
}

/// Appends one `And` term per id, in order, and returns the new free index:
/// the number of terms the builder now holds. When the terms would not all
/// fit, none is appended and the call fails with `TooManyTerms`.
pub fn flecs_filter_with(filter_desc: &mut QueryBuilder, ids: &[u64]) -> (r: Result<u8, ErrorKind>)
    requires
        old(filter_desc).wf(),
    ensures
        final(filter_desc).wf(),
        match r {
            Ok(next) => {
                &&& old(filter_desc)@.len() + ids@.len() <= MAX_TERMS
                &&& final(filter_desc)@ == old(filter_desc)@ + batch_terms(ids@, Operator::And)
                &&& next == old(filter_desc)@.len() + ids@.len()
            },
            Err(e) => {
                &&& e == ErrorKind::TooManyTerms
                &&& old(filter_desc)@.len() + ids@.len() > MAX_TERMS
                &&& final(filter_desc)@ == old(filter_desc)@
            },
        },
{
    filter_desc.with(ids, Operator::And)
}

/// Appends one `Not` term per id, in order, and returns the new free index.
/// When the terms would not all fit, none is appended and the call fails
/// with `TooManyTerms`.
pub fn flecs_filter_without(filter_desc: &mut QueryBuilder, ids: &[u64]) -> (r: Result<u8, ErrorKind>)
    requires
        old(filter_desc).wf(),
    ensures
        final(filter_desc).wf(),
        match r {
            Ok(next) => {
                &&& old(filter_desc)@.len() + ids@.len() <= MAX_TERMS
                &&& final(filter_desc)@ == old(filter_desc)@ + batch_terms(ids@, Operator::Not)
                &&& next == old(filter_desc)@.len() + ids@.len()
            },
            Err(e) => {
                &&& e == ErrorKind::TooManyTerms
                &&& old(filter_desc)@.len() + ids@.len() > MAX_TERMS
                &&& final(filter_desc)@ == old(filter_desc)@
            },
        },
{
    filter_desc.with(ids, Operator::Not)
}

/// Appends one `Or` term per id, in order, and returns the new free index.
/// When the terms would not all fit, none is appended and the call fails
/// with `TooManyTerms`.
pub fn flecs_filter_with_or(filter_desc: &mut QueryBuilder, ids: &[u64]) -> (r: Result<u8, ErrorKind>)
    requires
        old(filter_desc).wf(),
    ensures
        final(filter_desc).wf(),
        match r {
            Ok(next) => {
                &&& old(filter_desc)@.len() + ids@.len() <= MAX_TERMS
                &&& final(filter_desc)@ == old(filter_desc)@ + batch_terms(ids@, Operator::Or)
                &&& next == old(filter_desc)@.len() + ids@.len()
            },
            Err(e) => {
                &&& e == ErrorKind::TooManyTerms
                &&& old(filter_desc)@.len() + ids@.len() > MAX_TERMS
                &&& final(filter_desc)@ == old(filter_desc)@
            },
        },
{
    filter_desc.with(ids, Operator::Or)
}

/// Ends construction: the filter holds the builder's terms, in order, and
/// cannot change any more.
pub fn flecs_filter_build(desc: QueryBuilder) -> (r: Query)
    requires
        desc.wf(),
    ensures
        r.wf(),
        r@ == desc@,
{
    desc.build()
}

/// Runs the filter: a cursor that stands before the first batch of its result.
pub fn flecs_filter_iter(world: &World, filter: &Query) -> (r: Cursor)
    requires
        world.wf(),
    ensures
        r.wf(),
        r@ == (CursorView {
            batches: world@.query_batches(filter@, world@.entities.len()),
            position: 0,
            exhausted: false,
        }),
{
    world.query(filter)
}

/// Moves the cursor to the next batch: `Ok(true)` when it now stands on one,
/// `Ok(false)` when none was left, `CursorExhausted` when it had said so before.
pub fn flecs_filter_next(iter: &mut Cursor) -> (r: Result<bool, ErrorKind>)
    requires
        old(iter).wf(),
    ensures
        final(iter).wf(),
        r == old(iter)@.advance_result(),
        final(iter)@ == old(iter)@.advanced(),
{
    iter.advance()
}

/// The address of element `component_index` of an array of `count` records
/// of the type `component_id` that starts at `component_array_ptr`.
pub fn flecs_filter_iter_component(
    world: &World,
    component_array_ptr: u64,
    component_index: u32,
    count: u32,
    component_id: u64,
) -> (r: Result<u64, ErrorKind>)
    requires
        world.wf(),
    ensures
        r == iter_component_result(
            world@,
            component_array_ptr,
            component_index as nat,
            count as nat,
            component_id,
        ),
{
    let stride: u32 = match world.describe(component_id) {
        Ok(d) => d.size(),
        Err(e) => {
            return Err(e);
        },
    };
    if component_index >= count {
        return Err(ErrorKind::OffsetOutOfBounds);
    }
    element_of(FieldArray { base: component_array_ptr, stride }, component_index)
}

/// The address of the record of term `term_index` for the entity at place
/// `index` of the current batch, which the caller takes to hold `count` entities.
pub fn flecs_filter_field(iter: &Cursor, term_index: i32, count: u32, index: u32) -> (r: Result<
    u64,
    ErrorKind,
>)
    requires
        iter.wf(),
    ensures
        r == field_result(iter@, term_index as int, count as nat, index as nat),
{
    if term_index < 0 {
        return Err(ErrorKind::OffsetOutOfBounds);
    }
    match iter.field_array_element(term_index as u32, index) {
        Err(e) => Err(e),
        Ok(a) => if index >= count {
            Err(ErrorKind::OffsetOutOfBounds)
        } else {
            Ok(a)
        },
    }
}

/// The size in bytes of one record of term `term_index` in the current batch.
pub fn flecs_filter_field_size(iter: &Cursor, term_index: i32) -> (r: Result<usize, ErrorKind>)
    requires
        iter.wf(),
    ensures
        r == field_size_result(iter@, term_index as int),
{
    if term_index < 0 {
        return Err(ErrorKind::OffsetOutOfBounds);
    }
    match iter.field_array(term_index as u32) {
        Err(e) => Err(e),
        Ok(a) => Ok(a.stride as usize),
    }
}

/// The addresses of the records of term `term_index` for the first `count`
/// entities of the current batch, in the batch's order.
pub fn flecs_filter_field_list(iter: &Cursor, term_index: i32, count: u32) -> (r: Result<
    Vec<u64>,
    ErrorKind,
>)
    requires
        iter.wf(),
    ensures
        match field_list_result(iter@, term_index as int, count as nat) {
            Ok(s) => r matches Ok(v) && v@ == s,
            Err(e) => r matches Err(e2) && e2 == e,
        },
{
    if term_index < 0 {
        return Err(ErrorKind::OffsetOutOfBounds);
    }
    match iter.field_list(term_index as u32) {
        Err(e) => Err(e),
        Ok(all) => if count as usize > all.len() {
            Err(ErrorKind::OffsetOutOfBounds)
        } else {
            Ok(first_of(all, count as usize))
        },
    }
}

/// The entity at place `index` of the current batch, which the caller takes
/// to hold `count` entities.
pub fn flecs_filter_entity(iter: &Cursor, count: u32, index: u32) -> (r: Result<u64, ErrorKind>)
    requires
        iter.wf(),
    ensures
        r == entity_result(iter@, count as nat, index as nat),
{
    match iter.entity_at(index) {
        Err(e) => Err(e),
        Ok(h) => if index >= count {
            Err(ErrorKind::OffsetOutOfBounds)
        } else {
            Ok(h)
        },
    }
}

/// The entities of the current batch, in order; none when the cursor stands
/// on no batch.
pub fn flecs_filter_entity_list(iter: &Cursor) -> (r: Vec<u64>)
    requires
        iter.wf(),
    ensures
        r@ == match iter@.current() {
            Some(b) => b.entities,
            None => Seq::<u64>::empty(),
        },
{
    iter.entities()
}

} // verus!
