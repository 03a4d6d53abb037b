//! What holds of a world across operations: which entities a query lists,
//! and that a deleted entity stays deleted.
use vstd::prelude::*;
use crate::codec::ComponentView;
use crate::error::ErrorKind;
use crate::query::{law_empty_matches_all, QueryTerm};
use crate::bytes::pow256;
use crate::record::{law_set_then_get, spec_set_raw};
use crate::types::Type;
use crate::world::{WorldView, MAX_ENTITIES};

verus! {

/// Over the first `n` entities, a query lists exactly the live entities that
/// match it, each alone in a batch of its own.
#[verifier::rlimit(40)]
pub proof fn lemma_query_batches(w: WorldView, terms: Seq<QueryTerm>, n: nat, handle: u64)
    requires
        n <= w.entities.len() <= MAX_ENTITIES,
    ensures
        (1 <= handle <= n && w.entity_matches(terms, handle)) <==> (exists|i: int|
            0 <= i < w.query_batches(terms, n).len() && (#[trigger] w.query_batches(
                terms,
                n,
            )[i]).entities == seq![handle]),
    decreases n,
{
    let batches = w.query_batches(terms, n);
    if n > 0 {
        let before = w.query_batches(terms, (n - 1) as nat);
        lemma_query_batches(w, terms, (n - 1) as nat, handle);
        let listed = w.entity_matches(terms, n as u64);
        if 1 <= handle <= n && w.entity_matches(terms, handle) {
            if handle == n {
                assert(batches[before.len() as int].entities == seq![handle]);
            } else {
                let i = choose|i: int|
                    0 <= i < before.len() && (#[trigger] before[i]).entities == seq![handle];
                assert(batches[i].entities == seq![handle]);
            }
        }
        if exists|i: int| 0 <= i < batches.len() && (#[trigger] batches[i]).entities == seq![handle] {
            let i = choose|i: int|
                0 <= i < batches.len() && (#[trigger] batches[i]).entities == seq![handle];
            if listed && i == before.len() {
                assert(batches[i].entities[0] == n as u64);
                assert(seq![handle][0] == handle);
            } else {
                assert(before[i].entities == seq![handle]);
            }
        }
    }
}

/// A query lists a live entity, alone in a batch of its own, exactly when the
/// entity matches the query.
pub proof fn law_query_lists_matching(w: WorldView, terms: Seq<QueryTerm>, handle: u64)
    requires
        w.wf(),
    ensures
        w.entity_matches(terms, handle) <==> (exists|i: int|
            0 <= i < w.query_batches(terms, w.entities.len()).len() && (#[trigger] w.query_batches(
                terms,
                w.entities.len(),
            )[i]).entities == seq![handle]),
{
    lemma_query_batches(w, terms, w.entities.len(), handle);
}

/// A query without terms lists every live entity.
pub proof fn law_empty_query_lists_all(w: WorldView, handle: u64)
    requires
        w.wf(),
        w.is_valid(handle),
    ensures
        exists|i: int|
            0 <= i < w.query_batches(Seq::<QueryTerm>::empty(), w.entities.len()).len() && (
            #[trigger] w.query_batches(Seq::<QueryTerm>::empty(), w.entities.len())[i]).entities
                == seq![handle],
{
    law_empty_matches_all(w.entity(handle).ids().to_set());
    law_query_lists_matching(w, Seq::<QueryTerm>::empty(), handle);
}

/// Applying serialized components to one entity leaves a deleted entity deleted.
#[verifier::rlimit(40)]
pub proof fn lemma_deserialize_keeps_deleted(
    w: WorldView,
    handle: u64,
    other: u64,
    cs: Seq<ComponentView>,
)
    requires
        w.is_deleted(handle),
    ensures
        w.deserialize_state(other, cs).is_deleted(handle),
    decreases cs.len(),
{
    reveal(WorldView::deserialize_one);
    if cs.len() > 0 {
        match w.deserialize_one(other, cs[0]) {
            Err(_) => {},
            Ok(w1) => {
                lemma_deserialize_keeps_deleted(w1, handle, other, cs.drop_first());
            },
        }
    }
}

/// A deleted entity stays deleted: no creation, deletion, attachment,
/// detachment, field write or deserialization makes its handle valid again,
/// and the handle that a creation hands out is never one handed out before.
#[verifier::rlimit(40)]
pub proof fn law_deleted_stays_deleted(
    w: WorldView,
    handle: u64,
    other: u64,
    component: u64,
    address: u64,
    offset: nat,
    ty: Type,
    raw: u64,
    cs: Seq<ComponentView>,
)
    requires
        w.wf(),
        w.is_deleted(handle),
    ensures
        w.created().is_deleted(handle),
        handle != w.entities.len() + 1,
        w.is_valid(other) ==> w.deleted(other).is_deleted(handle),
        w.after_attach(other, component).is_deleted(handle),
        w.after_detach(other, component).is_deleted(handle),
        w.set(address, offset, ty, raw) matches Ok(after) ==> after.is_deleted(handle),
        w.deserialize_state(other, cs).is_deleted(handle),
{
    lemma_deserialize_keeps_deleted(w, handle, other, cs);
}

/// Once an entity is deleted, asking whether it has a type, reading or
/// writing a field of one of its records, and serializing it all report
/// `InvalidHandle`; nothing of the entity is read.
#[verifier::rlimit(40)]
pub proof fn law_deleted_reports_invalid(
    w: WorldView,
    handle: u64,
    component: u64,
    offset: nat,
    ty: Type,
    raw: u64,
)
    requires
        w.wf(),
        w.is_valid(handle),
        component < crate::world::ADDRESS_SPAN,
    ensures
        ({
            let after = w.deleted(handle);
            let address = crate::world::record_address(handle, component) as u64;
            &&& after.wf()
            &&& !after.is_valid(handle)
            &&& after.has(handle, component) == Err::<bool, ErrorKind>(ErrorKind::InvalidHandle)
            &&& after.get(address, offset, ty) == Err::<u64, ErrorKind>(ErrorKind::InvalidHandle)
            &&& after.set(address, offset, ty, raw) == Err::<WorldView, ErrorKind>(
                ErrorKind::InvalidHandle,
            )
            &&& after.serialize_component(handle, component) == Err::<ComponentView, ErrorKind>(
                ErrorKind::InvalidHandle,
            )
            &&& after.serialize_entity(handle) == Err::<Seq<ComponentView>, ErrorKind>(
                ErrorKind::InvalidHandle,
            )
        }),
{
    let after = w.deleted(handle);
    let address = crate::world::record_address(handle, component);
    assert(address / (crate::world::ADDRESS_SPAN as int) == handle) by (nonlinear_arith)
        requires
            address == handle * 0x1_0000_0000 + component,
            0 <= component < 0x1_0000_0000,
            crate::world::ADDRESS_SPAN == 0x1_0000_0000,
            handle >= 0,
    ;
    assert forall|e: int| 0 <= e < after.entities.len() implies (#[trigger] after.entities[e]).wf(
        after.registry,
    ) by {
        if e != handle - 1 {
            assert(after.entities[e] == w.entities[e]);
        }
    }
}


/// A field of a record in a world reads back as the number written, cut to
/// the field's width. The write changes the bytes of that one record only: no
/// type, no entity and no attachment appears or disappears.
#[verifier::rlimit(40)]
pub proof fn law_member_set_then_get(w: WorldView, address: u64, offset: nat, ty: Type, raw: u64)
    requires
        w.wf(),
        w.set(address, offset, ty, raw) is Ok,
    ensures
        ({
            let after = w.set(address, offset, ty, raw).unwrap();
            &&& after.wf()
            &&& after.registry == w.registry
            &&& after.entities.len() == w.entities.len()
            &&& forall|h: u64| after.is_valid(h) == w.is_valid(h)
            &&& forall|h: u64| w.is_valid(h) ==> #[trigger] after.entity(h).ids() == w.entity(h).ids()
            &&& after.get(address, offset, ty) == Ok::<u64, ErrorKind>(
                (raw as nat % pow256(ty.spec_width())) as u64,
            )
        }),
{
    let after = w.set(address, offset, ty, raw).unwrap();
    let (handle, i) = w.locate(address).unwrap();
    let e = w.entity(handle);
    let rec = e.records[i];
    let schema = w.registry[rec.component - 1];
    assert(e.wf(w.registry));
    let data = spec_set_raw(schema, rec.data, offset, ty, raw).unwrap();
    law_set_then_get(schema, rec.data, offset, ty, raw);
    let e2 = after.entity(handle);
    assert(e2.records.len() == e.records.len());
    assert forall|k: int| 0 <= k < e2.records.len() implies (#[trigger] e2.records[k]).component
        == e.records[k].component by {}
    assert(e2.ids() =~= e.ids());
    assert(e2.wf(w.registry)) by {
        assert forall|k: int| 0 <= k < e2.records.len() implies 1 <= (
        #[trigger] e2.records[k]).component <= w.registry.len() && e2.records[k].data.len()
            == w.registry[e2.records[k].component - 1].size() by {
            assert(1 <= e.records[k].component <= w.registry.len());
        }
    }
    assert forall|x: int| 0 <= x < after.entities.len() implies (#[trigger] after.entities[x]).wf(
        after.registry,
    ) by {
        if x != handle - 1 {
            assert(after.entities[x] == w.entities[x]);
        }
    }
    assert forall|h: u64| w.is_valid(h) implies #[trigger] after.entity(h).ids() == w.entity(
        h,
    ).ids() by {
        if h != handle {
            assert(after.entity(h) == w.entity(h));
        }
    }
    let component = address % crate::world::ADDRESS_SPAN;
    let j = e2.find(component).unwrap();
    assert(e.records[i].component == component);
    assert(e2.records[i].component == component);
    assert(e2.records[j].component == component);
    assert(i == j);
}

} // verus!
