//! The schema store: record types by name and by id.
//!
//! Ids are handed out in registration order, starting at 1. A registered type
//! never changes, and a name is registered at most once: declaring a name again
//! is refused with `InvalidDefinition`, whatever fields come with it.
use vstd::prelude::*;
use crate::error::ErrorKind;
use crate::schema::{
    definition_error, ecs_struct_desc_t, layout, lemma_fields_disjoint, name_views, StructView,
};
use crate::types::Type;

verus! {

/// The most record types a registry can hold.
pub const MAX_TYPES: usize = 0xFFFF_FFFF;

/// The registry invariant: every schema is well-formed, the type at place `i`
/// has id `i + 1`, and no two types share a name.
pub open spec fn registry_wf(v: Seq<StructView>) -> bool {
    &&& v.len() <= MAX_TYPES
    &&& forall|i: int| 0 <= i < v.len() ==> (#[trigger] v[i]).wf() && v[i].entity == i + 1
    &&& forall|i: int, j: int| 0 <= i < j < v.len() ==> v[i].name != v[j].name
}

/// The id registered under `name`, if there is one.
pub open spec fn spec_lookup(v: Seq<StructView>, name: Seq<char>) -> Option<u64> {
    if exists|i: int| 0 <= i < v.len() && v[i].name == name {
        Some(v[choose|i: int| 0 <= i < v.len() && v[i].name == name].entity)
    } else {
        None
    }
}

/// The schema registered under `id`, if there is one.
pub open spec fn spec_describe(v: Seq<StructView>, id: u64) -> Option<StructView> {
    if 1 <= id <= v.len() {
        Some(v[id - 1])
    } else {
        None
    }
}

/// Why a registration is refused, if it is: for the reasons a declaration is
/// refused; else `InvalidDefinition` if the name is taken; else
/// `CapacityExceeded` if the registry is full.
pub open spec fn register_error(
    v: Seq<StructView>,
    name: Seq<char>,
    names: Seq<Seq<char>>,
    types: Seq<Type>,
) -> Option<ErrorKind> {
    if definition_error(name, names, types) is Some {
        definition_error(name, names, types)
    } else if spec_lookup(v, name) is Some {
        Some(ErrorKind::InvalidDefinition)
    } else if v.len() >= MAX_TYPES {
        Some(ErrorKind::CapacityExceeded)
    } else {
        None
    }
}

/// The registry after a registration that is not refused.
pub open spec fn spec_register(
    v: Seq<StructView>,
    name: Seq<char>,
    names: Seq<Seq<char>>,
    types: Seq<Type>,
) -> Seq<StructView> {
    v.push(StructView { entity: (v.len() + 1) as u64, name, members: layout(names, types) })
}

/// The store of record types.
pub struct Registry {
    types: Vec<ecs_struct_desc_t>,
}

impl View for Registry {
    type V = Seq<StructView>;

    closed spec fn view(&self) -> Seq<StructView> {
        Seq::new(self.types@.len(), |i: int| self.types@[i]@)
    }
}

impl Registry {
    /// The registry invariant, on the stored schemas.
    pub closed spec fn wf(&self) -> bool {
        &&& registry_wf(self@)
        &&& forall|i: int| 0 <= i < self.types@.len() ==> (#[trigger] self.types@[i]).wf()
    }

    /// A well-formed registry has a well-formed view.
    pub proof fn lemma_wf(&self)
        requires
            self.wf(),
        ensures
            registry_wf(self@),
    {
    }

    /// A registry with no types.
    pub fn new() -> (r: Registry)
        ensures
            r.wf(),
            r@ == Seq::<StructView>::empty(),
    {
        let r = Registry { types: Vec::new() };
        assert(r@ =~= Seq::<StructView>::empty());
        r
    }

    /// The number of registered types.
    pub fn len(&self) -> (n: usize)
        ensures
            n == self@.len(),
    {
        self.types.len()
    }

    /// Resolves a registered name to its id; `UnknownType` for any other name.
    #[verifier::rlimit(40)]
    pub fn lookup(&self, name: &str) -> (r: Result<u64, ErrorKind>)
        requires
            self.wf(),
        ensures
            r == match spec_lookup(self@, name@) {
                Some(id) => Ok::<u64, ErrorKind>(id),
                None => Err::<u64, ErrorKind>(ErrorKind::UnknownType),
            },
            r matches Ok(id) ==> 1 <= id <= self@.len() && self@[id - 1].name == name@,
    {
        let mut i: usize = 0;
        while i < self.types.len()
            invariant
                i <= self.types.len(),
                self.wf(),
                forall|k: int| 0 <= k < i ==> self@[k].name != name@,
            decreases self.types.len() - i,
        {
            if crate::text::str_eq(self.types[i].name().as_str(), name) {
                proof {
                    lemma_lookup_own(self@, i as int);
                }
                return Ok(self.types[i].entity());
            }
            i += 1;
        }
        Err(ErrorKind::UnknownType)
    }

    /// The schema registered under `id`; `UnknownType` for any other id.
    pub fn describe(&self, id: u64) -> (r: Result<&ecs_struct_desc_t, ErrorKind>)
        requires
            self.wf(),
        ensures
            match r {
                Ok(d) => spec_describe(self@, id) == Some(d@) && d.wf() && d@.entity == id,
                Err(e) => spec_describe(self@, id) is None && e == ErrorKind::UnknownType,
            },
    {
        if id == 0 || id > self.types.len() as u64 {
            return Err(ErrorKind::UnknownType);
        }
        let i: usize = (id - 1) as usize;
        Ok(&self.types[i])
    }

    /// Registers a record type called `name` with the given fields and returns
    /// its id, which is one more than the number of types registered before.
    /// On refusal the registry is unchanged.
    #[verifier::rlimit(40)]
    pub fn register(
        &mut self,
        name: &str,
        member_names: &Vec<String>,
        member_types: &Vec<Type>,
    ) -> (r: Result<u64, ErrorKind>)
        requires
            old(self).wf(),
        ensures
            final(self).wf(),
            match r {
                Ok(id) => {
                    &&& register_error(
                        old(self)@,
                        name@,
                        name_views(member_names@),
                        member_types@,
                    ) is None
                    &&& id == old(self)@.len() + 1
                    &&& final(self)@ == spec_register(
                        old(self)@,
                        name@,
                        name_views(member_names@),
                        member_types@,
                    )
                },
                Err(e) => {
                    &&& register_error(old(self)@, name@, name_views(member_names@), member_types@)
                        == Some(e)
                    &&& final(self)@ == old(self)@
                },
            },
    {
        let full: bool = self.types.len() >= MAX_TYPES;
        let id: u64 = if full {
            0
        } else {
            self.types.len() as u64 + 1
        };
        let desc = match ecs_struct_desc_t::new(id, name, member_names, member_types) {
            Ok(d) => d,
            Err(e) => {
                return Err(e);
            },
        };
        if self.lookup(name).is_ok() {
            return Err(ErrorKind::InvalidDefinition);
        }
        if full {
            return Err(ErrorKind::CapacityExceeded);
        }
        proof {
            desc.lemma_wf();
        }
        let ghost before = self@;
        self.types.push(desc);
        proof {
            assert(self@ =~= before.push(desc@));
            assert forall|i: int, j: int| 0 <= i < j < self@.len() implies self@[i].name
                != self@[j].name by {
                if j == before.len() {
                    assert(before[i].name != name@);
                }
            }
        }
        Ok(id)
    }

    /// Registers a marker: a record type called `name` with no fields.
    pub fn register_tag(&mut self, name: &str) -> (r: Result<u64, ErrorKind>)
        requires
            old(self).wf(),
        ensures
            final(self).wf(),
            match r {
                Ok(id) => {
                    &&& register_error(
                        old(self)@,
                        name@,
                        Seq::<Seq<char>>::empty(),
                        Seq::<Type>::empty(),
                    ) is None
                    &&& id == old(self)@.len() + 1
                    &&& final(self)@ == spec_register(
                        old(self)@,
                        name@,
                        Seq::<Seq<char>>::empty(),
                        Seq::<Type>::empty(),
                    )
                },
                Err(e) => {
                    &&& register_error(
                        old(self)@,
                        name@,
                        Seq::<Seq<char>>::empty(),
                        Seq::<Type>::empty(),
                    ) == Some(e)
                    &&& final(self)@ == old(self)@
                },
            },
    {
        let names: Vec<String> = Vec::new();
        let types: Vec<Type> = Vec::new();
        assert(name_views(names@) =~= Seq::<Seq<char>>::empty());
        assert(types@ =~= Seq::<Type>::empty());
        self.register(name, &names, &types)
    }
}

/// In a well-formed registry, a type is found under its own name and its own id.
#[verifier::rlimit(40)]
pub proof fn lemma_lookup_own(v: Seq<StructView>, i: int)
    requires
        registry_wf(v),
        0 <= i < v.len(),
    ensures
        spec_lookup(v, v[i].name) == Some(v[i].entity),
        spec_describe(v, v[i].entity) == Some(v[i]),
        v[i].entity == i + 1,
{
    let name = v[i].name;
    let k = choose|k: int| 0 <= k < v.len() && v[k].name == name;
    if k < i {
        assert(v[k].name != v[i].name);
    } else if i < k {
        assert(v[i].name != v[k].name);
    }
}

/// A registration that is not refused keeps the registry well-formed, makes
/// the name resolve to the new id, and makes that id describe exactly the
/// fields that were declared, in declaration order: the first at offset 0, each
/// later one where the one before it ends, none overlapping another. Every
/// type registered before resolves and reads as it did.
#[verifier::rlimit(40)]
pub proof fn law_register_then_describe(
    v: Seq<StructView>,
    name: Seq<char>,
    names: Seq<Seq<char>>,
    types: Seq<Type>,
)
    requires
        registry_wf(v),
        register_error(v, name, names, types) is None,
    ensures
        ({
            let after = spec_register(v, name, names, types);
            let id = (v.len() + 1) as u64;
            &&& registry_wf(after)
            &&& spec_lookup(after, name) == Some(id)
            &&& spec_describe(after, id) matches Some(d) && d.name == name && d.members == layout(
                names,
                types,
            ) && d.names() == names && d.types() == types && d.wf()
            &&& forall|i: int, j: int|
                0 <= i < j < names.len() ==> (#[trigger] layout(names, types)[i]).offset
                    + types[i].spec_width() <= (#[trigger] layout(names, types)[j]).offset
            &&& names.len() > 0 ==> layout(names, types)[0].offset == 0
            &&& forall|k: int|
                0 <= k < v.len() ==> spec_lookup(after, (#[trigger] v[k]).name) == Some(
                    v[k].entity,
                ) && spec_describe(after, v[k].entity) == Some(v[k])
        }),
{
    let after = spec_register(v, name, names, types);
    let d = after[v.len() as int];
    assert(d.names() =~= names);
    assert(d.types() =~= types);
    assert(d.wf());
    assert forall|i: int, j: int| 0 <= i < j < after.len() implies after[i].name
        != after[j].name by {
        if j == v.len() {
            assert(v[i].name != name);
        }
    }
    assert(registry_wf(after));
    lemma_lookup_own(after, v.len() as int);
    assert forall|i: int, j: int| 0 <= i < j < names.len() implies (#[trigger] layout(
        names,
        types,
    )[i]).offset + types[i].spec_width() <= (#[trigger] layout(names, types)[j]).offset by {
        lemma_fields_disjoint(d, i, j);
    }
    assert forall|k: int| 0 <= k < v.len() implies spec_lookup(after, (#[trigger] v[k]).name)
        == Some(v[k].entity) && spec_describe(after, v[k].entity) == Some(v[k]) by {
        lemma_lookup_own(after, k);
    }
}

/// Declaring more than `MAX_FIELDS` fields is refused with `TooManyFields`,
/// whatever the registry holds and whatever else the declaration says.
pub proof fn law_too_many_fields(
    v: Seq<StructView>,
    name: Seq<char>,
    names: Seq<Seq<char>>,
    types: Seq<Type>,
)
    requires
        names.len() > crate::schema::MAX_FIELDS,
    ensures
        register_error(v, name, names, types) == Some(ErrorKind::TooManyFields),
{
}

} // verus!
