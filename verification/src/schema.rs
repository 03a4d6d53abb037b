//! Record schemas: named, ordered fields laid out back to back without padding.
use vstd::prelude::*;
use vstd::utf8::encode_utf8;
use crate::error::ErrorKind;
use crate::text::str_eq;
use crate::types::Type;

verus! {

/// The most fields a record type can declare.
pub const MAX_FIELDS: usize = 32;

/// The most bytes the UTF-8 form of a type or field name can take, so that its
/// length fits the two-byte prefix it travels with.
pub const MAX_NAME_BYTES: usize = 65535;

/// One field of a record type: its name, its type and its byte offset in the record.
#[derive(Debug, PartialEq, Eq)]
pub struct ecs_member_t {
    pub name: String,
    pub type_: Type,
    pub offset: u32,
}

/// What a field is, as a mathematical value.
pub struct MemberView {
    pub name: Seq<char>,
    pub type_: Type,
    pub offset: nat,
}

impl View for ecs_member_t {
    type V = MemberView;

    open spec fn view(&self) -> MemberView {
        MemberView { name: self.name@, type_: self.type_, offset: self.offset as nat }
    }
}

impl Clone for ecs_member_t {
    fn clone(&self) -> (r: Self)
        ensures
            r@ == self@,
    {
        ecs_member_t { name: self.name.clone(), type_: self.type_, offset: self.offset }
    }
}

/// The views of a list of names.
pub open spec fn name_views(names: Seq<String>) -> Seq<Seq<char>> {
    Seq::new(names.len(), |i: int| names[i]@)
}

/// The views of a list of fields.
pub open spec fn member_views(members: Seq<ecs_member_t>) -> Seq<MemberView> {
    Seq::new(members.len(), |i: int| members[i]@)
}

/// Offset of field `i` when fields of the given types are laid out in order with
/// no padding: the sum of the widths of the fields before it. At `i == types.len()`
/// this is the size of the whole record.
pub open spec fn layout_offset(types: Seq<Type>, i: int) -> nat
    decreases i,
{
    if i <= 0 {
        0
    } else {
        layout_offset(types, i - 1) + types[i - 1].spec_width()
    }
}

/// The fields that a declaration of `names` with `types` lays out.
pub open spec fn layout(names: Seq<Seq<char>>, types: Seq<Type>) -> Seq<MemberView>
    recommends
        names.len() == types.len(),
{
    Seq::new(
        names.len(),
        |i: int| MemberView { name: names[i], type_: types[i], offset: layout_offset(types, i) },
    )
}

/// No name occurs twice.
pub open spec fn names_distinct(names: Seq<Seq<char>>) -> bool {
    forall|i: int, j: int| 0 <= i < j < names.len() ==> names[i] != names[j]
}

/// The name's UTF-8 form fits the length prefix it travels with.
pub open spec fn name_fits(name: Seq<char>) -> bool {
    encode_utf8(name).len() <= MAX_NAME_BYTES
}

/// Why a declaration is refused, if it is. More fields than `MAX_FIELDS` is
/// `TooManyFields`, whatever else is wrong; an empty or over-long type name,
/// lists of different lengths, an over-long or repeated field name are
/// `InvalidDefinition`.
pub open spec fn definition_error(
    name: Seq<char>,
    names: Seq<Seq<char>>,
    types: Seq<Type>,
) -> Option<ErrorKind> {
    if names.len() > MAX_FIELDS {
        Some(ErrorKind::TooManyFields)
    } else if name.len() == 0 || !name_fits(name) || names.len() != types.len() || !(forall|
        i: int,
    |
        0 <= i < names.len() ==> name_fits(#[trigger] names[i])) || !names_distinct(names) {
        Some(ErrorKind::InvalidDefinition)
    } else {
        None
    }
}

/// What a record type is, as a mathematical value.
pub struct StructView {
    pub entity: u64,
    pub name: Seq<char>,
    pub members: Seq<MemberView>,
}

impl StructView {
    /// The names of the fields, in declaration order.
    pub open spec fn names(self) -> Seq<Seq<char>> {
        Seq::new(self.members.len(), |i: int| self.members[i].name)
    }

    /// The types of the fields, in declaration order.
    pub open spec fn types(self) -> Seq<Type> {
        Seq::new(self.members.len(), |i: int| self.members[i].type_)
    }

    /// Bytes of one record of this type.
    pub open spec fn size(self) -> nat {
        layout_offset(self.types(), self.members.len() as int)
    }

    /// The schema invariant: a valid name, at most `MAX_FIELDS` fields with
    /// distinct valid names, each at the running sum of the widths before it.
    pub open spec fn wf(self) -> bool {
        &&& definition_error(self.name, self.names(), self.types()) is None
        &&& self.members == layout(self.names(), self.types())
    }

    /// Index of the field called `name`, if there is one.
    pub open spec fn find(self, name: Seq<char>) -> Option<int> {
        if exists|i: int| 0 <= i < self.members.len() && self.members[i].name == name {
            Some(choose|i: int| 0 <= i < self.members.len() && self.members[i].name == name)
        } else {
            None
        }
    }

    /// Index of the field that starts at `offset`, if there is one.
    pub open spec fn field_at(self, offset: nat) -> Option<int> {
        if exists|i: int| 0 <= i < self.members.len() && self.members[i].offset == offset {
            Some(choose|i: int| 0 <= i < self.members.len() && self.members[i].offset == offset)
        } else {
            None
        }
    }

    /// Every field holds its value in the record itself.
    pub open spec fn all_scalar(self) -> bool {
        forall|i: int| 0 <= i < self.members.len() ==> (#[trigger] self.members[i]).type_.spec_is_scalar()
    }
}

/// Offsets never decrease, and a field ends where or before any later one starts.
pub proof fn lemma_layout_monotonic(types: Seq<Type>, i: int, j: int)
    requires
        0 <= i < j <= types.len(),
    ensures
        layout_offset(types, i) + types[i].spec_width() <= layout_offset(types, j),
    decreases j,
{
    if j > i + 1 {
        lemma_layout_monotonic(types, i, j - 1);
    }
}

/// A record of `n` fields takes at most eight bytes a field.
pub proof fn lemma_layout_bound(types: Seq<Type>, i: int)
    requires
        0 <= i <= types.len(),
    ensures
        i <= layout_offset(types, i) <= 8 * i,
    decreases i,
{
    if i > 0 {
        lemma_layout_bound(types, i - 1);
    }
}

/// In a well-formed schema, fields are in strictly increasing offset order, do
/// not overlap, start at offset 0 and end within the record.
pub proof fn lemma_fields_disjoint(s: StructView, i: int, j: int)
    requires
        s.wf(),
        0 <= i < j < s.members.len(),
    ensures
        s.members[i].offset + s.members[i].type_.spec_width() <= s.members[j].offset,
        s.members[j].offset + s.members[j].type_.spec_width() <= s.size(),
        s.members.len() > 0 ==> s.members[0].offset == 0,
{
    lemma_layout_monotonic(s.types(), i, j);
    lemma_layout_monotonic(s.types(), j, s.members.len() as int);
}

/// A record is as large as its last field's offset plus that field's width;
/// a type without fields takes no bytes.
pub proof fn law_record_size(s: StructView)
    requires
        s.wf(),
    ensures
        s.members.len() == 0 ==> s.size() == 0,
        s.members.len() > 0 ==> s.size() == s.members.last().offset
            + s.members.last().type_.spec_width(),
{
}

/// In a well-formed schema, every field lies within the record.
pub proof fn lemma_field_in_record(s: StructView, i: int)
    requires
        s.wf(),
        0 <= i < s.members.len(),
    ensures
        s.members[i].offset + s.members[i].type_.spec_width() <= s.size(),
        s.size() <= 8 * MAX_FIELDS,
{
    lemma_layout_monotonic(s.types(), i, s.members.len() as int);
    lemma_layout_bound(s.types(), s.members.len() as int);
}

/// In a well-formed schema, a field is found under its own name and at its own offset.
#[verifier::rlimit(40)]
pub proof fn lemma_find_own(s: StructView, i: int)
    requires
        s.wf(),
        0 <= i < s.members.len(),
    ensures
        s.find(s.members[i].name) == Some(i),
        s.field_at(s.members[i].offset) == Some(i),
{
    let name = s.members[i].name;
    let k = choose|k: int| 0 <= k < s.members.len() && s.members[k].name == name;
    assert(s.names()[k] == s.names()[i]);
    let off = s.members[i].offset;
    let m = choose|m: int| 0 <= m < s.members.len() && s.members[m].offset == off;
    if m < i {
        lemma_layout_monotonic(s.types(), m, i);
    } else if i < m {
        lemma_layout_monotonic(s.types(), i, m);
    }
}


/// A registered record type: its id, its name and its fields in declaration order.
#[derive(Debug, PartialEq, Eq)]
pub struct ecs_struct_desc_t {
    entity: u64,
    name: String,
    members: Vec<ecs_member_t>,
    size: u32,
}

impl View for ecs_struct_desc_t {
    type V = StructView;

    closed spec fn view(&self) -> StructView {
        StructView { entity: self.entity, name: self.name@, members: member_views(self.members@) }
    }
}

/// True if `name` is among the first `n` of `names`.
fn name_among(names: &Vec<String>, n: usize, name: &String) -> (r: bool)
    requires
        n <= names.len(),
    ensures
        r == exists|i: int| 0 <= i < n && names[i]@ == name@,
{
    let mut i: usize = 0;
    while i < n
        invariant
            i <= n <= names.len(),
            forall|k: int| 0 <= k < i ==> names[k]@ != name@,
        decreases n - i,
    {
        if names[i].eq(name) {
            return true;
        }
        i += 1;
    }
    false
}

/// True if every name fits its length prefix and none occurs twice.
#[verifier::rlimit(40)]
fn names_valid(names: &Vec<String>) -> (r: bool)
    ensures
        r == ((forall|i: int|
            0 <= i < names.len() ==> name_fits(#[trigger] name_views(names@)[i])) && names_distinct(
            name_views(names@),
        )),
{
    let ghost views = name_views(names@);
    let mut j: usize = 0;
    while j < names.len()
        invariant
            j <= names.len(),
            views == name_views(names@),
            forall|i: int| 0 <= i < j ==> name_fits(#[trigger] views[i]),
            forall|a: int, b: int| 0 <= a < b < j ==> views[a] != views[b],
        decreases names.len() - j,
    {
        if names[j].as_str().as_bytes().len() > MAX_NAME_BYTES {
            assert(!name_fits(views[j as int]));
            return false;
        }
        if name_among(names, j, &names[j]) {
            let ghost i = choose|i: int| 0 <= i < j && names[i]@ == names[j as int]@;
            assert(views[i] == views[j as int]);
            return false;
        }
        j += 1;
    }
    true
}

impl ecs_struct_desc_t {
    /// The schema invariant, together with the cached record size.
    pub closed spec fn wf(&self) -> bool {
        &&& self@.wf()
        &&& self.size == self@.size()
    }

    /// A well-formed schema has a well-formed view.
    pub proof fn lemma_wf(&self)
        requires
            self.wf(),
        ensures
            self@.wf(),
    {
    }

    /// Lays out a record type called `name` under the id `entity`, with one field
    /// per entry of `member_names`, typed by the entry of `member_types` at the
    /// same place. Field `i` starts where field `i - 1` ends; the first starts at 0.
    #[verifier::rlimit(40)]
    pub fn new(
        entity: u64,
        name: &str,
        member_names: &Vec<String>,
        member_types: &Vec<Type>,
    ) -> (r: Result<ecs_struct_desc_t, ErrorKind>)
        ensures
            match r {
                Ok(d) => {
                    &&& definition_error(name@, name_views(member_names@), member_types@) is None
                    &&& d.wf()
                    &&& d@ == (StructView {
                        entity,
                        name: name@,
                        members: layout(name_views(member_names@), member_types@),
                    })
                },
                Err(e) => definition_error(name@, name_views(member_names@), member_types@)
                    == Some(e),
            },
    {
        let n: usize = member_names.len();
        if n > MAX_FIELDS {
            return Err(ErrorKind::TooManyFields);
        }
        if name.is_empty() || name.as_bytes().len() > MAX_NAME_BYTES || n != member_types.len()
            || !names_valid(member_names) {
            return Err(ErrorKind::InvalidDefinition);
        }
        let ghost names = name_views(member_names@);
        let ghost types = member_types@;
        let mut members: Vec<ecs_member_t> = Vec::new();
        let mut offset: u32 = 0;
        let mut i: usize = 0;
        while i < n
            invariant
                i <= n,
                n == member_names.len(),
                n == member_types.len(),
                n <= MAX_FIELDS,
                names == name_views(member_names@),
                types == member_types@,
                members.len() == i,
                offset == layout_offset(types, i as int),
                offset <= 8 * i,
                forall|k: int|
                    0 <= k < i ==> (#[trigger] members[k])@ == (MemberView {
                        name: names[k],
                        type_: types[k],
                        offset: layout_offset(types, k),
                    }),
            decreases n - i,
        {
            let t: Type = member_types[i];
            members.push(ecs_member_t { name: member_names[i].clone(), type_: t, offset });
            offset = offset + t.width();
            i += 1;
        }
        let d = ecs_struct_desc_t { entity, name: name.to_owned(), members, size: offset };
        proof {
            assert(d@.members =~= layout(names, types));
            assert(d@.names() =~= names);
            assert(d@.types() =~= types);
        }
        Ok(d)
    }

    /// The id under which the type is registered.
    pub fn entity(&self) -> (r: u64)
        ensures
            r == self@.entity,
    {
        self.entity
    }

    /// The type's name.
    pub fn name(&self) -> (r: &String)
        ensures
            r@ == self@.name,
    {
        &self.name
    }

    /// The number of fields.
    pub fn member_count(&self) -> (r: usize)
        ensures
            r == self@.members.len(),
            self.wf() ==> r <= MAX_FIELDS,
    {
        self.members.len()
    }

    /// The field at place `i` of the declaration.
    pub fn member(&self, i: usize) -> (r: &ecs_member_t)
        requires
            i < self@.members.len(),
        ensures
            r@ == self@.members[i as int],
    {
        &self.members[i]
    }

    /// Bytes of one record of this type.
    pub fn size(&self) -> (r: u32)
        requires
            self.wf(),
        ensures
            r == self@.size(),
            r <= 8 * MAX_FIELDS,
    {
        proof {
            lemma_layout_bound(self@.types(), self@.members.len() as int);
        }
        self.size
    }

    /// Index of the field called `name`, if there is one.
    #[verifier::rlimit(40)]
    pub fn find_member(&self, name: &str) -> (r: Option<usize>)
        requires
            self.wf(),
        ensures
            match r {
                Some(i) => self@.find(name@) == Some(i as int) && i < self@.members.len()
                    && self@.members[i as int].name == name@,
                None => self@.find(name@) is None,
            },
    {
        let n: usize = self.members.len();
        let mut found: Option<usize> = None;
        let mut i: usize = 0;
        while i < n && found.is_none()
            invariant
                i <= n,
                n == self@.members.len(),
                forall|k: int| 0 <= k < i && found != Some(k as usize) ==> self@.members[k].name != name@,
                found matches Some(j) ==> j < n && self@.members[j as int].name == name@,
            decreases n - i,
        {
            if str_eq(self.members[i].name.as_str(), name) {
                found = Some(i);
            }
            i += 1;
        }
        proof {
            match found {
                Some(j) => {
                    lemma_find_own(self@, j as int);
                },
                None => {},
            }
        }
        found
    }

    /// Index of the field that starts at `offset`, if there is one.
    #[verifier::rlimit(40)]
    pub fn member_at(&self, offset: u32) -> (r: Option<usize>)
        requires
            self.wf(),
        ensures
            match r {
                Some(i) => self@.field_at(offset as nat) == Some(i as int) && i
                    < self@.members.len() && self@.members[i as int].offset == offset,
                None => self@.field_at(offset as nat) is None,
            },
    {
        let n: usize = self.members.len();
        let mut found: Option<usize> = None;
        let mut i: usize = 0;
        while i < n && found.is_none()
            invariant
                i <= n,
                n == self@.members.len(),
                forall|k: int|
                    0 <= k < i && found != Some(k as usize) ==> self@.members[k].offset != offset,
                found matches Some(j) ==> j < n && self@.members[j as int].offset == offset,
            decreases n - i,
        {
            if self.members[i].offset == offset {
                found = Some(i);
            }
            i += 1;
        }
        proof {
            match found {
                Some(j) => {
                    lemma_find_own(self@, j as int);
                },
                None => {},
            }
        }
        found
    }

    /// True if every field holds its value in the record itself.
    pub fn all_scalar(&self) -> (r: bool)
        ensures
            r == self@.all_scalar(),
    {
        let mut i: usize = 0;
        while i < self.members.len()
            invariant
                i <= self.members.len(),
                forall|k: int| 0 <= k < i ==> (#[trigger] self@.members[k]).type_.spec_is_scalar(),
            decreases self.members.len() - i,
        {
            if !self.members[i].type_.is_scalar() {
                assert(!self@.members[i as int].type_.spec_is_scalar());
                return false;
            }
            i += 1;
        }
        true
    }
}

impl Clone for ecs_struct_desc_t {
    fn clone(&self) -> (r: Self)
        ensures
            r@ == self@,
            self.wf() ==> r.wf(),
    {
        let mut members: Vec<ecs_member_t> = Vec::new();
        let mut i: usize = 0;
        while i < self.members.len()
            invariant
                i <= self.members.len(),
                members.len() == i,
                forall|k: int| 0 <= k < i ==> (#[trigger] members[k])@ == self.members[k]@,
            decreases self.members.len() - i,
        {
            members.push(self.members[i].clone());
            i += 1;
        }
        let r = ecs_struct_desc_t {
            entity: self.entity,
            name: self.name.clone(),
            members,
            size: self.size,
        };
        assert(r@.members =~= self@.members);
        r
    }
}

} // verus!
