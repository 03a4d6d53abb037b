//! The codec: one live record to a named, self-describing payload, and a
//! decoded payload back into field writes.
//!
//! Encoding walks the schema's fields in declaration order and reads each
//! through the accessor of its type. A schema with an indirection among its
//! fields cannot be encoded: the codec fails with `UnsupportedType` and drops
//! nothing silently. Applying looks each decoded field up by name: a name the
//! schema does not have is skipped, a schema field that the payload does not
//! mention keeps its value, and a value whose type disagrees with the field's
//! is `TypeMismatch`.
use vstd::prelude::*;
use crate::bytes::lemma_splice;
use crate::error::ErrorKind;
use crate::record::{
    access_error, field_raw, get_raw, law_set_keeps_others, law_set_then_get,
    lemma_field_raw_bound, set_raw, spec_get_raw, spec_set_raw,
};
use crate::schema::{
    ecs_struct_desc_t, lemma_field_in_record, lemma_find_own, StructView, MAX_FIELDS,
};
use crate::text::copy_bytes;
use crate::types::Type;
use crate::value::{lemma_from_raw_raw, lemma_raw_round_trip, DynamicType};
use crate::wire::{
    decode, encode_error, encode_fields, field_views, law_wire_round_trip, spec_decode,
    spec_encode_fields, FieldView, SerializedField,
};

verus! {

/// One component of an entity in serialized form: the name of its type and
/// the payload that carries its fields.
#[derive(Debug, PartialEq, Eq)]
pub struct SerializedComponent {
    pub name: String,
    pub payload: Vec<u8>,
}

/// What a serialized component is, as a mathematical value.
pub struct ComponentView {
    pub name: Seq<char>,
    pub payload: Seq<u8>,
}

impl View for SerializedComponent {
    type V = ComponentView;

    open spec fn view(&self) -> ComponentView {
        ComponentView { name: self.name@, payload: self.payload@ }
    }
}

impl Clone for SerializedComponent {
    fn clone(&self) -> (r: Self)
        ensures
            r@ == self@,
    {
        SerializedComponent {
            name: self.name.clone(),
            payload: copy_bytes(self.payload.as_slice()),
        }
    }
}

/// The views of a list of serialized components.
pub open spec fn component_views(components: Seq<SerializedComponent>) -> Seq<ComponentView> {
    Seq::new(components.len(), |i: int| components[i]@)
}

/// The typed value that field `i` of `schema` holds in `data`.
pub open spec fn field_value(schema: StructView, data: Seq<u8>, i: int) -> DynamicType {
    DynamicType::spec_from_raw(schema.members[i].type_, field_raw(schema, data, i)).unwrap()
}

/// The fields of a record, by name and typed value, in declaration order.
pub open spec fn spec_record_fields(schema: StructView, data: Seq<u8>) -> Seq<FieldView> {
    Seq::new(
        schema.members.len(),
        |i: int| FieldView { name: schema.members[i].name, value: field_value(schema, data, i) },
    )
}

/// Why a record cannot be encoded, if it cannot: `UnsupportedType` when the
/// schema has a field that is an indirection, else `OffsetOutOfBounds` when
/// the memory is shorter than a record of the schema.
pub open spec fn record_error(schema: StructView, len: nat) -> Option<ErrorKind> {
    if !schema.all_scalar() {
        Some(ErrorKind::UnsupportedType)
    } else if len < schema.size() {
        Some(ErrorKind::OffsetOutOfBounds)
    } else {
        None
    }
}

/// The serialized form of a record that can be encoded.
pub open spec fn spec_encode(schema: StructView, data: Seq<u8>) -> ComponentView {
    ComponentView {
        name: schema.name,
        payload: spec_encode_fields(spec_record_fields(schema, data)),
    }
}

/// The memory after one decoded field is applied: unchanged when the schema
/// has no field of that name, else written at that field's offset with the
/// accessor of the value's type.
pub open spec fn spec_apply_one(schema: StructView, data: Seq<u8>, f: FieldView) -> Result<
    Seq<u8>,
    ErrorKind,
> {
    match schema.find(f.name) {
        None => Ok(data),
        Some(i) => spec_set_raw(
            schema,
            data,
            schema.members[i].offset,
            f.value.spec_type(),
            f.value.spec_raw(),
        ),
    }
}

/// The memory after the decoded fields are applied in order. The first field
/// that is refused decides the error.
pub open spec fn spec_apply(schema: StructView, data: Seq<u8>, fields: Seq<FieldView>) -> Result<
    Seq<u8>,
    ErrorKind,
>
    decreases fields.len(),
{
    if fields.len() == 0 {
        Ok(data)
    } else {
        match spec_apply_one(schema, data, fields[0]) {
            Err(e) => Err(e),
            Ok(d) => spec_apply(schema, d, fields.drop_first()),
        }
    }
}

/// Reads every field of a record, in declaration order, each through the
/// accessor of its declared type.
#[verifier::rlimit(40)]
pub fn read_fields(schema: &ecs_struct_desc_t, data: &[u8]) -> (r: Result<
    Vec<SerializedField>,
    ErrorKind,
>)
    requires
        schema.wf(),
    ensures
        match r {
            Ok(v) => record_error(schema@, data@.len()) is None && field_views(v@)
                == spec_record_fields(schema@, data@),
            Err(e) => record_error(schema@, data@.len()) == Some(e),
        },
{
    if !schema.all_scalar() {
        return Err(ErrorKind::UnsupportedType);
    }
    if data.len() < schema.size() as usize {
        return Err(ErrorKind::OffsetOutOfBounds);
    }
    let n: usize = schema.member_count();
    let mut out: Vec<SerializedField> = Vec::new();
    let mut i: usize = 0;
    while i < n
        invariant
            i <= n,
            n == schema@.members.len(),
            schema.wf(),
            schema@.all_scalar(),
            data@.len() >= schema@.size(),
            out.len() == i,
            forall|k: int| 0 <= k < i ==> (#[trigger] out[k])@ == spec_record_fields(schema@, data@)[k],
        decreases n - i,
    {
        let m = schema.member(i);
        proof {
            schema.lemma_wf();
            lemma_find_own(schema@, i as int);
            lemma_field_in_record(schema@, i as int);
        }
        let raw: u64 = match get_raw(schema, data, m.offset, m.type_) {
            Ok(raw) => raw,
            Err(e) => {
                return Err(e);
            },
        };
        let value: DynamicType = match DynamicType::from_raw(m.type_, raw) {
            Ok(v) => v,
            Err(e) => {
                return Err(e);
            },
        };
        out.push(SerializedField { name: m.name.clone(), value });
        i += 1;
    }
    assert(field_views(out@) =~= spec_record_fields(schema@, data@));
    Ok(out)
}

/// Encodes one record of the type `schema` describes: the type's name, and a
/// payload with one entry per field, in declaration order, each tagged with
/// its type.
#[verifier::rlimit(40)]
pub fn encode(schema: &ecs_struct_desc_t, data: &[u8]) -> (r: Result<
    SerializedComponent,
    ErrorKind,
>)
    requires
        schema.wf(),
    ensures
        match r {
            Ok(c) => record_error(schema@, data@.len()) is None && c@ == spec_encode(
                schema@,
                data@,
            ),
            Err(e) => record_error(schema@, data@.len()) == Some(e),
        },
{
    let fields = match read_fields(schema, data) {
        Ok(f) => f,
        Err(e) => {
            return Err(e);
        },
    };
    proof {
        schema.lemma_wf();
        lemma_record_fields_encodable(schema@, data@);
    }
    match encode_fields(&fields) {
        Ok(payload) => Ok(SerializedComponent { name: schema.name().clone(), payload }),
        Err(e) => Err(e),
    }
}

/// Applies decoded fields to a record in the order given. Either every field
/// is applied, or the record is left exactly as it was.
#[verifier::rlimit(40)]
pub fn apply(schema: &ecs_struct_desc_t, data: &mut Vec<u8>, fields: &Vec<SerializedField>) -> (r:
    Result<(), ErrorKind>)
    requires
        schema.wf(),
    ensures
        match spec_apply(schema@, old(data)@, field_views(fields@)) {
            Ok(d) => r is Ok && final(data)@ == d,
            Err(e) => r == Err::<(), ErrorKind>(e) && final(data)@ == old(data)@,
        },
{
    let ghost views = field_views(fields@);
    let mut work: Vec<u8> = copy_bytes(data.as_slice());
    let mut i: usize = 0;
    proof {
        assert(views.skip(0) =~= views);
    }
    while i < fields.len()
        invariant
            i <= fields.len(),
            schema.wf(),
            views == field_views(fields@),
            spec_apply(schema@, data@, views) == spec_apply(schema@, work@, views.skip(i as int)),
        decreases fields.len() - i,
    {
        let f = &fields[i];
        proof {
            assert(views.skip(i as int)[0] == f@);
            assert(views.skip(i as int).drop_first() =~= views.skip(i + 1));
        }
        match schema.find_member(f.name.as_str()) {
            None => {},
            Some(k) => {
                let m = schema.member(k);
                match set_raw(schema, &mut work, m.offset, f.value.type_(), f.value.raw()) {
                    Ok(()) => {},
                    Err(e) => {
                        return Err(e);
                    },
                }
            },
        }
        i += 1;
    }
    *data = work;
    Ok(())
}

/// One component in decoded form: the name of its type and its fields.
#[derive(Debug, PartialEq, Eq)]
pub struct DecodedComponent {
    pub name: String,
    pub fields: Vec<SerializedField>,
}

/// What a decoded component is, as a mathematical value.
pub struct DecodedView {
    pub name: Seq<char>,
    pub fields: Seq<FieldView>,
}

impl View for DecodedComponent {
    type V = DecodedView;

    open spec fn view(&self) -> DecodedView {
        DecodedView { name: self.name@, fields: field_views(self.fields@) }
    }
}

/// The views of a list of decoded components.
pub open spec fn decoded_views(components: Seq<DecodedComponent>) -> Seq<DecodedView> {
    Seq::new(components.len(), |i: int| components[i]@)
}

/// The decoded forms of the first `n` serialized components, in order, or the
/// error of the first payload that does not decode.
pub open spec fn spec_decode_all(components: Seq<ComponentView>, n: nat) -> Result<
    Seq<DecodedView>,
    ErrorKind,
>
    decreases n,
{
    if n == 0 {
        Ok(Seq::empty())
    } else {
        match spec_decode_all(components, (n - 1) as nat) {
            Err(e) => Err(e),
            Ok(before) => match spec_decode(components[n - 1].payload) {
                Err(e) => Err(e),
                Ok(fields) => Ok(before.push(DecodedView { name: components[n - 1].name, fields })),
            },
        }
    }
}

/// Once a payload does not decode, decoding more components fails the same way.
proof fn lemma_decode_all_error(components: Seq<ComponentView>, j: nat, n: nat)
    requires
        j <= n,
        spec_decode_all(components, j) is Err,
    ensures
        spec_decode_all(components, n) == spec_decode_all(components, j),
    decreases n - j,
{
    if j < n {
        lemma_decode_all_error(components, j, (n - 1) as nat);
    }
}

/// Decodes every component of a serialized entity, in order, without any
/// schema. The first payload that does not decode decides the error.
#[verifier::rlimit(40)]
pub fn decode_all(components: &Vec<SerializedComponent>) -> (r: Result<
    Vec<DecodedComponent>,
    ErrorKind,
>)
    ensures
        match spec_decode_all(component_views(components@), components@.len()) {
            Ok(ds) => r matches Ok(v) && decoded_views(v@) == ds,
            Err(e) => r matches Err(e2) && e2 == e,
        },
{
    let ghost views = component_views(components@);
    let n: usize = components.len();
    let mut out: Vec<DecodedComponent> = Vec::new();
    let mut i: usize = 0;
    assert(decoded_views(out@) =~= Seq::<DecodedView>::empty());
    while i < n
        invariant
            i <= n,
            n == components@.len(),
            views == component_views(components@),
            spec_decode_all(views, i as nat) == Ok::<Seq<DecodedView>, ErrorKind>(
                decoded_views(out@),
            ),
        decreases n - i,
    {
        let ghost before = decoded_views(out@);
        let c = &components[i];
        assert(views[i as int] == c@);
        match decode(c.payload.as_slice()) {
            Err(e) => {
                proof {
                    assert(spec_decode_all(views, (i + 1) as nat) == Err::<
                        Seq<DecodedView>,
                        ErrorKind,
                    >(e));
                    lemma_decode_all_error(views, (i + 1) as nat, n as nat);
                }
                return Err(e);
            },
            Ok(fields) => {
                let d = DecodedComponent { name: c.name.clone(), fields };
                let ghost dv = d@;
                out.push(d);
                assert(decoded_views(out@) =~= before.push(dv));
            },
        }
        i += 1;
    }
    Ok(out)
}

/// The fields read from a record of a well-formed schema can always be encoded.
pub proof fn lemma_record_fields_encodable(schema: StructView, data: Seq<u8>)
    requires
        schema.wf(),
    ensures
        encode_error(spec_record_fields(schema, data)) is None,
{
    let fields = spec_record_fields(schema, data);
    assert forall|i: int| 0 <= i < fields.len() implies crate::schema::name_fits(
        (#[trigger] fields[i]).name,
    ) by {
        assert(schema.names()[i] == fields[i].name);
    }
}


/// Applying field `k` of a record's own fields to any memory of the record's
/// size succeeds, keeps the size, gives field `k` the source's raw number and
/// leaves every other field as it was.
#[verifier::rlimit(40)]
proof fn lemma_apply_own_field(schema: StructView, src: Seq<u8>, d: Seq<u8>, k: int)
    requires
        schema.wf(),
        schema.all_scalar(),
        src.len() == schema.size(),
        d.len() == schema.size(),
        0 <= k < schema.members.len(),
    ensures
        spec_apply_one(schema, d, spec_record_fields(schema, src)[k]) matches Ok(d1) && d1.len()
            == schema.size() && field_value(schema, d1, k) == field_value(schema, src, k) && (
        forall|i: int|
            0 <= i < schema.members.len() && i != k ==> #[trigger] field_raw(schema, d1, i)
                == field_raw(schema, d, i)),
{
    let f = spec_record_fields(schema, src)[k];
    let m = schema.members[k];
    lemma_find_own(schema, k);
    lemma_field_in_record(schema, k);
    lemma_field_raw_bound(schema, src, k);
    lemma_from_raw_raw(m.type_, field_raw(schema, src, k));
    lemma_raw_round_trip(f.value);
    let raw = f.value.spec_raw();
    assert(f.value.spec_type() == m.type_);
    assert(schema.find(f.name) == Some(k));
    law_set_then_get(schema, d, m.offset, m.type_, raw);
    let d1 = spec_set_raw(schema, d, m.offset, m.type_, raw).unwrap();
    assert(spec_apply_one(schema, d, f) == Ok::<Seq<u8>, ErrorKind>(d1));
    assert(field_raw(schema, d1, k) == raw);
    assert forall|i: int| 0 <= i < schema.members.len() && i != k implies #[trigger] field_raw(
        schema,
        d1,
        i,
    ) == field_raw(schema, d, i) by {
        if i < k {
            crate::schema::lemma_fields_disjoint(schema, i, k);
        } else {
            crate::schema::lemma_fields_disjoint(schema, k, i);
        }
        law_set_keeps_others(schema, d, m.offset, m.type_, raw, i);
    }
}

/// Applying a record's own fields from place `k` on, to any memory of the
/// record's size, succeeds, gives those fields the source's values and leaves
/// the fields before `k` untouched.
#[verifier::rlimit(40)]
proof fn lemma_apply_own_fields(schema: StructView, src: Seq<u8>, d: Seq<u8>, k: int)
    requires
        schema.wf(),
        schema.all_scalar(),
        src.len() == schema.size(),
        d.len() == schema.size(),
        0 <= k <= schema.members.len(),
    ensures
        spec_apply(schema, d, spec_record_fields(schema, src).skip(k)) matches Ok(out) && out.len()
            == schema.size() && (forall|i: int|
            k <= i < schema.members.len() ==> #[trigger] field_value(schema, out, i)
                == field_value(schema, src, i)) && (forall|i: int|
            0 <= i < k ==> #[trigger] field_raw(schema, out, i) == field_raw(schema, d, i)),
    decreases schema.members.len() - k,
{
    let n = schema.members.len() as int;
    let fields = spec_record_fields(schema, src);
    let rest = fields.skip(k);
    if k < n {
        assert(rest[0] == fields[k]);
        assert(rest.drop_first() =~= fields.skip(k + 1));
        lemma_apply_own_field(schema, src, d, k);
        let d1 = spec_apply_one(schema, d, fields[k]).unwrap();
        lemma_apply_own_fields(schema, src, d1, k + 1);
        let out = spec_apply(schema, d1, fields.skip(k + 1)).unwrap();
        assert(spec_apply(schema, d, rest) == Ok::<Seq<u8>, ErrorKind>(out));
        assert(field_raw(schema, out, k) == field_raw(schema, d1, k));
        assert(field_value(schema, out, k) == field_value(schema, src, k));
        assert forall|i: int| 0 <= i < k implies #[trigger] field_raw(schema, out, i) == field_raw(
            schema,
            d,
            i,
        ) by {
            assert(field_raw(schema, out, i) == field_raw(schema, d1, i));
        }
    } else {
        assert(rest.len() == 0);
    }
}

/// Round trip under one schema: encode a record, decode the payload, apply
/// the decoded fields to any record of the same type. The payload decodes to
/// the record's fields, by name, type and value, in declaration order; applying
/// them succeeds and leaves every field of the target with the value that the
/// source has.
#[verifier::rlimit(40)]
pub proof fn law_round_trip(schema: StructView, src: Seq<u8>, dst: Seq<u8>)
    requires
        schema.wf(),
        schema.all_scalar(),
        src.len() == schema.size(),
        dst.len() == schema.size(),
    ensures
        record_error(schema, src.len()) is None,
        spec_decode(spec_encode(schema, src).payload) == Ok::<Seq<FieldView>, ErrorKind>(
            spec_record_fields(schema, src),
        ),
        spec_apply(schema, dst, spec_record_fields(schema, src)) matches Ok(out) && out.len()
            == schema.size() && (forall|i: int|
            0 <= i < schema.members.len() ==> #[trigger] field_value(schema, out, i)
                == field_value(schema, src, i)),
{
    let fields = spec_record_fields(schema, src);
    lemma_record_fields_encodable(schema, src);
    law_wire_round_trip(fields);
    lemma_apply_own_fields(schema, src, dst, 0);
    assert(fields.skip(0) =~= fields);
}

/// Two schemas agree on types when every name they share has the same type
/// in both.
pub open spec fn types_agree(s: StructView, t: StructView) -> bool {
    forall|i: int, j: int|
        0 <= i < s.members.len() && 0 <= j < t.members.len() && (#[trigger] s.members[i]).name == (
        #[trigger] t.members[j]).name ==> s.members[i].type_ == t.members[j].type_
}

/// Applying the fields of a record of schema `s`, from place `k` on, to any
/// memory of a record of schema `t` succeeds when the schemas agree on types.
/// Every field of `t` that shares its name with one of those fields gets that
/// field's value; every other field of `t` keeps its bytes.
#[verifier::rlimit(40)]
proof fn lemma_apply_shared_fields(
    s: StructView,
    t: StructView,
    src: Seq<u8>,
    d: Seq<u8>,
    k: int,
)
    requires
        s.wf(),
        s.all_scalar(),
        t.wf(),
        types_agree(s, t),
        src.len() == s.size(),
        d.len() == t.size(),
        0 <= k <= s.members.len(),
    ensures
        spec_apply(t, d, spec_record_fields(s, src).skip(k)) matches Ok(out) && out.len()
            == t.size() && (forall|i: int, j: int|
            k <= i < s.members.len() && 0 <= j < t.members.len() && s.members[i].name
                == t.members[j].name ==> #[trigger] field_value(t, out, j) == #[trigger] field_value(
                s,
                src,
                i,
            )) && (forall|j: int|
            0 <= j < t.members.len() && (forall|i: int|
                k <= i < s.members.len() ==> (#[trigger] s.members[i]).name != t.members[j].name)
                ==> #[trigger] field_raw(t, out, j) == field_raw(t, d, j)),
    decreases s.members.len() - k,
{
    let n = s.members.len() as int;
    let fields = spec_record_fields(s, src);
    let rest = fields.skip(k);
    if k < n {
        let f = fields[k];
        let m = s.members[k];
        assert(rest[0] == f);
        assert(rest.drop_first() =~= fields.skip(k + 1));
        lemma_field_raw_bound(s, src, k);
        lemma_from_raw_raw(m.type_, field_raw(s, src, k));
        lemma_raw_round_trip(f.value);
        let raw = f.value.spec_raw();
        assert(f.value.spec_type() == m.type_);
        assert(f.name == m.name);
        // later source fields have other names than this one
        assert forall|i: int| k < i < n implies (#[trigger] s.members[i]).name != m.name by {
            assert(s.names()[k] != s.names()[i]);
        }
        match t.find(f.name) {
            None => {
                let d1 = d;
                assert(spec_apply_one(t, d, f) == Ok::<Seq<u8>, ErrorKind>(d1));
                lemma_apply_shared_fields(s, t, src, d1, k + 1);
                let out = spec_apply(t, d1, fields.skip(k + 1)).unwrap();
                assert(spec_apply(t, d, rest) == Ok::<Seq<u8>, ErrorKind>(out));
                assert forall|i: int, j: int|
                    k <= i < n && 0 <= j < t.members.len() && s.members[i].name
                        == t.members[j].name implies #[trigger] field_value(t, out, j)
                    == #[trigger] field_value(s, src, i) by {
                    if i == k {
                        assert(t.members[j].name == f.name);
                        assert(false);
                    }
                }
            },
            Some(j0) => {
                let tm = t.members[j0];
                assert(tm.name == f.name);
                assert(tm.type_ == m.type_);
                lemma_find_own(t, j0);
                lemma_field_in_record(t, j0);
                law_set_then_get(t, d, tm.offset, m.type_, raw);
                let d1 = spec_set_raw(t, d, tm.offset, m.type_, raw).unwrap();
                assert(spec_apply_one(t, d, f) == Ok::<Seq<u8>, ErrorKind>(d1));
                assert(field_raw(t, d1, j0) == raw);
                lemma_apply_shared_fields(s, t, src, d1, k + 1);
                let out = spec_apply(t, d1, fields.skip(k + 1)).unwrap();
                assert(spec_apply(t, d, rest) == Ok::<Seq<u8>, ErrorKind>(out));
                // the target field of this name keeps what this step wrote
                assert(field_raw(t, out, j0) == field_raw(t, d1, j0));
                assert(field_value(t, out, j0) == field_value(s, src, k));
                assert forall|i: int, j: int|
                    k <= i < n && 0 <= j < t.members.len() && s.members[i].name
                        == t.members[j].name implies #[trigger] field_value(t, out, j)
                    == #[trigger] field_value(s, src, i) by {
                    if i == k {
                        if j != j0 {
                            assert(t.names()[j] == t.names()[j0]);
                        }
                    }
                }
                assert forall|j: int|
                    0 <= j < t.members.len() && (forall|i: int|
                        k <= i < n ==> (#[trigger] s.members[i]).name
                            != t.members[j].name) implies #[trigger] field_raw(t, out, j)
                    == field_raw(t, d, j) by {
                    assert(s.members[k].name != t.members[j].name);
                    assert(j != j0);
                    if j < j0 {
                        crate::schema::lemma_fields_disjoint(t, j, j0);
                    } else {
                        crate::schema::lemma_fields_disjoint(t, j0, j);
                    }
                    law_set_keeps_others(t, d, tm.offset, m.type_, raw, j);
                    assert(field_raw(t, out, j) == field_raw(t, d1, j));
                }
            },
        }
    } else {
        assert(rest.len() == 0);
    }
}

/// Round trip across schemas: encode a record of schema `s`, decode the
/// payload, apply the decoded fields to a record of schema `t`. When every
/// name the schemas share has the same type in both, applying succeeds; every
/// field of the target that the source also has gets the source's value, and
/// every field of the target that the source lacks keeps its bytes.
pub proof fn law_shared_fields_copied(s: StructView, t: StructView, src: Seq<u8>, dst: Seq<u8>)
    requires
        s.wf(),
        s.all_scalar(),
        t.wf(),
        types_agree(s, t),
        src.len() == s.size(),
        dst.len() == t.size(),
    ensures
        spec_decode(spec_encode(s, src).payload) == Ok::<Seq<FieldView>, ErrorKind>(
            spec_record_fields(s, src),
        ),
        spec_apply(t, dst, spec_record_fields(s, src)) matches Ok(out) && out.len() == t.size() && (
        forall|i: int, j: int|
            0 <= i < s.members.len() && 0 <= j < t.members.len() && s.members[i].name
                == t.members[j].name ==> #[trigger] field_value(t, out, j) == #[trigger] field_value(
                s,
                src,
                i,
            )) && (forall|j: int|
            0 <= j < t.members.len() && (forall|i: int|
                0 <= i < s.members.len() ==> (#[trigger] s.members[i]).name != t.members[j].name)
                ==> #[trigger] field_raw(t, out, j) == field_raw(t, dst, j)),
{
    let fields = spec_record_fields(s, src);
    lemma_record_fields_encodable(s, src);
    law_wire_round_trip(fields);
    lemma_apply_shared_fields(s, t, src, dst, 0);
    assert(fields.skip(0) =~= fields);
}

/// A decoded value whose type disagrees with the type of the field of its
/// name is refused with `TypeMismatch`.
pub proof fn law_type_mismatch_refused(schema: StructView, data: Seq<u8>, f: FieldView, j: int)
    requires
        schema.wf(),
        0 <= j < schema.members.len(),
        schema.members[j].name == f.name,
        schema.members[j].type_ != f.value.spec_type(),
    ensures
        spec_apply_one(schema, data, f) == Err::<Seq<u8>, ErrorKind>(ErrorKind::TypeMismatch),
{
    lemma_find_own(schema, j);
}

/// Applying decoded fields keeps the length of the record.
pub proof fn lemma_apply_keeps_len(schema: StructView, data: Seq<u8>, fields: Seq<FieldView>)
    requires
        schema.wf(),
        spec_apply(schema, data, fields) is Ok,
    ensures
        spec_apply(schema, data, fields).unwrap().len() == data.len(),
    decreases fields.len(),
{
    if fields.len() > 0 {
        let f = fields[0];
        let d1 = spec_apply_one(schema, data, f).unwrap();
        match schema.find(f.name) {
            None => {},
            Some(i) => {
                lemma_splice(
                    data,
                    schema.members[i].offset as int,
                    crate::bytes::le_bytes(f.value.spec_raw() as nat, f.value.spec_type().spec_width()),
                );
            },
        }
        lemma_apply_keeps_len(schema, d1, fields.drop_first());
    }
}

/// A decoded field whose name the schema does not have changes nothing.
pub proof fn law_unknown_field_ignored(schema: StructView, data: Seq<u8>, f: FieldView)
    requires
        forall|i: int| 0 <= i < schema.members.len() ==> schema.members[i].name != f.name,
    ensures
        spec_apply_one(schema, data, f) == Ok::<Seq<u8>, ErrorKind>(data),
{
}

/// A schema field that no decoded field names keeps its value.
#[verifier::rlimit(40)]
pub proof fn law_absent_field_kept(
    schema: StructView,
    data: Seq<u8>,
    fields: Seq<FieldView>,
    j: int,
)
    requires
        schema.wf(),
        data.len() == schema.size(),
        0 <= j < schema.members.len(),
        forall|i: int| 0 <= i < fields.len() ==> (#[trigger] fields[i]).name != schema.members[j].name,
        spec_apply(schema, data, fields) is Ok,
    ensures
        field_raw(schema, spec_apply(schema, data, fields).unwrap(), j) == field_raw(
            schema,
            data,
            j,
        ),
        spec_apply(schema, data, fields).unwrap().len() == data.len(),
    decreases fields.len(),
{
    if fields.len() > 0 {
        let f = fields[0];
        let d1 = spec_apply_one(schema, data, f).unwrap();
        let tail = fields.drop_first();
        assert forall|i: int| 0 <= i < tail.len() implies (#[trigger] tail[i]).name
            != schema.members[j].name by {
            assert(tail[i] == fields[i + 1]);
        }
        match schema.find(f.name) {
            None => {},
            Some(i) => {
                let m = schema.members[i];
                assert(m.name == f.name);
                assert(i != j);
                if i < j {
                    crate::schema::lemma_fields_disjoint(schema, i, j);
                } else {
                    crate::schema::lemma_fields_disjoint(schema, j, i);
                }
                law_set_keeps_others(
                    schema,
                    data,
                    m.offset,
                    f.value.spec_type(),
                    f.value.spec_raw(),
                    j,
                );
                lemma_field_in_record(schema, i);
                lemma_splice(
                    data,
                    m.offset as int,
                    crate::bytes::le_bytes(f.value.spec_raw() as nat, f.value.spec_type().spec_width()),
                );
            },
        }
        law_absent_field_kept(schema, d1, tail, j);
    }
}

} // verus!
