//! The wire form of a component's fields: self-describing bytes that a reader
//! can parse without knowing the schema.
//!
//! A payload is one byte holding the number of entries, at most `MAX_FIELDS`,
//! followed by the entries in order. An entry is the field's name as a two-byte
//! little-endian length and that many bytes of UTF-8, then one byte holding the
//! type tag, then the value in as many little-endian bytes as the type is wide.
use vstd::prelude::*;
use vstd::utf8::{decode_utf8, encode_utf8, encode_utf8_decode_utf8, encode_utf8_valid_utf8, valid_utf8};
use crate::bytes::{le_bytes, le_value, lemma_le_round_trip, lemma_pow256, pow256, read_le};
use crate::error::ErrorKind;
use crate::schema::{name_fits, MAX_FIELDS, MAX_NAME_BYTES};
use crate::text::text_of;
use crate::types::{get_member_type, lemma_tag_round_trip, Type};
use crate::value::{lemma_raw_round_trip, DynamicType};

verus! {

/// One field of a serialized component: the field's name and its typed value.
#[derive(Debug, PartialEq, Eq)]
pub struct SerializedField {
    pub name: String,
    pub value: DynamicType,
}

/// What a serialized field is, as a mathematical value.
pub struct FieldView {
    pub name: Seq<char>,
    pub value: DynamicType,
}

impl View for SerializedField {
    type V = FieldView;

    open spec fn view(&self) -> FieldView {
        FieldView { name: self.name@, value: self.value }
    }
}

impl Clone for SerializedField {
    fn clone(&self) -> (r: Self)
        ensures
            r@ == self@,
    {
        SerializedField { name: self.name.clone(), value: self.value }
    }
}

/// The views of a list of serialized fields.
pub open spec fn field_views(fields: Seq<SerializedField>) -> Seq<FieldView> {
    Seq::new(fields.len(), |i: int| fields[i]@)
}

/// The bytes of a name: its length in two bytes, then its UTF-8 form.
pub open spec fn spec_encode_name(name: Seq<char>) -> Seq<u8> {
    le_bytes(encode_utf8(name).len(), 2) + encode_utf8(name)
}

/// The bytes of one entry.
pub open spec fn spec_encode_field(f: FieldView) -> Seq<u8> {
    spec_encode_name(f.name) + seq![f.value.spec_type().spec_tag()] + le_bytes(
        f.value.spec_raw() as nat,
        f.value.spec_type().spec_width(),
    )
}

/// The bytes of the entries, one after the other.
pub open spec fn spec_encode_entries(fields: Seq<FieldView>) -> Seq<u8>
    decreases fields.len(),
{
    if fields.len() == 0 {
        Seq::empty()
    } else {
        spec_encode_field(fields[0]) + spec_encode_entries(fields.drop_first())
    }
}

/// The payload that carries `fields`.
pub open spec fn spec_encode_fields(fields: Seq<FieldView>) -> Seq<u8> {
    seq![fields.len() as u8] + spec_encode_entries(fields)
}

/// Why a list of fields cannot be encoded, if it cannot: `TooManyFields` for
/// more than `MAX_FIELDS` of them, else `InvalidDefinition` if a name is too
/// long for its length prefix.
pub open spec fn encode_error(fields: Seq<FieldView>) -> Option<ErrorKind> {
    if fields.len() > MAX_FIELDS {
        Some(ErrorKind::TooManyFields)
    } else if !(forall|i: int| 0 <= i < fields.len() ==> name_fits((#[trigger] fields[i]).name)) {
        Some(ErrorKind::InvalidDefinition)
    } else {
        None
    }
}

/// Reads a name from the front of `bytes`: the name and the number of bytes it took.
pub open spec fn parse_name(bytes: Seq<u8>) -> Result<(Seq<char>, int), ErrorKind> {
    if bytes.len() < 2 {
        Err(ErrorKind::MalformedPayload)
    } else {
        let n = le_value(bytes.subrange(0, 2)) as int;
        if bytes.len() < 2 + n || !valid_utf8(bytes.subrange(2, 2 + n)) {
            Err(ErrorKind::MalformedPayload)
        } else {
            Ok((decode_utf8(bytes.subrange(2, 2 + n)), 2 + n))
        }
    }
}

/// Reads one entry from the front of `bytes`: the field and the number of
/// bytes it took. Bytes that end too early or a name that is not UTF-8 are
/// `MalformedPayload`; a tag that names no scalar type is `UnsupportedType`.
pub open spec fn parse_field(bytes: Seq<u8>) -> Result<(FieldView, int), ErrorKind> {
    match parse_name(bytes) {
        Err(e) => Err(e),
        Ok((name, k)) => {
            if bytes.len() < k + 1 {
                Err(ErrorKind::MalformedPayload)
            } else {
                match Type::spec_from_tag(bytes[k]) {
                    None => Err(ErrorKind::UnsupportedType),
                    Some(ty) => {
                        let w = ty.spec_width() as int;
                        if !ty.spec_is_scalar() {
                            Err(ErrorKind::UnsupportedType)
                        } else if bytes.len() < k + 1 + w {
                            Err(ErrorKind::MalformedPayload)
                        } else {
                            let raw = le_value(bytes.subrange(k + 1, k + 1 + w)) as u64;
                            Ok(
                                (
                                    FieldView {
                                        name,
                                        value: DynamicType::spec_from_raw(ty, raw).unwrap(),
                                    },
                                    k + 1 + w,
                                ),
                            )
                        }
                    },
                }
            }
        },
    }
}

/// Reads `count` entries from the front of `bytes`: the fields in order and the
/// number of bytes they took. The first entry that fails decides the error.
pub open spec fn parse_entries(bytes: Seq<u8>, count: nat) -> Result<(Seq<FieldView>, int), ErrorKind>
    decreases count,
{
    if count == 0 {
        Ok((Seq::empty(), 0))
    } else {
        match parse_field(bytes) {
            Err(e) => Err(e),
            Ok((f, k)) => match parse_entries(bytes.skip(k), (count - 1) as nat) {
                Err(e) => Err(e),
                Ok((fs, k2)) => Ok((seq![f] + fs, k + k2)),
            },
        }
    }
}

/// Reads a payload from the front of `bytes`: the fields and the number of
/// bytes they took. A payload without its count byte is `MalformedPayload`; a
/// count above `MAX_FIELDS` is `TooManyFields`.
pub open spec fn parse_fields(bytes: Seq<u8>) -> Result<(Seq<FieldView>, int), ErrorKind> {
    if bytes.len() < 1 {
        Err(ErrorKind::MalformedPayload)
    } else if bytes[0] > MAX_FIELDS {
        Err(ErrorKind::TooManyFields)
    } else {
        match parse_entries(bytes.skip(1), bytes[0] as nat) {
            Err(e) => Err(e),
            Ok((fs, k)) => Ok((fs, k + 1)),
        }
    }
}

/// The fields that a payload carries. Bytes left over after the last entry are
/// `MalformedPayload`.
pub open spec fn spec_decode(payload: Seq<u8>) -> Result<Seq<FieldView>, ErrorKind> {
    match parse_fields(payload) {
        Err(e) => Err(e),
        Ok((fs, k)) => if k != payload.len() {
            Err(ErrorKind::MalformedPayload)
        } else {
            Ok(fs)
        },
    }
}

/// Appends the low `width` bytes of `value` to `out`, least significant first.
pub fn push_le(out: &mut Vec<u8>, width: usize, value: u64)
    requires
        width <= 8,
    ensures
        final(out)@ == old(out)@ + le_bytes(value as nat, width as nat),
{
    let ghost before = out@;
    let ghost bytes = le_bytes(value as nat, width as nat);
    let mut v: u64 = value;
    let mut k: usize = 0;
    proof {
        assert(pow256(0) == 1);
    }
    while k < width
        invariant
            k <= width <= 8,
            bytes == le_bytes(value as nat, width as nat),
            v == value as nat / pow256(k as nat),
            out@ == before + bytes.take(k as int),
        decreases width - k,
    {
        proof {
            lemma_pow256(k as nat);
            vstd::arithmetic::div_mod::lemma_div_denominator(
                value as int,
                pow256(k as nat) as int,
                256,
            );
            assert(pow256((k + 1) as nat) == pow256(k as nat) * 256);
            assert(bytes.take(k + 1) =~= bytes.take(k as int).push(bytes[k as int]));
            assert(before + bytes.take(k + 1) =~= (before + bytes.take(k as int)).push(
                bytes[k as int],
            ));
        }
        out.push((v % 256) as u8);
        v = v / 256;
        k += 1;
    }
    assert(bytes.take(width as int) =~= bytes);
}

/// Appends `bytes` to `out`.
pub fn push_all(out: &mut Vec<u8>, bytes: &[u8])
    ensures
        final(out)@ == old(out)@ + bytes@,
{
    let ghost before = out@;
    let mut i: usize = 0;
    while i < bytes.len()
        invariant
            i <= bytes.len(),
            out@ == before + bytes@.take(i as int),
        decreases bytes.len() - i,
    {
        proof {
            assert(before + bytes@.take(i + 1) =~= (before + bytes@.take(i as int)).push(
                bytes@[i as int],
            ));
        }
        out.push(bytes[i]);
        i += 1;
    }
    assert(bytes@.take(bytes.len() as int) =~= bytes@);
}

/// The entries of a list with one more field are the entries of the list
/// followed by the entry of that field.
pub proof fn lemma_encode_entries_push(fields: Seq<FieldView>, f: FieldView)
    ensures
        spec_encode_entries(fields.push(f)) == spec_encode_entries(fields) + spec_encode_field(f),
    decreases fields.len(),
{
    if fields.len() == 0 {
        let one = fields.push(f);
        assert(one.drop_first() =~= Seq::<FieldView>::empty());
        assert(one[0] == f);
        assert(spec_encode_entries(one.drop_first()) =~= Seq::<u8>::empty());
        assert(spec_encode_entries(one) == spec_encode_field(one[0]) + spec_encode_entries(
            one.drop_first(),
        ));
        assert(spec_encode_entries(fields) =~= Seq::<u8>::empty());
        assert(spec_encode_entries(fields.push(f)) =~= spec_encode_field(f));
        assert(spec_encode_entries(fields) + spec_encode_field(f) =~= spec_encode_field(f));
    } else {
        lemma_encode_entries_push(fields.drop_first(), f);
        assert(fields.push(f).drop_first() =~= fields.drop_first().push(f));
        assert(fields.push(f)[0] == fields[0]);
        assert(spec_encode_entries(fields.push(f)) =~= spec_encode_entries(fields)
            + spec_encode_field(f));
    }
}

/// Encodes a list of fields as a payload, in the order given.
#[verifier::rlimit(40)]
pub fn encode_fields(fields: &Vec<SerializedField>) -> (r: Result<Vec<u8>, ErrorKind>)
    ensures
        match r {
            Ok(bytes) => encode_error(field_views(fields@)) is None && bytes@
                == spec_encode_fields(field_views(fields@)),
            Err(e) => encode_error(field_views(fields@)) == Some(e),
        },
{
    let ghost views = field_views(fields@);
    let n: usize = fields.len();
    if n > MAX_FIELDS {
        return Err(ErrorKind::TooManyFields);
    }
    let mut out: Vec<u8> = Vec::new();
    out.push(n as u8);
    let mut i: usize = 0;
    proof {
        assert(views.take(0) =~= Seq::<FieldView>::empty());
        assert(out@ =~= seq![n as u8] + spec_encode_entries(views.take(0)));
    }
    while i < n
        invariant
            i <= n,
            n == fields.len(),
            n <= MAX_FIELDS,
            views == field_views(fields@),
            forall|k: int| 0 <= k < i ==> name_fits((#[trigger] views[k]).name),
            out@ == seq![n as u8] + spec_encode_entries(views.take(i as int)),
        decreases n - i,
    {
        let f = &fields[i];
        if f.name.as_str().as_bytes().len() > MAX_NAME_BYTES {
            assert(!name_fits(views[i as int].name));
            return Err(ErrorKind::InvalidDefinition);
        }
        let ty: Type = f.value.type_();
        let ghost before = out@;
        push_name(&mut out, f.name.as_str());
        out.push(ty.tag());
        push_le(&mut out, ty.width() as usize, f.value.raw());
        proof {
            assert(out@ =~= before + spec_encode_field(views[i as int]));
            lemma_encode_entries_push(views.take(i as int), views[i as int]);
            assert(views.take(i + 1) =~= views.take(i as int).push(views[i as int]));
            assert(out@ =~= seq![n as u8] + spec_encode_entries(views.take(i + 1)));
        }
        i += 1;
    }
    assert(views.take(n as int) =~= views);
    Ok(out)
}

/// Reads one entry of `payload` from place `pos` on: the field, and the place
/// after it.
#[verifier::rlimit(40)]
fn decode_field(payload: &[u8], pos: usize) -> (r: Result<(SerializedField, usize), ErrorKind>)
    requires
        pos <= payload@.len(),
    ensures
        match parse_field(payload@.skip(pos as int)) {
            Ok((f, k)) => r matches Ok((sf, next)) && sf@ == f && next == pos + k && pos
                <= next <= payload@.len(),
            Err(e) => r matches Err(e2) && e2 == e,
        },
{
    let len: usize = payload.len();
    let ghost s = payload@.skip(pos as int);
    let (name, end) = match decode_name(payload, pos) {
        Ok(p) => p,
        Err(e) => {
            return Err(e);
        },
    };
    let ghost n = end - pos - 2;
    if len - end < 1 {
        return Err(ErrorKind::MalformedPayload);
    }
    let tag: u8 = payload[end];
    assert(s[2 + n] == tag);
    let ty: Type = match get_member_type(tag) {
        Ok(ty) => ty,
        Err(e) => {
            return Err(e);
        },
    };
    if !ty.is_scalar() {
        return Err(ErrorKind::UnsupportedType);
    }
    let w: usize = ty.width() as usize;
    if len - end - 1 < w {
        return Err(ErrorKind::MalformedPayload);
    }
    let raw: u64 = read_le(payload, end + 1, w);
    proof {
        assert(s.subrange(2 + n + 1, 2 + n + 1 + w) =~= payload@.subrange(end + 1, end + 1 + w));
    }
    let value = match DynamicType::from_raw(ty, raw) {
        Ok(v) => v,
        Err(e) => {
            return Err(e);
        },
    };
    Ok((SerializedField { name, value }, end + 1 + w))
}

/// Reads `count` entries of `payload` from place `pos` on, appends them to
/// `out`, and returns the place after the last one.
#[verifier::rlimit(40)]
fn decode_entries(payload: &[u8], pos: usize, count: u8, out: &mut Vec<SerializedField>) -> (r:
    Result<usize, ErrorKind>)
    requires
        pos <= payload@.len(),
    ensures
        match parse_entries(payload@.skip(pos as int), count as nat) {
            Ok((fs, k)) => r matches Ok(next) && next == pos + k && pos <= next <= payload@.len()
                && field_views(final(out)@) == field_views(old(out)@) + fs,
            Err(e) => r matches Err(e2) && e2 == e,
        },
    decreases count,
{
    if count == 0 {
        assert(field_views(out@) + Seq::<FieldView>::empty() =~= field_views(out@));
        return Ok(pos);
    }
    let ghost before = field_views(out@);
    let (f, next) = match decode_field(payload, pos) {
        Ok(p) => p,
        Err(e) => {
            return Err(e);
        },
    };
    let ghost fv = f@;
    out.push(f);
    proof {
        assert(field_views(out@) =~= before.push(fv));
        assert(payload@.skip(pos as int).skip(next - pos) =~= payload@.skip(next as int));
    }
    let r = decode_entries(payload, next, count - 1, out);
    proof {
        if let Ok((fs, k)) = parse_entries(payload@.skip(next as int), (count - 1) as nat) {
            assert(before.push(fv) + fs =~= before + (seq![fv] + fs));
        }
    }
    r
}

/// Reads a payload that starts at place `pos` of `bytes`: its fields, and the
/// place after its last entry.
#[verifier::rlimit(40)]
pub fn decode_at(bytes: &[u8], pos: usize) -> (r: Result<(Vec<SerializedField>, usize), ErrorKind>)
    requires
        pos <= bytes@.len(),
    ensures
        match parse_fields(bytes@.skip(pos as int)) {
            Ok((fs, k)) => r matches Ok((v, next)) && field_views(v@) == fs && next == pos + k
                && pos < next <= bytes@.len(),
            Err(e) => r matches Err(e2) && e2 == e,
        },
{
    if bytes.len() - pos < 1 {
        return Err(ErrorKind::MalformedPayload);
    }
    let count: u8 = bytes[pos];
    assert(bytes@.skip(pos as int)[0] == count);
    if count as usize > MAX_FIELDS {
        return Err(ErrorKind::TooManyFields);
    }
    let mut out: Vec<SerializedField> = Vec::new();
    proof {
        assert(field_views(out@) =~= Seq::<FieldView>::empty());
        assert(bytes@.skip(pos as int).skip(1) =~= bytes@.skip(pos + 1));
    }
    match decode_entries(bytes, pos + 1, count, &mut out) {
        Err(e) => Err(e),
        Ok(next) => {
            proof {
                if let Ok((fs, k)) = parse_entries(bytes@.skip(pos + 1), count as nat) {
                    assert(Seq::<FieldView>::empty() + fs =~= fs);
                }
            }
            Ok((out, next))
        },
    }
}

/// Parses a payload into its fields, in the order they were written, without
/// any schema.
pub fn decode(payload: &[u8]) -> (r: Result<Vec<SerializedField>, ErrorKind>)
    ensures
        match spec_decode(payload@) {
            Ok(fs) => r matches Ok(v) && field_views(v@) == fs,
            Err(e) => r matches Err(e2) && e2 == e,
        },
{
    assert(payload@.skip(0) =~= payload@);
    match decode_at(payload, 0) {
        Err(e) => Err(e),
        Ok((fields, next)) => {
            if next != payload.len() {
                Err(ErrorKind::MalformedPayload)
            } else {
                Ok(fields)
            }
        },
    }
}

/// Reads a name that starts at place `pos` of `bytes`: the name, and the place
/// after it.
#[verifier::rlimit(40)]
pub fn decode_name(bytes: &[u8], pos: usize) -> (r: Result<(String, usize), ErrorKind>)
    requires
        pos <= bytes@.len(),
    ensures
        match parse_name(bytes@.skip(pos as int)) {
            Ok((name, k)) => r matches Ok((s, next)) && s@ == name && next == pos + k && pos
                < next <= bytes@.len(),
            Err(e) => r matches Err(e2) && e2 == e,
        },
{
    let len: usize = bytes.len();
    let ghost s = bytes@.skip(pos as int);
    if len - pos < 2 {
        return Err(ErrorKind::MalformedPayload);
    }
    let n: usize = read_le(bytes, pos, 2) as usize;
    proof {
        lemma_pow256(2);
        assert(s.subrange(0, 2) =~= bytes@.subrange(pos as int, pos + 2));
    }
    if len - pos - 2 < n {
        return Err(ErrorKind::MalformedPayload);
    }
    let start: usize = pos + 2;
    let end: usize = start + n;
    proof {
        assert(s.subrange(2, 2 + n) =~= bytes@.subrange(start as int, end as int));
    }
    match text_of(&bytes[start..end]) {
        Some(name) => Ok((name, end)),
        None => Err(ErrorKind::MalformedPayload),
    }
}

/// Appends a name to `out`: its length in two bytes, then its UTF-8 form.
pub fn push_name(out: &mut Vec<u8>, name: &str)
    requires
        name_fits(name@),
    ensures
        final(out)@ == old(out)@ + spec_encode_name(name@),
{
    let ghost before = out@;
    let bytes = name.as_bytes();
    push_le(out, 2, bytes.len() as u64);
    push_all(out, bytes);
    assert(out@ =~= before + spec_encode_name(name@));
}

/// A name followed by any bytes parses as that name, and takes exactly the
/// name's bytes.
pub proof fn lemma_parse_name_encoded(name: Seq<char>, rest: Seq<u8>)
    requires
        name_fits(name),
    ensures
        parse_name(spec_encode_name(name) + rest) == Ok::<(Seq<char>, int), ErrorKind>(
            (name, spec_encode_name(name).len() as int),
        ),
{
    let utf8 = encode_utf8(name);
    let n = utf8.len() as int;
    let bytes = spec_encode_name(name) + rest;
    lemma_pow256(2);
    lemma_le_round_trip(n as nat, 2);
    encode_utf8_valid_utf8(name);
    encode_utf8_decode_utf8(name);
    assert(bytes.subrange(0, 2) =~= le_bytes(n as nat, 2));
    assert(bytes.subrange(2, 2 + n) =~= utf8);
}

/// A name that parses from some bytes parses the same from those bytes
/// followed by any others, and lies within the bytes.
pub proof fn lemma_parse_name_extend(bytes: Seq<u8>, rest: Seq<u8>)
    requires
        parse_name(bytes) is Ok,
    ensures
        parse_name(bytes + rest) == parse_name(bytes),
        0 < parse_name(bytes).unwrap().1 <= bytes.len(),
{
    let n = le_value(bytes.subrange(0, 2)) as int;
    assert((bytes + rest).subrange(0, 2) =~= bytes.subrange(0, 2));
    assert((bytes + rest).subrange(2, 2 + n) =~= bytes.subrange(2, 2 + n));
}

/// An entry that parses from some bytes parses the same from those bytes
/// followed by any others, and lies within the bytes.
#[verifier::rlimit(40)]
pub proof fn lemma_parse_field_extend(bytes: Seq<u8>, rest: Seq<u8>)
    requires
        parse_field(bytes) is Ok,
    ensures
        parse_field(bytes + rest) == parse_field(bytes),
        0 < parse_field(bytes).unwrap().1 <= bytes.len(),
{
    lemma_parse_name_extend(bytes, rest);
    let k = parse_name(bytes).unwrap().1;
    let ty = Type::spec_from_tag(bytes[k]).unwrap();
    let w = ty.spec_width() as int;
    assert((bytes + rest)[k] == bytes[k]);
    assert((bytes + rest).subrange(k + 1, k + 1 + w) =~= bytes.subrange(k + 1, k + 1 + w));
}

/// Entries that parse from some bytes parse the same from those bytes
/// followed by any others, and lie within the bytes.
#[verifier::rlimit(40)]
pub proof fn lemma_parse_entries_extend(bytes: Seq<u8>, rest: Seq<u8>, count: nat)
    requires
        parse_entries(bytes, count) is Ok,
    ensures
        parse_entries(bytes + rest, count) == parse_entries(bytes, count),
        0 <= parse_entries(bytes, count).unwrap().1 <= bytes.len(),
    decreases count,
{
    if count > 0 {
        lemma_parse_field_extend(bytes, rest);
        let k = parse_field(bytes).unwrap().1;
        assert((bytes + rest).skip(k) =~= bytes.skip(k) + rest);
        lemma_parse_entries_extend(bytes.skip(k), rest, (count - 1) as nat);
    }
}

/// A payload that parses from some bytes parses the same from those bytes
/// followed by any others, and lies within the bytes.
pub proof fn lemma_parse_fields_extend(bytes: Seq<u8>, rest: Seq<u8>)
    requires
        parse_fields(bytes) is Ok,
    ensures
        parse_fields(bytes + rest) == parse_fields(bytes),
        0 < parse_fields(bytes).unwrap().1 <= bytes.len(),
{
    assert((bytes + rest).skip(1) =~= bytes.skip(1) + rest);
    assert((bytes + rest)[0] == bytes[0]);
    lemma_parse_entries_extend(bytes.skip(1), rest, bytes[0] as nat);
}

/// An entry followed by any bytes parses as the field it was written from,
/// and takes exactly the entry's bytes.
#[verifier::rlimit(40)]
pub proof fn lemma_parse_field_encoded(f: FieldView, rest: Seq<u8>)
    requires
        name_fits(f.name),
    ensures
        parse_field(spec_encode_field(f) + rest) == Ok::<(FieldView, int), ErrorKind>(
            (f, spec_encode_field(f).len() as int),
        ),
{
    let utf8 = encode_utf8(f.name);
    let n = utf8.len() as int;
    let ty = f.value.spec_type();
    let w = ty.spec_width() as int;
    let raw = f.value.spec_raw();
    let bytes = spec_encode_field(f) + rest;
    lemma_pow256(2);
    lemma_le_round_trip(n as nat, 2);
    lemma_le_round_trip(raw as nat, w as nat);
    lemma_raw_round_trip(f.value);
    lemma_tag_round_trip(ty);
    encode_utf8_valid_utf8(f.name);
    encode_utf8_decode_utf8(f.name);
    assert(bytes.subrange(0, 2) =~= le_bytes(n as nat, 2));
    assert(bytes.subrange(2, 2 + n) =~= utf8);
    assert(bytes[2 + n] == ty.spec_tag());
    assert(bytes.subrange(2 + n + 1, 2 + n + 1 + w) =~= le_bytes(raw as nat, w as nat));
    assert(spec_encode_field(f).len() == 2 + n + 1 + w);
}

/// The entries of a list of fields followed by any bytes parse as that list,
/// and take exactly the entries' bytes.
#[verifier::rlimit(40)]
pub proof fn lemma_parse_entries_encoded(fields: Seq<FieldView>, rest: Seq<u8>)
    requires
        forall|i: int| 0 <= i < fields.len() ==> name_fits((#[trigger] fields[i]).name),
    ensures
        parse_entries(spec_encode_entries(fields) + rest, fields.len()) == Ok::<
            (Seq<FieldView>, int),
            ErrorKind,
        >((fields, spec_encode_entries(fields).len() as int)),
    decreases fields.len(),
{
    if fields.len() == 0 {
        assert(fields =~= Seq::<FieldView>::empty());
    } else {
        let f = fields[0];
        let tail = fields.drop_first();
        let head_bytes = spec_encode_field(f);
        let tail_bytes = spec_encode_entries(tail) + rest;
        let bytes = spec_encode_entries(fields) + rest;
        assert(bytes =~= head_bytes + tail_bytes);
        lemma_parse_field_encoded(f, tail_bytes);
        assert(bytes.skip(head_bytes.len() as int) =~= tail_bytes);
        assert forall|i: int| 0 <= i < tail.len() implies name_fits((#[trigger] tail[i]).name) by {
            assert(tail[i] == fields[i + 1]);
        }
        lemma_parse_entries_encoded(tail, rest);
        assert(seq![f] + tail =~= fields);
    }
}

/// Decoding what was encoded gives the fields back: the same names, types and
/// values, in the same order.
pub proof fn law_wire_round_trip(fields: Seq<FieldView>)
    requires
        encode_error(fields) is None,
    ensures
        spec_decode(spec_encode_fields(fields)) == Ok::<Seq<FieldView>, ErrorKind>(fields),
{
    let payload = spec_encode_fields(fields);
    lemma_parse_entries_encoded(fields, Seq::<u8>::empty());
    assert(payload.skip(1) =~= spec_encode_entries(fields) + Seq::<u8>::empty());
    assert(payload[0] == fields.len() as u8);
}

} // verus!
