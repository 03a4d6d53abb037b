//! The wire form of a whole entity: every component framed one after the
//! other behind a count.
//!
//! An entity is a four-byte little-endian count of components, followed by
//! the components in order. A component is the name of its type, as a
//! two-byte little-endian length and that many bytes of UTF-8, followed by
//! its payload. A payload says how many entries it has, so a component ends
//! where its last entry ends.
use vstd::prelude::*;
use crate::bytes::{le_bytes, le_value, lemma_le_round_trip, lemma_pow256, read_le};
use crate::codec::{component_views, ComponentView, SerializedComponent};
use crate::error::ErrorKind;
use crate::schema::{name_fits, MAX_NAME_BYTES};
use crate::text::copy_bytes;
use crate::wire::{
    decode_at, decode_name, lemma_parse_fields_extend, lemma_parse_name_encoded, parse_fields,
    parse_name, push_all, push_le, push_name, spec_decode, spec_encode_name,
};

verus! {

/// The bytes of one component: its name, then its payload.
pub open spec fn spec_frame_component(c: ComponentView) -> Seq<u8> {
    spec_encode_name(c.name) + c.payload
}

/// The bytes of the components, one after the other.
pub open spec fn spec_frame_components(cs: Seq<ComponentView>) -> Seq<u8>
    decreases cs.len(),
{
    if cs.len() == 0 {
        Seq::empty()
    } else {
        spec_frame_component(cs[0]) + spec_frame_components(cs.drop_first())
    }
}

/// The bytes of an entity: the count of its components, then the components.
pub open spec fn spec_frame_entity(cs: Seq<ComponentView>) -> Seq<u8> {
    le_bytes(cs.len(), 4) + spec_frame_components(cs)
}

/// Why an entity cannot be framed, if it cannot: `CapacityExceeded` for more
/// components than the count can express, else `InvalidDefinition` if a type
/// name is too long for its length prefix.
pub open spec fn frame_error(cs: Seq<ComponentView>) -> Option<ErrorKind> {
    if cs.len() > u32::MAX {
        Some(ErrorKind::CapacityExceeded)
    } else if !(forall|i: int| 0 <= i < cs.len() ==> name_fits((#[trigger] cs[i]).name)) {
        Some(ErrorKind::InvalidDefinition)
    } else {
        None
    }
}

/// Reads one component from the front of `bytes`: the component and the
/// number of bytes it took.
pub open spec fn parse_component(bytes: Seq<u8>) -> Result<(ComponentView, int), ErrorKind> {
    match parse_name(bytes) {
        Err(e) => Err(e),
        Ok((name, k)) => match parse_fields(bytes.skip(k)) {
            Err(e) => Err(e),
            Ok((_, k2)) => Ok((ComponentView { name, payload: bytes.subrange(k, k + k2) }, k + k2)),
        },
    }
}

/// Reads `count` components from the front of `bytes`: the components in
/// order and the number of bytes they took. The first that fails decides the
/// error.
pub open spec fn parse_components(bytes: Seq<u8>, count: nat) -> Result<
    (Seq<ComponentView>, int),
    ErrorKind,
>
    decreases count,
{
    if count == 0 {
        Ok((Seq::empty(), 0))
    } else {
        match parse_component(bytes) {
            Err(e) => Err(e),
            Ok((c, k)) => match parse_components(bytes.skip(k), (count - 1) as nat) {
                Err(e) => Err(e),
                Ok((cs, k2)) => Ok((seq![c] + cs, k + k2)),
            },
        }
    }
}

/// The components that the bytes of an entity carry. Bytes that end before
/// the count does, and bytes left over after the last component, are
/// `MalformedPayload`.
pub open spec fn spec_parse_entity(bytes: Seq<u8>) -> Result<Seq<ComponentView>, ErrorKind> {
    if bytes.len() < 4 {
        Err(ErrorKind::MalformedPayload)
    } else {
        match parse_components(bytes.skip(4), le_value(bytes.subrange(0, 4))) {
            Err(e) => Err(e),
            Ok((cs, k)) => if k + 4 != bytes.len() {
                Err(ErrorKind::MalformedPayload)
            } else {
                Ok(cs)
            },
        }
    }
}

/// The frames of a list with one more component are the frames of the list
/// followed by the frame of that component.
pub proof fn lemma_frame_components_push(cs: Seq<ComponentView>, c: ComponentView)
    ensures
        spec_frame_components(cs.push(c)) == spec_frame_components(cs) + spec_frame_component(c),
    decreases cs.len(),
{
    if cs.len() == 0 {
        let one = cs.push(c);
        assert(one.drop_first() =~= Seq::<ComponentView>::empty());
        assert(one[0] == c);
        assert(spec_frame_components(one.drop_first()) =~= Seq::<u8>::empty());
        assert(spec_frame_components(one) == spec_frame_component(one[0]) + spec_frame_components(
            one.drop_first(),
        ));
        assert(spec_frame_components(cs) =~= Seq::<u8>::empty());
        assert(spec_frame_components(cs.push(c)) =~= spec_frame_components(cs)
            + spec_frame_component(c));
    } else {
        lemma_frame_components_push(cs.drop_first(), c);
        assert(cs.push(c).drop_first() =~= cs.drop_first().push(c));
        assert(cs.push(c)[0] == cs[0]);
        assert(spec_frame_components(cs.push(c)) =~= spec_frame_components(cs)
            + spec_frame_component(c));
    }
}

/// Frames the components of an entity as bytes, in the order given.
#[verifier::rlimit(40)]
pub fn frame_entity(components: &Vec<SerializedComponent>) -> (r: Result<Vec<u8>, ErrorKind>)
    ensures
        match r {
            Ok(bytes) => frame_error(component_views(components@)) is None && bytes@
                == spec_frame_entity(component_views(components@)),
            Err(e) => frame_error(component_views(components@)) == Some(e),
        },
{
    let ghost views = component_views(components@);
    let n: usize = components.len();
    if n > u32::MAX as usize {
        return Err(ErrorKind::CapacityExceeded);
    }
    let mut out: Vec<u8> = Vec::new();
    push_le(&mut out, 4, n as u64);
    let mut i: usize = 0;
    proof {
        assert(views.take(0) =~= Seq::<ComponentView>::empty());
        assert(out@ =~= le_bytes(n as nat, 4) + spec_frame_components(views.take(0)));
    }
    while i < n
        invariant
            i <= n,
            n == components.len(),
            n <= u32::MAX,
            views == component_views(components@),
            forall|k: int| 0 <= k < i ==> name_fits((#[trigger] views[k]).name),
            out@ == le_bytes(n as nat, 4) + spec_frame_components(views.take(i as int)),
        decreases n - i,
    {
        let c = &components[i];
        if c.name.as_str().as_bytes().len() > MAX_NAME_BYTES {
            assert(!name_fits(views[i as int].name));
            return Err(ErrorKind::InvalidDefinition);
        }
        let ghost before = out@;
        push_name(&mut out, c.name.as_str());
        push_all(&mut out, c.payload.as_slice());
        proof {
            assert(out@ =~= before + spec_frame_component(views[i as int]));
            lemma_frame_components_push(views.take(i as int), views[i as int]);
            assert(views.take(i + 1) =~= views.take(i as int).push(views[i as int]));
            assert(out@ =~= le_bytes(n as nat, 4) + spec_frame_components(views.take(i + 1)));
        }
        i += 1;
    }
    assert(views.take(n as int) =~= views);
    Ok(out)
}

/// Reads one component of `bytes` from place `pos` on: the component, and
/// the place after it.
#[verifier::rlimit(40)]
fn parse_component_at(bytes: &[u8], pos: usize) -> (r: Result<
    (SerializedComponent, usize),
    ErrorKind,
>)
    requires
        pos <= bytes@.len(),
    ensures
        match parse_component(bytes@.skip(pos as int)) {
            Ok((c, k)) => r matches Ok((sc, next)) && sc@ == c && next == pos + k && pos
                < next <= bytes@.len(),
            Err(e) => r matches Err(e2) && e2 == e,
        },
{
    let ghost s = bytes@.skip(pos as int);
    let (name, start) = match decode_name(bytes, pos) {
        Ok(p) => p,
        Err(e) => {
            return Err(e);
        },
    };
    proof {
        assert(s.skip(start - pos) =~= bytes@.skip(start as int));
    }
    let end: usize = match decode_at(bytes, start) {
        Ok((_, end)) => end,
        Err(e) => {
            return Err(e);
        },
    };
    let payload: Vec<u8> = copy_bytes(&bytes[start..end]);
    proof {
        assert(s.subrange(start - pos, end - pos) =~= bytes@.subrange(start as int, end as int));
    }
    Ok((SerializedComponent { name, payload }, end))
}

/// The result of reading further components, with the components already
/// read put in front and the bytes they took added.
pub open spec fn after_components(
    done: Seq<ComponentView>,
    taken: int,
    more: Result<(Seq<ComponentView>, int), ErrorKind>,
) -> Result<(Seq<ComponentView>, int), ErrorKind> {
    match more {
        Ok((cs, k)) => Ok((done + cs, taken + k)),
        Err(e) => Err(e),
    }
}

/// Reading components is reading one and then the rest.
proof fn lemma_parse_components_step(
    bytes: Seq<u8>,
    count: nat,
    done: Seq<ComponentView>,
    taken: int,
)
    requires
        count > 0,
    ensures
        match parse_component(bytes) {
            Ok((c, k)) => after_components(done, taken, parse_components(bytes, count))
                == after_components(
                done.push(c),
                taken + k,
                parse_components(bytes.skip(k), (count - 1) as nat),
            ),
            Err(e) => after_components(done, taken, parse_components(bytes, count)) == Err::<
                (Seq<ComponentView>, int),
                ErrorKind,
            >(e),
        },
{
    match parse_component(bytes) {
        Ok((c, k)) => {
            match parse_components(bytes.skip(k), (count - 1) as nat) {
                Ok((cs, k2)) => {
                    assert(done + (seq![c] + cs) =~= done.push(c) + cs);
                },
                Err(_) => {},
            }
        },
        Err(_) => {},
    }
}

/// Reads `count` components of `bytes` from place `pos` on, appends them to
/// `out`, and returns the place after the last one.
#[verifier::rlimit(40)]
fn parse_components_at(bytes: &[u8], pos: usize, count: u32, out: &mut Vec<SerializedComponent>) -> (r:
    Result<usize, ErrorKind>)
    requires
        pos <= bytes@.len(),
    ensures
        match parse_components(bytes@.skip(pos as int), count as nat) {
            Ok((cs, k)) => r matches Ok(next) && next == pos + k && next <= bytes@.len()
                && component_views(final(out)@) == component_views(old(out)@) + cs,
            Err(e) => r matches Err(e2) && e2 == e,
        },
{
    let ghost start_views = component_views(out@);
    let ghost all = bytes@.skip(pos as int);
    let ghost whole = parse_components(all, count as nat);
    let ghost done = Seq::<ComponentView>::empty();
    let mut at: usize = pos;
    let mut left: u32 = count;
    proof {
        assert(all.skip(0) =~= all);
        assert(component_views(out@) =~= start_views + done);
        match whole {
            Ok((cs, k)) => {
                assert(done + cs =~= cs);
            },
            Err(_) => {},
        }
    }
    while left > 0
        invariant
            pos <= at <= bytes@.len(),
            all == bytes@.skip(pos as int),
            whole == parse_components(all, count as nat),
            start_views == component_views(old(out)@),
            component_views(out@) == start_views + done,
            whole == after_components(
                done,
                at - pos,
                parse_components(all.skip(at - pos), left as nat),
            ),
        decreases left,
    {
        let ghost before = component_views(out@);
        let ghost rest = all.skip(at - pos);
        proof {
            assert(rest =~= bytes@.skip(at as int));
            lemma_parse_components_step(rest, left as nat, done, at - pos);
        }
        let (c, next) = match parse_component_at(bytes, at) {
            Ok(p) => p,
            Err(e) => {
                return Err(e);
            },
        };
        let ghost cv = c@;
        out.push(c);
        proof {
            assert(component_views(out@) =~= before.push(cv));
            assert(before.push(cv) =~= start_views + done.push(cv));
            assert(rest.skip(next - at) =~= all.skip(next - pos));
            done = done.push(cv);
        }
        at = next;
        left = left - 1;
    }
    proof {
        assert(done + Seq::<ComponentView>::empty() =~= done);
    }
    Ok(at)
}

/// Parses the bytes of an entity into its components, in the order they were
/// framed. The payloads are checked to be well-formed but are handed on as bytes.
#[verifier::rlimit(40)]
pub fn parse_entity(bytes: &[u8]) -> (r: Result<Vec<SerializedComponent>, ErrorKind>)
    ensures
        match spec_parse_entity(bytes@) {
            Ok(cs) => r matches Ok(v) && component_views(v@) == cs,
            Err(e) => r matches Err(e2) && e2 == e,
        },
{
    if bytes.len() < 4 {
        return Err(ErrorKind::MalformedPayload);
    }
    proof {
        lemma_pow256(4);
    }
    let count: u32 = read_le(bytes, 0, 4) as u32;
    let mut out: Vec<SerializedComponent> = Vec::new();
    assert(component_views(out@) =~= Seq::<ComponentView>::empty());
    match parse_components_at(bytes, 4, count, &mut out) {
        Err(e) => Err(e),
        Ok(next) => {
            proof {
                if let Ok((cs, k)) = parse_components(bytes@.skip(4), count as nat) {
                    assert(Seq::<ComponentView>::empty() + cs =~= cs);
                }
            }
            if next != bytes.len() {
                Err(ErrorKind::MalformedPayload)
            } else {
                Ok(out)
            }
        },
    }
}


/// A framed component followed by any bytes parses as that component, and
/// takes exactly the frame's bytes.
#[verifier::rlimit(40)]
pub proof fn lemma_parse_component_framed(c: ComponentView, rest: Seq<u8>)
    requires
        name_fits(c.name),
        spec_decode(c.payload) is Ok,
    ensures
        parse_component(spec_frame_component(c) + rest) == Ok::<(ComponentView, int), ErrorKind>(
            (c, spec_frame_component(c).len() as int),
        ),
{
    let head = spec_encode_name(c.name);
    let n = head.len() as int;
    let bytes = spec_frame_component(c) + rest;
    assert(bytes =~= head + (c.payload + rest));
    lemma_parse_name_encoded(c.name, c.payload + rest);
    assert(bytes.skip(n) =~= c.payload + rest);
    lemma_parse_fields_extend(c.payload, rest);
    assert(bytes.subrange(n, n + c.payload.len()) =~= c.payload);
}

/// Framed components followed by any bytes parse as those components, and
/// take exactly the frames' bytes.
#[verifier::rlimit(40)]
pub proof fn lemma_parse_components_framed(cs: Seq<ComponentView>, rest: Seq<u8>)
    requires
        forall|i: int|
            0 <= i < cs.len() ==> name_fits((#[trigger] cs[i]).name) && spec_decode(cs[i].payload)
                is Ok,
    ensures
        parse_components(spec_frame_components(cs) + rest, cs.len()) == Ok::<
            (Seq<ComponentView>, int),
            ErrorKind,
        >((cs, spec_frame_components(cs).len() as int)),
    decreases cs.len(),
{
    if cs.len() == 0 {
        assert(cs =~= Seq::<ComponentView>::empty());
    } else {
        let c = cs[0];
        let tail = cs.drop_first();
        let head_bytes = spec_frame_component(c);
        let tail_bytes = spec_frame_components(tail) + rest;
        let bytes = spec_frame_components(cs) + rest;
        assert(bytes =~= head_bytes + tail_bytes);
        lemma_parse_component_framed(c, tail_bytes);
        assert(bytes.skip(head_bytes.len() as int) =~= tail_bytes);
        assert forall|i: int| 0 <= i < tail.len() implies name_fits((#[trigger] tail[i]).name)
            && spec_decode(tail[i].payload) is Ok by {
            assert(tail[i] == cs[i + 1]);
        }
        lemma_parse_components_framed(tail, rest);
        assert(seq![c] + tail =~= cs);
    }
}

/// Parsing what was framed gives the components back: the same names and
/// payloads, in the same order, provided every payload is one that decodes.
pub proof fn law_frame_round_trip(cs: Seq<ComponentView>)
    requires
        frame_error(cs) is None,
        forall|i: int| 0 <= i < cs.len() ==> spec_decode((#[trigger] cs[i]).payload) is Ok,
    ensures
        spec_parse_entity(spec_frame_entity(cs)) == Ok::<Seq<ComponentView>, ErrorKind>(cs),
{
    let bytes = spec_frame_entity(cs);
    lemma_pow256(4);
    lemma_le_round_trip(cs.len(), 4);
    lemma_parse_components_framed(cs, Seq::<u8>::empty());
    assert(bytes.subrange(0, 4) =~= le_bytes(cs.len(), 4));
    assert(bytes.skip(4) =~= spec_frame_components(cs) + Seq::<u8>::empty());
}

} // verus!
