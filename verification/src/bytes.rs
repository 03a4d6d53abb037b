//! Little-endian numbers in record memory and on the wire.
use vstd::prelude::*;
use vstd::arithmetic::div_mod::{lemma_div_denominator, lemma_mod_breakdown};

verus! {

/// 256 to the power `n`: how many values `n` bytes can hold.
pub open spec fn pow256(n: nat) -> nat
    decreases n,
{
    if n == 0 {
        1
    } else {
        256 * pow256((n - 1) as nat)
    }
}

/// The number that `bytes` spell, least significant byte first.
pub open spec fn le_value(bytes: Seq<u8>) -> nat
    decreases bytes.len(),
{
    if bytes.len() == 0 {
        0
    } else {
        bytes[0] as nat + 256 * le_value(bytes.drop_first())
    }
}

/// The low `width` bytes of `value`, least significant first.
pub open spec fn le_bytes(value: nat, width: nat) -> Seq<u8> {
    Seq::new(width, |k: int| ((value / pow256(k as nat)) % 256) as u8)
}

/// `data` with `bytes` written over it from place `offset` on.
pub open spec fn splice(data: Seq<u8>, offset: int, bytes: Seq<u8>) -> Seq<u8> {
    Seq::new(
        data.len(),
        |i: int|
            if offset <= i < offset + bytes.len() {
                bytes[i - offset]
            } else {
                data[i]
            },
    )
}

/// Powers of 256 are positive and grow; eight bytes hold exactly the `u64` values.
pub proof fn lemma_pow256(n: nat)
    ensures
        pow256(n) >= 1,
        pow256(n + 1) == 256 * pow256(n),
        n <= 8 ==> pow256(n) <= 0x1_0000_0000_0000_0000,
        pow256(1) == 0x100,
        pow256(2) == 0x1_0000,
        pow256(4) == 0x1_0000_0000,
        pow256(8) == 0x1_0000_0000_0000_0000,
    decreases n,
{
    reveal_with_fuel(pow256, 9);
    if n > 0 {
        lemma_pow256((n - 1) as nat);
    }
}

/// `n` bytes spell a number below 256 to the `n`.
pub proof fn lemma_le_value_bound(bytes: Seq<u8>)
    ensures
        le_value(bytes) < pow256(bytes.len()),
    decreases bytes.len(),
{
    if bytes.len() > 0 {
        lemma_le_value_bound(bytes.drop_first());
    }
}

/// Dropping the lowest byte of a number's bytes leaves the bytes of the number
/// divided by 256.
proof fn lemma_le_bytes_tail(value: nat, width: nat)
    requires
        width > 0,
    ensures
        le_bytes(value, width).drop_first() == le_bytes(value / 256, (width - 1) as nat),
        le_bytes(value, width)[0] == (value % 256) as u8,
{
    assert forall|k: int| 0 <= k < width - 1 implies le_bytes(value, width).drop_first()[k]
        == le_bytes(value / 256, (width - 1) as nat)[k] by {
        lemma_pow256(k as nat);
        lemma_div_denominator(value as int, 256, pow256(k as nat) as int);
        assert(pow256((k + 1) as nat) == 256 * pow256(k as nat));
    }
    assert(le_bytes(value, width).drop_first() =~= le_bytes(value / 256, (width - 1) as nat));
    assert(pow256(0) == 1);
    assert(value / 1 == value);
}

/// Reading back the low `width` bytes of a number gives the number modulo 256
/// to the `width`: the number itself when it fits.
#[verifier::rlimit(40)]
pub proof fn lemma_le_round_trip(value: nat, width: nat)
    ensures
        le_bytes(value, width).len() == width,
        le_value(le_bytes(value, width)) == value % pow256(width),
        value < pow256(width) ==> le_value(le_bytes(value, width)) == value,
    decreases width,
{
    lemma_pow256(width);
    if width == 0 {
        assert(value % 1 == 0);
    } else {
        let rest = (width - 1) as nat;
        lemma_le_bytes_tail(value, width);
        lemma_le_round_trip(value / 256, rest);
        lemma_pow256(rest);
        lemma_mod_breakdown(value as int, 256, pow256(rest) as int);
        assert(value % 256 < 256);
        assert(((value % 256) as u8) as nat == value % 256);
        assert(pow256(width) == 256 * pow256(rest));
    }
    if value < pow256(width) {
        vstd::arithmetic::div_mod::lemma_small_mod(value, pow256(width));
    }
}

/// Writing the bytes that a range already holds changes nothing, and writing a
/// range's worth of bytes makes the range read as those bytes.
pub proof fn lemma_splice(data: Seq<u8>, offset: int, bytes: Seq<u8>)
    requires
        0 <= offset,
        offset + bytes.len() <= data.len(),
    ensures
        splice(data, offset, bytes).len() == data.len(),
        splice(data, offset, bytes).subrange(offset, offset + bytes.len()) == bytes,
        forall|a: int, b: int|
            0 <= a <= b <= data.len() && (b <= offset || offset + bytes.len() <= a) ==> (
            #[trigger] splice(data, offset, bytes).subrange(a, b)) == data.subrange(a, b),
{
    assert(splice(data, offset, bytes).subrange(offset, offset + bytes.len()) =~= bytes);
    assert forall|a: int, b: int|
        0 <= a <= b <= data.len() && (b <= offset || offset + bytes.len() <= a) implies (
    #[trigger] splice(data, offset, bytes).subrange(a, b)) == data.subrange(a, b) by {
        assert(splice(data, offset, bytes).subrange(a, b) =~= data.subrange(a, b));
    }
}

/// Reads the `width` bytes of `data` from `offset` on as a little-endian number.
#[verifier::rlimit(40)]
pub fn read_le(data: &[u8], offset: usize, width: usize) -> (r: u64)
    requires
        width <= 8,
        offset + width <= data@.len(),
    ensures
        r == le_value(data@.subrange(offset as int, offset + width)),
        r < pow256(width as nat),
{
    let n: usize = data.len();
    let mut acc: u64 = 0;
    let mut k: usize = width;
    proof {
        assert(data@.subrange(offset + width, offset + width).len() == 0);
        lemma_pow256(0);
    }
    while k > 0
        invariant
            k <= width <= 8,
            offset + width <= n,
            n == data@.len(),
            acc == le_value(data@.subrange(offset + k, offset + width)),
            acc < pow256((width - k) as nat),
        decreases k,
    {
        k -= 1;
        proof {
            let s = data@.subrange(offset + k, offset + width);
            assert(s.drop_first() =~= data@.subrange(offset + k + 1, offset + width));
            assert(s[0] == data@[offset + k]);
            lemma_pow256((width - k - 1) as nat);
            lemma_pow256((width - k) as nat);
        }
        acc = acc * 256 + data[offset + k] as u64;
    }
    acc
}

/// Writes the low `width` bytes of `value` over `data` from `offset` on, least
/// significant first.
#[verifier::rlimit(40)]
pub fn write_le(data: &mut Vec<u8>, offset: usize, width: usize, value: u64)
    requires
        width <= 8,
        offset + width <= old(data)@.len(),
    ensures
        final(data)@ == splice(old(data)@, offset as int, le_bytes(value as nat, width as nat)),
{
    let n: usize = data.len();
    let ghost before = data@;
    let ghost bytes = le_bytes(value as nat, width as nat);
    let mut v: u64 = value;
    let mut k: usize = 0;
    proof {
        assert(pow256(0) == 1);
    }
    while k < width
        invariant
            k <= width <= 8,
            offset + width <= n,
            n == before.len(),
            data@.len() == before.len(),
            bytes == le_bytes(value as nat, width as nat),
            v == value as nat / pow256(k as nat),
            forall|i: int| 0 <= i < offset || offset + k <= i < before.len() ==> data@[i] == before[i],
            forall|j: int| 0 <= j < k ==> data@[offset + j] == bytes[j],
        decreases width - k,
    {
        proof {
            lemma_pow256(k as nat);
            lemma_div_denominator(value as int, pow256(k as nat) as int, 256);
            assert(pow256((k + 1) as nat) == pow256(k as nat) * 256);
        }
        data.set(offset + k, (v % 256) as u8);
        v = v / 256;
        k += 1;
    }
    assert(data@ =~= splice(before, offset as int, bytes));
}

} // verus!
