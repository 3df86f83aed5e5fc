use integer_encoding::VarInt;
use vstd::arithmetic::power2::pow2;
use vstd::prelude::*;

verus! {

/// The length of the LEB128 varint that starts at byte `i` of `b`: the bytes
/// up to and including the first one below 128, within the first ten.
pub open spec fn leb_len(b: Seq<u8>, i: nat) -> Option<nat>
    decreases 10 - i,
{
    if i >= 10 || i >= b.len() {
        None
    } else if b[i as int] < 128 {
        Some(i + 1)
    } else {
        leb_len(b, i + 1)
    }
}

/// The number that the first `n` bytes of `b` stand for in LEB128: seven
/// bits per byte, least significant group first.
pub open spec fn leb_value(b: Seq<u8>, n: nat) -> nat
    decreases n,
{
    if n == 0 {
        0
    } else {
        leb_value(b, (n - 1) as nat) + ((b[n - 1] % 128) as nat) * pow2((7 * (n - 1)) as nat)
    }
}

/// What the LEB128 prefix of `b` decodes to, kept to 64 bits, and the number
/// of bytes it takes; nothing where no byte below 128 comes within ten.
#[verifier::opaque]
pub open spec fn varint_of(b: Seq<u8>) -> Option<(u64, usize)> {
    match leb_len(b, 0) {
        Some(n) => Some(((leb_value(b, n) % 0x1_0000_0000_0000_0000) as u64, n as usize)),
        None => None,
    }
}

/// The LEB128 bytes of `v`: seven bits per byte, least significant first,
/// with the high bit set on every byte but the last.
pub open spec fn leb_bytes(v: u64) -> Seq<u8>
    decreases v,
{
    if v <= 127 {
        seq![v as u8]
    } else {
        seq![((v % 128) + 128) as u8] + leb_bytes(v / 128)
    }
}

/// Relies on integer_encoding's `u64::decode_var`: decodes the varint at the
/// front of `b`, which takes at least one byte and no more than `b` holds.
#[verifier::external_body]
pub(crate) fn decode_varint(b: &[u8]) -> (r: Option<(u64, usize)>)
    ensures
        r == varint_of(b@),
        r matches Some((_, n)) ==> 0 < n <= b@.len(),
{
    u64::decode_var(b)
}

} // verus!
