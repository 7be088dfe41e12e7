//! The MessagePack form of the block offsets that a segment's metadata holds.
use vstd::prelude::*;

verus! {

/// The big-endian bytes of the low `n` bytes of `x`.
pub open spec fn be_bytes(x: nat, n: nat) -> Seq<u8>
    decreases n,
{
    if n == 0 {
        Seq::empty()
    } else {
        be_bytes(x / 256, (n - 1) as nat).push((x % 256) as u8)
    }
}

/// An unsigned integer in its shortest MessagePack form: a positive fixint below 128,
/// else the `uint 8`, `uint 16`, `uint 32` or `uint 64` marker and the big-endian value.
pub open spec fn msgpack_uint(v: u64) -> Seq<u8> {
    if v < 128 {
        seq![v as u8]
    } else if v < 0x100 {
        seq![0xccu8] + be_bytes(v as nat, 1)
    } else if v < 0x1_0000 {
        seq![0xcdu8] + be_bytes(v as nat, 2)
    } else if v < 0x1_0000_0000 {
        seq![0xceu8] + be_bytes(v as nat, 4)
    } else {
        seq![0xcfu8] + be_bytes(v as nat, 8)
    }
}

/// An array header for `n` items: a fixarray below 16, else the `array 16` or `array 32`
/// marker and the big-endian length (the length is taken as a `u32`).
pub open spec fn msgpack_array_header(n: nat) -> Seq<u8> {
    let len = n % 0x1_0000_0000;
    if len < 16 {
        seq![(0x90 + len) as u8]
    } else if len < 0x1_0000 {
        seq![0xdcu8] + be_bytes(len, 2)
    } else {
        seq![0xddu8] + be_bytes(len, 4)
    }
}

/// The items of an array, each in its shortest form, one after the other.
pub open spec fn msgpack_uints(values: Seq<u64>) -> Seq<u8>
    decreases values.len(),
{
    if values.len() == 0 {
        Seq::empty()
    } else {
        msgpack_uints(values.drop_last()) + msgpack_uint(values.last())
    }
}

/// The MessagePack encoding of an array of `u64`, as `rmp_serde::to_vec` writes it: the
/// array header, then each value in its shortest unsigned form.
pub closed spec fn msgpack_u64s(values: Seq<u64>) -> Seq<u8> {
    msgpack_array_header(values.len()) + msgpack_uints(values)
}

/// The array of `u64` that `rmp_serde::from_slice` reads from the bytes, or `None` where it
/// reports an error.
pub uninterp spec fn msgpack_u64s_decoded(bytes: Seq<u8>) -> Option<Seq<u64>>;

/// Calls `rmp_serde::to_vec` on an array of `u64`. The result is a function of the values
/// alone, named `msgpack_u64s`. Serialising integers into a growable vector has no error
/// path in `rmp_serde` (its writer into a `Vec` never fails), so the call always succeeds.
/// The array is written as an array header and each value in its shortest unsigned form,
/// and `rmp_serde::from_slice` reads such bytes back as the same values. The header takes
/// the length as a `u32`, so that holds for fewer than 2^32 values.
#[verifier::external_body]
pub(crate) fn encode_u64s(values: &Vec<u64>) -> (r: Vec<u8>)
    ensures
        r@ == msgpack_u64s(values@),
        values@.len() < 0x1_0000_0000 ==> msgpack_u64s_decoded(r@) == Some(values@),
{
    rmp_serde::to_vec(values).unwrap()
}

/// Calls `rmp_serde::from_slice` to read an array of `u64`; `None` where it reports an
/// error. The result is a function of the bytes alone, named `msgpack_u64s_decoded`.
#[verifier::external_body]
pub(crate) fn decode_u64s(bytes: &[u8]) -> (r: Option<Vec<u64>>)
    ensures
        match r {
            Some(v) => msgpack_u64s_decoded(bytes@) == Some(v@),
            None => msgpack_u64s_decoded(bytes@) is None,
        },
{
    rmp_serde::from_slice::<Vec<u64>>(bytes).ok()
}

} // verus!
