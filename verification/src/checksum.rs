use vstd::prelude::*;

verus! {

/// One bit of the reflected CRC-32 (IEEE) division, by the polynomial `0xEDB88320`.
pub open spec fn crc32_bit(c: u32) -> u32 {
    if c & 1u32 == 1u32 {
        (c >> 1u32) ^ 0xEDB88320u32
    } else {
        c >> 1u32
    }
}

/// The register after one byte: the byte is folded in, then eight bits are divided out.
pub open spec fn crc32_byte(c: u32, b: u8) -> u32 {
    let x = c ^ (b as u32);
    crc32_bit(crc32_bit(crc32_bit(crc32_bit(crc32_bit(crc32_bit(crc32_bit(crc32_bit(x))))))))
}

/// The register after the bytes, one after the other.
pub open spec fn crc32_register(c: u32, bytes: Seq<u8>) -> u32
    decreases bytes.len(),
{
    if bytes.len() == 0 {
        c
    } else {
        crc32_register(crc32_byte(c, bytes[0]), bytes.drop_first())
    }
}

/// The CRC-32 (IEEE) checksum of a byte sequence, as `crc32fast::hash` computes it: the
/// register starts with every bit set, and the result has every bit flipped.
pub closed spec fn crc32(bytes: Seq<u8>) -> u32 {
    crc32_register(0xFFFF_FFFFu32, bytes) ^ 0xFFFF_FFFFu32
}

/// Calls `crc32fast::hash`, which returns the CRC-32 checksum of the bytes it is given;
/// the result is a function of those bytes alone, and is named `crc32`.
#[verifier::external_body]
pub(crate) fn crc32_hash(bytes: &[u8]) -> (r: u32)
    ensures
        r == crc32(bytes@),
{
    crc32fast::hash(bytes)
}

/// The bytes of two equally long sequences, combined by exclusive or.
pub open spec fn xor_bytes(a: Seq<u8>, b: Seq<u8>) -> Seq<u8> {
    Seq::new(a.len(), |i: int| a[i] ^ b[i])
}

proof fn lemma_crc32_bit_linear(x: u32, y: u32)
    ensures
        crc32_bit(x ^ y) == crc32_bit(x) ^ crc32_bit(y),
{
    assert(crc32_bit(x ^ y) == crc32_bit(x) ^ crc32_bit(y)) by (bit_vector);
}

proof fn lemma_crc32_byte_linear(c1: u32, c2: u32, b1: u8, b2: u8)
    ensures
        crc32_byte(c1 ^ c2, b1 ^ b2) == crc32_byte(c1, b1) ^ crc32_byte(c2, b2),
{
    let x = c1 ^ (b1 as u32);
    let y = c2 ^ (b2 as u32);
    assert((c1 ^ c2) ^ ((b1 ^ b2) as u32) == x ^ y) by (bit_vector)
        requires
            x == c1 ^ (b1 as u32),
            y == c2 ^ (b2 as u32),
    ;
    lemma_crc32_bit_linear(x, y);
    lemma_crc32_bit_linear(crc32_bit(x), crc32_bit(y));
    lemma_crc32_bit_linear(crc32_bit(crc32_bit(x)), crc32_bit(crc32_bit(y)));
    lemma_crc32_bit_linear(crc32_bit(crc32_bit(crc32_bit(x))), crc32_bit(crc32_bit(crc32_bit(y))));
    lemma_crc32_bit_linear(
        crc32_bit(crc32_bit(crc32_bit(crc32_bit(x)))),
        crc32_bit(crc32_bit(crc32_bit(crc32_bit(y)))),
    );
    lemma_crc32_bit_linear(
        crc32_bit(crc32_bit(crc32_bit(crc32_bit(crc32_bit(x))))),
        crc32_bit(crc32_bit(crc32_bit(crc32_bit(crc32_bit(y))))),
    );
    lemma_crc32_bit_linear(
        crc32_bit(crc32_bit(crc32_bit(crc32_bit(crc32_bit(crc32_bit(x)))))),
        crc32_bit(crc32_bit(crc32_bit(crc32_bit(crc32_bit(crc32_bit(y)))))),
    );
    lemma_crc32_bit_linear(
        crc32_bit(crc32_bit(crc32_bit(crc32_bit(crc32_bit(crc32_bit(crc32_bit(x))))))),
        crc32_bit(crc32_bit(crc32_bit(crc32_bit(crc32_bit(crc32_bit(crc32_bit(y))))))),
    );
}

proof fn lemma_crc32_byte_nonzero(c: u32, b: u8)
    ensures
        c != 0 ==> crc32_byte(c, 0) != 0,
        b != 0 ==> crc32_byte(0, b) != 0,
        crc32_byte(0, 0) == 0,
{
    assert(c != 0 ==> crc32_byte(c, 0) != 0) by (bit_vector);
    assert(b != 0 ==> crc32_byte(0, b) != 0) by (bit_vector);
    assert(crc32_byte(0, 0) == 0) by (bit_vector);
}

proof fn lemma_crc32_register_linear(c1: u32, c2: u32, a: Seq<u8>, b: Seq<u8>)
    requires
        a.len() == b.len(),
    ensures
        crc32_register(c1 ^ c2, xor_bytes(a, b)) == crc32_register(c1, a) ^ crc32_register(c2, b),
    decreases a.len(),
{
    if a.len() > 0 {
        lemma_crc32_byte_linear(c1, c2, a[0], b[0]);
        assert(xor_bytes(a, b)[0] == a[0] ^ b[0]);
        assert(xor_bytes(a, b).drop_first() =~= xor_bytes(a.drop_first(), b.drop_first()));
        lemma_crc32_register_linear(crc32_byte(c1, a[0]), crc32_byte(c2, b[0]), a.drop_first(), b.drop_first());
    }
}

/// A register that is not zero stays so through zero bytes, and one that is zero stays
/// zero.
proof fn lemma_crc32_register_zeros(c: u32, z: Seq<u8>)
    requires
        forall|j: int| 0 <= j < z.len() ==> z[j] == 0,
    ensures
        (crc32_register(c, z) == 0) == (c == 0),
    decreases z.len(),
{
    if z.len() > 0 {
        lemma_crc32_byte_nonzero(c, 0);
        assert(z[0] == 0);
        lemma_crc32_register_zeros(crc32_byte(c, z[0]), z.drop_first());
    }
}

proof fn lemma_crc32_register_one_byte(c: u32, e: Seq<u8>, i: int)
    requires
        c == 0,
        0 <= i < e.len(),
        e[i] != 0,
        forall|j: int| 0 <= j < e.len() && j != i ==> e[j] == 0,
    ensures
        crc32_register(c, e) != 0,
    decreases e.len(),
{
    lemma_crc32_byte_nonzero(c, e[0]);
    if i == 0 {
        lemma_crc32_register_zeros(crc32_byte(c, e[0]), e.drop_first());
    } else {
        assert(e[0] == 0);
        lemma_crc32_register_one_byte(crc32_byte(c, e[0]), e.drop_first(), i - 1);
    }
}

/// Changing one byte of a sequence changes its CRC-32 checksum.
pub proof fn lemma_crc32_detects_byte_change(d: Seq<u8>, i: int, b: u8)
    requires
        0 <= i < d.len(),
        b != d[i],
    ensures
        crc32(d.update(i, b)) != crc32(d),
{
    let d2 = d.update(i, b);
    let f = 0xFFFF_FFFFu32;
    lemma_crc32_register_linear(f, f, d, d2);
    assert(f ^ f == 0u32) by (bit_vector);
    let e = xor_bytes(d, d2);
    assert forall|j: int| 0 <= j < e.len() && j != i implies e[j] == 0 by {
        assert(d2[j] == d[j]);
        let x = d[j];
        assert(x ^ x == 0u8) by (bit_vector);
    }
    assert(e[i] != 0) by {
        let x = d[i];
        assert(x != b ==> x ^ b != 0u8) by (bit_vector);
    }
    lemma_crc32_register_one_byte(0, e, i);
    let r1 = crc32_register(f, d);
    let r2 = crc32_register(f, d2);
    assert(r1 ^ r2 != 0);
    assert(r1 ^ r2 != 0u32 ==> (r1 ^ f) != (r2 ^ f)) by (bit_vector);
}

} // verus!
