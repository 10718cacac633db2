//! A 32-bit variant of the DJB2 string hash.
use vstd::prelude::*;
use vstd::string::StringSliceAdditionalSpecFns;

verus! {

/// DJB2 over `bytes`: start at 5381, then for each byte multiply by 33 and
/// add the byte, modulo 2^32.
pub open spec fn spec_djb2(bytes: Seq<u8>) -> u32
    decreases bytes.len(),
{
    if bytes.len() == 0 {
        5381
    } else {
        ((33 * spec_djb2(bytes.drop_last()) + bytes.last()) % 0x1_0000_0000) as u32
    }
}

/// DJB2 continued from the hash `h` over `bytes`.
pub open spec fn djb2_from(h: u32, bytes: Seq<u8>) -> u32
    decreases bytes.len(),
{
    if bytes.len() == 0 {
        h
    } else {
        ((33 * djb2_from(h, bytes.drop_last()) + bytes.last()) % 0x1_0000_0000) as u32
    }
}

/// Hashing a concatenation continues from the hash of its first part: the
/// hash of `s + t` is that of `s`, carried on over the bytes of `t`. With
/// the hash 5381 of the empty input this fixes the hash of every input.
pub proof fn law_djb2_concat(s: Seq<u8>, t: Seq<u8>)
    ensures
        spec_djb2(s + t) == djb2_from(spec_djb2(s), t),
        spec_djb2(Seq::<u8>::empty()) == 5381,
    decreases t.len(),
{
    if t.len() == 0 {
        assert(s + t =~= s);
    } else {
        law_djb2_concat(s, t.drop_last());
        assert((s + t).drop_last() =~= s + t.drop_last());
        assert((s + t).last() == t.last());
    }
}

proof fn lemma_djb2_step(h: u32, b: u8)
    ensures
        (((h << 5u32) as int + h) % 0x1_0000_0000 + b) % 0x1_0000_0000 == (33 * h + b)
            % 0x1_0000_0000,
{
    let s: u32 = h << 5u32;
    assert(s as int == (32 * h) % 0x1_0000_0000) by (bit_vector)
        requires
            s == h << 5u32,
    ;
    assert((((32 * h) % 0x1_0000_0000 + h) % 0x1_0000_0000 + b) % 0x1_0000_0000 == (33 * h + b)
        % 0x1_0000_0000) by (nonlinear_arith);
}

/// Variation on the DJB2 hash algorithm limited to a 32-bit integer.
pub fn djb2_u32(input: &str) -> (hash: u32)
    ensures
        hash == spec_djb2(input.spec_bytes()),
{
    let bytes = input.as_bytes();
    let mut hash: u32 = 5381;
    let mut i: usize = 0;
    while i < bytes.len()
        invariant
            0 <= i <= bytes@.len(),
            bytes@ == input.spec_bytes(),
            hash == spec_djb2(bytes@.take(i as int)),
        decreases bytes@.len() - i,
    {
        let byte = bytes[i];
        proof {
            lemma_djb2_step(hash, byte);
            assert(bytes@.take(i + 1).drop_last() =~= bytes@.take(i as int));
        }
        // hash = (hash * 33) + byte
        hash = hash.wrapping_shl(5).wrapping_add(hash).wrapping_add(byte as u32);
        i = i + 1;
    }
    assert(bytes@.take(bytes@.len() as int) =~= bytes@);
    hash
}

} // verus!
