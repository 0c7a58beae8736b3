//! The FNV-1a hash, 128-bit variant.
use vstd::prelude::*;

verus! {

pub const FNV_128_PRIME: u128 = 309485009821345068724781371;

pub const FNV_128_OFFSET_BASIS: u128 = 144066263297769815596495629667062367629;

/// FNV-1a over `data`: starting from the offset basis, each byte is xored in
/// and the state is multiplied by the FNV prime modulo 2^128.
pub open spec fn spec_fnv1a_128(data: Seq<u8>) -> u128
    decreases data.len(),
{
    if data.len() == 0 {
        FNV_128_OFFSET_BASIS
    } else {
        (spec_fnv1a_128(data.drop_last()) ^ (data.last() as u128)).wrapping_mul(FNV_128_PRIME)
    }
}

/// The 128-bit FNV-1a digest of `data`.
pub fn fnv1a_128(data: &[u8]) -> (hash: u128)
    ensures
        hash == spec_fnv1a_128(data@),
{
    let mut hash: u128 = FNV_128_OFFSET_BASIS;
    let mut i: usize = 0;
    while i < data.len()
        invariant
            i <= data.len(),
            hash == spec_fnv1a_128(data@.take(i as int)),
        decreases data.len() - i,
    {
        hash = hash ^ (data[i] as u128);
        hash = hash.wrapping_mul(FNV_128_PRIME);
        assert(data@.take(i + 1).drop_last() =~= data@.take(i as int));
        i = i + 1;
    }
    assert(data@.take(i as int) =~= data@);
    hash
}

} // verus!
