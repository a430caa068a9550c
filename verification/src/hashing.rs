use vstd::prelude::*;

verus! {

use vstd::string::StringSliceAdditionalSpecFns;

/// The 64-bit xxHash digest, at seed 42, of a byte string; fixed by the
/// bytes alone.
pub uninterp spec fn xxhash64_seed42(data: Seq<u8>) -> u64;

/// Relies on twox_hash::XxHash64: hashing a byte string at a fixed seed is a
/// pure function of the bytes, reproducible across runs and machines.
#[verifier::external_body]
fn hash_bytes(data: &[u8]) -> (r: u64)
    ensures
        r == xxhash64_seed42(data@),
{
    let mut hasher = twox_hash::XxHash64::with_seed(42);
    std::hash::Hasher::write(&mut hasher, data);
    std::hash::Hasher::finish(&hasher)
}

/// Hashes the UTF-8 form of a string at the fixed cache seed.
pub fn hash_str(s: &str) -> (r: u64)
    ensures
        r == xxhash64_seed42(s.spec_bytes()),
{
    hash_bytes(s.as_bytes())
}

} // verus!
