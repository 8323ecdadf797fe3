//! The one outside computation the system leans on: the BLAKE2b-256 digest
//! that keys every name, commitment and content id.
//!
//! The digest itself is named, not restated: `blake2x256_of` stands for
//! whatever the hash returns, and every contract that mentions a hash speaks
//! through that name.

use crate::ids::{AccountId, Hash32};
use vstd::prelude::*;
use vstd::string::StringSliceAdditionalSpecFns;

verus! {

/// The 32-byte BLAKE2b digest of a byte string, as the host's hash
/// primitive computes it.
pub uninterp spec fn blake2x256_of(input: Seq<u8>) -> Seq<u8>;

/// Relies on `ink_env::hash_bytes::<Blake2x256>`: the 32-byte BLAKE2b-256
/// digest of the input, a function of the input bytes alone.
#[verifier::external_body]
pub(crate) fn blake2x256(input: &[u8]) -> (r: Hash32)
    ensures
        r@ == blake2x256_of(input@),
{
    let mut out: [u8; 32] = [0; 32];
    ink_env::hash_bytes::<ink_env::hash::Blake2x256>(input, &mut out);
    out
}

/// The hash under which a name is recorded.
pub open spec fn spec_name_hash(name: Seq<u8>) -> Seq<u8> {
    blake2x256_of(name)
}

/// A secret, big-endian.
pub open spec fn spec_u32_be_bytes(x: u32) -> Seq<u8> {
    seq![(x >> 24) as u8, (x >> 16) as u8, (x >> 8) as u8, x as u8]
}

/// What a commitment binds together: the name, the would-be owner's raw
/// bytes, and the secret.
pub open spec fn spec_preimage(name: Seq<u8>, owner: Seq<u8>, secret: u32) -> Seq<u8> {
    name + owner + spec_u32_be_bytes(secret)
}

/// The commitment hash for a future registration.
pub open spec fn spec_commitment(name: Seq<u8>, owner: Seq<u8>, secret: u32) -> Seq<u8> {
    blake2x256_of(spec_preimage(name, owner, secret))
}

/// Hashes a name's bytes.
pub fn name_hash(name: &str) -> (r: Hash32)
    ensures
        r@ == spec_name_hash(name.spec_bytes()),
{
    blake2x256(name.as_bytes())
}

/// Hashes the commitment preimage built from a registration's arguments.
pub fn commitment_hash(name: &str, owner: &AccountId, secret: u32) -> (r: Hash32)
    ensures
        r@ == spec_commitment(name.spec_bytes(), owner@, secret),
{
    let bs = name.as_bytes();
    let n = bs.len();
    let mut pre: Vec<u8> = Vec::new();
    let mut i: usize = 0;
    while i < n
        invariant
            n == bs@.len(),
            0 <= i <= n,
            pre@ == bs@.take(i as int),
        decreases n - i,
    {
        pre.push(bs[i]);
        proof {
            assert(pre@ =~= bs@.take(i as int + 1));
        }
        i = i + 1;
    }
    proof {
        assert(pre@ =~= bs@);
    }
    let mut j: usize = 0;
    while j < 32
        invariant
            0 <= j <= 32,
            pre@ == bs@ + owner@.take(j as int),
        decreases 32 - j,
    {
        pre.push(owner[j]);
        proof {
            assert(pre@ =~= bs@ + owner@.take(j as int + 1));
        }
        j = j + 1;
    }
    proof {
        assert(owner@.take(32) =~= owner@);
    }
    pre.push((secret >> 24) as u8);
    pre.push((secret >> 16) as u8);
    pre.push((secret >> 8) as u8);
    pre.push(secret as u8);
    proof {
        assert(pre@ =~= spec_preimage(name.spec_bytes(), owner@, secret));
    }
    blake2x256(pre.as_slice())
}

} // verus!
