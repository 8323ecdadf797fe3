//! The two kinds of 32-byte identifier that run through the whole system:
//! account ids and hashes (of names, commitments and content).

use vstd::prelude::*;

verus! {

/// An account, as the host chain identifies it: 32 raw bytes.
pub type AccountId = [u8; 32];

/// A 32-byte digest: a hashed name, a commitment, or a content id.
pub type Hash32 = [u8; 32];

/// The unit in which payments, stakes and subscription balances are counted.
pub type Balance = u128;

/// A value transfer the host must perform on the library's behalf. Transfers
/// are handed back, never executed here: the host applies the staged state
/// only once every transfer of the call has succeeded.
#[derive(Clone, Copy, Debug, PartialEq, Eq)]
pub struct Payout {
    pub to: AccountId,
    pub amount: Balance,
}

/// Compares two 32-byte identifiers for equality, byte by byte.
pub fn bytes32_eq(a: &[u8; 32], b: &[u8; 32]) -> (r: bool)
    ensures
        r <==> a@ == b@,
{
    let mut i: usize = 0;
    while i < 32
        invariant
            0 <= i <= 32,
            forall|j: int| 0 <= j < i ==> a@[j] == b@[j],
        decreases 32 - i,
    {
        if a[i] != b[i] {
            assert(a@[i as int] != b@[i as int]);
            return false;
        }
        i = i + 1;
    }
    proof {
        assert(a@ =~= b@);
    }
    true
}

} // verus!
