//! The salted distance between two peers.

use vstd::prelude::*;

use crate::hash::{sha256, sha256_of};
use crate::peer::PeerId;
use crate::salt::Salt;

verus! {

/// The little-endian number of four bytes.
pub open spec fn le_u32(b0: u8, b1: u8, b2: u8, b3: u8) -> u32 {
    (b0 as int + 256 * (b1 as int) + 65536 * (b2 as int) + 16777216 * (b3 as int)) as u32
}

/// The distance from `local` to `remote` under `salt`: the first four bytes of
/// `local` XOR SHA-256(`remote` ++ `salt`), read little-endian.
pub open spec fn distance_of(local: Seq<u8>, remote: Seq<u8>, salt: Seq<u8>) -> u32 {
    let h = sha256_of(remote + salt);
    le_u32(local[0] ^ h[0], local[1] ^ h[1], local[2] ^ h[2], local[3] ^ h[3])
}

/// The salted distance from `local` to `remote`.
pub fn salt_distance(local: &PeerId, remote: &PeerId, salt: &Salt) -> (r: u32)
    ensures
        r == distance_of(local@, remote@, salt.bytes@),
{
    let mut data: Vec<u8> = Vec::new();
    let mut i: usize = 0;
    while i < 32
        invariant
            0 <= i <= 32,
            remote@.len() == 32,
            data@ == remote@.subrange(0, i as int),
        decreases 32 - i,
    {
        data.push(remote.bytes[i]);
        i = i + 1;
    }
    let mut j: usize = 0;
    while j < 20
        invariant
            0 <= j <= 20,
            remote@.len() == 32,
            salt.bytes@.len() == 20,
            data@ == remote@ + salt.bytes@.subrange(0, j as int),
        decreases 20 - j,
    {
        data.push(salt.bytes[j]);
        j = j + 1;
    }
    assert(salt.bytes@.subrange(0, 20) =~= salt.bytes@);
    assert(remote@.subrange(0, 32) =~= remote@);
    let h = sha256(&data);
    let b0 = local.bytes[0] ^ h[0];
    let b1 = local.bytes[1] ^ h[1];
    let b2 = local.bytes[2] ^ h[2];
    let b3 = local.bytes[3] ^ h[3];
    (b0 as u32) + 256 * (b1 as u32) + 65536 * (b2 as u32) + 16777216 * (b3 as u32)
}

/// Two calls with the same arguments give the same distance.
pub proof fn lemma_distance_deterministic(
    local: PeerId,
    remote: PeerId,
    salt: Salt,
    first: u32,
    second: u32,
)
    requires
        first == distance_of(local@, remote@, salt.bytes@),
        second == distance_of(local@, remote@, salt.bytes@),
    ensures
        first == second,
{
}

} // verus!
