//! Salts: random values with an expiration time.

use vstd::prelude::*;

verus! {

/// Number of random bytes in a salt.
pub const SALT_BYTES: usize = 20;

/// How long a salt lives, in seconds.
pub const SALT_LIFETIME_SECS: i64 = 7200;

/// A random value with an expiration time (unix seconds).
#[derive(Clone, Copy, Debug, PartialEq, Eq)]
pub struct Salt {
    pub bytes: [u8; 20],
    pub expiration: i64,
}

/// Whether a salt that expires at `expiration` is expired at `now`.
pub open spec fn salt_expired(expiration: i64, now: i64) -> bool {
    now > expiration
}

/// `lifetime` seconds after `now`, saturating at the largest timestamp.
pub open spec fn expiration_after(now: i64, lifetime: i64) -> i64 {
    if now + lifetime > i64::MAX {
        i64::MAX
    } else {
        (now + lifetime) as i64
    }
}

/// Relies on `rand::random`: twenty bytes drawn from the thread-local generator.
#[verifier::external_body]
fn random_salt_bytes() -> (r: [u8; 20]) {
    rand::random()
}

impl Salt {
    /// A fresh random salt that expires `lifetime` seconds after `now`, or at
    /// the last representable second when that lies beyond it.
    pub fn new(lifetime: i64, now: i64) -> (r: Salt)
        requires
            0 <= lifetime,
        ensures
            r.expiration == expiration_after(now, lifetime),
    {
        let expiration = if now > i64::MAX - lifetime {
            i64::MAX
        } else {
            now + lifetime
        };
        Salt { bytes: random_salt_bytes(), expiration }
    }

    /// A salt made of the given bytes and expiration.
    pub fn from_parts(bytes: [u8; 20], expiration: i64) -> (r: Salt)
        ensures
            r.bytes == bytes,
            r.expiration == expiration,
    {
        Salt { bytes, expiration }
    }

    /// Whether this salt is expired at `now`.
    pub fn is_expired(&self, now: i64) -> (r: bool)
        ensures
            r == salt_expired(self.expiration, now),
    {
        now > self.expiration
    }
}

} // verus!
