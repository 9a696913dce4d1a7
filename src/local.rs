//! The local node's identity and current salts.

use vstd::prelude::*;

use crate::peer::PeerId;
use crate::salt::Salt;

verus! {

/// The local peer: its identifier, the private salt that ranks inbound
/// candidates and the public salt that ranks outbound candidates.
#[derive(Clone, Copy, Debug)]
pub struct Local {
    pub peer_id: PeerId,
    pub private_salt: Salt,
    pub public_salt: Salt,
}

impl Local {
    pub fn new(peer_id: PeerId, private_salt: Salt, public_salt: Salt) -> (r: Local)
        ensures
            r.peer_id == peer_id,
            r.private_salt == private_salt,
            r.public_salt == public_salt,
    {
        Local { peer_id, private_salt, public_salt }
    }

    /// The salt that ranks candidates of one direction.
    pub open spec fn salt_for_spec(&self, inbound: bool) -> Salt {
        if inbound {
            self.private_salt
        } else {
            self.public_salt
        }
    }

    /// The salt that ranks candidates of one direction.
    pub fn salt_for(&self, inbound: bool) -> (r: Salt)
        ensures
            r == self.salt_for_spec(inbound),
    {
        if inbound {
            self.private_salt
        } else {
            self.public_salt
        }
    }
}

} // verus!
