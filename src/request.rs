//! Correlation of outgoing peering requests with their responses.

use vstd::prelude::*;

use crate::local::Local;
use crate::messages::{encode_request, message_hash, message_hash_of, MessageType, PeeringRequest};
use crate::peer::PeerId;

verus! {

/// How long a request or drop request stays valid, in seconds.
pub const REQUEST_EXPIRATION_SECS: i64 = 20;

/// How long to wait for a response, in seconds.
pub const RESPONSE_TIMEOUT_SECS: i64 = 1;

/// Whether a message sent at `timestamp` is expired at `now` under `window`:
/// it is older than the window allows.
pub open spec fn request_expired(timestamp: i64, now: i64, window: i64) -> bool {
    (timestamp as int) < (now as int) - (window as int)
}

/// Whether a message sent at `timestamp` is expired at `now`.
pub fn is_expired(timestamp: i64, now: i64, window: i64) -> (r: bool)
    ensures
        r == request_expired(timestamp, now, window),
{
    (timestamp as i128) < (now as i128) - (window as i128)
}

/// An outstanding request to one peer.
#[derive(Clone, Copy, Debug, PartialEq, Eq)]
pub struct PendingRequest {
    pub peer_id: PeerId,
    /// Hash of the request as it was sent.
    pub request_hash: [u8; 32],
    pub issue_time: i64,
    /// Whether a waiter wants the response handed on.
    pub notify: bool,
}

/// No peer has two entries.
pub open spec fn distinct_peers(s: Seq<PendingRequest>) -> bool {
    forall|i: int, j: int| 0 <= i < j < s.len() ==> s[i].peer_id@ != s[j].peer_id@
}

/// The entry for `id` in `s`, if any.
pub open spec fn entry_in(s: Seq<PendingRequest>, id: Seq<u8>) -> Option<PendingRequest> {
    if exists|i: int| 0 <= i < s.len() && (#[trigger] s[i]).peer_id@ == id {
        let i = choose|i: int| 0 <= i < s.len() && (#[trigger] s[i]).peer_id@ == id;
        Some(s[i])
    } else {
        None
    }
}

proof fn lemma_entry_at(s: Seq<PendingRequest>, i: int)
    requires
        distinct_peers(s),
        0 <= i < s.len(),
    ensures
        entry_in(s, s[i].peer_id@) == Some(s[i]),
{
    let id = s[i].peer_id@;
    assert(s[i].peer_id@ == id);
    let k = choose|k: int| 0 <= k < s.len() && (#[trigger] s[k]).peer_id@ == id;
    if k != i {
        if k < i {
            assert(s[k].peer_id@ != s[i].peer_id@);
        } else {
            assert(s[i].peer_id@ != s[k].peer_id@);
        }
    }
}

/// Pending requests, at most one per peer.
pub struct RequestManager {
    pending: Vec<PendingRequest>,
}

impl RequestManager {
    pub closed spec fn entries(&self) -> Seq<PendingRequest> {
        self.pending@
    }

    pub open spec fn wf(&self) -> bool {
        distinct_peers(self.entries())
    }

    /// The pending request for `id`, if any.
    pub open spec fn entry(&self, id: Seq<u8>) -> Option<PendingRequest> {
        entry_in(self.entries(), id)
    }

    pub fn new() -> (r: RequestManager)
        ensures
            r.wf(),
            forall|id: Seq<u8>| r.entry(id) is None,
    {
        RequestManager { pending: Vec::new() }
    }

    /// Number of pending requests.
    pub fn len(&self) -> (r: usize)
        ensures
            r == self.entries().len(),
    {
        self.pending.len()
    }

    /// Whether a request to `id` is pending.
    pub fn contains(&self, id: &PeerId) -> (r: bool)
        requires
            self.wf(),
        ensures
            r == (self.entry(id@) is Some),
    {
        let mut i: usize = 0;
        while i < self.pending.len()
            invariant
                0 <= i <= self.pending@.len(),
                forall|j: int| 0 <= j < i ==> self.pending@[j].peer_id@ != id@,
            decreases self.pending@.len() - i,
        {
            if self.pending[i].peer_id.same_as(id) {
                return true;
            }
            i = i + 1;
        }
        false
    }

    /// The pending request for `id`, left in place.
    pub fn get(&self, id: &PeerId) -> (r: Option<PendingRequest>)
        requires
            self.wf(),
        ensures
            r == self.entry(id@),
    {
        let mut i: usize = 0;
        while i < self.pending.len()
            invariant
                0 <= i <= self.pending@.len(),
                distinct_peers(self.pending@),
                forall|j: int| 0 <= j < i ==> self.pending@[j].peer_id@ != id@,
            decreases self.pending@.len() - i,
        {
            if self.pending[i].peer_id.same_as(id) {
                proof {
                    lemma_entry_at(self.pending@, i as int);
                }
                return Some(self.pending[i]);
            }
            i = i + 1;
        }
        None
    }

    /// Takes out the pending request for `id`: on a response and on a timeout.
    pub fn remove_request(&mut self, id: &PeerId) -> (r: Option<PendingRequest>)
        requires
            old(self).wf(),
        ensures
            final(self).wf(),
            r == old(self).entry(id@),
            final(self).entry(id@) is None,
            forall|x: Seq<u8>| x != id@ ==> #[trigger] final(self).entry(x) == old(self).entry(x),
    {
        let mut i: usize = 0;
        while i < self.pending.len()
            invariant
                0 <= i <= self.pending@.len(),
                self.pending@ == old(self).pending@,
                distinct_peers(self.pending@),
                forall|j: int| 0 <= j < i ==> self.pending@[j].peer_id@ != id@,
            decreases self.pending@.len() - i,
        {
            if self.pending[i].peer_id.same_as(id) {
                let ghost s = self.pending@;
                let p = self.pending.remove(i);
                proof {
                    lemma_entry_at(s, i as int);
                    let t = self.pending@;
                    assert(t == s.remove(i as int));
                    assert forall|a: int, b: int| 0 <= a < b < t.len() implies
                        t[a].peer_id@ != t[b].peer_id@ by {
                        let a2 = if a < i { a } else { a + 1 };
                        let b2 = if b < i { b } else { b + 1 };
                        assert(t[a] == s[a2]);
                        assert(t[b] == s[b2]);
                    }
                    if exists|k: int| 0 <= k < t.len() && (#[trigger] t[k]).peer_id@ == id@ {
                        let k = choose|k: int| 0 <= k < t.len() && (#[trigger] t[k]).peer_id@ == id@;
                        let k2 = if k < i { k } else { k + 1 };
                        assert(t[k] == s[k2]);
                        if k2 < i {
                            assert(s[k2].peer_id@ != s[i as int].peer_id@);
                        } else {
                            assert(s[i as int].peer_id@ != s[k2].peer_id@);
                        }
                    }
                    assert forall|x: Seq<u8>| x != id@ implies #[trigger] entry_in(t, x) == entry_in(s, x) by {
                        if exists|k: int| 0 <= k < t.len() && (#[trigger] t[k]).peer_id@ == x {
                            let k = choose|k: int| 0 <= k < t.len() && (#[trigger] t[k]).peer_id@ == x;
                            let k2 = if k < i { k } else { k + 1 };
                            assert(t[k] == s[k2]);
                            lemma_entry_at(t, k);
                            lemma_entry_at(s, k2);
                        } else if exists|k: int| 0 <= k < s.len() && (#[trigger] s[k]).peer_id@ == x {
                            let k = choose|k: int| 0 <= k < s.len() && (#[trigger] s[k]).peer_id@ == x;
                            if k < i {
                                assert(t[k] == s[k]);
                            } else {
                                assert(k != i);
                                assert(t[k - 1] == s[k]);
                            }
                        }
                    }
                }
                return Some(p);
            }
            i = i + 1;
        }
        None
    }

    /// Records `p` as the pending request for its peer, replacing any earlier one.
    fn put(&mut self, p: PendingRequest)
        requires
            old(self).wf(),
        ensures
            final(self).wf(),
            final(self).entry(p.peer_id@) == Some(p),
            forall|x: Seq<u8>| x != p.peer_id@ ==> #[trigger] final(self).entry(x) == old(self).entry(x),
    {
        let _ = self.remove_request(&p.peer_id);
        let ghost mid = *self;
        let ghost s = self.pending@;
        self.pending.push(p);
        proof {
            let t = self.pending@;
            assert(t == s.push(p));
            assert(!(exists|k: int| 0 <= k < s.len() && (#[trigger] s[k]).peer_id@ == p.peer_id@));
            assert forall|a: int, b: int| 0 <= a < b < t.len() implies t[a].peer_id@ != t[b].peer_id@ by {
                assert(t[a] == s[a]);
                if b < s.len() {
                    assert(t[b] == s[b]);
                } else {
                    assert(s[a].peer_id@ == s[a].peer_id@);
                }
            }
            lemma_entry_at(t, s.len() as int);
            assert forall|x: Seq<u8>| x != p.peer_id@ implies #[trigger] entry_in(t, x) == old(self).entry(x) by {
                if exists|k: int| 0 <= k < t.len() && (#[trigger] t[k]).peer_id@ == x {
                    let k = choose|k: int| 0 <= k < t.len() && (#[trigger] t[k]).peer_id@ == x;
                    assert(k < s.len());
                    assert(t[k] == s[k]);
                    lemma_entry_at(t, k);
                    lemma_entry_at(s, k);
                } else if exists|k: int| 0 <= k < s.len() && (#[trigger] s[k]).peer_id@ == x {
                    let k = choose|k: int| 0 <= k < s.len() && (#[trigger] s[k]).peer_id@ == x;
                    assert(t[k] == s[k]);
                }
                assert(mid.entry(x) == old(self).entry(x));
            }
        }
    }

    /// Builds a peering request stamped `now` that carries the local public
    /// salt, records it as pending for `peer_id`, and returns it with its bytes.
    pub fn create_peering_request(&mut self, peer_id: PeerId, notify: bool, local: &Local, now: i64) -> (r: (
        PeeringRequest,
        Vec<u8>,
    ))
        requires
            old(self).wf(),
        ensures
            final(self).wf(),
            r.0 == (PeeringRequest { timestamp: now, salt: local.public_salt }),
            r.1@ == encode_request(r.0),
            final(self).entry(peer_id@) matches Some(p) && p.peer_id == peer_id && p.issue_time == now
                && p.notify == notify && p.request_hash@ == message_hash_of(MessageType::PeeringRequest, r.1@),
            forall|x: Seq<u8>| x != peer_id@ ==> #[trigger] final(self).entry(x) == old(self).entry(x),
    {
        let req = PeeringRequest::new(now, local.public_salt);
        let bytes = req.to_bytes();
        let request_hash = message_hash(MessageType::PeeringRequest, &bytes);
        self.put(PendingRequest { peer_id, request_hash, issue_time: now, notify });
        (req, bytes)
    }
}

} // verus!
