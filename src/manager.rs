//! The peering protocol: validation of incoming messages and the state
//! transitions they cause. Each step returns the packets to send and the
//! events to publish as a list of actions, which the caller carries out.

use vstd::prelude::*;

use crate::distance::{distance_of, salt_distance};
use crate::filter::NeighborFilter;
use crate::local::Local;
use crate::messages::{
    encode_drop, encode_request, encode_response, message_hash, message_hash_of, DropPeeringRequest,
    MessageType, PeeringRequest, PeeringResponse,
};
use crate::neighbor::{
    admits, admitted, evict_if_full, has_id, lemma_sorted_insert_members, preferred, sorted_insert,
    Direction, Neighbor, Neighborhood,
};
use crate::peer::PeerId;
use crate::request::{request_expired, is_expired, PendingRequest, RequestManager};
use crate::salt::{expiration_after, salt_expired, Salt};
use crate::messages::{lemma_drop_encoding_injective, lemma_request_encoding_injective, lemma_response_encoding_injective};

verus! {

/// Something for the consumers of the engine to learn.
#[derive(Clone, Copy, Debug, PartialEq, Eq)]
pub enum Event {
    /// A peer became an inbound neighbor.
    IncomingPeering { peer_id: PeerId, distance: u32 },
    /// An outbound peering attempt was answered; `status` tells whether a
    /// neighbor was formed.
    OutgoingPeering { peer_id: PeerId, distance: u32, status: bool },
    /// A peering was dropped.
    PeeringDropped { peer_id: PeerId },
    /// The salts were replaced; their expiration times.
    SaltUpdated { public_salt_lifetime: i64, private_salt_lifetime: i64 },
}

/// Work for the caller: a packet to send, an event to publish, or a response
/// to hand to the task that waits for it.
#[derive(Clone, Copy, Debug, PartialEq, Eq)]
pub enum Action {
    SendPeeringResponse { peer_id: PeerId, response: PeeringResponse },
    SendDropRequest { peer_id: PeerId, request: DropPeeringRequest },
    Publish(Event),
    ForwardResponse { peer_id: PeerId, response: PeeringResponse },
}

/// Why an incoming message was not acted on.
#[derive(Clone, Copy, Debug, PartialEq, Eq, Structural)]
pub enum ValidationError {
    RequestExpired,
    NoCorrespondingRequestOrTimeout,
    IncorrectRequestHash,
    PeerNotVerified,
    SaltExpired,
}

/// A drop request to `peer_id` and the event that announces it.
pub open spec fn drop_pair(peer_id: PeerId, now: i64) -> Seq<Action> {
    seq![
        Action::SendDropRequest { peer_id, request: DropPeeringRequest { timestamp: now } },
        Action::Publish(Event::PeeringDropped { peer_id }),
    ]
}

/// Drop requests and events for each of `ids`, in order.
pub open spec fn drop_all(ids: Seq<PeerId>, now: i64) -> Seq<Action>
    decreases ids.len(),
{
    if ids.len() == 0 {
        Seq::empty()
    } else {
        drop_all(ids.drop_last(), now) + drop_pair(ids.last(), now)
    }
}

/// The drop of the furthest member that a full neighborhood loses on admission.
pub open spec fn eviction_actions(s: Seq<Neighbor>, cap: nat, now: i64) -> Seq<Action> {
    if s.len() == cap && s.len() > 0 {
        drop_pair(s.last().peer_id, now)
    } else {
        Seq::empty()
    }
}

/// `new` is `old` without the member `id`, or `old` itself when `id` is absent.
pub open spec fn removed(old: Seq<Neighbor>, id: Seq<u8>, new: Seq<Neighbor>) -> bool {
    if has_id(old, id) {
        exists|i: int| 0 <= i < old.len() && old[i].peer_id@ == id && new == old.remove(i)
    } else {
        new == old
    }
}

/// The response forwarded to a waiting requester, if it asked for one.
pub open spec fn forwarded(pending: PendingRequest, peer_id: PeerId, res: PeeringResponse) -> Seq<Action> {
    if pending.notify {
        seq![Action::ForwardResponse { peer_id, response: res }]
    } else {
        Seq::empty()
    }
}

/// Outcome of checking a peering request: it must be fresh, come from a
/// verified peer and carry an unexpired salt.
pub open spec fn request_check(req: PeeringRequest, verified: bool, now: i64, window: i64) -> Result<
    (),
    ValidationError,
> {
    if request_expired(req.timestamp, now, window) {
        Err(ValidationError::RequestExpired)
    } else if !verified {
        Err(ValidationError::PeerNotVerified)
    } else if salt_expired(req.salt.expiration, now) {
        Err(ValidationError::SaltExpired)
    } else {
        Ok(())
    }
}

/// Outcome of checking a peering response against the pending requests.
pub open spec fn response_check(pending: Option<PendingRequest>, hash: Seq<u8>) -> Result<
    PendingRequest,
    ValidationError,
> {
    match pending {
        None => Err(ValidationError::NoCorrespondingRequestOrTimeout),
        Some(p) => if p.request_hash@ != hash {
            Err(ValidationError::IncorrectRequestHash)
        } else {
            Ok(p)
        },
    }
}

/// Outcome of checking a drop request: it must be fresh.
pub open spec fn drop_check(req: DropPeeringRequest, now: i64, window: i64) -> Result<(), ValidationError> {
    if request_expired(req.timestamp, now, window) {
        Err(ValidationError::RequestExpired)
    } else {
        Ok(())
    }
}

/// Checks a peering request.
pub fn validate_peering_request(req: &PeeringRequest, verified: bool, now: i64, window: i64) -> (r:
    Result<(), ValidationError>)
    ensures
        r == request_check(*req, verified, now, window),
{
    if is_expired(req.timestamp, now, window) {
        Err(ValidationError::RequestExpired)
    } else if !verified {
        Err(ValidationError::PeerNotVerified)
    } else if req.salt.is_expired(now) {
        Err(ValidationError::SaltExpired)
    } else {
        Ok(())
    }
}

/// Checks a peering response. A response that matches the pending request
/// for its sender takes that request out; any other leaves the table as it was.
pub fn validate_peering_response(res: &PeeringResponse, peer_id: &PeerId, requests: &mut RequestManager) -> (r:
    Result<PendingRequest, ValidationError>)
    requires
        old(requests).wf(),
    ensures
        final(requests).wf(),
        r == response_check(old(requests).entry(peer_id@), res.request_hash@),
        r is Ok ==> final(requests).entry(peer_id@) is None,
        r is Ok ==> forall|x: Seq<u8>| x != peer_id@ ==> #[trigger] final(requests).entry(x) == old(
            requests,
        ).entry(x),
        !(r is Ok) ==> *final(requests) == *old(requests),
{
    match requests.get(peer_id) {
        Some(p) => {
            if crate::hash::bytes32_eq(&res.request_hash, &p.request_hash) {
                let _ = requests.remove_request(peer_id);
                Ok(p)
            } else {
                Err(ValidationError::IncorrectRequestHash)
            }
        },
        None => Err(ValidationError::NoCorrespondingRequestOrTimeout),
    }
}

/// Checks a drop request.
pub fn validate_drop_request(req: &DropPeeringRequest, now: i64, window: i64) -> (r: Result<(), ValidationError>)
    ensures
        r == drop_check(*req, now, window),
{
    if is_expired(req.timestamp, now, window) {
        Err(ValidationError::RequestExpired)
    } else {
        Ok(())
    }
}

/// Appends a drop request to `peer_id` and the event that announces it.
pub fn send_drop_peering_request_to_peer(peer_id: PeerId, now: i64, actions: &mut Vec<Action>)
    ensures
        final(actions)@ == old(actions)@ + drop_pair(peer_id, now),
{
    actions.push(Action::SendDropRequest { peer_id, request: DropPeeringRequest { timestamp: now } });
    publish_drop_peering_event(peer_id, actions);
    assert(final(actions)@ =~= old(actions)@ + drop_pair(peer_id, now));
}

/// Appends the event that announces a dropped peering.
pub fn publish_drop_peering_event(peer_id: PeerId, actions: &mut Vec<Action>)
    ensures
        final(actions)@ == old(actions)@.push(Action::Publish(Event::PeeringDropped { peer_id })),
{
    actions.push(Action::Publish(Event::PeeringDropped { peer_id }));
}

/// The event for a peering of one direction, with the peer's distance under
/// that direction's salt.
pub fn publish_peering_event(peer_id: PeerId, inbound: bool, status: bool, local: &Local) -> (r: Action)
    ensures
        r == (if inbound {
            Action::Publish(Event::IncomingPeering {
                peer_id,
                distance: distance_of(local.peer_id@, peer_id@, local.private_salt.bytes@),
            })
        } else {
            Action::Publish(Event::OutgoingPeering {
                peer_id,
                distance: distance_of(local.peer_id@, peer_id@, local.public_salt.bytes@),
                status,
            })
        }),
{
    if inbound {
        let distance = salt_distance(&local.peer_id, &peer_id, &local.private_salt);
        Action::Publish(Event::IncomingPeering { peer_id, distance })
    } else {
        let distance = salt_distance(&local.peer_id, &peer_id, &local.public_salt);
        Action::Publish(Event::OutgoingPeering { peer_id, distance, status })
    }
}

proof fn lemma_evict_subset(s: Seq<Neighbor>, cap: nat)
    ensures
        forall|x: Seq<u8>| has_id(evict_if_full(s, cap), x) ==> has_id(s, x),
        evict_if_full(s, cap).len() < cap || evict_if_full(s, cap).len() == s.len(),
{
    assert forall|x: Seq<u8>| has_id(evict_if_full(s, cap), x) implies has_id(s, x) by {
        let e = evict_if_full(s, cap);
        let k = choose|k: int| 0 <= k < e.len() && (#[trigger] e[k]).peer_id@ == x;
        assert(e[k] == s[k]);
    }
}

/// Makes room in `nbh` if it is full, announcing a drop of the evicted
/// member, then admits `peer_id` at its distance under the direction's salt.
pub fn add_or_replace_neighbor(
    nbh: &mut Neighborhood,
    peer_id: PeerId,
    local: &Local,
    now: i64,
    actions: &mut Vec<Action>,
) -> (r: bool)
    requires
        old(nbh).wf(),
    ensures
        final(nbh).wf(),
        final(nbh).cap() == old(nbh).cap(),
        final(nbh).direction_inbound() == old(nbh).direction_inbound(),
        ({
            let n = Neighbor {
                peer_id,
                distance: distance_of(
                    local.peer_id@,
                    peer_id@,
                    local.salt_for_spec(old(nbh).direction_inbound()).bytes@,
                ),
            };
            &&& r == admits(old(nbh).members(), old(nbh).cap(), n)
            &&& admitted(old(nbh).members(), old(nbh).cap(), n, final(nbh).members())
        }),
        final(actions)@ == old(actions)@ + (if r {
            eviction_actions(old(nbh).members(), old(nbh).cap(), now)
        } else {
            Seq::empty()
        }),
        !r ==> *final(nbh) == *old(nbh),
{
    let salt = local.salt_for(nbh.is_inbound());
    let distance = salt_distance(&local.peer_id, &peer_id, &salt);
    if nbh.contains(&peer_id) || !nbh.is_preferred(distance) {
        assert(actions@ =~= old(actions)@ + Seq::<Action>::empty());
        return false;
    }
    let ghost before = nbh.members();
    let ghost cap = nbh.cap();
    proof {
        lemma_evict_subset(before, cap);
    }
    if let Some(evicted) = nbh.remove_furthest_if_full() {
        send_drop_peering_request_to_peer(evicted, now, actions);
    } else {
        assert(actions@ =~= old(actions)@ + eviction_actions(before, cap, now));
    }
    nbh.insert(Neighbor { peer_id, distance })
}

/// The state that the protocol works on.
pub struct PeeringManager {
    pub local: Local,
    pub inbound: Neighborhood,
    pub outbound: Neighborhood,
    pub filter: NeighborFilter,
    pub requests: RequestManager,
    /// How old a request or drop request may be, in seconds.
    pub request_expiration_secs: i64,
    /// How long a salt lives, in seconds.
    pub salt_lifetime_secs: i64,
}

/// What a step leaves untouched besides neighborhoods and filter.
pub open spec fn same_settings(old: PeeringManager, new: PeeringManager) -> bool {
    &&& new.request_expiration_secs == old.request_expiration_secs
    &&& new.salt_lifetime_secs == old.salt_lifetime_secs
}

impl PeeringManager {
    /// Both neighborhoods well formed and of their direction, the request
    /// table well formed, and no peer in both neighborhoods.
    pub open spec fn wf(&self) -> bool {
        &&& self.inbound.wf()
        &&& self.inbound.direction_inbound()
        &&& self.outbound.wf()
        &&& !self.outbound.direction_inbound()
        &&& self.requests.wf()
        &&& self.salt_lifetime_secs >= 0
        &&& forall|x: Seq<u8>| !(#[trigger] self.inbound.contains_id(x) && self.outbound.contains_id(x))
    }

    /// Distance of `id` under the private salt, which ranks inbound candidates.
    pub open spec fn inbound_distance(&self, id: Seq<u8>) -> u32 {
        distance_of(self.local.peer_id@, id, self.local.private_salt.bytes@)
    }

    /// Distance of `id` under the public salt, which ranks outbound candidates.
    pub open spec fn outbound_distance(&self, id: Seq<u8>) -> u32 {
        distance_of(self.local.peer_id@, id, self.local.public_salt.bytes@)
    }

    pub open spec fn is_neighbor(&self, id: Seq<u8>) -> bool {
        self.inbound.contains_id(id) || self.outbound.contains_id(id)
    }

    /// Whether a valid peering request from `id` leads to a new inbound neighbor.
    pub open spec fn accepts_request(&self, id: Seq<u8>, eligible: bool) -> bool {
        &&& !self.is_neighbor(id)
        &&& eligible
        &&& !self.filter.excludes(id)
        &&& preferred(self.inbound.members(), self.inbound.cap(), self.inbound_distance(id))
    }

    /// The answer to a valid peering request from `id`.
    pub open spec fn request_status(&self, id: Seq<u8>, eligible: bool) -> bool {
        self.is_neighbor(id) || self.accepts_request(id, eligible)
    }
}

/// The effect of handling a valid peering request.
pub open spec fn request_handled(
    old: PeeringManager,
    new: PeeringManager,
    peer_id: PeerId,
    msg_bytes: Seq<u8>,
    eligible: bool,
    now: i64,
    actions: Seq<Action>,
) -> bool {
    let id = peer_id@;
    let d = old.inbound_distance(id);
    &&& same_settings(old, new)
    &&& new.local == old.local
    &&& new.outbound == old.outbound
    &&& new.requests == old.requests
    &&& actions.len() > 0
    &&& actions.last() matches Action::SendPeeringResponse { peer_id: to, response }
        && to == peer_id
        && response.status == old.request_status(id, eligible)
        && response.request_hash@ == message_hash_of(MessageType::PeeringRequest, msg_bytes)
    &&& if old.accepts_request(id, eligible) {
        &&& sorted_insert(
            evict_if_full(old.inbound.members(), old.inbound.cap()),
            Neighbor { peer_id, distance: d },
            new.inbound.members(),
        )
        &&& new.inbound.cap() == old.inbound.cap()
        &&& new.inbound.direction_inbound() == old.inbound.direction_inbound()
        &&& forall|x: Seq<u8>| #[trigger] new.filter.excludes(x) == (old.filter.excludes(x) || x == id)
        &&& actions.drop_last() == eviction_actions(old.inbound.members(), old.inbound.cap(), now)
            + seq![Action::Publish(Event::IncomingPeering { peer_id, distance: d })]
    } else {
        &&& new.inbound == old.inbound
        &&& new.filter == old.filter
        &&& actions.len() == 1
    }
}

/// The effect of handling a validated peering response answering `pending`.
pub open spec fn response_handled(
    old: PeeringManager,
    new: PeeringManager,
    peer_id: PeerId,
    res: PeeringResponse,
    pending: PendingRequest,
    now: i64,
    actions: Seq<Action>,
) -> bool {
    let id = peer_id@;
    let d = old.outbound_distance(id);
    let n = Neighbor { peer_id, distance: d };
    let fwd = forwarded(pending, peer_id, res);
    &&& same_settings(old, new)
    &&& new.local == old.local
    &&& if !res.status {
        &&& new.inbound == old.inbound
        &&& new.outbound == old.outbound
        &&& new.filter == old.filter
        &&& actions == fwd
    } else if old.inbound.contains_id(id) {
        &&& removed(old.inbound.members(), id, new.inbound.members())
        &&& new.inbound.cap() == old.inbound.cap()
        &&& new.inbound.direction_inbound() == old.inbound.direction_inbound()
        &&& new.outbound == old.outbound
        &&& new.filter == old.filter
        &&& actions == seq![Action::Publish(Event::OutgoingPeering { peer_id, distance: d, status: false })]
            + drop_pair(peer_id, now) + fwd
    } else if admits(old.outbound.members(), old.outbound.cap(), n) {
        &&& new.inbound == old.inbound
        &&& admitted(old.outbound.members(), old.outbound.cap(), n, new.outbound.members())
        &&& new.outbound.cap() == old.outbound.cap()
        &&& new.outbound.direction_inbound() == old.outbound.direction_inbound()
        &&& forall|x: Seq<u8>| #[trigger] new.filter.excludes(x) == (old.filter.excludes(x) || x == id)
        &&& actions == seq![Action::Publish(Event::OutgoingPeering { peer_id, distance: d, status: true })]
            + fwd
    } else {
        &&& new.inbound == old.inbound
        &&& new.outbound == old.outbound
        &&& new.filter == old.filter
        &&& actions == fwd
    }
}

/// The effect of handling a valid drop request.
pub open spec fn drop_handled(
    old: PeeringManager,
    new: PeeringManager,
    peer_id: PeerId,
    now: i64,
    actions: Seq<Action>,
) -> bool {
    let id = peer_id@;
    &&& same_settings(old, new)
    &&& new.local == old.local
    &&& new.requests == old.requests
    &&& removed(old.inbound.members(), id, new.inbound.members())
    &&& removed(old.outbound.members(), id, new.outbound.members())
    &&& new.inbound.cap() == old.inbound.cap()
    &&& new.outbound.cap() == old.outbound.cap()
    &&& if old.outbound.contains_id(id) {
        forall|x: Seq<u8>| #[trigger] new.filter.excludes(x) == (old.filter.excludes(x) || x == id)
    } else {
        new.filter == old.filter
    }
    &&& actions == if old.is_neighbor(id) {
        drop_pair(peer_id, now)
    } else {
        Seq::empty()
    }
}

impl PeeringManager {
    /// A manager with empty neighborhoods of the given capacities, an empty
    /// filter and no pending requests.
    pub fn new(
        local: Local,
        inbound_capacity: usize,
        outbound_capacity: usize,
        request_expiration_secs: i64,
        salt_lifetime_secs: i64,
    ) -> (r: PeeringManager)
        requires
            salt_lifetime_secs >= 0,
        ensures
            r.wf(),
            r.local == local,
            r.inbound.members() == Seq::<Neighbor>::empty(),
            r.outbound.members() == Seq::<Neighbor>::empty(),
            r.inbound.cap() == inbound_capacity,
            r.outbound.cap() == outbound_capacity,
            forall|x: Seq<u8>| !r.filter.excludes(x),
            forall|x: Seq<u8>| r.requests.entry(x) is None,
            r.request_expiration_secs == request_expiration_secs,
            r.salt_lifetime_secs == salt_lifetime_secs,
    {
        PeeringManager {
            local,
            inbound: Neighborhood::new(inbound_capacity, Direction::Inbound),
            outbound: Neighborhood::new(outbound_capacity, Direction::Outbound),
            filter: NeighborFilter::new(),
            requests: RequestManager::new(),
            request_expiration_secs,
            salt_lifetime_secs,
        }
    }

    /// Answers a validated peering request from `peer_id` whose bytes were
    /// `msg_bytes`; `eligible` is the host policy's verdict on the peer.
    /// A peer that is already a neighbor is told `true` and nothing changes.
    /// Otherwise it is admitted into the inbound neighborhood if the filter
    /// lets it through and it is preferred, evicting the furthest member of a
    /// full neighborhood. A response is sent in every case.
    pub fn handle_peering_request(&mut self, peer_id: PeerId, msg_bytes: &Vec<u8>, eligible: bool, now: i64) -> (r:
        Vec<Action>)
        requires
            old(self).wf(),
        ensures
            final(self).wf(),
            request_handled(*old(self), *final(self), peer_id, msg_bytes@, eligible, now, r@),
    {
        let mut actions: Vec<Action> = Vec::new();
        let mut status = false;
        if self.inbound.contains(&peer_id) || self.outbound.contains(&peer_id) {
            status = true;
        } else if self.filter.is_valid_neighbor(&peer_id, eligible) {
            let distance = salt_distance(&self.local.peer_id, &peer_id, &self.local.private_salt);
            if self.inbound.is_preferred(distance) {
                let ghost before = self.inbound.members();
                let ghost cap = self.inbound.cap();
                proof {
                    lemma_evict_subset(before, cap);
                }
                let added = add_or_replace_neighbor(&mut self.inbound, peer_id, &self.local, now, &mut actions);
                proof {
                    let n = Neighbor { peer_id, distance };
                    assert(added);
                    lemma_sorted_insert_members(evict_if_full(before, cap), n, self.inbound.members());
                    assert forall|x: Seq<u8>| !(#[trigger] self.inbound.contains_id(x) && self.outbound.contains_id(x)) by {
                        assert(!(old(self).inbound.contains_id(x) && old(self).outbound.contains_id(x)));
                        if self.inbound.contains_id(x) && x != peer_id@ {
                            assert(has_id(evict_if_full(before, cap), x));
                        }
                    }
                }
                if added {
                    status = true;
                    self.filter.add(peer_id);
                    actions.push(publish_peering_event(peer_id, true, status, &self.local));
                    assert(actions@ =~= eviction_actions(before, cap, now) + seq![
                        Action::Publish(Event::IncomingPeering { peer_id, distance }),
                    ]);
                }
            }
        }
        let request_hash = message_hash(MessageType::PeeringRequest, msg_bytes);
        let ghost before_response = actions@;
        actions.push(Action::SendPeeringResponse { peer_id, response: PeeringResponse { request_hash, status } });
        assert(actions@.drop_last() == before_response);
        actions
    }

    /// Acts on a validated peering response from `peer_id` that answers
    /// `pending`. An acceptance from a peer that is an inbound neighbor is
    /// turned into a drop; otherwise the peer joins the outbound neighborhood
    /// if it is admitted there. The response is handed on to a waiting
    /// requester in every case.
    pub fn handle_peering_response(
        &mut self,
        peer_id: PeerId,
        res: PeeringResponse,
        pending: PendingRequest,
        now: i64,
    ) -> (r: Vec<Action>)
        requires
            old(self).wf(),
        ensures
            final(self).wf(),
            response_handled(*old(self), *final(self), peer_id, res, pending, now, r@),
            final(self).requests == old(self).requests,
    {
        let mut actions: Vec<Action> = Vec::new();
        if res.status {
            let ghost before_in = self.inbound.members();
            let ghost before_out = self.outbound.members();
            match self.inbound.remove_neighbor(&peer_id) {
                Some(_) => {
                    actions.push(publish_peering_event(peer_id, false, false, &self.local));
                    send_drop_peering_request_to_peer(peer_id, now, &mut actions);
                    proof {
                        assert forall|x: Seq<u8>| !(#[trigger] self.inbound.contains_id(x) && self.outbound.contains_id(x)) by {
                            assert(!(old(self).inbound.contains_id(x) && old(self).outbound.contains_id(x)));
                            if self.inbound.contains_id(x) {
                                let k = choose|k: int| 0 <= k < self.inbound.members().len()
                                    && (#[trigger] self.inbound.members()[k]).peer_id@ == x;
                                let i = choose|i: int| 0 <= i < before_in.len()
                                    && before_in[i].peer_id@ == peer_id@
                                    && self.inbound.members() == before_in.remove(i);
                                let k2 = if k < i { k } else { k + 1 };
                                assert(self.inbound.members()[k] == before_in[k2]);
                                assert(has_id(before_in, x));
                            }
                        }
                    }
                },
                None => {
                    let inserted = self.outbound.insert_neighbor(peer_id, &self.local);
                    if inserted {
                        self.filter.add(peer_id);
                        actions.push(publish_peering_event(peer_id, false, true, &self.local));
                    }
                    proof {
                        let n = Neighbor { peer_id, distance: self.outbound_distance(peer_id@) };
                        if inserted {
                            lemma_evict_subset(before_out, self.outbound.cap());
                            lemma_sorted_insert_members(
                                evict_if_full(before_out, self.outbound.cap()),
                                n,
                                self.outbound.members(),
                            );
                            assert forall|x: Seq<u8>| !(#[trigger] self.inbound.contains_id(x) && self.outbound.contains_id(x)) by {
                                assert(!(old(self).inbound.contains_id(x) && old(self).outbound.contains_id(x)));
                                if self.outbound.contains_id(x) && x != peer_id@ {
                                    assert(has_id(evict_if_full(before_out, self.outbound.cap()), x));
                                }
                            }
                        }
                    }
                },
            }
        }
        let ghost before_fwd = actions@;
        if pending.notify {
            actions.push(Action::ForwardResponse { peer_id, response: res });
        }
        assert(actions@ =~= before_fwd + forwarded(pending, peer_id, res));
        actions
    }

    /// Ends any peering with `peer_id`: it leaves both neighborhoods, is
    /// excluded from outbound selection if it was an outbound neighbor, and
    /// is sent a drop request if it was a neighbor at all.
    pub fn handle_drop_request(&mut self, peer_id: PeerId, now: i64) -> (r: Vec<Action>)
        requires
            old(self).wf(),
        ensures
            final(self).wf(),
            drop_handled(*old(self), *final(self), peer_id, now, r@),
    {
        let mut actions: Vec<Action> = Vec::new();
        let ghost before_in = self.inbound.members();
        let ghost before_out = self.outbound.members();
        let removed_in = self.inbound.remove_neighbor(&peer_id);
        let removed_out = self.outbound.remove_neighbor(&peer_id);
        if removed_out.is_some() {
            self.filter.add(peer_id);
        }
        if removed_in.is_some() || removed_out.is_some() {
            send_drop_peering_request_to_peer(peer_id, now, &mut actions);
        }
        proof {
            assert forall|x: Seq<u8>| !(#[trigger] self.inbound.contains_id(x) && self.outbound.contains_id(x)) by {
                assert(!(old(self).inbound.contains_id(x) && old(self).outbound.contains_id(x)));
                if self.inbound.contains_id(x) && self.outbound.contains_id(x) {
                    let k = choose|k: int| 0 <= k < self.inbound.members().len()
                        && (#[trigger] self.inbound.members()[k]).peer_id@ == x;
                    let j = choose|j: int| 0 <= j < self.outbound.members().len()
                        && (#[trigger] self.outbound.members()[j]).peer_id@ == x;
                    if removed_in.is_some() {
                        let i = choose|i: int| 0 <= i < before_in.len()
                            && before_in[i].peer_id@ == peer_id@ && self.inbound.members() == before_in.remove(i);
                        let k2 = if k < i { k } else { k + 1 };
                        assert(self.inbound.members()[k] == before_in[k2]);
                    }
                    assert(has_id(before_in, x));
                    if removed_out.is_some() {
                        let i = choose|i: int| 0 <= i < before_out.len()
                            && before_out[i].peer_id@ == peer_id@ && self.outbound.members() == before_out.remove(i);
                        let j2 = if j < i { j } else { j + 1 };
                        assert(self.outbound.members()[j] == before_out[j2]);
                    }
                    assert(has_id(before_out, x));
                }
            }
            if !(removed_in.is_some() || removed_out.is_some()) {
                assert(actions@ =~= Seq::<Action>::empty());
            }
        }
        actions
    }
}

/// The effect of a rotation of the salts at `now`.
pub open spec fn salts_rotated(
    old: PeeringManager,
    new: PeeringManager,
    drop_neighbors: bool,
    now: i64,
    actions: Seq<Action>,
) -> bool {
    let salt_updated = Action::Publish(Event::SaltUpdated {
        public_salt_lifetime: new.local.public_salt.expiration,
        private_salt_lifetime: new.local.private_salt.expiration,
    });
    &&& same_settings(old, new)
    &&& new.requests == old.requests
    &&& new.local.peer_id == old.local.peer_id
    &&& new.local.private_salt.expiration == expiration_after(now, old.salt_lifetime_secs)
    &&& new.local.public_salt.expiration == expiration_after(now, old.salt_lifetime_secs)
    &&& new.inbound.cap() == old.inbound.cap()
    &&& new.outbound.cap() == old.outbound.cap()
    &&& if drop_neighbors {
        &&& new.inbound.members() == Seq::<Neighbor>::empty()
        &&& new.outbound.members() == Seq::<Neighbor>::empty()
        &&& forall|x: Seq<u8>| !new.filter.excludes(x)
        &&& actions == drop_all(old.inbound.peer_ids(), now) + drop_all(old.outbound.peer_ids(), now)
            + seq![salt_updated]
    } else {
        &&& new.filter == old.filter
        &&& new.inbound.members().len() == old.inbound.members().len()
        &&& new.outbound.members().len() == old.outbound.members().len()
        &&& forall|x: Seq<u8>| #[trigger] new.inbound.contains_id(x) == old.inbound.contains_id(x)
        &&& forall|x: Seq<u8>| #[trigger] new.outbound.contains_id(x) == old.outbound.contains_id(x)
        &&& forall|k: int| 0 <= k < new.inbound.members().len() ==>
            (#[trigger] new.inbound.members()[k]).distance == new.inbound_distance(new.inbound.members()[k].peer_id@)
        &&& forall|k: int| 0 <= k < new.outbound.members().len() ==>
            (#[trigger] new.outbound.members()[k]).distance == new.outbound_distance(new.outbound.members()[k].peer_id@)
        &&& actions == seq![salt_updated]
    }
}

/// Appends drop requests and events for each of `ids`.
fn drop_each(ids: &Vec<PeerId>, now: i64, actions: &mut Vec<Action>)
    ensures
        final(actions)@ == old(actions)@ + drop_all(ids@, now),
{
    let mut i: usize = 0;
    while i < ids.len()
        invariant
            0 <= i <= ids@.len(),
            actions@ == old(actions)@ + drop_all(ids@.subrange(0, i as int), now),
        decreases ids@.len() - i,
    {
        send_drop_peering_request_to_peer(ids[i], now, actions);
        proof {
            let t = ids@.subrange(0, i + 1);
            assert(t.drop_last() =~= ids@.subrange(0, i as int));
            assert(t.last() == ids@[i as int]);
        }
        i = i + 1;
    }
    assert(ids@.subrange(0, ids@.len() as int) =~= ids@);
}

impl PeeringManager {
    /// Decodes and validates one incoming packet from `peer_id` and acts on
    /// it. `verified` tells whether the peer registry lists the sender as
    /// verified, `eligible` whether the host policy accepts it. Packets that
    /// do not decode or do not validate are dropped with no reply and change
    /// nothing; a valid peering response takes the sender's pending request out.
    pub fn on_packet(
        &mut self,
        peer_id: PeerId,
        msg_type: MessageType,
        bytes: &Vec<u8>,
        verified: bool,
        eligible: bool,
        now: i64,
    ) -> (r: Vec<Action>)
        requires
            old(self).wf(),
        ensures
            final(self).wf(),
            msg_type == MessageType::PeeringRequest ==> forall|m: PeeringRequest|
                #[trigger] encode_request(m) == bytes@ ==> if request_check(
                    m,
                    verified,
                    now,
                    old(self).request_expiration_secs,
                ) is Ok {
                    request_handled(*old(self), *final(self), peer_id, bytes@, eligible, now, r@)
                } else {
                    r@.len() == 0 && *final(self) == *old(self)
                },
            msg_type == MessageType::PeeringResponse ==> forall|m: PeeringResponse|
                #[trigger] encode_response(m) == bytes@ ==> match response_check(
                    old(self).requests.entry(peer_id@),
                    m.request_hash@,
                ) {
                    Ok(p) => {
                        &&& response_handled(*old(self), *final(self), peer_id, m, p, now, r@)
                        &&& final(self).requests.entry(peer_id@) is None
                        &&& forall|x: Seq<u8>| x != peer_id@ ==> #[trigger] final(self).requests.entry(x)
                            == old(self).requests.entry(x)
                    },
                    Err(_) => r@.len() == 0 && *final(self) == *old(self),
                },
            msg_type == MessageType::DropRequest ==> forall|m: DropPeeringRequest|
                #[trigger] encode_drop(m) == bytes@ ==> if drop_check(m, now, old(self).request_expiration_secs) is Ok {
                    drop_handled(*old(self), *final(self), peer_id, now, r@)
                } else {
                    r@.len() == 0 && *final(self) == *old(self)
                },
            (msg_type == MessageType::PeeringRequest && forall|m: PeeringRequest| encode_request(m) != bytes@)
                ==> r@.len() == 0 && *final(self) == *old(self),
            (msg_type == MessageType::DropRequest && forall|m: DropPeeringRequest| encode_drop(m) != bytes@)
                ==> r@.len() == 0 && *final(self) == *old(self),
            (msg_type == MessageType::PeeringResponse && forall|m: PeeringResponse| encode_response(m) != bytes@)
                ==> r@.len() == 0 && *final(self) == *old(self),
            (msg_type != MessageType::PeeringRequest && msg_type != MessageType::PeeringResponse && msg_type
                != MessageType::DropRequest) ==> r@.len() == 0 && *final(self) == *old(self),
    {
        match msg_type {
            MessageType::PeeringRequest => {
                match PeeringRequest::from_bytes(bytes) {
                    Some(req) => {
                        proof {
                            assert forall|m: PeeringRequest| #[trigger] encode_request(m) == bytes@ implies m == req by {
                                lemma_request_encoding_injective(m, req);
                            }
                        }
                        match validate_peering_request(&req, verified, now, self.request_expiration_secs) {
                            Ok(()) => self.handle_peering_request(peer_id, bytes, eligible, now),
                            Err(_) => Vec::new(),
                        }
                    },
                    None => Vec::new(),
                }
            },
            MessageType::PeeringResponse => {
                let decoded = PeeringResponse::from_bytes(bytes);
                match decoded {
                    Some(res) => {
                        proof {
                            assert forall|m: PeeringResponse| #[trigger] encode_response(m) == bytes@ implies m == res by {
                                lemma_response_encoding_injective(m, res);
                            }
                        }
                        let ghost before = *self;
                        match validate_peering_response(&res, &peer_id, &mut self.requests) {
                            Ok(p) => {
                                let ghost mid = *self;
                                let r = self.handle_peering_response(peer_id, res, p, now);
                                assert(response_handled(mid, *self, peer_id, res, p, now, r@));
                                assert(forall|x: Seq<u8>| !(#[trigger] mid.inbound.contains_id(x) && mid.outbound.contains_id(x)));
                                r
                            },
                            Err(_) => Vec::new(),
                        }
                    },
                    None => Vec::new(),
                }
            },
            MessageType::DropRequest => {
                match DropPeeringRequest::from_bytes(bytes) {
                    Some(req) => {
                        proof {
                            assert forall|m: DropPeeringRequest| #[trigger] encode_drop(m) == bytes@ implies m == req by {
                                lemma_drop_encoding_injective(m, req);
                            }
                        }
                        match validate_drop_request(&req, now, self.request_expiration_secs) {
                            Ok(()) => self.handle_drop_request(peer_id, now),
                            Err(_) => Vec::new(),
                        }
                    },
                    None => Vec::new(),
                }
            },
            _ => Vec::new(),
        }
    }

    /// Builds a peering request to `peer_id`, records it as pending and
    /// returns it with the bytes to send. With `notify`, the response will be
    /// handed on when it arrives.
    pub fn send_peering_request_to_peer(&mut self, peer_id: PeerId, notify: bool, now: i64) -> (r: (
        PeeringRequest,
        Vec<u8>,
    ))
        requires
            old(self).wf(),
        ensures
            final(self).wf(),
            r.0 == (PeeringRequest { timestamp: now, salt: old(self).local.public_salt }),
            r.1@ == encode_request(r.0),
            final(self).requests.entry(peer_id@) matches Some(p) && p.peer_id == peer_id && p.issue_time
                == now && p.notify == notify && p.request_hash@ == message_hash_of(
                MessageType::PeeringRequest,
                r.1@,
            ),
            forall|x: Seq<u8>| x != peer_id@ ==> #[trigger] final(self).requests.entry(x) == old(
                self,
            ).requests.entry(x),
            final(self).local == old(self).local,
            final(self).inbound == old(self).inbound,
            final(self).outbound == old(self).outbound,
            final(self).filter == old(self).filter,
            same_settings(*old(self), *final(self)),
    {
        self.requests.create_peering_request(peer_id, notify, &self.local, now)
    }

    /// Gives up on the request to `peer_id` after the response timeout: a
    /// response that arrives later no longer matches.
    pub fn on_response_timeout(&mut self, peer_id: &PeerId) -> (r: Option<PendingRequest>)
        requires
            old(self).wf(),
        ensures
            final(self).wf(),
            r == old(self).requests.entry(peer_id@),
            final(self).requests.entry(peer_id@) is None,
            forall|x: Seq<u8>| x != peer_id@ ==> #[trigger] final(self).requests.entry(x) == old(
                self,
            ).requests.entry(x),
            final(self).local == old(self).local,
            final(self).inbound == old(self).inbound,
            final(self).outbound == old(self).outbound,
            final(self).filter == old(self).filter,
            same_settings(*old(self), *final(self)),
    {
        self.requests.remove_request(peer_id)
    }

    /// Replaces both salts with fresh ones that expire one salt lifetime
    /// after `now` (at the largest timestamp if that lies beyond it). With `drop_neighbors`, every neighbor is sent a drop
    /// request and both neighborhoods and the filter are emptied; otherwise
    /// every member's distance is recomputed under the new salts and nobody
    /// leaves. A `SaltUpdated` event ends the actions.
    pub fn update_salts(&mut self, drop_neighbors: bool, now: i64) -> (r: Vec<Action>)
        requires
            old(self).wf(),
        ensures
            final(self).wf(),
            salts_rotated(*old(self), *final(self), drop_neighbors, now, r@),
    {
        let private_salt = Salt::new(self.salt_lifetime_secs, now);
        self.local.private_salt = private_salt;
        let public_salt = Salt::new(self.salt_lifetime_secs, now);
        self.local.public_salt = public_salt;
        let mut actions: Vec<Action> = Vec::new();
        if drop_neighbors {
            let inbound_peers = self.inbound.peers();
            let outbound_peers = self.outbound.peers();
            drop_each(&inbound_peers, now, &mut actions);
            drop_each(&outbound_peers, now, &mut actions);
            self.inbound.clear();
            self.outbound.clear();
            self.filter.clear();
        } else {
            self.inbound.update_distances(&self.local);
            self.outbound.update_distances(&self.local);
            proof {
                assert forall|x: Seq<u8>| !(#[trigger] self.inbound.contains_id(x) && self.outbound.contains_id(x)) by {
                    assert(!(old(self).inbound.contains_id(x) && old(self).outbound.contains_id(x)));
                }
            }
        }
        actions.push(
            Action::Publish(
                Event::SaltUpdated {
                    public_salt_lifetime: public_salt.expiration,
                    private_salt_lifetime: private_salt.expiration,
                },
            ),
        );
        proof {
            let su = Action::Publish(Event::SaltUpdated {
                public_salt_lifetime: public_salt.expiration,
                private_salt_lifetime: private_salt.expiration,
            });
            if drop_neighbors {
                assert(actions@ =~= drop_all(old(self).inbound.peer_ids(), now) + drop_all(
                    old(self).outbound.peer_ids(),
                    now,
                ) + seq![su]);
            } else {
                assert(actions@ =~= seq![su]);
            }
        }
        actions
    }
}

/// A valid peering request from a peer that is already a neighbor is
/// answered with `true` and changes nothing.
pub proof fn lemma_rerequest_idempotent(
    old: PeeringManager,
    new: PeeringManager,
    peer_id: PeerId,
    msg_bytes: Seq<u8>,
    eligible: bool,
    now: i64,
    actions: Seq<Action>,
)
    requires
        request_handled(old, new, peer_id, msg_bytes, eligible, now, actions),
        old.is_neighbor(peer_id@),
    ensures
        new == old,
        actions.len() == 1,
        actions[0] matches Action::SendPeeringResponse { peer_id: to, response } && to == peer_id
            && response.status,
{
}

/// A response that answers the pending request is handed on to the waiting
/// requester at once, as the last action.
pub proof fn lemma_matching_response_forwarded(
    old: PeeringManager,
    new: PeeringManager,
    peer_id: PeerId,
    res: PeeringResponse,
    pending: PendingRequest,
    now: i64,
    actions: Seq<Action>,
)
    requires
        response_handled(old, new, peer_id, res, pending, now, actions),
        pending.notify,
    ensures
        actions.len() > 0,
        actions.last() == (Action::ForwardResponse { peer_id, response: res }),
{
}

/// Once the pending request to a peer is gone (it timed out, or a response
/// already took it), any later response from that peer finds no request.
pub proof fn lemma_late_response_unmatched(requests: RequestManager, peer_id: PeerId, hash: Seq<u8>)
    requires
        requests.entry(peer_id@) is None,
    ensures
        response_check(requests.entry(peer_id@), hash) == Err::<PendingRequest, ValidationError>(
            ValidationError::NoCorrespondingRequestOrTimeout,
        ),
{
}

/// Every peer of `ids` is sent a drop request and announced as dropped.
pub proof fn lemma_drop_all_covers(ids: Seq<PeerId>, now: i64)
    ensures
        drop_all(ids, now).len() == 2 * ids.len(),
        forall|i: int| 0 <= i < ids.len() ==> {
            &&& drop_all(ids, now)[2 * i] == (Action::SendDropRequest {
                peer_id: ids[i],
                request: DropPeeringRequest { timestamp: now },
            })
            &&& drop_all(ids, now)[2 * i + 1] == Action::Publish(Event::PeeringDropped { peer_id: #[trigger] ids[i] })
        },
    decreases ids.len(),
{
    if ids.len() > 0 {
        lemma_drop_all_covers(ids.drop_last(), now);
        let prev = drop_all(ids.drop_last(), now);
        assert forall|i: int| 0 <= i < ids.len() implies {
            &&& drop_all(ids, now)[2 * i] == (Action::SendDropRequest {
                peer_id: ids[i],
                request: DropPeeringRequest { timestamp: now },
            })
            &&& drop_all(ids, now)[2 * i + 1] == Action::Publish(Event::PeeringDropped { peer_id: #[trigger] ids[i] })
        } by {
            if i < ids.len() - 1 {
                assert(ids.drop_last()[i] == ids[i]);
            }
        }
    }
}

} // verus!
