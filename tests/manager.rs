use autopeering::distance::salt_distance;
use autopeering::local::Local;
use autopeering::manager::{add_or_replace_neighbor, Action, Event, PeeringManager};
use autopeering::neighbor::{Direction, Neighbor, Neighborhood};
use autopeering::messages::{message_hash, DropPeeringRequest, MessageType, PeeringRequest, PeeringResponse};
use autopeering::peer::PeerId;
use autopeering::salt::Salt;

const NOW: i64 = 1_000_000;

fn id(n: u8) -> PeerId {
    PeerId::new([n; 32])
}

fn local() -> Local {
    Local::new(id(0), Salt::from_parts([11; 20], NOW + 7200), Salt::from_parts([22; 20], NOW + 7200))
}

fn manager(capacity: usize) -> PeeringManager {
    PeeringManager::new(local(), capacity, capacity, 20, 7200)
}

fn request_bytes(timestamp: i64, salt_expiration: i64) -> Vec<u8> {
    PeeringRequest::new(timestamp, Salt::from_parts([3; 20], salt_expiration)).to_bytes()
}

fn request(mgr: &mut PeeringManager, peer: PeerId) -> Vec<Action> {
    let bytes = request_bytes(NOW, NOW + 100);
    mgr.on_packet(peer, MessageType::PeeringRequest, &bytes, true, true, NOW)
}

fn response_status(actions: &[Action]) -> bool {
    match actions.last() {
        Some(Action::SendPeeringResponse { response, .. }) => response.status,
        other => panic!("no response: {:?}", other),
    }
}

#[test]
fn expired_request_gets_no_reply() {
    let mut mgr = manager(4);
    let bytes = request_bytes(NOW - 21, NOW + 100);
    let actions = mgr.on_packet(id(1), MessageType::PeeringRequest, &bytes, true, true, NOW);
    assert!(actions.is_empty());
    assert_eq!(mgr.inbound.len(), 0);
    assert!(!mgr.filter.contains(&id(1)));
}

#[test]
fn unverified_or_stale_salt_gets_no_reply() {
    let mut mgr = manager(4);
    let bytes = request_bytes(NOW, NOW + 100);
    assert!(mgr.on_packet(id(1), MessageType::PeeringRequest, &bytes, false, true, NOW).is_empty());
    let stale = request_bytes(NOW, NOW - 1);
    assert!(mgr.on_packet(id(1), MessageType::PeeringRequest, &stale, true, true, NOW).is_empty());
    assert!(mgr.on_packet(id(1), MessageType::PeeringRequest, &vec![1, 2, 3], true, true, NOW).is_empty());
    assert_eq!(mgr.inbound.len(), 0);
}

#[test]
fn valid_request_is_admitted() {
    let mut mgr = manager(4);
    let bytes = request_bytes(NOW, NOW + 100);
    let actions = mgr.on_packet(id(1), MessageType::PeeringRequest, &bytes, true, true, NOW);
    let d = salt_distance(&id(0), &id(1), &local().private_salt);
    let hash = message_hash(MessageType::PeeringRequest, &bytes);
    assert_eq!(
        actions,
        vec![
            Action::Publish(Event::IncomingPeering { peer_id: id(1), distance: d }),
            Action::SendPeeringResponse { peer_id: id(1), response: PeeringResponse::new(hash, true) },
        ]
    );
    assert!(mgr.inbound.contains(&id(1)));
    assert!(mgr.filter.contains(&id(1)));
}

#[test]
fn rerequest_is_idempotent() {
    let mut mgr = manager(4);
    request(&mut mgr, id(1));
    let before = mgr.inbound.peers();
    let actions = request(&mut mgr, id(1));
    assert_eq!(actions.len(), 1);
    assert!(response_status(&actions));
    assert_eq!(mgr.inbound.peers(), before);
}

#[test]
fn ineligible_peer_is_denied() {
    let mut mgr = manager(4);
    let bytes = request_bytes(NOW, NOW + 100);
    let actions = mgr.on_packet(id(1), MessageType::PeeringRequest, &bytes, true, false, NOW);
    assert_eq!(actions.len(), 1);
    assert!(!response_status(&actions));
    assert_eq!(mgr.inbound.len(), 0);
}

#[test]
fn full_inbound_evicts_or_denies() {
    let mut mgr = manager(1);
    request(&mut mgr, id(1));
    let salt = local().private_salt;
    let d1 = salt_distance(&id(0), &id(1), &salt);
    let d2 = salt_distance(&id(0), &id(2), &salt);
    let actions = request(&mut mgr, id(2));
    if d2 < d1 {
        assert_eq!(actions.len(), 4);
        assert_eq!(
            actions[0],
            Action::SendDropRequest { peer_id: id(1), request: DropPeeringRequest::new(NOW) }
        );
        assert_eq!(actions[1], Action::Publish(Event::PeeringDropped { peer_id: id(1) }));
        assert!(response_status(&actions));
        assert_eq!(mgr.inbound.peers(), vec![id(2)]);
    } else {
        assert_eq!(actions.len(), 1);
        assert!(!response_status(&actions));
        assert_eq!(mgr.inbound.peers(), vec![id(1)]);
    }
}

#[test]
fn matching_response_resolves() {
    let mut mgr = manager(4);
    let (_, bytes) = mgr.send_peering_request_to_peer(id(5), true, NOW);
    let hash = message_hash(MessageType::PeeringRequest, &bytes);
    let res = PeeringResponse::new(hash, true);
    let actions = mgr.on_packet(id(5), MessageType::PeeringResponse, &res.to_bytes(), true, true, NOW);
    let d = salt_distance(&id(0), &id(5), &local().public_salt);
    assert_eq!(
        actions,
        vec![
            Action::Publish(Event::OutgoingPeering { peer_id: id(5), distance: d, status: true }),
            Action::ForwardResponse { peer_id: id(5), response: res },
        ]
    );
    assert!(mgr.outbound.contains(&id(5)));
    assert!(mgr.filter.contains(&id(5)));
    assert_eq!(mgr.requests.len(), 0);
}

#[test]
fn wrong_hash_is_like_no_response() {
    let mut mgr = manager(4);
    let (_, bytes) = mgr.send_peering_request_to_peer(id(5), true, NOW);
    let res = PeeringResponse::new([0; 32], true);
    let actions = mgr.on_packet(id(5), MessageType::PeeringResponse, &res.to_bytes(), true, true, NOW);
    assert!(actions.is_empty());
    assert_eq!(mgr.outbound.len(), 0);
    assert_eq!(mgr.requests.len(), 1);
    let good = PeeringResponse::new(message_hash(MessageType::PeeringRequest, &bytes), true);
    let actions = mgr.on_packet(id(5), MessageType::PeeringResponse, &good.to_bytes(), true, true, NOW);
    assert_eq!(actions.last(), Some(&Action::ForwardResponse { peer_id: id(5), response: good }));
    assert!(mgr.outbound.contains(&id(5)));
    assert_eq!(mgr.requests.len(), 0);
}

#[test]
fn late_response_is_not_matched() {
    let mut mgr = manager(4);
    let (_, bytes) = mgr.send_peering_request_to_peer(id(5), true, NOW);
    assert!(mgr.on_response_timeout(&id(5)).is_some());
    let res = PeeringResponse::new(message_hash(MessageType::PeeringRequest, &bytes), true);
    let actions = mgr.on_packet(id(5), MessageType::PeeringResponse, &res.to_bytes(), true, true, NOW);
    assert!(actions.is_empty());
    assert_eq!(mgr.outbound.len(), 0);
}

#[test]
fn accepted_response_from_inbound_neighbor_is_dropped() {
    let mut mgr = manager(4);
    request(&mut mgr, id(1));
    let (_, bytes) = mgr.send_peering_request_to_peer(id(1), false, NOW);
    let res = PeeringResponse::new(message_hash(MessageType::PeeringRequest, &bytes), true);
    let actions = mgr.on_packet(id(1), MessageType::PeeringResponse, &res.to_bytes(), true, true, NOW);
    let d = salt_distance(&id(0), &id(1), &local().public_salt);
    assert_eq!(
        actions,
        vec![
            Action::Publish(Event::OutgoingPeering { peer_id: id(1), distance: d, status: false }),
            Action::SendDropRequest { peer_id: id(1), request: DropPeeringRequest::new(NOW) },
            Action::Publish(Event::PeeringDropped { peer_id: id(1) }),
        ]
    );
    assert!(!mgr.inbound.contains(&id(1)));
    assert!(!mgr.outbound.contains(&id(1)));
}

#[test]
fn denied_response_only_forwards() {
    let mut mgr = manager(4);
    let (_, bytes) = mgr.send_peering_request_to_peer(id(5), true, NOW);
    let res = PeeringResponse::new(message_hash(MessageType::PeeringRequest, &bytes), false);
    let actions = mgr.on_packet(id(5), MessageType::PeeringResponse, &res.to_bytes(), true, true, NOW);
    assert_eq!(actions, vec![Action::ForwardResponse { peer_id: id(5), response: res }]);
    assert_eq!(mgr.outbound.len(), 0);
}

#[test]
fn drop_request_removes_neighbor() {
    let mut mgr = manager(4);
    let (_, bytes) = mgr.send_peering_request_to_peer(id(5), false, NOW);
    let res = PeeringResponse::new(message_hash(MessageType::PeeringRequest, &bytes), true);
    mgr.on_packet(id(5), MessageType::PeeringResponse, &res.to_bytes(), true, true, NOW);
    let drop = DropPeeringRequest::new(NOW).to_bytes();
    let actions = mgr.on_packet(id(5), MessageType::DropRequest, &drop, true, true, NOW);
    assert_eq!(
        actions,
        vec![
            Action::SendDropRequest { peer_id: id(5), request: DropPeeringRequest::new(NOW) },
            Action::Publish(Event::PeeringDropped { peer_id: id(5) }),
        ]
    );
    assert_eq!(mgr.outbound.len(), 0);
    assert!(mgr.filter.contains(&id(5)));
    // A second drop finds no neighbor and sends nothing.
    assert!(mgr.on_packet(id(5), MessageType::DropRequest, &drop, true, true, NOW).is_empty());
    // An expired drop request is ignored.
    let old = DropPeeringRequest::new(NOW - 100).to_bytes();
    assert!(mgr.on_packet(id(5), MessageType::DropRequest, &old, true, true, NOW).is_empty());
}

#[test]
fn unsupported_type_is_ignored() {
    let mut mgr = manager(4);
    assert!(mgr.on_packet(id(1), MessageType::DiscoveryRequest, &vec![], true, true, NOW).is_empty());
}

fn populated() -> PeeringManager {
    let mut mgr = manager(4);
    request(&mut mgr, id(1));
    request(&mut mgr, id(2));
    let (_, bytes) = mgr.send_peering_request_to_peer(id(5), false, NOW);
    let res = PeeringResponse::new(message_hash(MessageType::PeeringRequest, &bytes), true);
    mgr.on_packet(id(5), MessageType::PeeringResponse, &res.to_bytes(), true, true, NOW);
    assert_eq!(mgr.inbound.len(), 2);
    assert_eq!(mgr.outbound.len(), 1);
    mgr
}

#[test]
fn rotation_with_drop_empties_everything() {
    let mut mgr = populated();
    let inbound = mgr.inbound.peers();
    let actions = mgr.update_salts(true, NOW + 10);
    assert_eq!(mgr.inbound.len(), 0);
    assert_eq!(mgr.outbound.len(), 0);
    for p in [id(1), id(2), id(5)] {
        assert!(!mgr.filter.contains(&p));
    }
    let mut expected = Vec::new();
    for p in inbound.iter().chain([id(5)].iter()) {
        expected.push(Action::SendDropRequest { peer_id: *p, request: DropPeeringRequest::new(NOW + 10) });
        expected.push(Action::Publish(Event::PeeringDropped { peer_id: *p }));
    }
    expected.push(Action::Publish(Event::SaltUpdated {
        public_salt_lifetime: NOW + 10 + 7200,
        private_salt_lifetime: NOW + 10 + 7200,
    }));
    assert_eq!(actions, expected);
    assert_ne!(mgr.local.private_salt.bytes, local().private_salt.bytes);
}

#[test]
fn rotation_without_drop_recomputes_distances() {
    let mut mgr = populated();
    let mut before_in = mgr.inbound.peers();
    let actions = mgr.update_salts(false, NOW + 10);
    assert_eq!(actions.len(), 1);
    let mut after_in = mgr.inbound.peers();
    before_in.sort_by_key(|p| p.bytes[0]);
    after_in.sort_by_key(|p| p.bytes[0]);
    assert_eq!(before_in, after_in);
    assert_eq!(mgr.outbound.peers(), vec![id(5)]);
    for i in 0..mgr.inbound.len() {
        let m = mgr.inbound.get(i);
        assert_eq!(m.distance, salt_distance(&id(0), &m.peer_id, &mgr.local.private_salt));
    }
    let m = mgr.outbound.get(0);
    assert_eq!(m.distance, salt_distance(&id(0), &m.peer_id, &mgr.local.public_salt));
    assert!(mgr.filter.contains(&id(5)));
}

#[test]
fn add_or_replace_rejects_far_candidate_without_evicting() {
    let loc = local();
    let d = salt_distance(&id(0), &id(9), &loc.private_salt);
    assert!(d >= 3);
    let mut nbh = Neighborhood::new(4, Direction::Inbound);
    for k in 0..4u8 {
        assert!(nbh.insert(Neighbor::new(id(k + 1), k as u32)));
    }
    let mut actions = Vec::new();
    assert!(!add_or_replace_neighbor(&mut nbh, id(9), &loc, NOW, &mut actions));
    assert!(actions.is_empty());
    assert_eq!(nbh.peers(), vec![id(1), id(2), id(3), id(4)]);
}

#[test]
fn add_or_replace_keeps_furthest_member_that_asks_again() {
    let loc = local();
    let d = salt_distance(&id(0), &id(9), &loc.private_salt);
    let mut nbh = Neighborhood::new(2, Direction::Inbound);
    assert!(nbh.insert(Neighbor::new(id(1), 0)));
    assert!(nbh.insert(Neighbor::new(id(9), d)));
    let mut actions = Vec::new();
    assert!(!add_or_replace_neighbor(&mut nbh, id(9), &loc, NOW, &mut actions));
    assert!(actions.is_empty());
    assert_eq!(nbh.peers(), vec![id(1), id(9)]);
}

#[test]
fn add_or_replace_evicts_for_closer_candidate() {
    let loc = local();
    let d = salt_distance(&id(0), &id(9), &loc.private_salt);
    assert!(d < u32::MAX - 1);
    let mut nbh = Neighborhood::new(2, Direction::Inbound);
    assert!(nbh.insert(Neighbor::new(id(1), d)));
    assert!(nbh.insert(Neighbor::new(id(2), d + 1)));
    let mut actions = Vec::new();
    assert!(add_or_replace_neighbor(&mut nbh, id(9), &loc, NOW, &mut actions));
    assert_eq!(
        actions,
        vec![
            Action::SendDropRequest { peer_id: id(2), request: DropPeeringRequest::new(NOW) },
            Action::Publish(Event::PeeringDropped { peer_id: id(2) }),
        ]
    );
    assert_eq!(nbh.peers(), vec![id(1), id(9)]);
}

#[test]
fn salt_expiration_saturates() {
    let mut mgr = manager(4);
    let actions = mgr.update_salts(false, i64::MAX - 10);
    assert_eq!(mgr.local.private_salt.expiration, i64::MAX);
    assert_eq!(
        actions,
        vec![Action::Publish(Event::SaltUpdated { public_salt_lifetime: i64::MAX, private_salt_lifetime: i64::MAX })]
    );
}
