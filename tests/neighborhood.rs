use autopeering::distance::salt_distance;
use autopeering::local::Local;
use autopeering::neighbor::{Direction, Neighbor, Neighborhood};
use autopeering::peer::PeerId;
use autopeering::salt::Salt;

fn id(n: u8) -> PeerId {
    PeerId::new([n; 32])
}

fn distances(nbh: &Neighborhood) -> Vec<u32> {
    (0..nbh.len()).map(|i| nbh.get(i).distance).collect()
}

fn full_four() -> Neighborhood {
    let mut nbh = Neighborhood::new(4, Direction::Inbound);
    assert!(nbh.insert(Neighbor::new(id(3), 30)));
    assert!(nbh.insert(Neighbor::new(id(1), 10)));
    assert!(nbh.insert(Neighbor::new(id(4), 40)));
    assert!(nbh.insert(Neighbor::new(id(2), 20)));
    nbh
}

#[test]
fn eviction_replaces_furthest() {
    let mut nbh = full_four();
    assert_eq!(distances(&nbh), vec![10, 20, 30, 40]);
    assert!(nbh.insert(Neighbor::new(id(5), 25)));
    assert_eq!(distances(&nbh), vec![10, 20, 25, 30]);
    assert!(!nbh.contains(&id(4)));
    assert!(nbh.contains(&id(5)));
}

#[test]
fn far_candidate_rejected() {
    let mut nbh = full_four();
    assert!(!nbh.is_preferred(50));
    assert!(!nbh.insert(Neighbor::new(id(6), 50)));
    assert_eq!(distances(&nbh), vec![10, 20, 30, 40]);
    assert_eq!(nbh.peers(), vec![id(1), id(2), id(3), id(4)]);
}

#[test]
fn duplicate_rejected() {
    let mut nbh = Neighborhood::new(4, Direction::Inbound);
    assert!(nbh.insert(Neighbor::new(id(1), 10)));
    assert!(!nbh.insert(Neighbor::new(id(1), 5)));
    assert_eq!(nbh.len(), 1);
    assert_eq!(nbh.get(0).distance, 10);
}

#[test]
fn capacity_and_order_hold_over_many_insertions() {
    let mut nbh = Neighborhood::new(3, Direction::Outbound);
    let ds = [50u32, 7, 99, 7, 1, 60, 3, 80, 2, 2];
    for (i, d) in ds.iter().enumerate() {
        nbh.insert(Neighbor::new(id(i as u8 + 1), *d));
        assert!(nbh.len() <= 3);
        let got = distances(&nbh);
        let mut sorted = got.clone();
        sorted.sort();
        assert_eq!(got, sorted);
    }
    assert_eq!(distances(&nbh), vec![1, 2, 2]);
}

#[test]
fn equal_distance_goes_after_existing() {
    let mut nbh = Neighborhood::new(4, Direction::Inbound);
    assert!(nbh.insert(Neighbor::new(id(1), 10)));
    assert!(nbh.insert(Neighbor::new(id(2), 10)));
    assert_eq!(nbh.peers(), vec![id(1), id(2)]);
}

#[test]
fn remove_furthest_only_when_full() {
    let mut nbh = Neighborhood::new(2, Direction::Inbound);
    assert!(nbh.insert(Neighbor::new(id(1), 10)));
    assert_eq!(nbh.remove_furthest_if_full(), None);
    assert!(nbh.insert(Neighbor::new(id(2), 20)));
    assert_eq!(nbh.remove_furthest_if_full(), Some(id(2)));
    assert_eq!(nbh.len(), 1);
}

#[test]
fn remove_and_clear() {
    let mut nbh = full_four();
    let removed = nbh.remove_neighbor(&id(2)).unwrap();
    assert_eq!(removed.distance, 20);
    assert_eq!(nbh.remove_neighbor(&id(2)), None);
    assert_eq!(distances(&nbh), vec![10, 30, 40]);
    nbh.clear();
    assert_eq!(nbh.len(), 0);
}

#[test]
fn zero_capacity_takes_nobody() {
    let mut nbh = Neighborhood::new(0, Direction::Inbound);
    assert!(!nbh.insert(Neighbor::new(id(1), 0)));
    assert_eq!(nbh.len(), 0);
}

#[test]
fn update_distances_keeps_members() {
    let local = Local::new(id(0), Salt::from_parts([1; 20], 100), Salt::from_parts([2; 20], 100));
    let mut nbh = Neighborhood::new(4, Direction::Inbound);
    for n in 1..=3u8 {
        assert!(nbh.insert_neighbor(id(n), &local));
    }
    let rotated = Local::new(id(0), Salt::from_parts([9; 20], 200), Salt::from_parts([8; 20], 200));
    nbh.update_distances(&rotated);
    assert_eq!(nbh.len(), 3);
    for i in 0..3 {
        let m = nbh.get(i);
        assert_eq!(m.distance, salt_distance(&rotated.peer_id, &m.peer_id, &rotated.private_salt));
    }
    let mut ids = nbh.peers();
    ids.sort_by_key(|p| p.bytes[0]);
    assert_eq!(ids, vec![id(1), id(2), id(3)]);
    let ds = distances(&nbh);
    assert!(ds.windows(2).all(|w| w[0] <= w[1]));
}
