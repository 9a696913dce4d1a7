use autopeering::distance::salt_distance;
use autopeering::filter::NeighborFilter;
use autopeering::messages::{message_hash, DropPeeringRequest, MessageType, PeeringRequest, PeeringResponse};
use autopeering::peer::PeerId;
use autopeering::request::{is_expired, RequestManager};
use autopeering::local::Local;
use autopeering::salt::Salt;

#[test]
fn request_round_trip() {
    let req = PeeringRequest::new(-5, Salt::from_parts([7; 20], i64::MAX));
    let bytes = req.to_bytes();
    assert_eq!(bytes.len(), 36);
    assert_eq!(PeeringRequest::from_bytes(&bytes), Some(req));
    assert_eq!(PeeringRequest::from_bytes(&bytes[..35].to_vec()), None);
}

#[test]
fn request_encoding_layout() {
    let req = PeeringRequest::new(0, Salt::from_parts([1; 20], 1));
    let bytes = req.to_bytes();
    assert_eq!(&bytes[0..8], &[0, 0, 0, 0, 0, 0, 0, 0x80]);
    assert_eq!(&bytes[8..16], &[1, 0, 0, 0, 0, 0, 0, 0x80]);
    assert_eq!(&bytes[16..], &[1; 20]);
}

#[test]
fn response_round_trip() {
    let res = PeeringResponse::new([3; 32], true);
    let bytes = res.to_bytes();
    assert_eq!(bytes.len(), 33);
    assert_eq!(bytes[32], 1);
    assert_eq!(PeeringResponse::from_bytes(&bytes), Some(res));
    let mut bad = bytes.clone();
    bad[32] = 2;
    assert_eq!(PeeringResponse::from_bytes(&bad), None);
}

#[test]
fn drop_round_trip() {
    let d = DropPeeringRequest::new(i64::MIN);
    let bytes = d.to_bytes();
    assert_eq!(bytes, vec![0; 8]);
    assert_eq!(DropPeeringRequest::from_bytes(&bytes), Some(d));
    assert_eq!(DropPeeringRequest::from_bytes(&vec![0; 9]), None);
}

#[test]
fn message_type_codes() {
    assert_eq!(MessageType::PeeringRequest.code(), 20);
    assert_eq!(MessageType::from_code(22), Some(MessageType::DropRequest));
    assert_eq!(MessageType::from_code(99), None);
}

#[test]
fn message_hash_is_sha256_of_code_and_bytes() {
    // SHA-256 of the single byte 0x14.
    let h = message_hash(MessageType::PeeringRequest, &vec![]);
    let other = message_hash(MessageType::PeeringResponse, &vec![]);
    assert_ne!(h, other);
    assert_eq!(h, message_hash(MessageType::PeeringRequest, &vec![]));
    assert_eq!(
        h,
        [
            131, 137, 29, 127, 232, 92, 51, 229, 44, 139, 78, 88, 20, 201, 47, 182, 163, 185, 70, 114, 153, 32, 5,
            56, 166, 186, 186, 168, 180, 82, 216, 121
        ]
    );
}

#[test]
fn distance_is_deterministic() {
    let a = PeerId::new([1; 32]);
    let b = PeerId::new([2; 32]);
    let salt = Salt::from_parts([5; 20], 0);
    let d1 = salt_distance(&a, &b, &salt);
    let d2 = salt_distance(&a, &b, &salt);
    assert_eq!(d1, d2);
    assert_eq!(d1, 2470214192);
    let other = salt_distance(&a, &b, &Salt::from_parts([6; 20], 0));
    assert_ne!(d1, other);
}

#[test]
fn expiry_window() {
    assert!(!is_expired(100, 110, 20));
    assert!(!is_expired(90, 110, 20));
    assert!(is_expired(89, 110, 20));
    assert!(!is_expired(i64::MIN, i64::MIN, 0));
    assert!(is_expired(i64::MIN, i64::MAX, 20));
}

#[test]
fn salt_expiry() {
    let s = Salt::from_parts([0; 20], 50);
    assert!(!s.is_expired(50));
    assert!(s.is_expired(51));
    let fresh = Salt::new(7200, 1000);
    assert_eq!(fresh.expiration, 8200);
}

#[test]
fn filter_add_and_clear() {
    let mut f = NeighborFilter::new();
    let a = PeerId::new([1; 32]);
    assert!(f.is_valid_neighbor(&a, true));
    assert!(!f.is_valid_neighbor(&a, false));
    f.add(a);
    f.add(a);
    assert!(f.contains(&a));
    assert!(!f.is_valid_neighbor(&a, true));
    f.clear();
    assert!(f.is_valid_neighbor(&a, true));
}

#[test]
fn one_pending_request_per_peer() {
    let local = Local::new(PeerId::new([0; 32]), Salt::from_parts([1; 20], 9), Salt::from_parts([2; 20], 9));
    let mut rm = RequestManager::new();
    let a = PeerId::new([1; 32]);
    let (r1, b1) = rm.create_peering_request(a, false, &local, 10);
    assert_eq!(r1.timestamp, 10);
    assert_eq!(r1.salt, local.public_salt);
    let (_, b2) = rm.create_peering_request(a, true, &local, 11);
    assert_eq!(rm.len(), 1);
    let p = rm.remove_request(&a).unwrap();
    assert_eq!(p.issue_time, 11);
    assert!(p.notify);
    assert_eq!(p.request_hash, message_hash(MessageType::PeeringRequest, &b2));
    assert_ne!(p.request_hash, message_hash(MessageType::PeeringRequest, &b1));
    assert_eq!(rm.remove_request(&a), None);
}

#[test]
fn random_receipt_is_well_formed() {
    let r = autopeering::receipt::rand_ledger_receipt();
    assert!(!r.funds.is_empty() && r.funds.len() <= 127);
    for e in &r.funds {
        assert_eq!(e.tail_transaction_hash.len(), 49);
        assert!(e.amount >= 1_000_000 && e.amount <= 2_779_530_283_277_761);
    }
}

fn balanced_trits(b: u8) -> [i32; 5] {
    let mut v = b as i8 as i32;
    let mut out = [0; 5];
    for t in out.iter_mut() {
        let r = ((v % 3) + 3) % 3;
        let trit = if r == 2 { -1 } else { r };
        *t = trit;
        v = (v - trit) / 3;
    }
    assert_eq!(v, 0);
    out
}

#[test]
fn tail_hash_is_t5b1_of_charset_trytes() {
    let hash = autopeering::receipt::rand_tail_transaction_hash();
    assert_eq!(hash.len(), 49);
    let trits: Vec<i32> = hash.iter().flat_map(|b| balanced_trits(*b)).collect();
    assert!(trits[243..].iter().all(|t| *t == 0));
    for i in 0..81 {
        let v = trits[3 * i] + 3 * trits[3 * i + 1] + 9 * trits[3 * i + 2];
        let c = match v {
            0 => '9',
            1..=13 => (b'A' + (v - 1) as u8) as char,
            _ => (b'N' + (v + 13) as u8) as char,
        };
        assert!("ABCDEFGHIJKLMNOPQRSTUVWXYZ9".contains(c));
    }
}
