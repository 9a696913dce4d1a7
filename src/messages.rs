//! Peering messages and their byte encoding.
//!
//! Integers are written little-endian; an `i64` is first shifted by 2^63 so
//! that it fits an unsigned 64-bit word.

use vstd::prelude::*;

use crate::hash::{sha256, sha256_of};
use crate::salt::Salt;

verus! {

/// Kinds of autopeering messages, with their one-byte codes.
#[derive(Clone, Copy, Debug, PartialEq, Eq, Structural)]
pub enum MessageType {
    VerificationRequest,
    VerificationResponse,
    DiscoveryRequest,
    DiscoveryResponse,
    PeeringRequest,
    PeeringResponse,
    DropRequest,
}

pub open spec fn type_code(t: MessageType) -> u8 {
    match t {
        MessageType::VerificationRequest => 10,
        MessageType::VerificationResponse => 11,
        MessageType::DiscoveryRequest => 12,
        MessageType::DiscoveryResponse => 13,
        MessageType::PeeringRequest => 20,
        MessageType::PeeringResponse => 21,
        MessageType::DropRequest => 22,
    }
}

impl MessageType {
    /// The one-byte code of this kind.
    pub fn code(&self) -> (r: u8)
        ensures
            r == type_code(*self),
    {
        match self {
            MessageType::VerificationRequest => 10,
            MessageType::VerificationResponse => 11,
            MessageType::DiscoveryRequest => 12,
            MessageType::DiscoveryResponse => 13,
            MessageType::PeeringRequest => 20,
            MessageType::PeeringResponse => 21,
            MessageType::DropRequest => 22,
        }
    }

    /// The kind with code `code`.
    pub fn from_code(code: u8) -> (r: Option<MessageType>)
        ensures
            match r {
                Some(t) => type_code(t) == code,
                None => forall|t: MessageType| type_code(t) != code,
            },
    {
        if code == 10 {
            Some(MessageType::VerificationRequest)
        } else if code == 11 {
            Some(MessageType::VerificationResponse)
        } else if code == 12 {
            Some(MessageType::DiscoveryRequest)
        } else if code == 13 {
            Some(MessageType::DiscoveryResponse)
        } else if code == 20 {
            Some(MessageType::PeeringRequest)
        } else if code == 21 {
            Some(MessageType::PeeringResponse)
        } else if code == 22 {
            Some(MessageType::DropRequest)
        } else {
            None
        }
    }
}

/// Asks a peer to become an inbound neighbor; carries the sender's public salt.
#[derive(Clone, Copy, Debug, PartialEq, Eq)]
pub struct PeeringRequest {
    pub timestamp: i64,
    pub salt: Salt,
}

/// Answers a peering request, echoing the hash of the request's bytes.
#[derive(Clone, Copy, Debug, PartialEq, Eq)]
pub struct PeeringResponse {
    pub request_hash: [u8; 32],
    pub status: bool,
}

/// Ends a peering relationship.
#[derive(Clone, Copy, Debug, PartialEq, Eq)]
pub struct DropPeeringRequest {
    pub timestamp: i64,
}

/// The eight little-endian bytes of `x`.
pub open spec fn u64_le(x: u64) -> Seq<u8> {
    seq![
        (x & 0xff) as u8,
        ((x >> 8u64) & 0xff) as u8,
        ((x >> 16u64) & 0xff) as u8,
        ((x >> 24u64) & 0xff) as u8,
        ((x >> 32u64) & 0xff) as u8,
        ((x >> 40u64) & 0xff) as u8,
        ((x >> 48u64) & 0xff) as u8,
        ((x >> 56u64) & 0xff) as u8,
    ]
}

/// `x` shifted into the unsigned range.
pub open spec fn i64_bits(x: i64) -> u64 {
    (x as int + 0x8000_0000_0000_0000) as u64
}

pub open spec fn i64_le(x: i64) -> Seq<u8> {
    u64_le(i64_bits(x))
}

/// Timestamp, salt expiration, salt bytes.
pub open spec fn encode_request(m: PeeringRequest) -> Seq<u8> {
    i64_le(m.timestamp) + i64_le(m.salt.expiration) + m.salt.bytes@
}

/// Request hash, then one byte: 1 for accepted, 0 for denied.
pub open spec fn encode_response(m: PeeringResponse) -> Seq<u8> {
    m.request_hash@ + seq![if m.status { 1u8 } else { 0u8 }]
}

/// Timestamp.
pub open spec fn encode_drop(m: DropPeeringRequest) -> Seq<u8> {
    i64_le(m.timestamp)
}

/// The hash that identifies a message: SHA-256 of its type code followed by its bytes.
pub open spec fn message_hash_of(t: MessageType, bytes: Seq<u8>) -> Seq<u8> {
    sha256_of(seq![type_code(t)] + bytes)
}

proof fn lemma_u64_le_injective(x: u64, y: u64)
    requires
        u64_le(x) == u64_le(y),
    ensures
        x == y,
{
    assert(u64_le(x)[0] == u64_le(y)[0]);
    assert(u64_le(x)[1] == u64_le(y)[1]);
    assert(u64_le(x)[2] == u64_le(y)[2]);
    assert(u64_le(x)[3] == u64_le(y)[3]);
    assert(u64_le(x)[4] == u64_le(y)[4]);
    assert(u64_le(x)[5] == u64_le(y)[5]);
    assert(u64_le(x)[6] == u64_le(y)[6]);
    assert(u64_le(x)[7] == u64_le(y)[7]);
    assert(x == y) by (bit_vector)
        requires
            (x & 0xff) as u8 == (y & 0xff) as u8,
            ((x >> 8u64) & 0xff) as u8 == ((y >> 8u64) & 0xff) as u8,
            ((x >> 16u64) & 0xff) as u8 == ((y >> 16u64) & 0xff) as u8,
            ((x >> 24u64) & 0xff) as u8 == ((y >> 24u64) & 0xff) as u8,
            ((x >> 32u64) & 0xff) as u8 == ((y >> 32u64) & 0xff) as u8,
            ((x >> 40u64) & 0xff) as u8 == ((y >> 40u64) & 0xff) as u8,
            ((x >> 48u64) & 0xff) as u8 == ((y >> 48u64) & 0xff) as u8,
            ((x >> 56u64) & 0xff) as u8 == ((y >> 56u64) & 0xff) as u8,
    ;
}

proof fn lemma_i64_le_injective(x: i64, y: i64)
    requires
        i64_le(x) == i64_le(y),
    ensures
        x == y,
{
    lemma_u64_le_injective(i64_bits(x), i64_bits(y));
}

/// Decoding gives back the request that was encoded: no two requests share
/// an encoding.
pub proof fn lemma_request_encoding_injective(a: PeeringRequest, b: PeeringRequest)
    requires
        encode_request(a) == encode_request(b),
    ensures
        a == b,
{
    let ea = encode_request(a);
    let eb = encode_request(b);
    assert(ea.subrange(0, 8) =~= i64_le(a.timestamp));
    assert(eb.subrange(0, 8) =~= i64_le(b.timestamp));
    assert(ea.subrange(8, 16) =~= i64_le(a.salt.expiration));
    assert(eb.subrange(8, 16) =~= i64_le(b.salt.expiration));
    assert(ea.subrange(16, 36) =~= a.salt.bytes@);
    assert(eb.subrange(16, 36) =~= b.salt.bytes@);
    lemma_i64_le_injective(a.timestamp, b.timestamp);
    lemma_i64_le_injective(a.salt.expiration, b.salt.expiration);
    assert(a.salt.bytes =~= b.salt.bytes);
}

/// Decoding gives back the response that was encoded: no two responses share
/// an encoding.
pub proof fn lemma_response_encoding_injective(a: PeeringResponse, b: PeeringResponse)
    requires
        encode_response(a) == encode_response(b),
    ensures
        a == b,
{
    let ea = encode_response(a);
    let eb = encode_response(b);
    assert(ea.subrange(0, 32) =~= a.request_hash@);
    assert(eb.subrange(0, 32) =~= b.request_hash@);
    assert(a.request_hash =~= b.request_hash);
    assert(ea[32] == eb[32]);
}

/// Decoding gives back the drop request that was encoded: no two drop
/// requests share an encoding.
pub proof fn lemma_drop_encoding_injective(a: DropPeeringRequest, b: DropPeeringRequest)
    requires
        encode_drop(a) == encode_drop(b),
    ensures
        a == b,
{
    lemma_i64_le_injective(a.timestamp, b.timestamp);
}

fn push_u64(out: &mut Vec<u8>, x: u64)
    ensures
        final(out)@ == old(out)@ + u64_le(x),
{
    out.push((x & 0xff) as u8);
    out.push(((x >> 8u64) & 0xff) as u8);
    out.push(((x >> 16u64) & 0xff) as u8);
    out.push(((x >> 24u64) & 0xff) as u8);
    out.push(((x >> 32u64) & 0xff) as u8);
    out.push(((x >> 40u64) & 0xff) as u8);
    out.push(((x >> 48u64) & 0xff) as u8);
    out.push(((x >> 56u64) & 0xff) as u8);
    assert(final(out)@ =~= old(out)@ + u64_le(x));
}

fn push_i64(out: &mut Vec<u8>, x: i64)
    ensures
        final(out)@ == old(out)@ + i64_le(x),
{
    let bits = ((x as i128) + 0x8000_0000_0000_0000i128) as u64;
    push_u64(out, bits);
}

fn assemble_u64(b0: u8, b1: u8, b2: u8, b3: u8, b4: u8, b5: u8, b6: u8, b7: u8) -> (r: u64)
    ensures
        u64_le(r) == seq![b0, b1, b2, b3, b4, b5, b6, b7],
{
    let r = (b0 as u64) | ((b1 as u64) << 8u64) | ((b2 as u64) << 16u64) | ((b3 as u64) << 24u64)
        | ((b4 as u64) << 32u64) | ((b5 as u64) << 40u64) | ((b6 as u64) << 48u64) | ((b7 as u64)
        << 56u64);
    assert(r & 0xff == b0 as u64) by (bit_vector)
        requires
            r == (b0 as u64) | ((b1 as u64) << 8u64) | ((b2 as u64) << 16u64) | ((b3 as u64) << 24u64)
                | ((b4 as u64) << 32u64) | ((b5 as u64) << 40u64) | ((b6 as u64) << 48u64) | ((
            b7 as u64) << 56u64),
    ;
    assert((r >> 8u64) & 0xff == b1 as u64) by (bit_vector)
        requires
            r == (b0 as u64) | ((b1 as u64) << 8u64) | ((b2 as u64) << 16u64) | ((b3 as u64) << 24u64)
                | ((b4 as u64) << 32u64) | ((b5 as u64) << 40u64) | ((b6 as u64) << 48u64) | ((
            b7 as u64) << 56u64),
    ;
    assert((r >> 16u64) & 0xff == b2 as u64) by (bit_vector)
        requires
            r == (b0 as u64) | ((b1 as u64) << 8u64) | ((b2 as u64) << 16u64) | ((b3 as u64) << 24u64)
                | ((b4 as u64) << 32u64) | ((b5 as u64) << 40u64) | ((b6 as u64) << 48u64) | ((
            b7 as u64) << 56u64),
    ;
    assert((r >> 24u64) & 0xff == b3 as u64) by (bit_vector)
        requires
            r == (b0 as u64) | ((b1 as u64) << 8u64) | ((b2 as u64) << 16u64) | ((b3 as u64) << 24u64)
                | ((b4 as u64) << 32u64) | ((b5 as u64) << 40u64) | ((b6 as u64) << 48u64) | ((
            b7 as u64) << 56u64),
    ;
    assert((r >> 32u64) & 0xff == b4 as u64) by (bit_vector)
        requires
            r == (b0 as u64) | ((b1 as u64) << 8u64) | ((b2 as u64) << 16u64) | ((b3 as u64) << 24u64)
                | ((b4 as u64) << 32u64) | ((b5 as u64) << 40u64) | ((b6 as u64) << 48u64) | ((
            b7 as u64) << 56u64),
    ;
    assert((r >> 40u64) & 0xff == b5 as u64) by (bit_vector)
        requires
            r == (b0 as u64) | ((b1 as u64) << 8u64) | ((b2 as u64) << 16u64) | ((b3 as u64) << 24u64)
                | ((b4 as u64) << 32u64) | ((b5 as u64) << 40u64) | ((b6 as u64) << 48u64) | ((
            b7 as u64) << 56u64),
    ;
    assert((r >> 48u64) & 0xff == b6 as u64) by (bit_vector)
        requires
            r == (b0 as u64) | ((b1 as u64) << 8u64) | ((b2 as u64) << 16u64) | ((b3 as u64) << 24u64)
                | ((b4 as u64) << 32u64) | ((b5 as u64) << 40u64) | ((b6 as u64) << 48u64) | ((
            b7 as u64) << 56u64),
    ;
    assert((r >> 56u64) & 0xff == b7 as u64) by (bit_vector)
        requires
            r == (b0 as u64) | ((b1 as u64) << 8u64) | ((b2 as u64) << 16u64) | ((b3 as u64) << 24u64)
                | ((b4 as u64) << 32u64) | ((b5 as u64) << 40u64) | ((b6 as u64) << 48u64) | ((
            b7 as u64) << 56u64),
    ;
    assert(u64_le(r) =~= seq![b0, b1, b2, b3, b4, b5, b6, b7]);
    r
}

/// Reads the eight bytes at `off` back into the `i64` they encode.
fn read_i64(bytes: &Vec<u8>, off: usize) -> (r: i64)
    requires
        off + 8 <= bytes@.len(),
    ensures
        i64_le(r) == bytes@.subrange(off as int, off + 8),
{
    let len = bytes.len();
    assert(off + 8 <= len);
    let u = assemble_u64(
        bytes[off],
        bytes[off + 1],
        bytes[off + 2],
        bytes[off + 3],
        bytes[off + 4],
        bytes[off + 5],
        bytes[off + 6],
        bytes[off + 7],
    );
    let r = ((u as i128) - 0x8000_0000_0000_0000i128) as i64;
    assert(i64_bits(r) == u);
    assert(bytes@.subrange(off as int, off + 8) =~= seq![
        bytes@[off as int],
        bytes@[off + 1],
        bytes@[off + 2],
        bytes@[off + 3],
        bytes@[off + 4],
        bytes@[off + 5],
        bytes@[off + 6],
        bytes@[off + 7],
    ]);
    r
}

/// The SHA-256 hash of a message's type code followed by its bytes.
pub fn message_hash(t: MessageType, bytes: &Vec<u8>) -> (r: [u8; 32])
    ensures
        r@ == message_hash_of(t, bytes@),
{
    let mut data: Vec<u8> = Vec::new();
    data.push(t.code());
    let mut i: usize = 0;
    while i < bytes.len()
        invariant
            0 <= i <= bytes@.len(),
            data@ == seq![type_code(t)] + bytes@.subrange(0, i as int),
        decreases bytes@.len() - i,
    {
        data.push(bytes[i]);
        i = i + 1;
        assert(data@ =~= seq![type_code(t)] + bytes@.subrange(0, i as int));
    }
    assert(bytes@.subrange(0, bytes@.len() as int) =~= bytes@);
    sha256(&data)
}

impl PeeringRequest {
    pub fn new(timestamp: i64, salt: Salt) -> (r: PeeringRequest)
        ensures
            r.timestamp == timestamp,
            r.salt == salt,
    {
        PeeringRequest { timestamp, salt }
    }

    pub fn to_bytes(&self) -> (r: Vec<u8>)
        ensures
            r@ == encode_request(*self),
    {
        let mut out: Vec<u8> = Vec::new();
        push_i64(&mut out, self.timestamp);
        push_i64(&mut out, self.salt.expiration);
        let mut i: usize = 0;
        while i < 20
            invariant
                0 <= i <= 20,
                self.salt.bytes@.len() == 20,
                out@ == i64_le(self.timestamp) + i64_le(self.salt.expiration)
                    + self.salt.bytes@.subrange(0, i as int),
            decreases 20 - i,
        {
            out.push(self.salt.bytes[i]);
            i = i + 1;
            assert(out@ =~= i64_le(self.timestamp) + i64_le(self.salt.expiration)
                + self.salt.bytes@.subrange(0, i as int));
        }
        assert(self.salt.bytes@.subrange(0, 20) =~= self.salt.bytes@);
        out
    }

    /// The request that `bytes` encode, if any.
    pub fn from_bytes(bytes: &Vec<u8>) -> (r: Option<PeeringRequest>)
        ensures
            match r {
                Some(m) => encode_request(m) == bytes@,
                None => forall|m: PeeringRequest| encode_request(m) != bytes@,
            },
    {
        if bytes.len() != 36 {
            assert forall|m: PeeringRequest| encode_request(m) != bytes@ by {
                assert(encode_request(m).len() == 36);
            }
            return None;
        }
        let timestamp = read_i64(bytes, 0);
        let expiration = read_i64(bytes, 8);
        let mut salt_bytes: [u8; 20] = [0u8; 20];
        let mut i: usize = 0;
        while i < 20
            invariant
                0 <= i <= 20,
                bytes@.len() == 36,
                salt_bytes@.len() == 20,
                forall|j: int| 0 <= j < i ==> salt_bytes@[j] == bytes@[16 + j],
            decreases 20 - i,
        {
            salt_bytes[i] = bytes[16 + i];
            i = i + 1;
        }
        let m = PeeringRequest { timestamp, salt: Salt { bytes: salt_bytes, expiration } };
        assert(salt_bytes@ =~= bytes@.subrange(16, 36));
        assert(bytes@ =~= bytes@.subrange(0, 8) + bytes@.subrange(8, 16) + bytes@.subrange(16, 36));
        Some(m)
    }
}

impl PeeringResponse {
    pub fn new(request_hash: [u8; 32], status: bool) -> (r: PeeringResponse)
        ensures
            r.request_hash == request_hash,
            r.status == status,
    {
        PeeringResponse { request_hash, status }
    }

    pub fn to_bytes(&self) -> (r: Vec<u8>)
        ensures
            r@ == encode_response(*self),
    {
        let mut out: Vec<u8> = Vec::new();
        let mut i: usize = 0;
        while i < 32
            invariant
                0 <= i <= 32,
                self.request_hash@.len() == 32,
                out@ == self.request_hash@.subrange(0, i as int),
            decreases 32 - i,
        {
            out.push(self.request_hash[i]);
            i = i + 1;
            assert(out@ =~= self.request_hash@.subrange(0, i as int));
        }
        out.push(if self.status { 1u8 } else { 0u8 });
        assert(out@ =~= encode_response(*self));
        out
    }

    /// The response that `bytes` encode, if any.
    pub fn from_bytes(bytes: &Vec<u8>) -> (r: Option<PeeringResponse>)
        ensures
            match r {
                Some(m) => encode_response(m) == bytes@,
                None => forall|m: PeeringResponse| encode_response(m) != bytes@,
            },
    {
        if bytes.len() != 33 || (bytes[32] != 0 && bytes[32] != 1) {
            assert forall|m: PeeringResponse| encode_response(m) != bytes@ by {
                assert(encode_response(m).len() == 33);
                if bytes@.len() == 33 {
                    assert(encode_response(m)[32] == bytes@[32] ==> false);
                }
            }
            return None;
        }
        let mut hash: [u8; 32] = [0u8; 32];
        let mut i: usize = 0;
        while i < 32
            invariant
                0 <= i <= 32,
                bytes@.len() == 33,
                hash@.len() == 32,
                forall|j: int| 0 <= j < i ==> hash@[j] == bytes@[j],
            decreases 32 - i,
        {
            hash[i] = bytes[i];
            i = i + 1;
        }
        let m = PeeringResponse { request_hash: hash, status: bytes[32] == 1 };
        assert(encode_response(m) =~= bytes@);
        Some(m)
    }
}

impl DropPeeringRequest {
    pub fn new(timestamp: i64) -> (r: DropPeeringRequest)
        ensures
            r.timestamp == timestamp,
    {
        DropPeeringRequest { timestamp }
    }

    pub fn to_bytes(&self) -> (r: Vec<u8>)
        ensures
            r@ == encode_drop(*self),
    {
        let mut out: Vec<u8> = Vec::new();
        push_i64(&mut out, self.timestamp);
        assert(out@ =~= encode_drop(*self));
        out
    }

    /// The drop request that `bytes` encode, if any.
    pub fn from_bytes(bytes: &Vec<u8>) -> (r: Option<DropPeeringRequest>)
        ensures
            match r {
                Some(m) => encode_drop(m) == bytes@,
                None => forall|m: DropPeeringRequest| encode_drop(m) != bytes@,
            },
    {
        if bytes.len() != 8 {
            assert forall|m: DropPeeringRequest| encode_drop(m) != bytes@ by {
                assert(encode_drop(m).len() == 8);
            }
            return None;
        }
        let timestamp = read_i64(bytes, 0);
        assert(bytes@.subrange(0, 8) =~= bytes@);
        Some(DropPeeringRequest { timestamp })
    }
}

} // verus!
