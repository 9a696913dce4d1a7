//! Random ledger receipts, for exercising code that consumes receipts.

use rand::Rng;
use vstd::prelude::*;

verus! {

/// Smallest amount a migrated funds entry may carry.
pub const MIGRATED_FUNDS_ENTRY_AMOUNT_MIN: u64 = 1_000_000;

/// Largest amount a migrated funds entry may carry.
pub const MIGRATED_FUNDS_ENTRY_AMOUNT_MAX: u64 = 2_779_530_283_277_761;

/// Largest number of funds entries in one receipt.
pub const MIGRATED_FUNDS_ENTRY_COUNT_MAX: u64 = 127;

/// Length of a tail transaction hash in trytes.
pub const TAIL_TRANSACTION_TRYTES: usize = 81;

/// Length of a tail transaction hash in bytes: 243 trits, five to a byte.
pub const TAIL_TRANSACTION_HASH_LEN: usize = 49;

/// Funds migrated from a tail transaction.
#[derive(Clone, Debug, PartialEq, Eq)]
pub struct MigratedFundsEntry {
    pub tail_transaction_hash: Vec<u8>,
    pub amount: u64,
}

/// A receipt of migrated funds, as recorded in the ledger.
#[derive(Clone, Debug, PartialEq, Eq)]
pub struct Receipt {
    /// Milestone index at which the funds were migrated.
    pub migrated_at: u32,
    /// Whether this is the last receipt for that milestone.
    pub last: bool,
    pub funds: Vec<MigratedFundsEntry>,
    /// Milestone index that included the receipt.
    pub included_in: u32,
}

impl MigratedFundsEntry {
    pub open spec fn wf(&self) -> bool {
        &&& self.tail_transaction_hash@.len() == TAIL_TRANSACTION_HASH_LEN
        &&& is_tail_hash(self.tail_transaction_hash@)
        &&& MIGRATED_FUNDS_ENTRY_AMOUNT_MIN <= self.amount <= MIGRATED_FUNDS_ENTRY_AMOUNT_MAX
    }
}

impl Receipt {
    /// Between one and the maximum number of entries, each well formed.
    pub open spec fn wf(&self) -> bool {
        &&& 1 <= self.funds@.len() <= MIGRATED_FUNDS_ENTRY_COUNT_MAX
        &&& forall|i: int| 0 <= i < self.funds@.len() ==> (#[trigger] self.funds@[i]).wf()
    }
}

/// Relies on `rand::Rng::gen_range` on the thread-local generator: a value
/// in `lo..=hi`, which must not be empty.
#[verifier::external_body]
fn random_in(lo: u64, hi: u64) -> (r: u64)
    requires
        lo <= hi,
    ensures
        lo <= r <= hi,
{
    rand::thread_rng().gen_range(lo..=hi)
}

fn rand_milestone_index() -> (r: u32) {
    random_in(0, 0xffff_ffff) as u32
}

/// One of the 27 tryte characters `A`..`Z` and `9`.
pub open spec fn is_tryte_char(c: u8) -> bool {
    (65 <= c <= 90) || c == 57
}

/// A hash of 81 trytes.
pub open spec fn is_tail_trytes(t: Seq<u8>) -> bool {
    t.len() == TAIL_TRANSACTION_TRYTES && forall|i: int| 0 <= i < t.len() ==> is_tryte_char(#[trigger] t[i])
}

/// The balanced value of a tryte: `9` is 0, `A`..`M` are 1..13, `N`..`Z` are -13..-1.
pub open spec fn tryte_value(c: u8) -> int {
    if c == 57 {
        0
    } else if c <= 77 {
        c - 64
    } else {
        c - 91
    }
}

/// Balanced trit `j` (0, 1 or 2, least significant first) of tryte `c`.
pub open spec fn tryte_trit(c: u8, j: int) -> int {
    let u = tryte_value(c) + 13;
    if j == 0 {
        u % 3 - 1
    } else if j == 1 {
        (u / 3) % 3 - 1
    } else {
        u / 9 - 1
    }
}

/// The trits of a tryte string, three per tryte, least significant first.
pub open spec fn trits_of(t: Seq<u8>) -> Seq<int> {
    Seq::new(3 * t.len(), |k: int| tryte_trit(t[k / 3], k % 3))
}

pub open spec fn trit_at(t: Seq<int>, k: int) -> int {
    if 0 <= k < t.len() {
        t[k]
    } else {
        0
    }
}

/// The value of the five trits packed into byte `j`.
pub open spec fn packed(t: Seq<int>, j: int) -> int {
    trit_at(t, 5 * j) + 3 * trit_at(t, 5 * j + 1) + 9 * trit_at(t, 5 * j + 2) + 27 * trit_at(t, 5 * j + 3) + 81
        * trit_at(t, 5 * j + 4)
}

/// A signed byte value in two's complement.
pub open spec fn byte_of(v: int) -> u8 {
    (if v < 0 {
        v + 256
    } else {
        v
    }) as u8
}

/// The T5B1 encoding of a tryte string: five trits to a byte, the last byte
/// holding what is left.
pub open spec fn t5b1_of(t: Seq<u8>) -> Seq<u8> {
    Seq::new(((3 * t.len() + 4) / 5) as nat, |j: int| byte_of(packed(trits_of(t), j)))
}

/// Bytes that encode a tail transaction hash of 81 trytes.
pub open spec fn is_tail_hash(b: Seq<u8>) -> bool {
    exists|t: Seq<u8>| is_tail_trytes(t) && b == #[trigger] t5b1_of(t)
}

/// A random tryte character.
fn rand_tryte() -> (r: u8)
    ensures
        is_tryte_char(r),
{
    let i = random_in(0, 26);
    if i == 26 {
        57
    } else {
        65 + i as u8
    }
}

/// The digits of a tryte's value shifted into 0..=26.
fn tryte_offset(c: u8) -> (r: u32)
    requires
        is_tryte_char(c),
    ensures
        r as int == tryte_value(c) + 13,
        r <= 26,
{
    if c == 57 {
        13
    } else if c <= 77 {
        c as u32 - 64 + 13
    } else {
        c as u32 - 78
    }
}

/// A random tail transaction hash: 81 random trytes in T5B1 encoding.
pub fn rand_tail_transaction_hash() -> (r: Vec<u8>)
    ensures
        r@.len() == TAIL_TRANSACTION_HASH_LEN,
        is_tail_hash(r@),
{
    let mut trytes: Vec<u8> = Vec::new();
    let mut trits: Vec<i32> = Vec::new();
    let mut i: usize = 0;
    while i < TAIL_TRANSACTION_TRYTES
        invariant
            0 <= i <= TAIL_TRANSACTION_TRYTES,
            trytes@.len() == i,
            trits@.len() == 3 * i,
            forall|k: int| 0 <= k < i ==> is_tryte_char(#[trigger] trytes@[k]),
            forall|k: int| 0 <= k < 3 * i ==> #[trigger] trits@[k] as int == tryte_trit(trytes@[k / 3], k % 3),
            forall|k: int| 0 <= k < 3 * i ==> -1 <= #[trigger] trits@[k] <= 1,
        decreases TAIL_TRANSACTION_TRYTES - i,
    {
        let c = rand_tryte();
        let u = tryte_offset(c);
        trytes.push(c);
        trits.push((u % 3) as i32 - 1);
        trits.push(((u / 3) % 3) as i32 - 1);
        trits.push((u / 9) as i32 - 1);
        proof {
            assert forall|k: int| 0 <= k < 3 * (i + 1) implies #[trigger] trits@[k] as int == tryte_trit(
                trytes@[k / 3],
                k % 3,
            ) by {
                if k >= 3 * i {
                    assert(k / 3 == i);
                    assert(trytes@[k / 3] == c);
                } else {
                    assert(k / 3 < i);
                }
            }
        }
        i = i + 1;
    }
    let ghost t = trytes@;
    assert(trits@.len() == trits_of(t).len());
    assert forall|k: int| 0 <= k < trits@.len() implies trits@[k] as int == #[trigger] trits_of(t)[k] by {}
    let mut hash: Vec<u8> = Vec::new();
    let mut j: usize = 0;
    while j < TAIL_TRANSACTION_HASH_LEN
        invariant
            0 <= j <= TAIL_TRANSACTION_HASH_LEN,
            trits@.len() == 243,
            trits_of(t).len() == 243,
            forall|k: int| 0 <= k < 243 ==> trits@[k] as int == #[trigger] trits_of(t)[k],
            forall|k: int| 0 <= k < 243 ==> -1 <= #[trigger] trits@[k] <= 1,
            hash@.len() == j,
            forall|m: int| 0 <= m < j ==> #[trigger] hash@[m] == byte_of(packed(trits_of(t), m)),
        decreases TAIL_TRANSACTION_HASH_LEN - j,
    {
        let mut v: i32 = 0;
        let mut p: i32 = 1;
        let mut k: usize = 0;
        while k < 5
            invariant
                0 <= k <= 5,
                j < TAIL_TRANSACTION_HASH_LEN,
                trits@.len() == 243,
                trits_of(t).len() == 243,
                forall|q: int| 0 <= q < 243 ==> trits@[q] as int == #[trigger] trits_of(t)[q],
                forall|q: int| 0 <= q < 243 ==> -1 <= #[trigger] trits@[q] <= 1,
                p == (if k == 0 { 1int } else if k == 1 { 3 } else if k == 2 { 9 } else if k == 3 { 27 } else if k == 4 { 81 } else { 243 }),
                v as int == (if k > 0 { trit_at(trits_of(t), 5 * j) } else { 0 })
                    + (if k > 1 { 3 * trit_at(trits_of(t), 5 * j + 1) } else { 0 })
                    + (if k > 2 { 9 * trit_at(trits_of(t), 5 * j + 2) } else { 0 })
                    + (if k > 3 { 27 * trit_at(trits_of(t), 5 * j + 3) } else { 0 })
                    + (if k > 4 { 81 * trit_at(trits_of(t), 5 * j + 4) } else { 0 }),
                -121 <= v <= 121,
                -(p as int) < v < p,
            decreases 5 - k,
        {
            let idx = 5 * j + k;
            if idx < 243 {
                let tr = trits[idx];
                assert(trit_at(trits_of(t), idx as int) == trits_of(t)[idx as int]);
                assert(trits_of(t)[idx as int] == tr as int);
                if tr == 1 {
                    v = v + p;
                } else if tr == -1 {
                    v = v - p;
                }
            }
            proof {
                if idx >= 243 {
                    assert(trit_at(trits_of(t), idx as int) == 0);
                }
            }
            p = p * 3;
            k = k + 1;
        }
        let b: u8 = if v < 0 {
            (v + 256) as u8
        } else {
            v as u8
        };
        hash.push(b);
        j = j + 1;
    }
    assert(hash@ =~= t5b1_of(t));
    hash
}

/// A random well-formed migrated funds entry.
pub fn rand_migrated_funds_entry() -> (r: MigratedFundsEntry)
    ensures
        r.wf(),
{
    let hash = rand_tail_transaction_hash();
    let amount = random_in(MIGRATED_FUNDS_ENTRY_AMOUNT_MIN, MIGRATED_FUNDS_ENTRY_AMOUNT_MAX);
    MigratedFundsEntry { tail_transaction_hash: hash, amount }
}

/// A random well-formed receipt.
pub fn rand_ledger_receipt() -> (r: Receipt)
    ensures
        r.wf(),
{
    let migrated_at = rand_milestone_index();
    let last = random_in(0, 1) == 1;
    let count = random_in(1, MIGRATED_FUNDS_ENTRY_COUNT_MAX);
    let mut funds: Vec<MigratedFundsEntry> = Vec::new();
    let mut i: u64 = 0;
    while i < count
        invariant
            0 <= i <= count,
            count <= MIGRATED_FUNDS_ENTRY_COUNT_MAX,
            funds@.len() == i,
            forall|j: int| 0 <= j < funds@.len() ==> (#[trigger] funds@[j]).wf(),
        decreases count - i,
    {
        funds.push(rand_migrated_funds_entry());
        i = i + 1;
    }
    let included_in = rand_milestone_index();
    Receipt { migrated_at, last, funds, included_in }
}

} // verus!
