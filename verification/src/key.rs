//! Versioned keys.
//!
//! A full key is a user key followed by an eight-byte big-endian epoch. Full
//! keys are ordered by user key ascending, then by epoch descending, so the
//! newest version of a user key comes first.

use vstd::prelude::*;

verus! {

/// Number of trailing bytes of a full key that hold the epoch.
pub const EPOCH_LEN: usize = 8;

/// First byte of every key that belongs to a table.
pub const TABLE_PREFIX: u8 = 116;

/// Length of the table prefix: the marker byte and a big-endian table id.
pub const TABLE_PREFIX_LEN: usize = 5;

/// Result of comparing two keys.
#[derive(Clone, Copy, Debug, PartialEq, Eq, Structural)]
pub enum KeyOrder {
    Less,
    Equal,
    Greater,
}

/// A byte string long enough to end in an epoch.
pub open spec fn is_full_key(k: Seq<u8>) -> bool {
    k.len() >= 8
}

/// The user-key part of a full key.
pub open spec fn spec_user_key(k: Seq<u8>) -> Seq<u8> {
    k.subrange(0, k.len() - 8)
}

/// The number that eight bytes spell in big-endian order.
pub open spec fn be_u64(s: Seq<u8>) -> int {
    s[0] * 0x0100_0000_0000_0000 + s[1] * 0x0001_0000_0000_0000 + s[2] * 0x0000_0100_0000_0000
        + s[3] * 0x0000_0001_0000_0000 + s[4] * 0x0000_0000_0100_0000 + s[5]
        * 0x0000_0000_0001_0000 + s[6] * 0x0000_0000_0000_0100 + s[7]
}

/// The epoch of a full key.
pub open spec fn spec_epoch(k: Seq<u8>) -> u64 {
    be_u64(k.subrange(k.len() - 8, k.len() as int)) as u64
}

/// The eight bytes that spell `e` in big-endian order.
pub open spec fn epoch_bytes(e: u64) -> Seq<u8> {
    seq![
        (e / 0x0100_0000_0000_0000) as u8,
        (e / 0x0001_0000_0000_0000 % 256) as u8,
        (e / 0x0000_0100_0000_0000 % 256) as u8,
        (e / 0x0000_0001_0000_0000 % 256) as u8,
        (e / 0x0000_0000_0100_0000 % 256) as u8,
        (e / 0x0000_0000_0001_0000 % 256) as u8,
        (e / 0x0000_0000_0000_0100 % 256) as u8,
        (e % 256) as u8,
    ]
}

/// The full key made of a user key and an epoch.
pub open spec fn spec_full_key(user_key: Seq<u8>, epoch: u64) -> Seq<u8> {
    user_key + epoch_bytes(epoch)
}

/// The number that four bytes spell in big-endian order.
pub open spec fn be_u32(s: Seq<u8>) -> int {
    s[0] * 0x0100_0000 + s[1] * 0x0001_0000 + s[2] * 0x0000_0100 + s[3]
}

/// The table a key belongs to: keys that start with the table marker carry
/// a big-endian table id in the four bytes after it.
pub open spec fn spec_table_id(k: Seq<u8>) -> Option<u32> {
    if k.len() >= 5 && k[0] == TABLE_PREFIX {
        Some(be_u32(k.subrange(1, 5)) as u32)
    } else {
        None
    }
}

/// Strict lexicographic order on byte strings.
pub open spec fn lex_lt(a: Seq<u8>, b: Seq<u8>) -> bool
    decreases a.len(),
{
    if b.len() == 0 {
        false
    } else if a.len() == 0 {
        true
    } else if a[0] != b[0] {
        a[0] < b[0]
    } else {
        lex_lt(a.skip(1), b.skip(1))
    }
}

/// How two byte strings compare lexicographically.
pub open spec fn spec_compare_bytes(a: Seq<u8>, b: Seq<u8>) -> KeyOrder {
    if a == b {
        KeyOrder::Equal
    } else if lex_lt(a, b) {
        KeyOrder::Less
    } else {
        KeyOrder::Greater
    }
}

/// Strict order on full keys: user key ascending, then epoch descending.
pub open spec fn full_key_lt(a: Seq<u8>, b: Seq<u8>) -> bool {
    lex_lt(spec_user_key(a), spec_user_key(b)) || (spec_user_key(a) == spec_user_key(b)
        && spec_epoch(a) > spec_epoch(b))
}

/// How two full keys compare in the versioned order.
pub open spec fn spec_compare_key(a: Seq<u8>, b: Seq<u8>) -> KeyOrder {
    if full_key_lt(a, b) {
        KeyOrder::Less
    } else if spec_user_key(a) == spec_user_key(b) && spec_epoch(a) == spec_epoch(b) {
        KeyOrder::Equal
    } else {
        KeyOrder::Greater
    }
}

/// No byte string is below itself.
pub proof fn lemma_lex_irreflexive(a: Seq<u8>)
    ensures
        !lex_lt(a, a),
    decreases a.len(),
{
    if a.len() > 0 {
        lemma_lex_irreflexive(a.skip(1));
    }
}

/// Of two distinct byte strings exactly one is below the other.
pub proof fn lemma_lex_total(a: Seq<u8>, b: Seq<u8>)
    ensures
        a != b ==> (lex_lt(a, b) <==> !lex_lt(b, a)),
        a == b ==> !lex_lt(a, b),
    decreases a.len(),
{
    if a == b {
        lemma_lex_irreflexive(a);
    } else if a.len() == 0 || b.len() == 0 {
        if a.len() == 0 && b.len() == 0 {
            assert(a =~= b);
        }
    } else if a[0] == b[0] {
        if a.skip(1) == b.skip(1) {
            assert(a =~= seq![a[0]] + a.skip(1));
            assert(b =~= seq![b[0]] + b.skip(1));
        }
        lemma_lex_total(a.skip(1), b.skip(1));
    }
}

/// The lexicographic order is transitive.
pub proof fn lemma_lex_transitive(a: Seq<u8>, b: Seq<u8>, c: Seq<u8>)
    requires
        lex_lt(a, b),
        lex_lt(b, c),
    ensures
        lex_lt(a, c),
    decreases a.len(),
{
    if a.len() > 0 && a[0] == b[0] && b[0] == c[0] {
        lemma_lex_transitive(a.skip(1), b.skip(1), c.skip(1));
    }
}

/// The eight big-endian bytes of an epoch spell that epoch.
pub proof fn lemma_epoch_bytes_value(epoch: u64)
    ensures
        epoch_bytes(epoch).len() == 8,
        be_u64(epoch_bytes(epoch)) == epoch,
{
    let e = epoch;
    let b0: u64 = e / 0x0100_0000_0000_0000;
    let b1: u64 = e / 0x0001_0000_0000_0000 % 256;
    let b2: u64 = e / 0x0000_0100_0000_0000 % 256;
    let b3: u64 = e / 0x0000_0001_0000_0000 % 256;
    let b4: u64 = e / 0x0000_0000_0100_0000 % 256;
    let b5: u64 = e / 0x0000_0000_0001_0000 % 256;
    let b6: u64 = e / 0x0000_0000_0000_0100 % 256;
    let b7: u64 = e % 256;
    assert(b0 < 256 && b1 < 256 && b2 < 256 && b3 < 256 && b4 < 256 && b5 < 256 && b6 < 256 && b7
        < 256 && e == b0 * 0x0100_0000_0000_0000 + b1 * 0x0001_0000_0000_0000 + b2
        * 0x0000_0100_0000_0000 + b3 * 0x0000_0001_0000_0000 + b4 * 0x0000_0000_0100_0000 + b5
        * 0x0000_0000_0001_0000 + b6 * 0x0000_0000_0000_0100 + b7) by (bit_vector)
        requires
            b0 == e / 0x0100_0000_0000_0000,
            b1 == e / 0x0001_0000_0000_0000 % 256,
            b2 == e / 0x0000_0100_0000_0000 % 256,
            b3 == e / 0x0000_0001_0000_0000 % 256,
            b4 == e / 0x0000_0000_0100_0000 % 256,
            b5 == e / 0x0000_0000_0001_0000 % 256,
            b6 == e / 0x0000_0000_0000_0100 % 256,
            b7 == e % 256,
    ;
    let b = epoch_bytes(epoch);
    assert(b[0] == b0 && b[1] == b1 && b[2] == b2 && b[3] == b3 && b[4] == b4 && b[5] == b5
        && b[6] == b6 && b[7] == b7);
}

/// Splitting a full key built from a user key and an epoch gives both back.
pub proof fn lemma_full_key_parts(user_key: Seq<u8>, epoch: u64)
    ensures
        is_full_key(spec_full_key(user_key, epoch)),
        spec_user_key(spec_full_key(user_key, epoch)) == user_key,
        spec_epoch(spec_full_key(user_key, epoch)) == epoch,
{
    let k = spec_full_key(user_key, epoch);
    lemma_epoch_bytes_value(epoch);
    assert(k.subrange(0, k.len() - 8) =~= user_key);
    assert(k.subrange(k.len() - 8, k.len() as int) =~= epoch_bytes(epoch));
}

/// The versioned order is irreflexive.
pub proof fn lemma_full_key_irreflexive(a: Seq<u8>)
    ensures
        !full_key_lt(a, a),
{
    lemma_lex_irreflexive(spec_user_key(a));
}

/// The versioned order is transitive.
pub proof fn lemma_full_key_transitive(a: Seq<u8>, b: Seq<u8>, c: Seq<u8>)
    requires
        full_key_lt(a, b),
        full_key_lt(b, c),
    ensures
        full_key_lt(a, c),
{
    let (ua, ub, uc) = (spec_user_key(a), spec_user_key(b), spec_user_key(c));
    if lex_lt(ua, ub) && lex_lt(ub, uc) {
        lemma_lex_transitive(ua, ub, uc);
    }
}

/// Two full keys of which neither is below the other have the same user
/// key and the same epoch.
pub proof fn lemma_full_key_total(a: Seq<u8>, b: Seq<u8>)
    requires
        !full_key_lt(a, b),
        !full_key_lt(b, a),
    ensures
        spec_user_key(a) == spec_user_key(b),
        spec_epoch(a) == spec_epoch(b),
{
    lemma_lex_total(spec_user_key(a), spec_user_key(b));
}

/// A key that is not below another in the versioned order has a user key
/// that is not below the other's.
pub proof fn lemma_full_key_order_user_keys(a: Seq<u8>, b: Seq<u8>)
    ensures
        full_key_lt(a, b) ==> !lex_lt(spec_user_key(b), spec_user_key(a)),
        !full_key_lt(a, b) ==> !lex_lt(spec_user_key(a), spec_user_key(b)),
{
    lemma_lex_total(spec_user_key(a), spec_user_key(b));
}

/// The user-key part of a full key.
pub fn user_key(full_key: &[u8]) -> (u: &[u8])
    requires
        is_full_key(full_key@),
    ensures
        u@ == spec_user_key(full_key@),
{
    vstd::slice::slice_subrange(full_key, 0, full_key.len() - EPOCH_LEN)
}

/// The epoch of a full key.
pub fn get_epoch(full_key: &[u8]) -> (e: u64)
    requires
        is_full_key(full_key@),
    ensures
        e == spec_epoch(full_key@),
{
    let n = full_key.len();
    let ghost s = full_key@.subrange(n - 8, n as int);
    let b0: u64 = full_key[n - 8] as u64;
    let b1: u64 = full_key[n - 7] as u64;
    let b2: u64 = full_key[n - 6] as u64;
    let b3: u64 = full_key[n - 5] as u64;
    let b4: u64 = full_key[n - 4] as u64;
    let b5: u64 = full_key[n - 3] as u64;
    let b6: u64 = full_key[n - 2] as u64;
    let b7: u64 = full_key[n - 1] as u64;
    assert(s[0] == b0 && s[1] == b1 && s[2] == b2 && s[3] == b3 && s[4] == b4 && s[5] == b5
        && s[6] == b6 && s[7] == b7);
    b0 * 0x0100_0000_0000_0000 + b1 * 0x0001_0000_0000_0000 + b2 * 0x0000_0100_0000_0000 + b3
        * 0x0000_0001_0000_0000 + b4 * 0x0000_0000_0100_0000 + b5 * 0x0000_0000_0001_0000 + b6
        * 0x0000_0000_0000_0100 + b7
}

/// The table a key belongs to, if it carries the table marker.
pub fn get_table_id(full_key: &[u8]) -> (id: Option<u32>)
    ensures
        id == spec_table_id(full_key@),
{
    if full_key.len() >= TABLE_PREFIX_LEN && full_key[0] == TABLE_PREFIX {
        let ghost s = full_key@.subrange(1, 5);
        let b0: u32 = full_key[1] as u32;
        let b1: u32 = full_key[2] as u32;
        let b2: u32 = full_key[3] as u32;
        let b3: u32 = full_key[4] as u32;
        assert(s[0] == b0 && s[1] == b1 && s[2] == b2 && s[3] == b3);
        Some(b0 * 0x0100_0000 + b1 * 0x0001_0000 + b2 * 0x0000_0100 + b3)
    } else {
        None
    }
}

/// Appends the epoch to a user key, giving the full key.
pub fn key_with_epoch(user_key: Vec<u8>, epoch: u64) -> (full_key: Vec<u8>)
    ensures
        full_key@ == spec_full_key(user_key@, epoch),
{
    let mut k = user_key;
    k.push((epoch / 0x0100_0000_0000_0000) as u8);
    k.push((epoch / 0x0001_0000_0000_0000 % 256) as u8);
    k.push((epoch / 0x0000_0100_0000_0000 % 256) as u8);
    k.push((epoch / 0x0000_0001_0000_0000 % 256) as u8);
    k.push((epoch / 0x0000_0000_0100_0000 % 256) as u8);
    k.push((epoch / 0x0000_0000_0001_0000 % 256) as u8);
    k.push((epoch / 0x0000_0000_0000_0100 % 256) as u8);
    k.push((epoch % 256) as u8);
    assert(k@ =~= spec_full_key(user_key@, epoch));
    k
}

/// Compares two byte strings lexicographically.
pub fn compare_bytes(a: &[u8], b: &[u8]) -> (o: KeyOrder)
    ensures
        o == spec_compare_bytes(a@, b@),
{
    let mut i: usize = 0;
    assert(a@.skip(0) =~= a@ && b@.skip(0) =~= b@);
    while i < a.len() && i < b.len()
        invariant
            i <= a.len(),
            i <= b.len(),
            a@.subrange(0, i as int) == b@.subrange(0, i as int),
            lex_lt(a@, b@) == lex_lt(a@.skip(i as int), b@.skip(i as int)),
        decreases a.len() - i,
    {
        if a[i] != b[i] {
            assert(a@.skip(i as int)[0] == a@[i as int]);
            assert(b@.skip(i as int)[0] == b@[i as int]);
            if a[i] < b[i] {
                return KeyOrder::Less;
            } else {
                return KeyOrder::Greater;
            }
        }
        proof {
            assert(a@.skip(i as int)[0] == a@[i as int]);
            assert(b@.skip(i as int)[0] == b@[i as int]);
            assert(a@.skip(i as int).skip(1) =~= a@.skip(i + 1));
            assert(b@.skip(i as int).skip(1) =~= b@.skip(i + 1));
            assert(a@.subrange(0, i + 1) =~= a@.subrange(0, i as int).push(a@[i as int]));
            assert(b@.subrange(0, i + 1) =~= b@.subrange(0, i as int).push(b@[i as int]));
        }
        i += 1;
    }
    if a.len() == b.len() {
        assert(a@ =~= a@.subrange(0, i as int));
        assert(b@ =~= b@.subrange(0, i as int));
        KeyOrder::Equal
    } else if a.len() < b.len() {
        KeyOrder::Less
    } else {
        KeyOrder::Greater
    }
}

/// The comparator of full keys: user key ascending, then epoch descending.
pub struct VersionedComparator;

impl VersionedComparator {
    /// Whether two full keys have the same user key.
    pub fn same_user_key(lhs: &[u8], rhs: &[u8]) -> (same: bool)
        requires
            is_full_key(lhs@),
            is_full_key(rhs@),
        ensures
            same == (spec_user_key(lhs@) == spec_user_key(rhs@)),
    {
        let o = compare_bytes(user_key(lhs), user_key(rhs));
        o == KeyOrder::Equal
    }

    /// Compares two full keys in the versioned order.
    pub fn compare_key(lhs: &[u8], rhs: &[u8]) -> (o: KeyOrder)
        requires
            is_full_key(lhs@),
            is_full_key(rhs@),
        ensures
            o == spec_compare_key(lhs@, rhs@),
    {
        proof {
            lemma_lex_irreflexive(spec_user_key(lhs@));
        }
        match compare_bytes(user_key(lhs), user_key(rhs)) {
            KeyOrder::Less => KeyOrder::Less,
            KeyOrder::Greater => KeyOrder::Greater,
            KeyOrder::Equal => {
                let l = get_epoch(lhs);
                let r = get_epoch(rhs);
                if l > r {
                    KeyOrder::Less
                } else if l == r {
                    KeyOrder::Equal
                } else {
                    KeyOrder::Greater
                }
            },
        }
    }
}

} // verus!
