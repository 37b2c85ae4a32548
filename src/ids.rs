//! 256-bit identifiers: their byte-lexicographic order, the bitwise
//! complement that pairs transfer ids, and the XOR affinity of two ids.

use vstd::prelude::*;

verus! {

/// Short id of a node: 32 opaque bytes.
pub type AdnlNodeIdShort = [u8; 32];

/// Id of one direction of an RLDP transfer.
pub type TransferId = [u8; 32];

/// Byte-lexicographic comparison of `a` and `b` from position `i` on:
/// -1, 0 or 1.
pub open spec fn cmp_from(a: Seq<u8>, b: Seq<u8>, i: int) -> int
    decreases a.len() - i,
{
    if i < 0 || i >= a.len() || i >= b.len() {
        0
    } else if a[i] < b[i] {
        -1
    } else if a[i] > b[i] {
        1
    } else {
        cmp_from(a, b, i + 1)
    }
}

/// Byte-lexicographic comparison of two ids: -1, 0 or 1.
pub open spec fn id_cmp(a: Seq<u8>, b: Seq<u8>) -> int {
    cmp_from(a, b, 0)
}

/// Swapping the arguments flips the sign of the comparison.
pub proof fn lemma_cmp_from_antisymmetric(a: Seq<u8>, b: Seq<u8>, i: int)
    requires
        0 <= i,
    ensures
        cmp_from(b, a, i) == -cmp_from(a, b, i),
    decreases a.len() - i,
{
    if i < a.len() && i < b.len() && a[i] == b[i] {
        lemma_cmp_from_antisymmetric(a, b, i + 1);
    }
}

/// Equal-length sequences compare equal from `i` only when they agree from `i` on.
pub proof fn lemma_cmp_from_zero(a: Seq<u8>, b: Seq<u8>, i: int)
    requires
        0 <= i <= a.len(),
        a.len() == b.len(),
        cmp_from(a, b, i) == 0,
    ensures
        forall|j: int| i <= j < a.len() ==> a[j] == b[j],
    decreases a.len() - i,
{
    if i < a.len() {
        lemma_cmp_from_zero(a, b, i + 1);
    }
}

/// Two ids compare equal exactly when they are the same id.
pub proof fn lemma_id_cmp_zero(a: [u8; 32], b: [u8; 32])
    ensures
        id_cmp(a@, b@) == 0 <==> a@ == b@,
{
    if id_cmp(a@, b@) == 0 {
        lemma_cmp_from_zero(a@, b@, 0);
        assert(a@ =~= b@);
    }
    if a@ == b@ {
        lemma_cmp_from_self(a@, 0);
    }
}

proof fn lemma_cmp_from_self(a: Seq<u8>, i: int)
    requires
        0 <= i,
    ensures
        cmp_from(a, a, i) == 0,
    decreases a.len() - i,
{
    if i < a.len() {
        lemma_cmp_from_self(a, i + 1);
    }
}

/// Compares two node ids byte by byte: -1 when `a` comes first, 1 when `b`
/// does, 0 when they are equal.
pub fn compare_ids(a: &AdnlNodeIdShort, b: &AdnlNodeIdShort) -> (r: i8)
    ensures
        r as int == id_cmp(a@, b@),
{
    let mut i: usize = 0;
    while i < 32
        invariant
            0 <= i <= 32,
            cmp_from(a@, b@, 0) == cmp_from(a@, b@, i as int),
        decreases 32 - i,
    {
        if a[i] < b[i] {
            return -1;
        } else if a[i] > b[i] {
            return 1;
        }
        i = i + 1;
    }
    0
}

/// Bitwise complement of an id.
pub open spec fn complement(t: Seq<u8>) -> Seq<u8> {
    Seq::new(t.len(), |i: int| t[i] ^ 0xffu8)
}

/// The id of the incoming transfer paired with the outgoing transfer `t`:
/// every byte complemented.
pub fn incoming_transfer_id(t: &TransferId) -> (r: TransferId)
    ensures
        r@ == complement(t@),
{
    let mut r: [u8; 32] = *t;
    let mut i: usize = 0;
    while i < 32
        invariant
            0 <= i <= 32,
            r@.len() == 32,
            forall|j: int| 0 <= j < i ==> r@[j] == t@[j] ^ 0xffu8,
            forall|j: int| i <= j < 32 ==> r@[j] == t@[j],
        decreases 32 - i,
    {
        let b = t[i] ^ 0xffu8;
        r[i] = b;
        i = i + 1;
    }
    assert(r@ =~= complement(t@));
    r
}

/// An outgoing transfer id and its paired incoming id XOR to all ones, and
/// the pairing is its own inverse.
pub proof fn lemma_transfer_id_pairing(t: TransferId)
    ensures
        forall|i: int| 0 <= i < 32 ==> #[trigger] t@[i] ^ complement(t@)[i] == 0xffu8,
        complement(complement(t@)) == t@,
{
    assert forall|i: int| 0 <= i < 32 implies #[trigger] t@[i] ^ complement(t@)[i] == 0xffu8 by {
        let x = t@[i];
        assert(x ^ (x ^ 0xffu8) == 0xffu8) by (bit_vector);
    }
    assert forall|i: int| 0 <= i < 32 implies #[trigger] complement(complement(t@))[i] == t@[i] by {
        let x = t@[i];
        assert((x ^ 0xffu8) ^ 0xffu8 == x) by (bit_vector);
    }
    assert(complement(complement(t@)) =~= t@);
}

/// Bit `i` (most significant first) of `key XOR peer` is set.
pub open spec fn bit_differs(key: Seq<u8>, peer: Seq<u8>, i: int) -> bool {
    ((key[i / 8] ^ peer[i / 8]) >> ((7 - i % 8) as u8)) & 1u8 != 0
}

/// The number of leading bits on which `key` and `peer` agree, counted over
/// the first `n` bits.
pub open spec fn leading_equal_bits(key: Seq<u8>, peer: Seq<u8>, n: int) -> int
    decreases n,
{
    if n <= 0 {
        0
    } else if leading_equal_bits(key, peer, n - 1) == n - 1 && !bit_differs(key, peer, n - 1) {
        n
    } else {
        leading_equal_bits(key, peer, n - 1)
    }
}

/// XOR affinity of two ids: the count of leading equal bits, 0 to 256.
pub open spec fn affinity(key: Seq<u8>, peer: Seq<u8>) -> int {
    leading_equal_bits(key, peer, 256)
}

proof fn lemma_leading_equal_bits_stops(key: Seq<u8>, peer: Seq<u8>, k: int, n: int)
    requires
        0 <= k < n,
        leading_equal_bits(key, peer, k + 1) == k,
    ensures
        leading_equal_bits(key, peer, n) == k,
    decreases n,
{
    if n > k + 1 {
        lemma_leading_equal_bits_stops(key, peer, k, n - 1);
    }
}

/// Counts the leading bits on which two ids agree (higher is closer).
pub fn get_affinity(key: &[u8; 32], peer: &[u8; 32]) -> (r: u16)
    ensures
        r as int == affinity(key@, peer@),
        r <= 256,
{
    let mut i: u16 = 0;
    while i < 256
        invariant
            0 <= i <= 256,
            leading_equal_bits(key@, peer@, i as int) == i,
        decreases 256 - i,
    {
        let byte: usize = (i / 8) as usize;
        let shift: u8 = (7 - i % 8) as u8;
        if ((key[byte] ^ peer[byte]) >> shift) & 1u8 != 0 {
            proof {
                lemma_leading_equal_bits_stops(key@, peer@, i as int, 256);
            }
            return i;
        }
        i = i + 1;
    }
    i
}

} // verus!
