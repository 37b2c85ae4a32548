//! Candidates for an iterative DHT lookup, ordered by XOR affinity to the
//! key that is looked up.

use crate::ids::{affinity, get_affinity, AdnlNodeIdShort};
use vstd::prelude::*;

verus! {

/// A peer the DHT knows of, with its standing.
#[derive(Clone, Copy, Debug)]
pub struct KnownPeer {
    pub id: AdnlNodeIdShort,
    pub is_bad: bool,
}

/// A candidate: its affinity to the key, and its id.
pub type Candidate = (u16, AdnlNodeIdShort);

/// Whether a candidate of affinity `aff` joins the list during a scan.
pub open spec fn admits(list: Seq<Candidate>, aff: u16, batch_len: Option<usize>) -> bool {
    list.len() == 0 || batch_len is None || list.last().0 <= aff || list.len() < batch_len->0
}

/// The list after scanning `peers` in order: bad peers are skipped, the
/// others join when `admits` holds at their turn.
pub open spec fn scan(list: Seq<Candidate>, key: Seq<u8>, peers: Seq<KnownPeer>, batch_len: Option<usize>) -> Seq<Candidate>
    decreases peers.len(),
{
    if peers.len() == 0 {
        list
    } else {
        let l = scan(list, key, peers.drop_last(), batch_len);
        let p = peers.last();
        let a = affinity(key, p.id@) as u16;
        if !p.is_bad && admits(l, a, batch_len) {
            l.push((a, p.id))
        } else {
            l
        }
    }
}

/// The candidates of `s` with affinity `a`, in their order in `s`.
pub open spec fn with_affinity(s: Seq<Candidate>, a: int) -> Seq<Candidate>
    decreases s.len(),
{
    if s.len() == 0 {
        seq![]
    } else if s.last().0 == a {
        with_affinity(s.drop_last(), a).push(s.last())
    } else {
        with_affinity(s.drop_last(), a)
    }
}

/// The candidates of `s` with affinity below `n`, by ascending affinity, in
/// their order in `s` among equals.
pub open spec fn sorted_below(s: Seq<Candidate>, n: int) -> Seq<Candidate>
    decreases n,
{
    if n <= 0 {
        seq![]
    } else {
        sorted_below(s, n - 1) + with_affinity(s, n - 1)
    }
}

/// `s` sorted by ascending affinity (affinities are at most 256).
pub open spec fn sorted_by_affinity(s: Seq<Candidate>) -> Seq<Candidate> {
    sorted_below(s, 257)
}

/// Affinities do not decrease along `s`.
pub open spec fn ascending(s: Seq<Candidate>) -> bool {
    forall|i: int, j: int| 0 <= i <= j < s.len() ==> s[i].0 <= s[j].0
}

/// How many candidates at the end of `s` have affinity `top`, without a gap.
pub open spec fn trailing_ties(s: Seq<Candidate>, top: u16) -> int
    decreases s.len(),
{
    if s.len() == 0 {
        0
    } else if s.last().0 == top {
        1 + trailing_ties(s.drop_last(), top)
    } else {
        0
    }
}

/// How many candidates a batch of `batch` keeps of the sorted list `s`: all
/// tied with the top affinity, and at least `batch` when there are that many.
pub open spec fn keep_len(s: Seq<Candidate>, batch: usize) -> int {
    if s.len() == 0 {
        0
    } else {
        let ties = trailing_ties(s, s.last().0);
        let wanted = if batch < s.len() { batch as int } else { s.len() as int };
        if ties > wanted { ties } else { wanted }
    }
}

/// What a fill retains of the sorted list `s`.
pub open spec fn retained(s: Seq<Candidate>, batch_len: Option<usize>) -> Seq<Candidate> {
    match batch_len {
        None => s,
        Some(b) => s.subrange(s.len() - keep_len(s, b), s.len() as int),
    }
}

/// The part of the known peers that a scan from `index` visits.
pub open spec fn unscanned(known: Seq<KnownPeer>, index: usize) -> Seq<KnownPeer> {
    if index <= known.len() { known.subrange(index as int, known.len() as int) } else { seq![] }
}

/// A candidate carries the affinity of its id to `key`.
pub open spec fn entry_ok(key: Seq<u8>, e: Candidate) -> bool {
    e.0 as int == affinity(key, e.1@) && e.0 <= 256
}

/// A candidate list for `key`: every candidate carries its true affinity,
/// in ascending order.
pub open spec fn well_formed_list(key: Seq<u8>, s: Seq<Candidate>) -> bool {
    &&& ascending(s)
    &&& forall|i: int| 0 <= i < s.len() ==> #[trigger] entry_ok(key, s[i])
}

/// How many candidates of `s` have affinity `a`.
pub open spec fn count_eq(s: Seq<Candidate>, a: int) -> int
    decreases s.len(),
{
    if s.len() == 0 {
        0
    } else {
        count_eq(s.drop_last(), a) + if s.last().0 == a { 1int } else { 0int }
    }
}

/// How many candidates of `s` have affinity below `n`.
pub open spec fn count_below(s: Seq<Candidate>, n: int) -> int
    decreases s.len(),
{
    if s.len() == 0 {
        0
    } else {
        count_below(s.drop_last(), n) + if s.last().0 < n { 1int } else { 0int }
    }
}

proof fn lemma_leading_equal_bits_bound(key: Seq<u8>, peer: Seq<u8>, n: int)
    requires
        0 <= n,
    ensures
        0 <= crate::ids::leading_equal_bits(key, peer, n) <= n,
    decreases n,
{
    if n > 0 {
        lemma_leading_equal_bits_bound(key, peer, n - 1);
    }
}

proof fn lemma_scan_entries_ok(list: Seq<Candidate>, key: Seq<u8>, peers: Seq<KnownPeer>, batch_len: Option<usize>)
    requires
        forall|i: int| 0 <= i < list.len() ==> #[trigger] entry_ok(key, list[i]),
    ensures
        forall|i: int|
            0 <= i < scan(list, key, peers, batch_len).len() ==> #[trigger] entry_ok(key, scan(list, key, peers, batch_len)[i]),
    decreases peers.len(),
{
    if peers.len() > 0 {
        let l = scan(list, key, peers.drop_last(), batch_len);
        lemma_scan_entries_ok(list, key, peers.drop_last(), batch_len);
        let p = peers.last();
        lemma_leading_equal_bits_bound(key, p.id@, 256);
        let a = affinity(key, p.id@) as u16;
        assert forall|i: int| 0 <= i < l.push((a, p.id)).len() implies #[trigger] entry_ok(key, l.push((a, p.id))[i]) by {
            if i < l.len() {
                assert(l.push((a, p.id))[i] == l[i]);
            }
        }
    }
}

proof fn lemma_with_affinity_len(s: Seq<Candidate>, a: int)
    ensures
        with_affinity(s, a).len() == count_eq(s, a),
    decreases s.len(),
{
    if s.len() > 0 {
        lemma_with_affinity_len(s.drop_last(), a);
    }
}

proof fn lemma_count_below_step(s: Seq<Candidate>, n: int)
    ensures
        count_below(s, n + 1) == count_below(s, n) + count_eq(s, n),
        0 <= count_below(s, n) <= s.len(),
    decreases s.len(),
{
    if s.len() > 0 {
        lemma_count_below_step(s.drop_last(), n);
    }
}

proof fn lemma_count_below_all(s: Seq<Candidate>, n: int)
    requires
        forall|i: int| 0 <= i < s.len() ==> #[trigger] s[i].0 < n,
    ensures
        count_below(s, n) == s.len(),
    decreases s.len(),
{
    if s.len() > 0 {
        let d = s.drop_last();
        assert forall|i: int| 0 <= i < d.len() implies #[trigger] d[i].0 < n by {
            assert(d[i] == s[i]);
        }
        lemma_count_below_all(d, n);
    }
}

proof fn lemma_sorted_below_len(s: Seq<Candidate>, n: int)
    requires
        0 <= n,
    ensures
        sorted_below(s, n).len() == count_below(s, n),
    decreases n,
{
    if n > 0 {
        lemma_sorted_below_len(s, n - 1);
        lemma_with_affinity_len(s, n - 1);
        lemma_count_below_step(s, n - 1);
    } else {
        lemma_count_below_zero(s, n);
    }
}

proof fn lemma_count_below_zero(s: Seq<Candidate>, n: int)
    requires
        n <= 0,
    ensures
        count_below(s, n) == 0,
    decreases s.len(),
{
    if s.len() > 0 {
        lemma_count_below_zero(s.drop_last(), n);
    }
}

proof fn lemma_with_affinity_members(s: Seq<Candidate>, a: int)
    ensures
        forall|e: Candidate| s.contains(e) && e.0 == a ==> #[trigger] with_affinity(s, a).contains(e),
        forall|i: int| 0 <= i < with_affinity(s, a).len() ==> s.contains(#[trigger] with_affinity(s, a)[i]),
    decreases s.len(),
{
    if s.len() > 0 {
        let d = s.drop_last();
        let w = with_affinity(d, a);
        lemma_with_affinity_members(d, a);
        assert forall|e: Candidate| s.contains(e) && e.0 == a implies #[trigger] with_affinity(s, a).contains(e) by {
            let k = choose|k: int| 0 <= k < s.len() && s[k] == e;
            if k < s.len() - 1 {
                assert(d[k] == e);
                assert(d.contains(e));
                assert(w.contains(e));
                let m = choose|m: int| 0 <= m < w.len() && w[m] == e;
                if s.last().0 == a {
                    assert(w.push(s.last())[m] == e);
                }
            } else {
                assert(w.push(s.last())[w.len() as int] == e);
            }
        }
        assert forall|i: int| 0 <= i < with_affinity(s, a).len() implies s.contains(#[trigger] with_affinity(s, a)[i]) by {
            if i < w.len() {
                assert(with_affinity(s, a)[i] == w[i]);
                let k = choose|k: int| 0 <= k < d.len() && d[k] == w[i];
                assert(s[k] == d[k]);
            } else {
                assert(with_affinity(s, a)[i] == s.last());
                assert(s[s.len() - 1] == s.last());
            }
        }
    }
}

proof fn lemma_sorted_below_members(s: Seq<Candidate>, n: int)
    ensures
        forall|e: Candidate| s.contains(e) && 0 <= e.0 < n ==> #[trigger] sorted_below(s, n).contains(e),
        forall|i: int| 0 <= i < sorted_below(s, n).len() ==> s.contains(#[trigger] sorted_below(s, n)[i]),
    decreases n,
{
    if n > 0 {
        let p = sorted_below(s, n - 1);
        let w = with_affinity(s, n - 1);
        lemma_sorted_below_members(s, n - 1);
        lemma_with_affinity_members(s, n - 1);
        assert(sorted_below(s, n) == p + w);
        assert forall|e: Candidate| s.contains(e) && 0 <= e.0 < n implies #[trigger] sorted_below(s, n).contains(e) by {
            if e.0 < n - 1 {
                assert(p.contains(e));
                let k = choose|k: int| 0 <= k < p.len() && p[k] == e;
                assert((p + w)[k] == e);
            } else {
                assert(w.contains(e));
                let k = choose|k: int| 0 <= k < w.len() && w[k] == e;
                assert((p + w)[p.len() + k] == e);
            }
        }
        assert forall|i: int| 0 <= i < sorted_below(s, n).len() implies s.contains(#[trigger] sorted_below(s, n)[i]) by {
            if i < p.len() {
                assert((p + w)[i] == p[i]);
            } else {
                assert((p + w)[i] == w[i - p.len()]);
            }
        }
    }
}

/// A fill keeps the candidate list well formed, keeps every candidate with
/// the highest affinity among those scanned and held, keeps at least
/// `batch` of them when there are that many, and keeps all without a batch.
pub proof fn lemma_fill_keeps_best(key: Seq<u8>, s: Seq<Candidate>, batch_len: Option<usize>)
    requires
        forall|i: int| 0 <= i < s.len() ==> #[trigger] entry_ok(key, s[i]),
    ensures
        well_formed_list(key, retained(sorted_by_affinity(s), batch_len)),
        forall|e: Candidate|
            s.contains(e) && (forall|j: int| 0 <= j < s.len() ==> #[trigger] s[j].0 <= e.0)
                ==> #[trigger] retained(sorted_by_affinity(s), batch_len).contains(e),
        batch_len matches Some(b) ==> retained(sorted_by_affinity(s), batch_len).len()
            >= if b < s.len() { b as int } else { s.len() as int },
        batch_len is None ==> retained(sorted_by_affinity(s), batch_len).len() == s.len(),
{
    let t = sorted_by_affinity(s);
    let r = retained(t, batch_len);
    assert forall|i: int| 0 <= i < s.len() implies #[trigger] s[i].0 < 257 by {
        assert(entry_ok(key, s[i]));
    }
    lemma_count_below_all(s, 257);
    lemma_sorted_below_len(s, 257);
    lemma_sorted_below_members(s, 257);
    lemma_sorted_below(s, 257);
    lemma_fill_order(s, batch_len);
    assert(t.len() == s.len());
    if t.len() > 0 {
        lemma_trailing_ties(t, t.last().0);
    }
    // every kept candidate comes from `s`
    assert forall|i: int| 0 <= i < r.len() implies #[trigger] entry_ok(key, r[i]) by {
        let start = t.len() - r.len();
        assert(r[i] == t[start + i]);
        assert(s.contains(t[start + i]));
        let k = choose|k: int| 0 <= k < s.len() && s[k] == t[start + i];
        assert(entry_ok(key, s[k]));
    }
    assert forall|e: Candidate|
        s.contains(e) && (forall|j: int| 0 <= j < s.len() ==> #[trigger] s[j].0 <= e.0) implies #[trigger] r.contains(e) by {
        assert(t.contains(e));
        let k = choose|k: int| 0 <= k < t.len() && t[k] == e;
        assert(s.contains(t[t.len() - 1]));
        let m = choose|m: int| 0 <= m < s.len() && s[m] == t[t.len() - 1];
        assert(s[m].0 <= e.0);
        assert(t[k].0 <= t[t.len() - 1].0);
        assert(t[k].0 == t.last().0);
    }
}

proof fn lemma_scan_skips_bad(
    list: Seq<Candidate>,
    key: Seq<u8>,
    known: Seq<KnownPeer>,
    start: int,
    i: int,
    j: int,
    batch_len: Option<usize>,
)
    requires
        0 <= start <= i <= j <= known.len(),
        forall|m: int| i <= m < j ==> #[trigger] known[m].is_bad,
    ensures
        scan(list, key, known.subrange(start, j), batch_len) == scan(list, key, known.subrange(start, i), batch_len),
    decreases j - i,
{
    if j > i {
        assert(known.subrange(start, j).drop_last() =~= known.subrange(start, j - 1));
        lemma_scan_skips_bad(list, key, known, start, i, j - 1, batch_len);
    }
}

proof fn lemma_with_affinity_values(s: Seq<Candidate>, a: int)
    ensures
        forall|i: int| 0 <= i < with_affinity(s, a).len() ==> #[trigger] with_affinity(s, a)[i].0 == a,
    decreases s.len(),
{
    if s.len() > 0 {
        let p = with_affinity(s.drop_last(), a);
        lemma_with_affinity_values(s.drop_last(), a);
        if s.last().0 == a {
            assert forall|i: int| 0 <= i < p.push(s.last()).len() implies #[trigger] p.push(s.last())[i].0 == a by {
                if i < p.len() {
                    assert(p.push(s.last())[i] == p[i]);
                }
            }
        }
    }
}

proof fn lemma_sorted_below(s: Seq<Candidate>, n: int)
    ensures
        ascending(sorted_below(s, n)),
        forall|i: int| 0 <= i < sorted_below(s, n).len() ==> #[trigger] sorted_below(s, n)[i].0 < n,
    decreases n,
{
    if n > 0 {
        lemma_sorted_below(s, n - 1);
        lemma_with_affinity_values(s, n - 1);
        let p = sorted_below(s, n - 1);
        let w = with_affinity(s, n - 1);
        assert(sorted_below(s, n) == p + w);
        assert forall|i: int| 0 <= i < (p + w).len() implies #[trigger] (p + w)[i].0 < n by {
            if i >= p.len() {
                assert((p + w)[i] == w[i - p.len()]);
            }
        }
        assert forall|i: int, j: int| 0 <= i <= j < (p + w).len() implies (p + w)[i].0 <= (p + w)[j].0 by {
            if j >= p.len() {
                assert((p + w)[j] == w[j - p.len()]);
                if i >= p.len() {
                    assert((p + w)[i] == w[i - p.len()]);
                }
            }
        }
    }
}

proof fn lemma_trailing_ties(s: Seq<Candidate>, top: u16)
    ensures
        0 <= trailing_ties(s, top) <= s.len(),
        forall|i: int| s.len() - trailing_ties(s, top) <= i < s.len() ==> #[trigger] s[i].0 == top,
        trailing_ties(s, top) < s.len() ==> s[s.len() - 1 - trailing_ties(s, top)].0 != top,
    decreases s.len(),
{
    if s.len() > 0 {
        let d = s.drop_last();
        lemma_trailing_ties(d, top);
        if s.last().0 == top {
            assert forall|i: int| s.len() - trailing_ties(s, top) <= i < s.len() implies #[trigger] s[i].0 == top by {
                if i < s.len() - 1 {
                    assert(s[i] == d[i]);
                }
            }
            if trailing_ties(s, top) < s.len() {
                assert(s[s.len() - 1 - trailing_ties(s, top)] == d[d.len() - 1 - trailing_ties(d, top)]);
            }
        }
    }
}

/// After a fill, affinities never increase from one `next` to the following
/// one; a batch keeps at least `batch` candidates when there are that many;
/// and every candidate with the top affinity is kept.
pub proof fn lemma_fill_order(s: Seq<Candidate>, batch_len: Option<usize>)
    ensures
        ascending(retained(sorted_by_affinity(s), batch_len)),
        batch_len matches Some(b) ==> retained(sorted_by_affinity(s), batch_len).len()
            >= if b < sorted_by_affinity(s).len() { b as int } else { sorted_by_affinity(s).len() as int },
        forall|i: int|
            0 <= i < sorted_by_affinity(s).len() && sorted_by_affinity(s)[i].0 == sorted_by_affinity(s).last().0
                ==> retained(sorted_by_affinity(s), batch_len).contains(#[trigger] sorted_by_affinity(s)[i]),
{
    let t = sorted_by_affinity(s);
    lemma_sorted_below(s, 257);
    let r = retained(t, batch_len);
    match batch_len {
        None => {
            assert forall|i: int| 0 <= i < t.len() && t[i].0 == t.last().0 implies r.contains(#[trigger] t[i]) by {
                assert(r[i] == t[i]);
            }
        },
        Some(b) => {
            if t.len() > 0 {
                let top = t.last().0;
                lemma_trailing_ties(t, top);
                let k = keep_len(t, b);
                let start = t.len() - k;
                assert forall|i: int, j: int| 0 <= i <= j < r.len() implies r[i].0 <= r[j].0 by {
                    assert(r[i] == t[start + i]);
                    assert(r[j] == t[start + j]);
                }
                assert forall|i: int| 0 <= i < t.len() && t[i].0 == top implies r.contains(#[trigger] t[i]) by {
                    let ties = trailing_ties(t, top);
                    if i < t.len() - ties {
                        // a gap below the tied run holds a lower affinity
                        let g = t.len() - 1 - ties;
                        assert(t[i].0 <= t[g].0);
                        assert(t[g].0 <= top);
                        assert(t[g].0 != top);
                    }
                    assert(r[i - start] == t[i]);
                }
            }
        },
    }
}

/// Lookup candidates for `key_id`, best last.
pub struct PeersIter {
    key_id: [u8; 32],
    peer_ids: Vec<Candidate>,
    index: usize,
}

impl PeersIter {
    pub closed spec fn key(&self) -> Seq<u8> {
        self.key_id@
    }

    /// The candidates left, by ascending affinity after a fill.
    pub closed spec fn candidates(&self) -> Seq<Candidate> {
        self.peer_ids@
    }

    /// The candidates carry their true affinities, in ascending order.
    pub open spec fn wf(&self) -> bool {
        well_formed_list(self.key(), self.candidates())
    }

    /// How many of the known peers have been scanned.
    pub closed spec fn cursor(&self) -> usize {
        self.index
    }

    pub fn with_key_id(key_id: [u8; 32]) -> (r: PeersIter)
        ensures
            r.key() == key_id@,
            r.wf(),
            r.candidates() == Seq::<Candidate>::empty(),
            r.cursor() == 0,
    {
        PeersIter { key_id, peer_ids: Vec::new(), index: 0 }
    }

    /// Takes the candidate with the highest affinity left.
    pub fn next(&mut self) -> (r: Option<AdnlNodeIdShort>)
        requires
            old(self).wf(),
        ensures
            final(self).wf(),
            r matches Some(id) ==> forall|i: int|
                0 <= i < final(self).candidates().len() ==> #[trigger] final(self).candidates()[i].0 as int
                    <= affinity(old(self).key(), id@),
            final(self).key() == old(self).key(),
            final(self).cursor() == old(self).cursor(),
            old(self).candidates().len() == 0 ==> r is None && final(self).candidates() == old(self).candidates(),
            old(self).candidates().len() > 0 ==> r == Some(old(self).candidates().last().1)
                && final(self).candidates() == old(self).candidates().drop_last(),
    {
        let r = match self.peer_ids.pop() {
            Some(c) => Some(c.1),
            None => None,
        };
        proof {
            let o = old(self).candidates();
            if o.len() > 0 {
                assert(entry_ok(old(self).key(), o[o.len() - 1]));
                assert forall|i: int| 0 <= i < self.peer_ids@.len() implies #[trigger] entry_ok(self.key_id@, self.peer_ids@[i]) by {
                    assert(self.peer_ids@[i] == o[i]);
                }
                assert forall|i: int| 0 <= i < self.peer_ids@.len() implies #[trigger] self.peer_ids@[i].0 as int
                    <= affinity(old(self).key(), r->0@) by {
                    assert(self.peer_ids@[i] == o[i]);
                }
            }
        }
        r
    }

    /// Moves the cursor past the next peer that is not bad and returns it;
    /// `None`, with the cursor at the end, when there is none.
    fn next_known_peer(&mut self, known_peers: &Vec<KnownPeer>) -> (r: Option<AdnlNodeIdShort>)
        ensures
            final(self).key_id == old(self).key_id,
            final(self).peer_ids == old(self).peer_ids,
            old(self).index <= final(self).index,
            match r {
                Some(id) => {
                    &&& old(self).index < final(self).index <= known_peers@.len()
                    &&& known_peers@[final(self).index - 1].id == id
                    &&& !known_peers@[final(self).index - 1].is_bad
                    &&& forall|j: int| old(self).index <= j < final(self).index - 1 ==> #[trigger] known_peers@[j].is_bad
                },
                None => {
                    &&& final(self).index == if old(self).index <= known_peers@.len() { known_peers@.len() as int } else { old(self).index as int }
                    &&& forall|j: int| old(self).index <= j < final(self).index ==> #[trigger] known_peers@[j].is_bad
                },
            },
    {
        while self.index < known_peers.len()
            invariant
                self.key_id == old(self).key_id,
                self.peer_ids == old(self).peer_ids,
                old(self).index <= self.index,
                old(self).index <= known_peers@.len() ==> self.index <= known_peers@.len(),
                old(self).index > known_peers@.len() ==> self.index == old(self).index,
                forall|j: int| old(self).index <= j < self.index ==> #[trigger] known_peers@[j].is_bad,
            decreases known_peers@.len() - self.index,
        {
            let peer = known_peers[self.index];
            self.index = self.index + 1;
            if !peer.is_bad {
                return Some(peer.id);
            }
        }
        None
    }

    /// Scans the known peers from the cursor on, then sorts the candidates
    /// by ascending affinity and, for a batch, keeps the best of them.
    pub fn fill(&mut self, known_peers: &Vec<KnownPeer>, batch_len: Option<usize>)
        requires
            old(self).wf(),
            old(self).candidates().len() + known_peers@.len() <= usize::MAX,
        ensures
            final(self).wf(),
            forall|e: Candidate|
                scan(old(self).candidates(), old(self).key(), unscanned(known_peers@, old(self).cursor()), batch_len).contains(e)
                && (forall|j: int| 0 <= j < scan(old(self).candidates(), old(self).key(), unscanned(known_peers@, old(self).cursor()), batch_len).len()
                    ==> #[trigger] scan(old(self).candidates(), old(self).key(), unscanned(known_peers@, old(self).cursor()), batch_len)[j].0 <= e.0)
                ==> #[trigger] final(self).candidates().contains(e),
            batch_len matches Some(b) ==> final(self).candidates().len() >= if b < scan(old(self).candidates(), old(self).key(), unscanned(known_peers@, old(self).cursor()), batch_len).len() {
                b as int
            } else {
                scan(old(self).candidates(), old(self).key(), unscanned(known_peers@, old(self).cursor()), batch_len).len() as int
            },
            batch_len is None ==> final(self).candidates().len()
                == scan(old(self).candidates(), old(self).key(), unscanned(known_peers@, old(self).cursor()), batch_len).len(),
            final(self).key() == old(self).key(),
            final(self).cursor() == if old(self).cursor() <= known_peers@.len() { known_peers@.len() as int } else { old(self).cursor() as int },
            final(self).candidates() == retained(
                sorted_by_affinity(scan(old(self).candidates(), old(self).key(), unscanned(known_peers@, old(self).cursor()), batch_len)),
                batch_len,
            ),
            ascending(final(self).candidates()),
    {
        let ghost start = self.index;
        let ghost peers = unscanned(known_peers@, start);
        let ghost list0 = self.peer_ids@;
        let ghost scan_end: int = if start <= known_peers@.len() { known_peers@.len() as int } else { start as int };
        loop
            invariant
                start <= self.index,
                self.index <= known_peers@.len() || self.index == start,
                scan_end == if start <= known_peers@.len() { known_peers@.len() as int } else { start as int },
                peers == unscanned(known_peers@, start),
                self.key_id@ == old(self).key(),
                start <= known_peers@.len() ==> self.peer_ids@ == scan(
                    list0,
                    self.key_id@,
                    known_peers@.subrange(start as int, self.index as int),
                    batch_len,
                ),
                start > known_peers@.len() ==> self.peer_ids@ == list0,
                self.peer_ids@.len() <= list0.len() + (self.index - start),
                list0.len() + known_peers@.len() <= usize::MAX,
            ensures
                self.index == scan_end,
                self.key_id@ == old(self).key(),
                self.peer_ids@ == scan(list0, self.key_id@, peers, batch_len),
            decreases known_peers@.len() - self.index,
        {
            let ghost before = self.index;
            match self.next_known_peer(known_peers) {
                None => {
                    proof {
                        if start <= known_peers@.len() {
                            lemma_scan_skips_bad(list0, self.key_id@, known_peers@, start as int, before as int, self.index as int, batch_len);
                        }
                    }
                    break;
                },
                Some(peer_id) => {
                    let ghost at = self.index - 1;
                    proof {
                        lemma_scan_skips_bad(list0, self.key_id@, known_peers@, start as int, before as int, at, batch_len);
                        assert(known_peers@.subrange(start as int, self.index as int).drop_last()
                            =~= known_peers@.subrange(start as int, at));
                    }
                    let aff = get_affinity(&self.key_id, &peer_id);
                    let n = self.peer_ids.len();
                    let add = match batch_len {
                        None => true,
                        Some(b) => n == 0 || self.peer_ids[n - 1].0 <= aff || n < b,
                    };
                    if add {
                        self.peer_ids.push((aff, peer_id));
                    }
                },
            }
        }
        let sorted = sort_by_affinity(&self.peer_ids);
        proof {
            lemma_sorted_below(self.peer_ids@, 257);
        }
        let kept = match batch_len {
            None => sorted,
            Some(b) => keep_best(&sorted, b),
        };
        self.peer_ids = kept;
        proof {
            lemma_fill_order(scan(list0, old(self).key(), peers, batch_len), batch_len);
            lemma_scan_entries_ok(list0, old(self).key(), peers, batch_len);
            lemma_fill_keeps_best(old(self).key(), scan(list0, old(self).key(), peers, batch_len), batch_len);
        }
    }
}

/// Candidates of `v` by ascending affinity, stable among equals.
fn sort_by_affinity(v: &Vec<Candidate>) -> (r: Vec<Candidate>)
    ensures
        r@ == sorted_by_affinity(v@),
{
    let mut out: Vec<Candidate> = Vec::new();
    let mut a: u16 = 0;
    while a < 257
        invariant
            0 <= a <= 257,
            out@ == sorted_below(v@, a as int),
        decreases 257 - a,
    {
        let mut j: usize = 0;
        while j < v.len()
            invariant
                0 <= j <= v@.len(),
                out@ == sorted_below(v@, a as int) + with_affinity(v@.subrange(0, j as int), a as int),
            decreases v@.len() - j,
        {
            assert(v@.subrange(0, j + 1).drop_last() =~= v@.subrange(0, j as int));
            if v[j].0 == a {
                out.push(v[j]);
                assert(out@ =~= sorted_below(v@, a as int) + with_affinity(v@.subrange(0, j + 1), a as int));
            }
            j = j + 1;
        }
        assert(v@.subrange(0, v@.len() as int) =~= v@);
        a = a + 1;
    }
    out
}

/// The last `keep_len(s, batch)` candidates of the sorted list `s`.
fn keep_best(s: &Vec<Candidate>, batch: usize) -> (r: Vec<Candidate>)
    ensures
        r@ == retained(s@, Some(batch)),
{
    let len = s.len();
    if len == 0 {
        assert(s@.subrange(0, 0) =~= s@);
        return Vec::new();
    }
    let top = s[len - 1].0;
    let mut ties: usize = 0;
    assert(s@.subrange(0, len as int) =~= s@);
    while ties < len && s[len - 1 - ties].0 == top
        invariant
            0 <= ties <= len == s@.len(),
            trailing_ties(s@, top) == ties + trailing_ties(s@.subrange(0, len - ties), top),
        decreases len - ties,
    {
        let ghost pre = s@.subrange(0, len - ties);
        assert(pre.drop_last() =~= s@.subrange(0, len - ties - 1));
        ties = ties + 1;
    }
    assert(s@.subrange(0, 0) =~= Seq::<Candidate>::empty());
    assert(trailing_ties(s@.subrange(0, len - ties), top) == 0);
    let wanted = if batch < len { batch } else { len };
    let keep = if ties > wanted { ties } else { wanted };
    let mut r: Vec<Candidate> = Vec::new();
    let mut i: usize = len - keep;
    while i < len
        invariant
            keep <= len,
            len - keep <= i <= len == s@.len(),
            r@ == s@.subrange(len - keep, i as int),
        decreases len - i,
    {
        r.push(s[i]);
        i = i + 1;
        assert(r@ =~= s@.subrange(len - keep, i as int));
    }
    r
}

} // verus!
