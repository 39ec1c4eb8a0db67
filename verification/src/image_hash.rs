//! Perceptual-hash identification.
//!
//! The reference table maps 64-bit perceptual hashes to catalog identifiers,
//! built offline from one canonical image per catalog entry and read-only at
//! runtime.  A query hash is resolved by scanning the whole table for the
//! entry at the smallest Hamming distance; no distance cutoff is applied,
//! the closest entry is always returned.  Hashing the pixels themselves
//! happens outside the library; this module works on the plain 64-bit
//! values.

use vstd::prelude::*;
use vstd::string::StrSliceExecFns;
use vstd::string::StringExecFns;

verus! {

/// Number of set bits among the low `k` bits of `x`.
pub open spec fn pc(x: u64, k: nat) -> nat
    decreases k,
{
    if k == 0 {
        0
    } else {
        ((x & 1) + pc(x >> 1, (k - 1) as nat)) as nat
    }
}

/// Number of set bits of `x`.
pub open spec fn popcount(x: u64) -> nat {
    pc(x, 64)
}

/// The Hamming distance between two 64-bit hashes: the number of differing
/// bits, the popcount of their exclusive or.
pub open spec fn spec_hamming(a: u64, b: u64) -> nat {
    popcount(a ^ b)
}

/// Count the differing bits of the two hashes.
pub fn hamming_distance(hash: u64, hash1: u64) -> (r: u64)
    ensures
        r == spec_hamming(hash, hash1),
        r <= 64,
{
    let mut x: u64 = hash ^ hash1;
    let mut distance: u64 = 0;
    let mut i: usize = 0;
    while i < 64
        invariant
            0 <= i <= 64,
            distance <= i,
            distance + pc(x, (64 - i) as nat) == popcount(hash ^ hash1),
        decreases 64 - i,
    {
        proof {
            assert(x & 1 == 0 || x & 1 == 1) by (bit_vector);
        }
        distance = distance + (x & 1);
        x = x >> 1;
        i = i + 1;
    }
    distance
}

proof fn lemma_pc_zero(k: nat)
    ensures
        pc(0, k) == 0,
    decreases k,
{
    if k > 0 {
        assert(0u64 >> 1 == 0) by (bit_vector);
        assert(0u64 & 1 == 0) by (bit_vector);
        lemma_pc_zero((k - 1) as nat);
    }
}

/// A hash is at distance zero from itself.
pub proof fn lemma_hamming_self(h: u64)
    ensures
        spec_hamming(h, h) == 0,
{
    assert(h ^ h == 0) by (bit_vector);
    lemma_pc_zero(64);
}

/// The Hamming distance is symmetric.
pub proof fn lemma_hamming_symmetric(a: u64, b: u64)
    ensures
        spec_hamming(a, b) == spec_hamming(b, a),
{
    assert(a ^ b == b ^ a) by (bit_vector);
}

/// First index at or after `i` whose entry carries the hash `h`, or `-1`.
pub open spec fn find_hash_from(s: Seq<(u64, String)>, h: u64, i: int) -> int
    decreases s.len() - i,
{
    if i < 0 || i >= s.len() {
        -1
    } else if s[i].0 == h {
        i
    } else {
        find_hash_from(s, h, i + 1)
    }
}

pub open spec fn find_hash(s: Seq<(u64, String)>, h: u64) -> int {
    find_hash_from(s, h, 0)
}

proof fn lemma_find_hash_none(s: Seq<(u64, String)>, h: u64, i: int)
    requires
        0 <= i,
        find_hash_from(s, h, i) == -1,
    ensures
        forall|k: int| i <= k < s.len() ==> (#[trigger] s[k]).0 != h,
    decreases s.len() - i,
{
    if i < s.len() {
        lemma_find_hash_none(s, h, i + 1);
    }
}

/// The table that the entry list builds up to, reading the entries in
/// order: a repeated hash overwrites the identifier it maps to, the last
/// write winning, as a map built from the same pairs would behave.
pub open spec fn spec_ingest(s: Seq<(u64, String)>) -> Seq<(u64, String)>
    decreases s.len(),
{
    if s.len() == 0 {
        Seq::empty()
    } else {
        let prev = spec_ingest(s.drop_last());
        let e = s.last();
        if find_hash(prev, e.0) >= 0 {
            prev.update(find_hash(prev, e.0), e)
        } else {
            prev.push(e)
        }
    }
}

/// The reference index: 64-bit perceptual hashes and the catalog identifier
/// each resolves to.  Built offline, read-only at runtime.
pub struct HashIndex {
    pub entries: Vec<(u64, String)>,
}

/// Index of the entry at the smallest Hamming distance from `q` once the
/// scan has reached index `i` with current best `best`; ties keep the
/// earlier entry.
pub open spec fn best_idx_from(s: Seq<(u64, String)>, q: u64, i: int, best: int) -> int
    decreases s.len() - i,
{
    if i < 0 || i >= s.len() || best < 0 || best >= s.len() {
        best
    } else if spec_hamming(s[i].0, q) < spec_hamming(s[best].0, q) {
        best_idx_from(s, q, i + 1, i)
    } else {
        best_idx_from(s, q, i + 1, best)
    }
}

/// Index of the entry at the smallest Hamming distance from `q`; ties keep
/// the earliest entry.
pub open spec fn best_idx(s: Seq<(u64, String)>, q: u64) -> int {
    best_idx_from(s, q, 1, 0)
}

/// The selected entry is in range and no entry of the table is strictly
/// closer to the query.
pub proof fn lemma_best_idx_min(s: Seq<(u64, String)>, q: u64)
    requires
        s.len() >= 1,
    ensures
        0 <= best_idx(s, q) < s.len(),
        forall|j: int|
            0 <= j < s.len() ==> spec_hamming(s[best_idx(s, q)].0, q) <= #[trigger] spec_hamming(
                s[j].0,
                q,
            ),
{
    lemma_best_idx_from_min(s, q, 1, 0);
}

proof fn lemma_best_idx_from_min(s: Seq<(u64, String)>, q: u64, i: int, best: int)
    requires
        0 <= best < s.len(),
        1 <= i,
    ensures
        ({
            let r = best_idx_from(s, q, i, best);
            &&& 0 <= r < s.len()
            &&& spec_hamming(s[r].0, q) <= spec_hamming(s[best].0, q)
            &&& forall|j: int|
                i <= j < s.len() ==> spec_hamming(s[r].0, q) <= #[trigger] spec_hamming(s[j].0, q)
        }),
    decreases s.len() - i,
{
    if i >= s.len() {
    } else if spec_hamming(s[i].0, q) < spec_hamming(s[best].0, q) {
        lemma_best_idx_from_min(s, q, i + 1, i);
    } else {
        lemma_best_idx_from_min(s, q, i + 1, best);
    }
}

impl HashIndex {
    /// No hash occurs twice in the table.
    pub open spec fn wf(self) -> bool {
        forall|i: int, j: int|
            0 <= i < j < self.entries@.len() ==> (#[trigger] self.entries@[i]).0 != (
            #[trigger] self.entries@[j]).0
    }

    /// Build the index from hash and identifier pairs, the last entry of a
    /// repeated hash winning.
    pub fn from_entries(entries: Vec<(u64, String)>) -> (r: HashIndex)
        ensures
            r.entries@ == spec_ingest(entries@),
            r.wf(),
    {
        let ghost orig = entries@;
        let mut rest = entries;
        let mut table: Vec<(u64, String)> = Vec::new();
        let ghost mut seen: Seq<(u64, String)> = Seq::empty();
        while rest.len() > 0
            invariant
                orig =~= seen + rest@,
                table@ == spec_ingest(seen),
                forall|i: int, j: int|
                    0 <= i < j < table@.len() ==> (#[trigger] table@[i]).0 != (
                    #[trigger] table@[j]).0,
            decreases rest@.len(),
        {
            let e = rest.remove(0);
            let h: u64 = e.0;
            let mut j: usize = 0;
            let mut at: usize = 0;
            let mut found: bool = false;
            while j < table.len()
                invariant
                    0 <= j <= table@.len(),
                    found ==> 0 <= at < j && table@[at as int].0 == h && find_hash_from(
                        table@,
                        h,
                        0,
                    ) == at,
                    !found ==> find_hash_from(table@, h, 0) == find_hash_from(
                        table@,
                        h,
                        j as int,
                    ),
                decreases table@.len() - j,
            {
                if !found && table[j].0 == h {
                    at = j;
                    found = true;
                }
                j = j + 1;
            }
            proof {
                let pushed = seen.push(e);
                assert(pushed.drop_last() =~= seen);
                assert(pushed.last() == e);
                seen = pushed;
            }
            if found {
                let ghost prev = table@;
                table[at] = e;
                proof {
                    assert(forall|k: int|
                        0 <= k < table@.len() ==> (#[trigger] table@[k]).0 == prev[k].0);
                }
            } else {
                proof {
                    lemma_find_hash_none(table@, h, 0);
                }
                table.push(e);
            }
        }
        proof {
            assert(orig =~= seen);
        }
        HashIndex { entries: table }
    }

    /// Resolve a query hash to the catalog identifier of the entry at the
    /// smallest Hamming distance; the whole table is scanned and the
    /// closest entry always returned, however far.  Nothing is returned
    /// only when the table is empty.
    pub fn get_card_id(&self, query: u64) -> (r: Option<String>)
        ensures
            ((r is None) <==> self.entries@.len() == 0),
            self.entries@.len() > 0 ==> (r matches Some(id) && id@ == self.entries@[best_idx(
                self.entries@,
                query,
            )].1@),
            forall|j: int|
                0 <= j < self.entries@.len() ==> spec_hamming(
                    self.entries@[best_idx(self.entries@, query)].0,
                    query,
                ) <= #[trigger] spec_hamming(self.entries@[j].0, query),
    {
        let ghost s = self.entries@;
        if self.entries.len() == 0 {
            proof {
                if s.len() >= 1 {
                    lemma_best_idx_min(s, query);
                }
            }
            return None;
        }
        let mut best: usize = 0;
        let mut bd: u64 = hamming_distance(self.entries[0].0, query);
        let mut i: usize = 1;
        while i < self.entries.len()
            invariant
                s == self.entries@,
                s.len() >= 1,
                1 <= i <= s.len(),
                0 <= best < s.len(),
                bd == spec_hamming(s[best as int].0, query),
                best_idx(s, query) == best_idx_from(s, query, i as int, best as int),
            decreases s.len() - i,
        {
            let d: u64 = hamming_distance(self.entries[i].0, query);
            if d < bd {
                best = i;
                bd = d;
            }
            i = i + 1;
        }
        proof {
            lemma_best_idx_min(s, query);
        }
        Some(self.entries[best].1.clone())
    }
}

/// A table that holds the query hash itself resolves it at distance zero.
pub proof fn lemma_exact_hit_at_distance_zero(s: Seq<(u64, String)>, q: u64)
    requires
        exists|i: int| 0 <= i < s.len() && (#[trigger] s[i]).0 == q,
    ensures
        spec_hamming(s[best_idx(s, q)].0, q) == 0,
{
    let i = choose|i: int| 0 <= i < s.len() && (#[trigger] s[i]).0 == q;
    lemma_hamming_self(q);
    lemma_best_idx_min(s, q);
    assert(spec_hamming(s[best_idx(s, q)].0, q) <= spec_hamming(s[i].0, q));
}

/// Last index before `k` at which `s` holds a dash, or `-1`.
pub open spec fn last_dash(s: Seq<char>, k: int) -> int
    decreases k,
{
    if k <= 0 {
        -1
    } else if s[k - 1] == '-' {
        k - 1
    } else {
        last_dash(s, k - 1)
    }
}

/// The catalog identifier encoded in a reference image's file stem: the
/// stem up to its last dash, the remainder naming the variant.  A stem
/// without a dash carries no identifier.
pub fn card_id_of_stem(stem: &str) -> (r: Option<String>)
    ensures
        ((r is None) <==> last_dash(stem@, stem@.len() as int) == -1),
        (r matches Some(id) ==> id@ == stem@.subrange(0, last_dash(stem@, stem@.len() as int))),
{
    let n: usize = stem.unicode_len();
    let mut dash: usize = 0;
    let mut has_dash: bool = false;
    let mut i: usize = 0;
    while i < n
        invariant
            n == stem@.len(),
            0 <= i <= n,
            has_dash ==> 0 <= dash < i && dash == last_dash(stem@, i as int),
            !has_dash ==> last_dash(stem@, i as int) == -1,
        decreases n - i,
    {
        if stem.get_char(i) == '-' {
            dash = i;
            has_dash = true;
        }
        i = i + 1;
    }
    if !has_dash {
        None
    } else {
        let sub: &str = stem.substring_char(0, dash);
        Some(sub.to_owned())
    }
}

} // verus!
