//! Per-read tallies. `TaxonCounts` is the ephemeral hit-count mapping from
//! taxon-node index to hit count that drives taxonomic resolution; it keeps
//! its entries in insertion order, because the resolution algorithm's
//! tie-breaking walks the candidates in that order. `TaxonCounters` is the
//! per-read abundance mapping from taxon-node index to a pair of counters
//! (k-mer occurrences, classified reads), handed back to the caller for
//! external merging.

use vstd::prelude::*;

verus! {

/// Whether the association list holds each key at most once.
pub open spec fn keys_unique<V>(entries: Seq<(u32, V)>) -> bool {
    forall|i: int, j: int|
        0 <= i < j < entries.len() ==> (#[trigger] entries[i]).0 != (#[trigger] entries[j]).0
}

/// The sum of all counts in the mapping.
pub open spec fn count_total(entries: Seq<(u32, u64)>) -> int
    decreases entries.len(),
{
    if entries.len() == 0 {
        0
    } else {
        count_total(entries.drop_last()) + entries.last().1
    }
}

/// The count recorded for `taxon`, or 0 when the taxon is unmapped.
pub open spec fn count_of(entries: Seq<(u32, u64)>, taxon: u32) -> u64
    decreases entries.len(),
{
    if entries.len() == 0 {
        0
    } else if entries.last().0 == taxon {
        entries.last().1
    } else {
        count_of(entries.drop_last(), taxon)
    }
}

/// Whether the mapping holds an entry for `taxon`.
pub open spec fn has_key(entries: Seq<(u32, u64)>, taxon: u32) -> bool {
    exists|i: int| 0 <= i < entries.len() && (#[trigger] entries[i]).0 == taxon
}

/// The position of `taxon`'s entry (meaningful only when present and unique).
pub open spec fn key_index(entries: Seq<(u32, u64)>, taxon: u32) -> int {
    choose|i: int| 0 <= i < entries.len() && (#[trigger] entries[i]).0 == taxon
}

/// The mapping after one more hit on `taxon`: the entry is raised in place,
/// or appended with count 1 when the taxon is new.
pub open spec fn bump(entries: Seq<(u32, u64)>, taxon: u32) -> Seq<(u32, u64)> {
    if has_key(entries, taxon) {
        let i = key_index(entries, taxon);
        entries.update(i, (taxon, (entries[i].1 + 1) as u64))
    } else {
        entries.push((taxon, 1u64))
    }
}

/// No single count exceeds the total.
pub proof fn lemma_entry_le_total(entries: Seq<(u32, u64)>, k: int)
    requires
        0 <= k < entries.len(),
    ensures
        entries[k].1 <= count_total(entries),
        count_total(entries) >= 0,
    decreases entries.len(),
{
    lemma_total_nonneg(entries);
    if k < entries.len() - 1 {
        lemma_entry_le_total(entries.drop_last(), k);
    } else {
        lemma_total_nonneg(entries.drop_last());
    }
}

/// Counts never sum to a negative value.
pub proof fn lemma_total_nonneg(entries: Seq<(u32, u64)>)
    ensures
        count_total(entries) >= 0,
    decreases entries.len(),
{
    if entries.len() > 0 {
        lemma_total_nonneg(entries.drop_last());
    }
}

/// Replacing one entry shifts the total by the difference of the counts.
pub proof fn lemma_total_update(entries: Seq<(u32, u64)>, i: int, e: (u32, u64))
    requires
        0 <= i < entries.len(),
    ensures
        count_total(entries.update(i, e)) == count_total(entries) - entries[i].1 + e.1,
    decreases entries.len(),
{
    if i == entries.len() - 1 {
        assert(entries.update(i, e).drop_last() =~= entries.drop_last());
    } else {
        assert(entries.update(i, e).drop_last() =~= entries.drop_last().update(i, e));
        lemma_total_update(entries.drop_last(), i, e);
    }
}

/// One more hit raises the total by exactly one and keeps the keys unique.
pub proof fn lemma_bump_total(entries: Seq<(u32, u64)>, taxon: u32)
    requires
        keys_unique(entries),
        count_total(entries) < u64::MAX,
    ensures
        count_total(bump(entries, taxon)) == count_total(entries) + 1,
        keys_unique(bump(entries, taxon)),
{
    lemma_total_nonneg(entries);
    if has_key(entries, taxon) {
        let i = key_index(entries, taxon);
        lemma_entry_le_total(entries, i);
        lemma_total_update(entries, i, (taxon, (entries[i].1 + 1) as u64));
    } else {
        assert(bump(entries, taxon).drop_last() =~= entries);
    }
}

/// The ephemeral hit-count mapping of one HitGroup, insertion ordered.
pub struct TaxonCounts {
    entries: Vec<(u32, u64)>,
}

impl View for TaxonCounts {
    type V = Seq<(u32, u64)>;

    closed spec fn view(&self) -> Seq<(u32, u64)> {
        self.entries@
    }
}

impl TaxonCounts {
    /// The mapping's invariant: each taxon appears at most once.
    pub open spec fn inv(&self) -> bool {
        keys_unique(self@)
    }

    /// An empty mapping.
    pub fn new() -> (r: TaxonCounts)
        ensures
            r@ =~= Seq::<(u32, u64)>::empty(),
            r.inv(),
    {
        TaxonCounts { entries: Vec::new() }
    }

    /// How many distinct taxa are mapped.
    pub fn len(&self) -> (r: usize)
        ensures
            r == self@.len(),
    {
        self.entries.len()
    }

    /// The `i`-th entry in insertion order.
    pub fn entry_at(&self, i: usize) -> (r: (u32, u64))
        requires
            i < self@.len(),
        ensures
            r == self@[i as int],
    {
        self.entries[i]
    }

    /// The count recorded for `taxon` (0 when unmapped).
    pub fn get(&self, taxon: u32) -> (r: u64)
        ensures
            r == count_of(self@, taxon),
    {
        let n = self.entries.len();
        proof {
            assert(self@.take(n as int) =~= self@);
        }
        let mut j = n;
        while j > 0
            invariant
                j <= n,
                n == self@.len(),
                count_of(self@, taxon) == count_of(self@.take(j as int), taxon),
            decreases j,
        {
            let e = self.entries[j - 1];
            assert(self@.take(j as int).drop_last() =~= self@.take(j - 1));
            if e.0 == taxon {
                return e.1;
            }
            j = j - 1;
        }
        assert(self@.take(0) =~= Seq::<(u32, u64)>::empty());
        0
    }

    /// Record one more hit on `taxon`.
    pub fn increment(&mut self, taxon: u32)
        requires
            old(self).inv(),
            count_total(old(self)@) < u64::MAX,
        ensures
            final(self)@ =~= bump(old(self)@, taxon),
            final(self).inv(),
            count_total(final(self)@) == count_total(old(self)@) + 1,
    {
        proof {
            lemma_bump_total(old(self)@, taxon);
        }
        let n = self.entries.len();
        let mut i: usize = 0;
        while i < n
            invariant
                i <= n,
                n == self@.len(),
                self@ == old(self)@,
                keys_unique(self@),
                count_total(self@) < u64::MAX,
                forall|k: int| 0 <= k < i ==> (#[trigger] self@[k]).0 != taxon,
            decreases n - i,
        {
            let e = self.entries[i];
            if e.0 == taxon {
                proof {
                    lemma_entry_le_total(self@, i as int);
                    assert(has_key(self@, taxon));
                    assert(key_index(self@, taxon) == i) by {
                        let j = key_index(self@, taxon);
                        assert(0 <= j < self@.len() && self@[j].0 == taxon);
                    }
                }
                self.entries[i] = (taxon, e.1 + 1);
                proof {
                    assert(self@ =~= bump(old(self)@, taxon));
                    lemma_total_update(
                        old(self)@,
                        i as int,
                        (taxon, (old(self)@[i as int].1 + 1) as u64),
                    );
                }
                return ;
            }
            i = i + 1;
        }
        proof {
            assert(!has_key(self@, taxon));
        }
        self.entries.push((taxon, 1));
    }
}

/// The abundance record of one taxon: how many k-mer occurrences were
/// attributed to it and how many reads were classified as it.
#[derive(Clone, Copy, PartialEq, Eq, Structural, Debug)]
pub struct TaxonCounter {
    pub kmer_count: u64,
    pub read_count: u64,
}

/// The all-zero abundance record.
pub open spec fn zero_counter() -> TaxonCounter {
    TaxonCounter { kmer_count: 0, read_count: 0 }
}

/// Whether the counter list holds an entry for `taxon`.
pub open spec fn chas_key(entries: Seq<(u64, TaxonCounter)>, taxon: u64) -> bool {
    exists|i: int| 0 <= i < entries.len() && (#[trigger] entries[i]).0 == taxon
}

/// The position of `taxon`'s entry (meaningful only when present and unique).
pub open spec fn ckey_index(entries: Seq<(u64, TaxonCounter)>, taxon: u64) -> int {
    choose|i: int| 0 <= i < entries.len() && (#[trigger] entries[i]).0 == taxon
}

/// Each taxon appears at most once in the counter list.
pub open spec fn ckeys_unique(entries: Seq<(u64, TaxonCounter)>) -> bool {
    forall|i: int, j: int|
        0 <= i < j < entries.len() ==> (#[trigger] entries[i]).0 != (#[trigger] entries[j]).0
}

/// The abundance record of `taxon`, all-zero when the taxon is unmapped.
pub open spec fn counter_of(entries: Seq<(u64, TaxonCounter)>, taxon: u64) -> TaxonCounter {
    if chas_key(entries, taxon) {
        entries[ckey_index(entries, taxon)].1
    } else {
        zero_counter()
    }
}

/// The counter list after one more k-mer occurrence against `taxon`.
pub open spec fn bump_kmer(entries: Seq<(u64, TaxonCounter)>, taxon: u64) -> Seq<
    (u64, TaxonCounter),
> {
    if chas_key(entries, taxon) {
        let i = ckey_index(entries, taxon);
        entries.update(
            i,
            (
                taxon,
                TaxonCounter {
                    kmer_count: (entries[i].1.kmer_count + 1) as u64,
                    read_count: entries[i].1.read_count,
                },
            ),
        )
    } else {
        entries.push((taxon, TaxonCounter { kmer_count: 1, read_count: 0 }))
    }
}

/// The counter list after one more classified read against `taxon`.
pub open spec fn bump_read(entries: Seq<(u64, TaxonCounter)>, taxon: u64) -> Seq<
    (u64, TaxonCounter),
> {
    if chas_key(entries, taxon) {
        let i = ckey_index(entries, taxon);
        entries.update(
            i,
            (
                taxon,
                TaxonCounter {
                    kmer_count: entries[i].1.kmer_count,
                    read_count: (entries[i].1.read_count + 1) as u64,
                },
            ),
        )
    } else {
        entries.push((taxon, TaxonCounter { kmer_count: 0, read_count: 1 }))
    }
}

/// The sum of all k-mer occurrence counts in the list.
pub open spec fn kmer_total(entries: Seq<(u64, TaxonCounter)>) -> int
    decreases entries.len(),
{
    if entries.len() == 0 {
        0
    } else {
        kmer_total(entries.drop_last()) + entries.last().1.kmer_count
    }
}

/// K-mer totals never sum to a negative value.
pub proof fn lemma_kmer_total_nonneg(entries: Seq<(u64, TaxonCounter)>)
    ensures
        kmer_total(entries) >= 0,
    decreases entries.len(),
{
    if entries.len() > 0 {
        lemma_kmer_total_nonneg(entries.drop_last());
    }
}

/// No single k-mer count exceeds the total.
pub proof fn lemma_kmer_entry_le_total(entries: Seq<(u64, TaxonCounter)>, k: int)
    requires
        0 <= k < entries.len(),
    ensures
        entries[k].1.kmer_count <= kmer_total(entries),
    decreases entries.len(),
{
    if k < entries.len() - 1 {
        lemma_kmer_entry_le_total(entries.drop_last(), k);
    } else {
        lemma_kmer_total_nonneg(entries.drop_last());
    }
}

/// Replacing one entry shifts the k-mer total by the difference of the counts.
pub proof fn lemma_kmer_total_update(entries: Seq<(u64, TaxonCounter)>, i: int, e: (u64, TaxonCounter))
    requires
        0 <= i < entries.len(),
    ensures
        kmer_total(entries.update(i, e)) == kmer_total(entries) - entries[i].1.kmer_count
            + e.1.kmer_count,
    decreases entries.len(),
{
    if i == entries.len() - 1 {
        assert(entries.update(i, e).drop_last() =~= entries.drop_last());
    } else {
        assert(entries.update(i, e).drop_last() =~= entries.drop_last().update(i, e));
        lemma_kmer_total_update(entries.drop_last(), i, e);
    }
}

/// One more k-mer occurrence raises the k-mer total by exactly one and keeps
/// the keys unique.
pub proof fn lemma_bump_kmer_total(entries: Seq<(u64, TaxonCounter)>, taxon: u64)
    requires
        ckeys_unique(entries),
        kmer_total(entries) < u64::MAX,
    ensures
        kmer_total(bump_kmer(entries, taxon)) == kmer_total(entries) + 1,
        ckeys_unique(bump_kmer(entries, taxon)),
{
    lemma_kmer_total_nonneg(entries);
    if chas_key(entries, taxon) {
        let i = ckey_index(entries, taxon);
        lemma_kmer_entry_le_total(entries, i);
        lemma_kmer_total_update(entries, i, bump_kmer(entries, taxon)[i]);
    } else {
        assert(bump_kmer(entries, taxon).drop_last() =~= entries);
    }
}

/// The per-read abundance counters, one record per hit taxon.
pub struct TaxonCounters {
    entries: Vec<(u64, TaxonCounter)>,
}

impl View for TaxonCounters {
    type V = Seq<(u64, TaxonCounter)>;

    closed spec fn view(&self) -> Seq<(u64, TaxonCounter)> {
        self.entries@
    }
}

impl TaxonCounters {
    /// The invariant: each taxon appears at most once.
    pub open spec fn inv(&self) -> bool {
        ckeys_unique(self@)
    }

    /// An empty counter mapping.
    pub fn new() -> (r: TaxonCounters)
        ensures
            r@ =~= Seq::<(u64, TaxonCounter)>::empty(),
            r.inv(),
    {
        TaxonCounters { entries: Vec::new() }
    }

    /// How many taxa hold a record.
    pub fn len(&self) -> (r: usize)
        ensures
            r == self@.len(),
    {
        self.entries.len()
    }

    /// The abundance record of `taxon` (all-zero when unmapped).
    pub fn get(&self, taxon: u64) -> (r: TaxonCounter)
        requires
            self.inv(),
        ensures
            r == counter_of(self@, taxon),
    {
        let n = self.entries.len();
        let mut i: usize = 0;
        while i < n
            invariant
                i <= n,
                n == self@.len(),
                self.inv(),
                forall|k: int| 0 <= k < i ==> (#[trigger] self@[k]).0 != taxon,
            decreases n - i,
        {
            let e = self.entries[i];
            if e.0 == taxon {
                proof {
                    assert(chas_key(self@, taxon));
                    let j = ckey_index(self@, taxon);
                    assert(0 <= j < self@.len() && self@[j].0 == taxon);
                }
                return e.1;
            }
            i = i + 1;
        }
        proof {
            assert(!chas_key(self@, taxon));
        }
        TaxonCounter { kmer_count: 0, read_count: 0 }
    }

    /// Record one k-mer occurrence against `taxon`.
    pub fn add_kmer(&mut self, taxon: u64)
        requires
            old(self).inv(),
            kmer_total(old(self)@) < u64::MAX,
        ensures
            final(self)@ =~= bump_kmer(old(self)@, taxon),
            final(self).inv(),
            kmer_total(final(self)@) == kmer_total(old(self)@) + 1,
    {
        let n = self.entries.len();
        let mut i: usize = 0;
        while i < n
            invariant
                i <= n,
                n == self@.len(),
                self@ == old(self)@,
                self.inv(),
                kmer_total(self@) < u64::MAX,
                forall|k: int| 0 <= k < i ==> (#[trigger] self@[k]).0 != taxon,
            decreases n - i,
        {
            let e = self.entries[i];
            if e.0 == taxon {
                proof {
                    lemma_kmer_entry_le_total(self@, i as int);
                    assert(chas_key(self@, taxon));
                    assert(ckey_index(self@, taxon) == i) by {
                        let j = ckey_index(self@, taxon);
                        assert(0 <= j < self@.len() && self@[j].0 == taxon);
                    }
                }
                self.entries[i] = (
                    taxon,
                    TaxonCounter { kmer_count: e.1.kmer_count + 1, read_count: e.1.read_count },
                );
                proof {
                    assert(self@ =~= bump_kmer(old(self)@, taxon));
                    lemma_kmer_total_update(
                        old(self)@,
                        i as int,
                        self@[i as int],
                    );
                }
                return ;
            }
            i = i + 1;
        }
        proof {
            assert(!chas_key(self@, taxon));
        }
        self.entries.push((taxon, TaxonCounter { kmer_count: 1, read_count: 0 }));
        proof {
            assert(self@.drop_last() =~= old(self)@);
        }
    }

    /// Record one classified read against `taxon`.
    pub fn increment_read_count(&mut self, taxon: u64)
        requires
            old(self).inv(),
            counter_of(old(self)@, taxon).read_count < u64::MAX,
        ensures
            final(self)@ =~= bump_read(old(self)@, taxon),
            final(self).inv(),
    {
        let n = self.entries.len();
        let mut i: usize = 0;
        while i < n
            invariant
                i <= n,
                n == self@.len(),
                self@ == old(self)@,
                self.inv(),
                counter_of(self@, taxon).read_count < u64::MAX,
                forall|k: int| 0 <= k < i ==> (#[trigger] self@[k]).0 != taxon,
            decreases n - i,
        {
            let e = self.entries[i];
            if e.0 == taxon {
                proof {
                    assert(chas_key(self@, taxon));
                    assert(ckey_index(self@, taxon) == i) by {
                        let j = ckey_index(self@, taxon);
                        assert(0 <= j < self@.len() && self@[j].0 == taxon);
                    }
                }
                self.entries[i] = (
                    taxon,
                    TaxonCounter { kmer_count: e.1.kmer_count, read_count: e.1.read_count + 1 },
                );
                proof {
                    assert(self@ =~= bump_read(old(self)@, taxon));
                }
                return ;
            }
            i = i + 1;
        }
        proof {
            assert(!chas_key(self@, taxon));
        }
        self.entries.push((taxon, TaxonCounter { kmer_count: 0, read_count: 1 }));
    }
}

} // verus!
