//! The taxonomic resolution algorithm and the classification decision: a
//! weighted lowest-common-ancestor vote over the per-taxon hit counts,
//! followed by a threshold-promotion walk towards the root.

use vstd::prelude::*;

use core::sync::atomic::{AtomicUsize, Ordering};

use crate::counts::{
    bump, bump_kmer, bump_read, count_of, count_total, counter_of, ckeys_unique, keys_unique,
    lemma_bump_kmer_total, lemma_bump_total, lemma_total_nonneg,
    kmer_total, TaxonCounter, TaxonCounts, TaxonCounters,
};
use crate::hitgroup::{row_key, spec_capacity, HitGroup, OptionPair, Row};
use crate::render::{mate_separator, push_runs, render_runs};
use crate::spacedist::{
    dist_fold, ext_of, lemma_dist_fold_total, mate_runs, rows_sorted, runs_total, SpaceDist,
};
use crate::taxonomy::{
    anc_walk, is_ancestor, lca_of, lca_walk, lemma_anc_walk_le, lemma_ancestor_transitive,
    lemma_chain_linear, lemma_lca_walk_above_common, lemma_lca_walk_on_chains, parent_of,
    Taxonomy, TaxonomyNode,
};

verus! {

/// The weighted vote of candidate `t`: the sum of the counts of every mapped
/// taxon that is a descendant of `t` or `t` itself.
pub open spec fn weighted_score(
    entries: Seq<(u32, u64)>,
    nodes: Seq<TaxonomyNode>,
    t: u32,
) -> int
    decreases entries.len(),
{
    if entries.len() == 0 {
        0
    } else {
        weighted_score(entries.drop_last(), nodes, t) + (if is_ancestor(
            nodes,
            t,
            entries.last().0,
        ) {
            entries.last().1 as int
        } else {
            0
        })
    }
}

/// The leader and its recorded score after the first `i` candidates of the
/// vote: a strictly better score adopts the candidate, an exact tie replaces
/// the leader with the LCA of leader and challenger.
pub open spec fn leader_fold(entries: Seq<(u32, u64)>, nodes: Seq<TaxonomyNode>, i: int) -> (
    u32,
    int,
)
    decreases i,
{
    if i <= 0 {
        (0u32, 0int)
    } else {
        let (l, m) = leader_fold(entries, nodes, i - 1);
        let t = entries[i - 1].0;
        let s = weighted_score(entries, nodes, t);
        if s > m {
            (t, s)
        } else if s == m {
            (lca_of(nodes, l, t), m)
        } else {
            (l, m)
        }
    }
}

/// The leader after the full vote.
pub open spec fn spec_leader(entries: Seq<(u32, u64)>, nodes: Seq<TaxonomyNode>) -> u32 {
    leader_fold(entries, nodes, entries.len() as int).0
}

/// The threshold-promotion walk: climb from `t` towards the root until the
/// subtree-weighted score reaches the required one; the sentinel 0 is the
/// end of every walk.
pub open spec fn promote(
    entries: Seq<(u32, u64)>,
    nodes: Seq<TaxonomyNode>,
    t: u32,
    required: u64,
) -> u32
    decreases t,
{
    if t == 0 {
        0
    } else if weighted_score(entries, nodes, t) >= required {
        t
    } else {
        promote(entries, nodes, parent_of(nodes, t), required)
    }
}

/// What `resolve_tree` returns: the vote's leader, accepted outright when its
/// directly attributed count reaches the required score, and otherwise the
/// result of the promotion walk from it.
pub open spec fn spec_resolve(
    entries: Seq<(u32, u64)>,
    nodes: Seq<TaxonomyNode>,
    required: u64,
) -> u32 {
    let l = spec_leader(entries, nodes);
    if count_of(entries, l) >= required {
        l
    } else {
        promote(entries, nodes, l, required)
    }
}

/// A weighted score is bounded by the total of all counts.
pub proof fn lemma_weighted_le_total(entries: Seq<(u32, u64)>, nodes: Seq<TaxonomyNode>, t: u32)
    ensures
        0 <= weighted_score(entries, nodes, t) <= count_total(entries),
    decreases entries.len(),
{
    if entries.len() > 0 {
        lemma_weighted_le_total(entries.drop_last(), nodes, t);
    }
}

/// Extending a prefix by one candidate extends both running sums by that
/// candidate's contribution.
pub proof fn lemma_prefix_succ(entries: Seq<(u32, u64)>, nodes: Seq<TaxonomyNode>, t: u32, j: int)
    requires
        0 <= j < entries.len(),
    ensures
        weighted_score(entries.take(j + 1), nodes, t) == weighted_score(entries.take(j), nodes, t)
            + (if is_ancestor(nodes, t, entries[j].0) {
            entries[j].1 as int
        } else {
            0
        }),
        count_total(entries.take(j + 1)) == count_total(entries.take(j)) + entries[j].1,
{
    assert(entries.take(j + 1).drop_last() =~= entries.take(j));
    assert(entries.take(j + 1).last() == entries[j]);
}

/// A prefix never sums to more than the whole.
pub proof fn lemma_total_take_le(entries: Seq<(u32, u64)>, j: int)
    requires
        0 <= j <= entries.len(),
    ensures
        count_total(entries.take(j)) <= count_total(entries),
    decreases entries.len(),
{
    if j == entries.len() {
        assert(entries.take(j) =~= entries);
    } else {
        assert(entries.drop_last().take(j) =~= entries.take(j));
        lemma_total_take_le(entries.drop_last(), j);
        lemma_total_nonneg(entries);
        lemma_total_nonneg(entries.drop_last());
    }
}

/// The sentinel 0 is an ancestor of nothing, so its weighted vote is empty.
pub proof fn lemma_weighted_sentinel(entries: Seq<(u32, u64)>, nodes: Seq<TaxonomyNode>)
    ensures
        weighted_score(entries, nodes, 0) == 0,
    decreases entries.len(),
{
    if entries.len() > 0 {
        lemma_weighted_sentinel(entries.drop_last(), nodes);
    }
}

/// An ancestor's subtree contains its descendant's, so its weighted vote is
/// at least as large.
pub proof fn lemma_weighted_monotone(
    entries: Seq<(u32, u64)>,
    nodes: Seq<TaxonomyNode>,
    x: u32,
    y: u32,
)
    requires
        is_ancestor(nodes, x, y),
    ensures
        weighted_score(entries, nodes, x) >= weighted_score(entries, nodes, y),
    decreases entries.len(),
{
    if entries.len() > 0 {
        lemma_weighted_monotone(entries.drop_last(), nodes, x, y);
        if is_ancestor(nodes, y, entries.last().0) {
            lemma_ancestor_transitive(nodes, x, y, entries.last().0);
        }
    }
}

/// A mapped nonzero taxon's weighted vote includes at least its own count.
pub proof fn lemma_weighted_includes_own(
    entries: Seq<(u32, u64)>,
    nodes: Seq<TaxonomyNode>,
    k: int,
)
    requires
        0 <= k < entries.len(),
        entries[k].0 != 0,
    ensures
        weighted_score(entries, nodes, entries[k].0) >= entries[k].1,
    decreases entries.len(),
{
    let t = entries[k].0;
    assert(anc_walk(nodes, t, t) == t);
    if k == entries.len() - 1 {
        lemma_weighted_le_total(entries.drop_last(), nodes, t);
    } else {
        lemma_weighted_includes_own(entries.drop_last(), nodes, k);
        assert(entries.drop_last()[k] == entries[k]);
    }
}

/// The invariant of the voting fold, under a taxonomy whose mapped taxa all
/// sit under one nonzero `root`: the leader's weighted vote dominates the
/// recorded maximum, which dominates every candidate already seen, and a
/// nonzero leader stays under `root`.
pub proof fn lemma_leader_fold_invariant(
    entries: Seq<(u32, u64)>,
    nodes: Seq<TaxonomyNode>,
    root: u32,
    i: int,
)
    requires
        root != 0,
        forall|k: int|
            0 <= k < entries.len() && (#[trigger] entries[k]).0 != 0 ==> is_ancestor(
                nodes,
                root,
                entries[k].0,
            ),
        0 <= i <= entries.len(),
    ensures
        leader_fold(entries, nodes, i).1 >= 0,
        weighted_score(entries, nodes, leader_fold(entries, nodes, i).0) >= leader_fold(
            entries,
            nodes,
            i,
        ).1,
        forall|k: int|
            0 <= k < i ==> weighted_score(entries, nodes, (#[trigger] entries[k]).0)
                <= leader_fold(entries, nodes, i).1,
        leader_fold(entries, nodes, i).0 == 0 || is_ancestor(
            nodes,
            root,
            leader_fold(entries, nodes, i).0,
        ),
    decreases i,
{
    if i == 0 {
        lemma_weighted_sentinel(entries, nodes);
    } else {
        lemma_leader_fold_invariant(entries, nodes, root, i - 1);
        let (l, m) = leader_fold(entries, nodes, i - 1);
        let t = entries[i - 1].0;
        let s = weighted_score(entries, nodes, t);
        if s > m {
            if t == 0 {
                lemma_weighted_sentinel(entries, nodes);
                assert(false);
            }
        } else if s == m {
            if l == 0 {
                // the LCA with the sentinel is the challenger itself
            } else if t == 0 {
                // the LCA with the sentinel is the leader itself
            } else {
                let lw = lca_walk(nodes, l, t);
                lemma_lca_walk_above_common(nodes, l, t, root);
                lemma_lca_walk_on_chains(nodes, l, t);
                assert(lw >= root);
                assert(is_ancestor(nodes, lw, l));
                lemma_weighted_monotone(entries, nodes, lw, l);
                lemma_chain_linear(nodes, root, lw, l);
                assert(is_ancestor(nodes, root, lw));
            }
        }
    }
}

/// Under the same root cover, with every mapped taxon nonzero and every count
/// positive, the vote over a nonempty mapping settles on a nonzero leader
/// with a positive recorded score.
pub proof fn lemma_leader_fold_nonzero(
    entries: Seq<(u32, u64)>,
    nodes: Seq<TaxonomyNode>,
    root: u32,
    i: int,
)
    requires
        root != 0,
        forall|k: int| 0 <= k < entries.len() ==> (#[trigger] entries[k]).0 != 0,
        forall|k: int| 0 <= k < entries.len() ==> (#[trigger] entries[k]).1 >= 1,
        forall|k: int|
            0 <= k < entries.len() ==> is_ancestor(nodes, root, (#[trigger] entries[k]).0),
        1 <= i <= entries.len(),
    ensures
        leader_fold(entries, nodes, i).0 != 0,
        leader_fold(entries, nodes, i).1 >= 1,
    decreases i,
{
    let (l, m) = leader_fold(entries, nodes, i - 1);
    let t = entries[i - 1].0;
    let s = weighted_score(entries, nodes, t);
    lemma_weighted_includes_own(entries, nodes, i - 1);
    if i == 1 {
        // the first candidate strictly improves on the empty leader
    } else {
        lemma_leader_fold_nonzero(entries, nodes, root, i - 1);
        lemma_leader_fold_invariant(entries, nodes, root, i - 1);
        if s == m {
            lemma_lca_walk_above_common(nodes, l, t, root);
        }
    }
}

/// Resolution of an empty hit-count mapping is the sentinel: no confident
/// call, with no iteration.
pub proof fn lemma_resolve_empty(nodes: Seq<TaxonomyNode>, required: u64)
    ensures
        spec_resolve(Seq::<(u32, u64)>::empty(), nodes, required) == 0,
{
}

/// With a required score of zero the vote's result is accepted outright, and
/// its weighted score dominates every candidate's (exact ties having been
/// replaced by LCAs along the way), provided every mapped taxon sits under
/// one nonzero root.
pub proof fn lemma_zero_required_score_maximal(
    entries: Seq<(u32, u64)>,
    nodes: Seq<TaxonomyNode>,
    root: u32,
)
    requires
        root != 0,
        forall|k: int|
            0 <= k < entries.len() && (#[trigger] entries[k]).0 != 0 ==> is_ancestor(
                nodes,
                root,
                entries[k].0,
            ),
    ensures
        forall|k: int|
            0 <= k < entries.len() ==> weighted_score(
                entries,
                nodes,
                spec_resolve(entries, nodes, 0),
            ) >= weighted_score(entries, nodes, (#[trigger] entries[k]).0),
{
    lemma_leader_fold_invariant(entries, nodes, root, entries.len() as int);
}

/// The promotion walk from a taxon under `root` stops at or below `root`
/// whenever the root's own subtree score reaches the required one, and its
/// result is an ancestor of (or equal to) its start.
pub proof fn lemma_promote_below_root(
    entries: Seq<(u32, u64)>,
    nodes: Seq<TaxonomyNode>,
    root: u32,
    t: u32,
    required: u64,
)
    requires
        root != 0,
        t != 0,
        is_ancestor(nodes, root, t),
        required <= weighted_score(entries, nodes, root),
    ensures
        promote(entries, nodes, t, required) != 0,
        is_ancestor(nodes, root, promote(entries, nodes, t, required)),
        is_ancestor(nodes, promote(entries, nodes, t, required), t),
    decreases t,
{
    if weighted_score(entries, nodes, t) >= required {
        assert(anc_walk(nodes, t, t) == t);
    } else {
        assert(t != root);
        lemma_anc_walk_le(nodes, root, t);
        assert(root < t);
        let p = parent_of(nodes, t);
        assert(anc_walk(nodes, root, t) == anc_walk(nodes, root, p));
        lemma_anc_walk_le(nodes, root, p);
        assert(p != 0);
        lemma_promote_below_root(entries, nodes, root, p, required);
        let r = promote(entries, nodes, p, required);
        lemma_anc_walk_le(nodes, r, p);
        assert(anc_walk(nodes, r, t) == anc_walk(nodes, r, p));
    }
}

/// The full resolution terminates at or before the root: under a root cover
/// with nonzero mapped taxa and positive counts, any required score the
/// root's subtree sum can meet yields a nonzero call at or below the root.
pub proof fn lemma_resolution_stops_at_root(
    entries: Seq<(u32, u64)>,
    nodes: Seq<TaxonomyNode>,
    root: u32,
    required: u64,
)
    requires
        root != 0,
        entries.len() > 0,
        forall|k: int| 0 <= k < entries.len() ==> (#[trigger] entries[k]).0 != 0,
        forall|k: int| 0 <= k < entries.len() ==> (#[trigger] entries[k]).1 >= 1,
        forall|k: int|
            0 <= k < entries.len() ==> is_ancestor(nodes, root, (#[trigger] entries[k]).0),
        required <= weighted_score(entries, nodes, root),
    ensures
        spec_resolve(entries, nodes, required) != 0,
        is_ancestor(nodes, root, spec_resolve(entries, nodes, required)),
{
    let l = spec_leader(entries, nodes);
    lemma_leader_fold_nonzero(entries, nodes, root, entries.len() as int);
    lemma_leader_fold_invariant(entries, nodes, root, entries.len() as int);
    if count_of(entries, l) >= required {
    } else {
        lemma_promote_below_root(entries, nodes, root, l, required);
    }
}

impl Taxonomy {
    /// The weighted vote of candidate `t` over the hit-count mapping.
    pub fn weighted_score_of(&self, hit_counts: &TaxonCounts, t: u32) -> (s: u64)
        requires
            self.well_formed(),
            t < self.nodes@.len(),
            forall|i: int|
                0 <= i < hit_counts@.len() ==> (#[trigger] hit_counts@[i]).0
                    < self.nodes@.len(),
            count_total(hit_counts@) <= u64::MAX,
        ensures
            s == weighted_score(hit_counts@, self.nodes@, t),
    {
        let n = hit_counts.len();
        let mut s: u64 = 0;
        let mut j: usize = 0;
        proof {
            assert(hit_counts@.take(0) =~= Seq::<(u32, u64)>::empty());
        }
        while j < n
            invariant
                j <= n,
                n == hit_counts@.len(),
                self.well_formed(),
                t < self.nodes@.len(),
                forall|i: int|
                    0 <= i < hit_counts@.len() ==> (#[trigger] hit_counts@[i]).0
                        < self.nodes@.len(),
                count_total(hit_counts@) <= u64::MAX,
                s == weighted_score(hit_counts@.take(j as int), self.nodes@, t),
                s <= count_total(hit_counts@.take(j as int)),
            decreases n - j,
        {
            let (taxon2, cnt2) = hit_counts.entry_at(j);
            proof {
                lemma_prefix_succ(hit_counts@, self.nodes@, t, j as int);
                lemma_total_take_le(hit_counts@, j + 1);
                lemma_weighted_le_total(hit_counts@.take(j as int), self.nodes@, t);
            }
            if self.is_a_ancestor_of_b(t, taxon2) {
                s = s + cnt2;
            }
            proof {
                lemma_weighted_le_total(hit_counts@.take(j + 1), self.nodes@, t);
            }
            j = j + 1;
        }
        proof {
            assert(hit_counts@.take(n as int) =~= hit_counts@);
        }
        s
    }
}

/// Converts the per-taxon hit counts of one read into a consensus taxon-node
/// index: a weighted descendant vote picks a leader (exact ties fall back to
/// the LCA of leader and challenger), and a promotion walk then climbs
/// towards the root until the required score is met. 0 means "no confident
/// call"; an empty mapping yields 0 with no iteration.
pub fn resolve_tree(hit_counts: &TaxonCounts, taxonomy: &Taxonomy, required_score: u64) -> (r:
    u32)
    requires
        taxonomy.well_formed(),
        forall|i: int|
            0 <= i < hit_counts@.len() ==> (#[trigger] hit_counts@[i]).0
                < taxonomy.nodes@.len(),
        count_total(hit_counts@) <= u64::MAX,
    ensures
        r == spec_resolve(hit_counts@, taxonomy.nodes@, required_score),
        r < taxonomy.nodes@.len(),
{
    let ghost entries = hit_counts@;
    let ghost nodes = taxonomy.nodes@;
    let n = hit_counts.len();
    let mut max_taxon: u32 = 0;
    let mut max_score: u64 = 0;
    let mut i: usize = 0;
    while i < n
        invariant
            i <= n,
            n == hit_counts@.len(),
            taxonomy.well_formed(),
            entries == hit_counts@,
            nodes == taxonomy.nodes@,
            forall|k: int|
                0 <= k < hit_counts@.len() ==> (#[trigger] hit_counts@[k]).0
                    < taxonomy.nodes@.len(),
            count_total(entries) <= u64::MAX,
            leader_fold(entries, nodes, i as int).0 == max_taxon,
            leader_fold(entries, nodes, i as int).1 == max_score as int,
            max_taxon < nodes.len(),
        decreases n - i,
    {
        let (taxon, _cnt) = hit_counts.entry_at(i);
        let score = taxonomy.weighted_score_of(hit_counts, taxon);
        if score > max_score {
            max_score = score;
            max_taxon = taxon;
        } else if score == max_score {
            max_taxon = taxonomy.lca(max_taxon, taxon);
        }
        i = i + 1;
    }

    let mut cur = max_taxon;
    let mut cur_score = hit_counts.get(cur);
    while cur != 0 && cur_score < required_score
        invariant
            taxonomy.well_formed(),
            entries == hit_counts@,
            nodes == taxonomy.nodes@,
            forall|k: int|
                0 <= k < hit_counts@.len() ==> (#[trigger] hit_counts@[k]).0
                    < taxonomy.nodes@.len(),
            count_total(entries) <= u64::MAX,
            cur < nodes.len(),
            spec_resolve(entries, nodes, required_score) == (if cur_score >= required_score {
                cur
            } else {
                promote(entries, nodes, cur, required_score)
            }),
        decreases cur, (if cur_score < required_score {
            1int
        } else {
            0int
        }),
    {
        let ws = taxonomy.weighted_score_of(hit_counts, cur);
        if ws >= required_score {
            cur_score = ws;
        } else {
            cur_score = ws;
            cur = taxonomy.nodes[cur as usize].parent_id;
        }
    }
    cur
}

/// The hit-count mapping a row sequence tallies to: one bump of the masked
/// key per row, in row order.
pub open spec fn spec_tally(rows: Seq<Row>, mask: u32) -> Seq<(u32, u64)>
    decreases rows.len(),
{
    if rows.len() == 0 {
        Seq::<(u32, u64)>::empty()
    } else {
        bump(spec_tally(rows.drop_last(), mask), row_key(rows.last(), mask))
    }
}

/// The per-taxon k-mer occurrence counters a row sequence tallies to.
pub open spec fn spec_kmer_tally(rows: Seq<Row>, mask: u32) -> Seq<(u64, TaxonCounter)>
    decreases rows.len(),
{
    if rows.len() == 0 {
        Seq::<(u64, TaxonCounter)>::empty()
    } else {
        bump_kmer(spec_kmer_tally(rows.drop_last(), mask), row_key(rows.last(), mask) as u64)
    }
}

/// The tallied mapping has unique keys and sums to exactly one count per row.
pub proof fn lemma_tally_invariants(rows: Seq<Row>, mask: u32)
    requires
        rows.len() <= u64::MAX,
    ensures
        keys_unique(spec_tally(rows, mask)),
        count_total(spec_tally(rows, mask)) == rows.len(),
        ckeys_unique(spec_kmer_tally(rows, mask)),
        kmer_total(spec_kmer_tally(rows, mask)) == rows.len(),
    decreases rows.len(),
{
    if rows.len() > 0 {
        lemma_tally_invariants(rows.drop_last(), mask);
        lemma_bump_total(spec_tally(rows.drop_last(), mask), row_key(rows.last(), mask));
        lemma_bump_kmer_total(
            spec_kmer_tally(rows.drop_last(), mask),
            row_key(rows.last(), mask) as u64,
        );
    }
}

/// Every key of the tallied mapping is some row's masked key, so any bound on
/// the rows' keys bounds the mapping's keys.
pub proof fn lemma_tally_keys_bound(rows: Seq<Row>, mask: u32, bound: int)
    requires
        forall|k: int| 0 <= k < rows.len() ==> row_key(#[trigger] rows[k], mask) < bound,
    ensures
        forall|i: int|
            0 <= i < spec_tally(rows, mask).len() ==> (#[trigger] spec_tally(rows, mask)[i]).0
                < bound,
    decreases rows.len(),
{
    if rows.len() > 0 {
        assert(forall|k: int|
            0 <= k < rows.drop_last().len() ==> row_key(#[trigger] rows.drop_last()[k], mask)
                < bound) by {
            assert(forall|k: int|
                0 <= k < rows.drop_last().len() ==> rows.drop_last()[k] == rows[k]);
        }
        lemma_tally_keys_bound(rows.drop_last(), mask, bound);
        assert(row_key(rows.last(), mask) < bound);
        let sub = spec_tally(rows.drop_last(), mask);
        let full = spec_tally(rows, mask);
        assert(forall|i: int| 0 <= i < full.len() ==> (#[trigger] full[i]).0 < bound) by {
            assert(forall|i: int|
                0 <= i < full.len() ==> full[i].0 == sub[i].0 || (i < sub.len() && full[i]
                    == sub[i]) || full[i].0 == row_key(rows.last(), mask));
        }
    }
}

/// The k-mer tally never touches a read counter.
pub proof fn lemma_kmer_tally_reads_zero(rows: Seq<Row>, mask: u32)
    ensures
        forall|i: int|
            0 <= i < spec_kmer_tally(rows, mask).len() ==> (#[trigger] spec_kmer_tally(
                rows,
                mask,
            )[i]).1.read_count == 0,
    decreases rows.len(),
{
    if rows.len() > 0 {
        lemma_kmer_tally_reads_zero(rows.drop_last(), mask);
        let sub = spec_kmer_tally(rows.drop_last(), mask);
        let full = spec_kmer_tally(rows, mask);
        let t = row_key(rows.last(), mask) as u64;
        if crate::counts::chas_key(sub, t) {
            let idx = crate::counts::ckey_index(sub, t);
            assert(forall|i: int|
                0 <= i < full.len() ==> (#[trigger] full[i]).1.read_count == 0) by {
                assert(forall|i: int| 0 <= i < full.len() && i != idx ==> full[i] == sub[i]);
                assert(full[idx].1.read_count == sub[idx].1.read_count);
            }
        } else {
            assert(forall|i: int|
                0 <= i < full.len() ==> (#[trigger] full[i]).1.read_count == 0) by {
                assert(forall|i: int| 0 <= i < sub.len() ==> full[i] == sub[i]);
                assert(full.last().1.read_count == 0);
            }
        }
    }
}

/// The rendered spatial hit annotation of one HitGroup: each mate's runs as
/// `external_id:run_length` joined by spaces, the mates joined by the fixed
/// separator token.
pub open spec fn spec_hit_string(
    range: OptionPair<(usize, usize)>,
    rows: Seq<Row>,
    nodes: Seq<TaxonomyNode>,
    mask: u32,
) -> Seq<char> {
    match range {
        OptionPair::Single(r) => render_runs(mate_runs(rows, nodes, mask, r.0, r.1)),
        OptionPair::Pair(r1, r2) => render_runs(mate_runs(rows, nodes, mask, r1.0, r1.1))
            + mate_separator() + render_runs(mate_runs(rows, nodes, mask, r2.0, r2.1)),
    }
}

/// The run lengths rendered for each mate sum to that mate's span, and so,
/// over all mates, to the group's capacity — however sparse the rows.
pub proof fn lemma_hit_string_covers_capacity(hits: HitGroup, nodes: Seq<TaxonomyNode>, mask: u32)
    requires
        hits.valid(),
    ensures
        (match hits.range {
            OptionPair::Single(r) => runs_total(mate_runs(hits.rows@, nodes, mask, r.0, r.1))
                == spec_capacity(hits.range),
            OptionPair::Pair(r1, r2) => {
                &&& runs_total(mate_runs(hits.rows@, nodes, mask, r1.0, r1.1)) == r1.1 - r1.0
                &&& runs_total(mate_runs(hits.rows@, nodes, mask, r2.0, r2.1)) == r2.1 - r2.0
                &&& runs_total(mate_runs(hits.rows@, nodes, mask, r1.0, r1.1)) + runs_total(
                    mate_runs(hits.rows@, nodes, mask, r2.0, r2.1),
                ) == spec_capacity(hits.range)
            },
        }),
{
    match hits.range {
        OptionPair::Single(r) => {
            crate::spacedist::lemma_mate_runs_total(hits.rows@, nodes, mask, r.0, r.1);
        },
        OptionPair::Pair(r1, r2) => {
            crate::spacedist::lemma_mate_runs_total(hits.rows@, nodes, mask, r1.0, r1.1);
            crate::spacedist::lemma_mate_runs_total(hits.rows@, nodes, mask, r2.0, r2.1);
        },
    }
}

/// Accumulate one mate's spatial runs over all rows that fall in its range.
fn fill_dist(rows: &Vec<Row>, taxonomy: &Taxonomy, mask: u32, range: (usize, usize)) -> (d:
    SpaceDist)
    requires
        taxonomy.well_formed(),
        rows_sorted(rows@),
        range.0 <= range.1,
        forall|i: int|
            0 <= i < rows@.len() ==> row_key(#[trigger] rows@[i], mask) < taxonomy.nodes@.len(),
    ensures
        d.runs@ =~= mate_runs(rows@, taxonomy.nodes@, mask, range.0, range.1),
{
    let ghost nodes = taxonomy.nodes@;
    let mut dist = SpaceDist::new(range);
    let n = rows.len();
    let mut i: usize = 0;
    proof {
        assert(rows@.take(0) =~= Seq::<Row>::empty());
    }
    while i < n
        invariant
            i <= n,
            n == rows@.len(),
            taxonomy.well_formed(),
            nodes == taxonomy.nodes@,
            rows_sorted(rows@),
            range.0 <= range.1,
            forall|k: int|
                0 <= k < rows@.len() ==> row_key(#[trigger] rows@[k], mask)
                    < taxonomy.nodes@.len(),
            dist.start == range.0,
            dist.end == range.1,
            dist.inv(),
            dist.runs@ == dist_fold(rows@.take(i as int), nodes, mask, range.0, range.1).0,
            dist.last_pos as int == dist_fold(rows@.take(i as int), nodes, mask, range.0, range.1).1,
        decreases n - i,
    {
        let ghost pre = rows@.take(i as int);
        proof {
            assert(rows_sorted(pre)) by {
                assert(forall|k: int| 0 <= k < pre.len() ==> pre[k] == rows@[k]);
            }
            assert(rows@.take(i + 1).drop_last() =~= pre);
            assert(rows@.take(i + 1).last() == rows@[i as int]);
        }
        let row = rows[i];
        let pos = row.kmer_id as usize;
        if range.0 < pos && pos <= range.1 {
            proof {
                lemma_dist_fold_total(pre, nodes, mask, range.0, range.1);
                if dist.last_pos != range.0 {
                    let k = choose|k: int|
                        0 <= k < pre.len() && (#[trigger] pre[k]).kmer_id == dist.last_pos as int;
                    assert(pre[k] == rows@[k]);
                    assert(rows@[k].kmer_id < rows@[i as int].kmer_id);
                }
            }
            let key = row.value & mask;
            let ext = taxonomy.nodes[key as usize].external_id;
            dist.add(ext, pos);
            proof {
                assert(ext == ext_of(nodes, row_key(rows@[i as int], mask)));
            }
        }
        i = i + 1;
    }
    proof {
        assert(rows@.take(n as int) =~= rows@);
    }
    dist.fill_tail_with_zeros();
    dist
}

/// Consumes one HitGroup: tallies the per-taxon hit counts and per-taxon
/// k-mer occurrences of every row into the two caller-owned mappings, and
/// renders the spatial hit annotation, padding each mate's unmatched trailing
/// windows with the "no hit" sentinel.
pub fn stat_hits(
    hits: &HitGroup,
    counts: &mut TaxonCounts,
    value_mask: usize,
    taxonomy: &Taxonomy,
    cur_taxon_counts: &mut TaxonCounters,
) -> (r: String)
    requires
        taxonomy.well_formed(),
        hits.valid(),
        value_mask <= u32::MAX,
        hits.keys_in_bounds(value_mask as u32, taxonomy.nodes@.len() as int),
        old(counts)@ =~= Seq::<(u32, u64)>::empty(),
        old(cur_taxon_counts)@ =~= Seq::<(u64, TaxonCounter)>::empty(),
    ensures
        final(counts)@ =~= spec_tally(hits.rows@, value_mask as u32),
        final(counts).inv(),
        final(cur_taxon_counts)@ =~= spec_kmer_tally(hits.rows@, value_mask as u32),
        final(cur_taxon_counts).inv(),
        r@ == spec_hit_string(hits.range, hits.rows@, taxonomy.nodes@, value_mask as u32),
{
    let mask = value_mask as u32;
    let n = hits.rows.len();
    let mut i: usize = 0;
    proof {
        assert(hits.rows@.take(0) =~= Seq::<Row>::empty());
    }
    while i < n
        invariant
            i <= n,
            n == hits.rows@.len(),
            counts@ == spec_tally(hits.rows@.take(i as int), mask),
            counts.inv(),
            count_total(counts@) == i as int,
            cur_taxon_counts@ == spec_kmer_tally(hits.rows@.take(i as int), mask),
            cur_taxon_counts.inv(),
            kmer_total(cur_taxon_counts@) == i as int,
        decreases n - i,
    {
        proof {
            assert(hits.rows@.take(i + 1).drop_last() =~= hits.rows@.take(i as int));
            assert(hits.rows@.take(i + 1).last() == hits.rows@[i as int]);
        }
        let row = hits.rows[i];
        let key = row.value & mask;
        counts.increment(key);
        cur_taxon_counts.add_kmer(key as u64);
        i = i + 1;
    }
    proof {
        assert(hits.rows@.take(n as int) =~= hits.rows@);
    }
    match hits.range {
        OptionPair::Single(r) => {
            let d = fill_dist(&hits.rows, taxonomy, mask, r);
            let mut s = String::new();
            push_runs(&mut s, &d.runs);
            proof {
                assert(s@ =~= spec_hit_string(hits.range, hits.rows@, taxonomy.nodes@, mask));
            }
            s
        },
        OptionPair::Pair(r1, r2) => {
            let d1 = fill_dist(&hits.rows, taxonomy, mask, r1);
            let d2 = fill_dist(&hits.rows, taxonomy, mask, r2);
            let mut s = String::new();
            push_runs(&mut s, &d1.runs);
            proof {
                reveal_strlit(" |:| ");
                assert(" |:| "@ =~= mate_separator());
            }
            s.append(" |:| ");
            push_runs(&mut s, &d2.runs);
            proof {
                assert(s@ =~= spec_hit_string(hits.range, hits.rows@, taxonomy.nodes@, mask));
            }
            s
        },
    }
}

/// Runs the statistics engine and the resolution over one HitGroup and
/// applies the minimum-hit-groups floor. When the resulting call is nonzero,
/// the shared classified-read counter is atomically incremented and the
/// call's counter entry records one classified read. Returns the verdict
/// tag, the call's external id, the rendered hit annotation, and the
/// per-read counters.
pub fn process_hitgroup(
    hits: &HitGroup,
    taxonomy: &Taxonomy,
    classify_counter: &AtomicUsize,
    required_score: u64,
    minimum_hit_groups: usize,
    value_mask: usize,
) -> (r: (String, u64, String, TaxonCounters))
    requires
        taxonomy.well_formed(),
        hits.valid(),
        value_mask <= u32::MAX,
        hits.keys_in_bounds(value_mask as u32, taxonomy.nodes@.len() as int),
    ensures
        ({
            let tallied = spec_tally(hits.rows@, value_mask as u32);
            let resolved = spec_resolve(tallied, taxonomy.nodes@, required_score);
            let call: u32 = if resolved > 0 && spec_capacity(hits.range) < minimum_hit_groups
                as int {
                0u32
            } else {
                resolved
            };
            &&& (call > 0 ==> r.0@ == "C"@)
            &&& (call == 0 ==> r.0@ == "U"@)
            &&& r.1 == ext_of(taxonomy.nodes@, call)
            &&& r.2@ == spec_hit_string(hits.range, hits.rows@, taxonomy.nodes@, value_mask as u32)
            &&& r.3@ =~= (if call > 0 {
                bump_read(spec_kmer_tally(hits.rows@, value_mask as u32), call as u64)
            } else {
                spec_kmer_tally(hits.rows@, value_mask as u32)
            })
            &&& r.3.inv()
        }),
{
    let ghost mask = value_mask as u32;
    let mut cur_taxon_counts = TaxonCounters::new();
    let mut counts = TaxonCounts::new();
    let hit_groups = hits.capacity();
    let hit_string = stat_hits(hits, &mut counts, value_mask, taxonomy, &mut cur_taxon_counts);

    let nrows = hits.rows.len();
    proof {
        assert(hits.rows@.len() == nrows as int);
        lemma_tally_invariants(hits.rows@, mask);
        lemma_tally_keys_bound(hits.rows@, mask, taxonomy.nodes@.len() as int);
    }
    let mut call = resolve_tree(&counts, taxonomy, required_score);
    if call > 0 && hit_groups < minimum_hit_groups {
        call = 0;
    }

    let ext_call = taxonomy.nodes[call as usize].external_id;
    let clasify = if call > 0 {
        let _ = classify_counter.fetch_add(1, Ordering::SeqCst);
        proof {
            lemma_kmer_tally_reads_zero(hits.rows@, mask);
            if counter_of(cur_taxon_counts@, call as u64).read_count != 0 {
                assert(false);
            }
        }
        cur_taxon_counts.increment_read_count(call as u64);
        "C"
    } else {
        "U"
    };

    (clasify.to_owned(), ext_call, hit_string, cur_taxon_counts)
}

} // verus!
