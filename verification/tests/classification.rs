use std::sync::atomic::{AtomicUsize, Ordering};

use kr2r::counts::{TaxonCounts, TaxonCounters};
use kr2r::hitgroup::{HitGroup, OptionPair, Row};
use kr2r::taxonomy::{Taxonomy, TaxonomyNode};
use kr2r::{process_hitgroup, resolve_tree, stat_hits};

/// Node 0 is the sentinel, node 1 the root, node 2 ("A") a child of the
/// root, node 3 ("B") a child of A, node 4 a second child of the root.
fn small_taxonomy() -> Taxonomy {
    Taxonomy {
        nodes: vec![
            TaxonomyNode { parent_id: 0, external_id: 0 },
            TaxonomyNode { parent_id: 0, external_id: 10 },
            TaxonomyNode { parent_id: 1, external_id: 100 },
            TaxonomyNode { parent_id: 2, external_id: 200 },
            TaxonomyNode { parent_id: 1, external_id: 400 },
        ],
    }
}

fn counts_of(pairs: &[(u32, u64)]) -> TaxonCounts {
    let mut counts = TaxonCounts::new();
    for &(taxon, n) in pairs {
        for _ in 0..n {
            counts.increment(taxon);
        }
    }
    counts
}

#[test]
fn ancestor_queries() {
    let tax = small_taxonomy();
    assert!(tax.is_a_ancestor_of_b(1, 3));
    assert!(tax.is_a_ancestor_of_b(2, 3));
    assert!(tax.is_a_ancestor_of_b(3, 3));
    assert!(!tax.is_a_ancestor_of_b(3, 2));
    assert!(!tax.is_a_ancestor_of_b(4, 3));
    assert!(!tax.is_a_ancestor_of_b(0, 3));
    assert!(!tax.is_a_ancestor_of_b(1, 0));
}

#[test]
fn lca_queries() {
    let tax = small_taxonomy();
    assert_eq!(tax.lca(3, 4), 1);
    assert_eq!(tax.lca(2, 3), 2);
    assert_eq!(tax.lca(3, 3), 3);
    assert_eq!(tax.lca(0, 3), 3);
    assert_eq!(tax.lca(3, 0), 3);
    assert_eq!(tax.node_count(), 5);
}

#[test]
fn resolve_empty_mapping_is_unclassified() {
    let tax = small_taxonomy();
    let counts = TaxonCounts::new();
    assert_eq!(resolve_tree(&counts, &tax, 0), 0);
    assert_eq!(resolve_tree(&counts, &tax, 5), 0);
}

#[test]
fn resolve_weighted_vote_prefers_ancestor() {
    // A:3, B:2 with A an ancestor of B: score(A) = 5, score(B) = 2.
    let tax = small_taxonomy();
    let counts = counts_of(&[(2, 3), (3, 2)]);
    assert_eq!(resolve_tree(&counts, &tax, 0), 2);
}

#[test]
fn resolve_promotion_recovers_descendant_counts() {
    // With required_score = 4, A's direct count (3) is below threshold, but
    // the subtree sum over descendants of A is 5, so A is accepted.
    let tax = small_taxonomy();
    let counts = counts_of(&[(2, 3), (3, 2)]);
    assert_eq!(resolve_tree(&counts, &tax, 4), 2);
}

#[test]
fn resolve_tie_falls_back_to_lca() {
    // Taxa 2 and 4 are siblings under the root with equal scores: the tie
    // replaces the leader with their LCA, the root.
    let tax = small_taxonomy();
    let counts = counts_of(&[(2, 1), (4, 1)]);
    assert_eq!(resolve_tree(&counts, &tax, 0), 1);
}

#[test]
fn resolve_promotes_to_root() {
    // The tied leader is the root; its direct count is 0, but its subtree
    // holds both hits, so a required score of 2 is met at the root.
    let tax = small_taxonomy();
    let counts = counts_of(&[(2, 1), (4, 1)]);
    assert_eq!(resolve_tree(&counts, &tax, 2), 1);
}

#[test]
fn resolve_unreachable_score_walks_to_sentinel() {
    let tax = small_taxonomy();
    let counts = counts_of(&[(2, 1), (4, 1)]);
    assert_eq!(resolve_tree(&counts, &tax, 3), 0);
}

#[test]
fn capacity_sums_range_spans() {
    let single = HitGroup::new(Vec::new(), OptionPair::Single((0, 10)));
    assert_eq!(single.capacity(), 10);
    let paired = HitGroup::new(Vec::new(), OptionPair::Pair((0, 5), (5, 12)));
    assert_eq!(paired.capacity(), 12);
    let sparse = HitGroup::new(
        vec![Row { value: 2, kmer_id: 1 }],
        OptionPair::Single((0, 10)),
    );
    assert_eq!(sparse.capacity(), 10);
}

#[test]
fn stat_hits_renders_runs_and_tallies() {
    let tax = small_taxonomy();
    let rows = vec![
        Row { value: 2, kmer_id: 1 },
        Row { value: 2, kmer_id: 2 },
        Row { value: 3, kmer_id: 4 },
    ];
    let hits = HitGroup::new(rows, OptionPair::Single((0, 4)));
    let mut counts = TaxonCounts::new();
    let mut taxon_counters = TaxonCounters::new();
    let s = stat_hits(&hits, &mut counts, 0xff, &tax, &mut taxon_counters);
    assert_eq!(s, "100:2 0:1 200:1");
    assert_eq!(counts.get(2), 2);
    assert_eq!(counts.get(3), 1);
    assert_eq!(counts.get(4), 0);
    assert_eq!(taxon_counters.get(2).kmer_count, 2);
    assert_eq!(taxon_counters.get(3).kmer_count, 1);
    assert_eq!(taxon_counters.get(2).read_count, 0);
}

#[test]
fn stat_hits_pads_empty_group() {
    let tax = small_taxonomy();
    let hits = HitGroup::new(Vec::new(), OptionPair::Single((0, 7)));
    let mut counts = TaxonCounts::new();
    let mut taxon_counters = TaxonCounters::new();
    let s = stat_hits(&hits, &mut counts, 0xff, &tax, &mut taxon_counters);
    assert_eq!(s, "0:7");
    assert_eq!(counts.len(), 0);
}

#[test]
fn stat_hits_renders_both_mates() {
    let tax = small_taxonomy();
    let rows = vec![
        Row { value: 2, kmer_id: 1 },
        Row { value: 3, kmer_id: 6 },
    ];
    let hits = HitGroup::new(rows, OptionPair::Pair((0, 3), (3, 6)));
    let mut counts = TaxonCounts::new();
    let mut taxon_counters = TaxonCounters::new();
    let s = stat_hits(&hits, &mut counts, 0xff, &tax, &mut taxon_counters);
    // Mate 1: a hit at position 1, two trailing sentinel windows.
    // Mate 2: two leading sentinel windows, a hit at position 6.
    assert_eq!(s, "100:1 0:2 |:| 0:2 200:1");
}

#[test]
fn process_hitgroup_classifies_and_counts() {
    let tax = small_taxonomy();
    let counter = AtomicUsize::new(0);
    let rows = vec![
        Row { value: 2, kmer_id: 1 },
        Row { value: 2, kmer_id: 2 },
        Row { value: 3, kmer_id: 4 },
    ];
    let hits = HitGroup::new(rows, OptionPair::Single((0, 4)));
    let (verdict, ext_call, hit_string, taxon_counters) =
        process_hitgroup(&hits, &tax, &counter, 0, 0, 0xff);
    assert_eq!(verdict, "C");
    assert_eq!(ext_call, 100);
    assert_eq!(hit_string, "100:2 0:1 200:1");
    assert_eq!(counter.load(Ordering::SeqCst), 1);
    assert_eq!(taxon_counters.get(2).read_count, 1);
    assert_eq!(taxon_counters.get(2).kmer_count, 2);
}

#[test]
fn process_hitgroup_enforces_minimum_hit_groups() {
    // The resolved call is non-zero, but capacity (4) is below the floor, so
    // the verdict is forced to unclassified.
    let tax = small_taxonomy();
    let counter = AtomicUsize::new(0);
    let rows = vec![
        Row { value: 2, kmer_id: 1 },
        Row { value: 2, kmer_id: 2 },
        Row { value: 3, kmer_id: 4 },
    ];
    let hits = HitGroup::new(rows, OptionPair::Single((0, 4)));
    let (verdict, ext_call, _hit_string, taxon_counters) =
        process_hitgroup(&hits, &tax, &counter, 0, 5, 0xff);
    assert_eq!(verdict, "U");
    assert_eq!(ext_call, 0);
    assert_eq!(counter.load(Ordering::SeqCst), 0);
    assert_eq!(taxon_counters.get(2).read_count, 0);
}

#[test]
fn resolve_ignores_sentinel_hits() {
    // Key 0 (rows whose payload masks to the sentinel) carries no vote of
    // its own: the only real candidate wins.
    let tax = small_taxonomy();
    let counts = counts_of(&[(0, 5), (2, 1)]);
    assert_eq!(resolve_tree(&counts, &tax, 0), 2);
}

#[test]
fn process_hitgroup_paired_mates() {
    let tax = small_taxonomy();
    let counter = AtomicUsize::new(0);
    let rows = vec![
        Row { value: 2, kmer_id: 1 },
        Row { value: 3, kmer_id: 6 },
    ];
    let hits = HitGroup::new(rows, OptionPair::Pair((0, 3), (3, 6)));
    let (verdict, ext_call, hit_string, _taxon_counters) =
        process_hitgroup(&hits, &tax, &counter, 0, 0, 0xff);
    // Taxon 3 is a descendant of taxon 2, so 2 carries both hits.
    assert_eq!(verdict, "C");
    assert_eq!(ext_call, 100);
    assert_eq!(hit_string, "100:1 0:2 |:| 0:2 200:1");
    assert_eq!(counter.load(Ordering::SeqCst), 1);
}

#[test]
fn process_hitgroup_zero_rows_is_unclassified() {
    let tax = small_taxonomy();
    let counter = AtomicUsize::new(0);
    let hits = HitGroup::new(Vec::new(), OptionPair::Single((0, 4)));
    let (verdict, ext_call, hit_string, _taxon_counters) =
        process_hitgroup(&hits, &tax, &counter, 0, 0, 0xff);
    assert_eq!(verdict, "U");
    assert_eq!(ext_call, 0);
    assert_eq!(hit_string, "0:4");
    assert_eq!(counter.load(Ordering::SeqCst), 0);
}
