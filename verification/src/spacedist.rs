//! The spatial hit accumulator of one mate: the minimizer windows of the
//! mate's `(start, end]` range, recorded as maximal runs of equal external
//! ids, with every unmatched window carried as part of a run of the "no hit"
//! sentinel id 0.

use vstd::prelude::*;

use crate::hitgroup::{row_key, Row};
use crate::taxonomy::TaxonomyNode;

verus! {

/// The number of windows a run list accounts for: the sum of its lengths.
pub open spec fn runs_total(runs: Seq<(u64, usize)>) -> int
    decreases runs.len(),
{
    if runs.len() == 0 {
        0
    } else {
        runs_total(runs.drop_last()) + runs.last().1
    }
}

/// The run list after one more window with external id `code`: the last run
/// grows when it carries the same id, otherwise a fresh run of length 1 is
/// appended.
pub open spec fn with_hit(runs: Seq<(u64, usize)>, code: u64) -> Seq<(u64, usize)> {
    if runs.len() > 0 && runs.last().0 == code {
        runs.update(runs.len() - 1, (code, (runs.last().1 + 1) as usize))
    } else {
        runs.push((code, 1usize))
    }
}

/// The run list after `gap` unmatched windows: a positive gap joins the last
/// run when that already carries the sentinel id, and otherwise appends one
/// sentinel run of the gap's length.
pub open spec fn with_gap(runs: Seq<(u64, usize)>, gap: int) -> Seq<(u64, usize)> {
    if gap <= 0 {
        runs
    } else if runs.len() > 0 && runs.last().0 == 0 {
        runs.update(runs.len() - 1, (0u64, (runs.last().1 + gap) as usize))
    } else {
        runs.push((0u64, gap as usize))
    }
}

/// Run lengths never sum to a negative value.
pub proof fn lemma_runs_total_nonneg(runs: Seq<(u64, usize)>)
    ensures
        runs_total(runs) >= 0,
    decreases runs.len(),
{
    if runs.len() > 0 {
        lemma_runs_total_nonneg(runs.drop_last());
    }
}

/// No single run is longer than the total.
pub proof fn lemma_run_le_total(runs: Seq<(u64, usize)>, k: int)
    requires
        0 <= k < runs.len(),
    ensures
        runs[k].1 <= runs_total(runs),
    decreases runs.len(),
{
    if k < runs.len() - 1 {
        lemma_run_le_total(runs.drop_last(), k);
    } else {
        lemma_runs_total_nonneg(runs.drop_last());
    }
}

/// Replacing one run shifts the total by the difference of the lengths.
pub proof fn lemma_runs_total_update(runs: Seq<(u64, usize)>, i: int, e: (u64, usize))
    requires
        0 <= i < runs.len(),
    ensures
        runs_total(runs.update(i, e)) == runs_total(runs) - runs[i].1 + e.1,
    decreases runs.len(),
{
    if i == runs.len() - 1 {
        assert(runs.update(i, e).drop_last() =~= runs.drop_last());
    } else {
        assert(runs.update(i, e).drop_last() =~= runs.drop_last().update(i, e));
        lemma_runs_total_update(runs.drop_last(), i, e);
    }
}

/// One more window grows the total by one, as long as no length saturates.
pub proof fn lemma_with_hit_total(runs: Seq<(u64, usize)>, code: u64)
    requires
        runs_total(runs) < usize::MAX,
    ensures
        runs_total(with_hit(runs, code)) == runs_total(runs) + 1,
{
    if runs.len() > 0 && runs.last().0 == code {
        lemma_run_le_total(runs, runs.len() - 1);
        lemma_runs_total_update(runs, runs.len() - 1, (code, (runs.last().1 + 1) as usize));
    } else {
        assert(with_hit(runs, code).drop_last() =~= runs);
    }
}

/// A gap of `gap` windows grows the total by `gap`.
pub proof fn lemma_with_gap_total(runs: Seq<(u64, usize)>, gap: int)
    requires
        gap >= 0,
        runs_total(runs) + gap <= usize::MAX,
    ensures
        runs_total(with_gap(runs, gap)) == runs_total(runs) + gap,
{
    if gap == 0 {
    } else if runs.len() > 0 && runs.last().0 == 0 {
        lemma_run_le_total(runs, runs.len() - 1);
        lemma_runs_total_nonneg(runs);
        lemma_runs_total_update(runs, runs.len() - 1, (0u64, (runs.last().1 + gap) as usize));
    } else {
        assert(with_gap(runs, gap).drop_last() =~= runs);
        lemma_runs_total_nonneg(runs);
    }
}

/// Rows in strictly increasing position order.
pub open spec fn rows_sorted(rows: Seq<Row>) -> bool {
    forall|i: int, j: int|
        0 <= i < j < rows.len() ==> (#[trigger] rows[i]).kmer_id < (#[trigger] rows[j]).kmer_id
}

/// The external id the taxonomy publishes for node index `key` (the sentinel
/// id for an out-of-range index).
pub open spec fn ext_of(nodes: Seq<TaxonomyNode>, key: u32) -> u64 {
    if key < nodes.len() {
        nodes[key as int].external_id
    } else {
        0
    }
}

/// The run list and last recorded position of one mate after all rows: rows
/// outside the mate's `(start, end]` range are ignored, every other row
/// first closes the sentinel gap back to the previous position and then
/// records one window of its external id.
pub open spec fn dist_fold(
    rows: Seq<Row>,
    nodes: Seq<TaxonomyNode>,
    mask: u32,
    start: usize,
    end: usize,
) -> (Seq<(u64, usize)>, int)
    decreases rows.len(),
{
    if rows.len() == 0 {
        (Seq::<(u64, usize)>::empty(), start as int)
    } else {
        let (runs, lp) = dist_fold(rows.drop_last(), nodes, mask, start, end);
        let row = rows.last();
        let pos = row.kmer_id as int;
        if start < pos <= end {
            (with_hit(with_gap(runs, pos - lp - 1), ext_of(nodes, row_key(row, mask))), pos)
        } else {
            (runs, lp)
        }
    }
}

/// The rendered run list of one mate: the fold of all rows, with the
/// trailing unmatched windows padded by one final sentinel gap.
pub open spec fn mate_runs(
    rows: Seq<Row>,
    nodes: Seq<TaxonomyNode>,
    mask: u32,
    start: usize,
    end: usize,
) -> Seq<(u64, usize)> {
    let (runs, lp) = dist_fold(rows, nodes, mask, start, end);
    with_gap(runs, end as int - lp)
}

/// The fold keeps its position inside the range, keeps the total equal to
/// the windows walked so far, and its position is the sentinel start or some
/// row's position.
pub proof fn lemma_dist_fold_total(
    rows: Seq<Row>,
    nodes: Seq<TaxonomyNode>,
    mask: u32,
    start: usize,
    end: usize,
)
    requires
        start <= end,
        rows_sorted(rows),
    ensures
        ({
            let (runs, lp) = dist_fold(rows, nodes, mask, start, end);
            &&& start <= lp <= end
            &&& runs_total(runs) == lp - start
            &&& (lp == start || exists|k: int|
                0 <= k < rows.len() && (#[trigger] rows[k]).kmer_id == lp)
        }),
    decreases rows.len(),
{
    if rows.len() > 0 {
        assert(rows_sorted(rows.drop_last())) by {
            assert(forall|i: int|
                0 <= i < rows.len() - 1 ==> rows.drop_last()[i] == rows[i]);
        }
        lemma_dist_fold_total(rows.drop_last(), nodes, mask, start, end);
        let (runs, lp) = dist_fold(rows.drop_last(), nodes, mask, start, end);
        let row = rows.last();
        let pos = row.kmer_id as int;
        if start < pos <= end {
            assert(lp < pos) by {
                if lp != start {
                    let k = choose|k: int|
                        0 <= k < rows.drop_last().len() && (#[trigger] rows.drop_last()[k]).kmer_id
                            == lp;
                    assert(rows[k] == rows.drop_last()[k]);
                    assert(rows[k].kmer_id < rows[rows.len() - 1].kmer_id);
                }
            }
            lemma_with_gap_total(runs, pos - lp - 1);
            lemma_with_hit_total(with_gap(runs, pos - lp - 1), ext_of(nodes, row_key(row, mask)));
            assert(rows[rows.len() - 1].kmer_id == pos);
        }
    }
}

/// The rendered run lengths of one mate sum exactly to the mate's span,
/// regardless of how many rows actually hit.
pub proof fn lemma_mate_runs_total(
    rows: Seq<Row>,
    nodes: Seq<TaxonomyNode>,
    mask: u32,
    start: usize,
    end: usize,
)
    requires
        start <= end,
        rows_sorted(rows),
    ensures
        runs_total(mate_runs(rows, nodes, mask, start, end)) == end - start,
{
    lemma_dist_fold_total(rows, nodes, mask, start, end);
    let (runs, lp) = dist_fold(rows, nodes, mask, start, end);
    lemma_with_gap_total(runs, end as int - lp);
}

/// The spatial accumulator of one mate, filled left to right.
pub struct SpaceDist {
    pub start: usize,
    pub end: usize,
    pub last_pos: usize,
    pub runs: Vec<(u64, usize)>,
}

impl SpaceDist {
    /// The accumulator's invariant: its position lies inside the range and
    /// its runs account for every window up to that position.
    pub open spec fn inv(&self) -> bool {
        &&& self.start <= self.last_pos <= self.end
        &&& runs_total(self.runs@) == self.last_pos - self.start
    }

    /// An empty accumulator over the `(start, end]` range.
    pub fn new(range: (usize, usize)) -> (r: SpaceDist)
        requires
            range.0 <= range.1,
        ensures
            r.start == range.0,
            r.end == range.1,
            r.last_pos == range.0,
            r.runs@ =~= Seq::<(u64, usize)>::empty(),
            r.inv(),
    {
        SpaceDist { start: range.0, end: range.1, last_pos: range.0, runs: Vec::new() }
    }

    /// Record one matched window of external id `code` at position `pos`,
    /// closing the sentinel gap since the previous position first.
    pub fn add(&mut self, code: u64, pos: usize)
        requires
            old(self).inv(),
            old(self).last_pos < pos <= old(self).end,
        ensures
            final(self).start == old(self).start,
            final(self).end == old(self).end,
            final(self).last_pos == pos,
            final(self).runs@ =~= with_hit(
                with_gap(old(self).runs@, pos - old(self).last_pos - 1),
                code,
            ),
            final(self).inv(),
    {
        let gap = pos - self.last_pos - 1;
        proof {
            lemma_with_gap_total(self.runs@, gap as int);
        }
        if gap > 0 {
            let n = self.runs.len();
            if n > 0 {
                let last = self.runs[n - 1];
                proof {
                    lemma_run_le_total(self.runs@, n as int - 1);
                    lemma_runs_total_nonneg(self.runs@);
                }
                if last.0 == 0 {
                    proof {
                        lemma_runs_total_update(self.runs@, n as int - 1, (0u64, (last.1 + gap) as usize));
                    }
                    self.runs[n - 1] = (0, last.1 + gap);
                } else {
                    self.runs.push((0, gap));
                    proof {
                        assert(self.runs@.drop_last() =~= old(self).runs@);
                    }
                }
            } else {
                self.runs.push((0, gap));
                proof {
                    assert(self.runs@.drop_last() =~= old(self).runs@);
                }
            }
            proof {
                assert(self.runs@ =~= with_gap(old(self).runs@, gap as int));
            }
        }
        proof {
            assert(self.runs@ =~= with_gap(old(self).runs@, pos - old(self).last_pos - 1));
            lemma_with_hit_total(self.runs@, code);
        }
        let ghost gapped = self.runs@;
        let n = self.runs.len();
        if n > 0 {
            let last = self.runs[n - 1];
            proof {
                lemma_run_le_total(self.runs@, n as int - 1);
                lemma_runs_total_nonneg(self.runs@);
            }
            if last.0 == code {
                proof {
                    lemma_runs_total_update(self.runs@, n as int - 1, (code, (last.1 + 1) as usize));
                }
                self.runs[n - 1] = (code, last.1 + 1);
            } else {
                self.runs.push((code, 1));
                proof {
                    assert(self.runs@.drop_last() =~= gapped);
                }
            }
        } else {
            self.runs.push((code, 1));
            proof {
                assert(self.runs@.drop_last() =~= gapped);
            }
        }
        proof {
            assert(self.runs@ =~= with_hit(gapped, code));
        }
        self.last_pos = pos;
    }

    /// Pad the unfilled trailing span with the "no hit" sentinel.
    pub fn fill_tail_with_zeros(&mut self)
        requires
            old(self).inv(),
        ensures
            final(self).start == old(self).start,
            final(self).end == old(self).end,
            final(self).last_pos == old(self).end,
            final(self).runs@ =~= with_gap(
                old(self).runs@,
                old(self).end - old(self).last_pos,
            ),
            final(self).inv(),
            runs_total(final(self).runs@) == old(self).end - old(self).start,
    {
        let gap = self.end - self.last_pos;
        proof {
            lemma_with_gap_total(self.runs@, gap as int);
        }
        if gap > 0 {
            let n = self.runs.len();
            if n > 0 {
                let last = self.runs[n - 1];
                proof {
                    lemma_run_le_total(self.runs@, n as int - 1);
                    lemma_runs_total_nonneg(self.runs@);
                }
                if last.0 == 0 {
                    proof {
                        lemma_runs_total_update(self.runs@, n as int - 1, (0u64, (last.1 + gap) as usize));
                    }
                    self.runs[n - 1] = (0, last.1 + gap);
                } else {
                    self.runs.push((0, gap));
                    proof {
                        assert(self.runs@.drop_last() =~= old(self).runs@);
                    }
                }
            } else {
                self.runs.push((0, gap));
                proof {
                    assert(self.runs@.drop_last() =~= old(self).runs@);
                }
            }
        }
        proof {
            assert(self.runs@ =~= with_gap(old(self).runs@, old(self).end - old(self).last_pos));
        }
        self.last_pos = self.end;
    }
}

} // verus!
