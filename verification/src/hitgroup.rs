//! The unit of classification work: the matched minimizer rows of one read
//! (or read pair) together with the k-mer-count range of each mate.

use vstd::prelude::*;

verus! {

/// One matched minimizer: its ordinal position within the read (or pair) and
/// the encoded hash-table payload, whose masked low bits recover the
/// taxon-node index.
#[derive(Clone, Copy, PartialEq, Eq, Structural, Debug)]
pub struct Row {
    pub value: u32,
    pub kmer_id: u32,
}

/// A value held once for an unpaired read or twice for a read pair.
#[derive(Clone, Copy, PartialEq, Eq, Structural, Debug)]
pub enum OptionPair<T> {
    Single(T),
    Pair(T, T),
}

/// The taxon-node index encoded in a row's payload: its masked low bits.
pub open spec fn row_key(row: Row, value_mask: u32) -> u32 {
    row.value & value_mask
}

/// The span of one k-mer-count range, stated over the left-open/right-closed
/// convention `(start, end]`.
pub open spec fn span_of(range: (usize, usize)) -> int {
    range.1 - range.0
}

/// The total number of minimizer windows the ranges account for.
pub open spec fn spec_capacity(range: OptionPair<(usize, usize)>) -> int {
    match range {
        OptionPair::Single(r) => span_of(r),
        OptionPair::Pair(r1, r2) => span_of(r1) + span_of(r2),
    }
}

/// The ranges are ordered and non-overlapping: each runs forward, and the
/// second mate's range starts at or after the first mate's end.
pub open spec fn ranges_wf(range: OptionPair<(usize, usize)>) -> bool {
    match range {
        OptionPair::Single(r) => r.0 <= r.1,
        OptionPair::Pair(r1, r2) => r1.0 <= r1.1 <= r2.0 <= r2.1,
    }
}

/// Whether a position falls inside a `(start, end]` range.
pub open spec fn in_range(range: (usize, usize), pos: int) -> bool {
    range.0 < pos <= range.1
}

/// Whether a position falls inside one of the mates' ranges.
pub open spec fn in_ranges(range: OptionPair<(usize, usize)>, pos: int) -> bool {
    match range {
        OptionPair::Single(r) => in_range(r, pos),
        OptionPair::Pair(r1, r2) => in_range(r1, pos) || in_range(r2, pos),
    }
}

/// The unit of classification work: an ordered sequence of matched rows plus
/// the k-mer-count range of each mate. Created once by the lookup stage and
/// consumed exactly once; never mutated afterward.
pub struct HitGroup {
    pub rows: Vec<Row>,
    pub range: OptionPair<(usize, usize)>,
}

impl HitGroup {
    /// The group's invariant: well-formed ranges, rows in strictly increasing
    /// position order, and every row's position inside one of the ranges.
    pub open spec fn valid(&self) -> bool {
        &&& ranges_wf(self.range)
        &&& forall|i: int, j: int|
            0 <= i < j < self.rows@.len() ==> (#[trigger] self.rows@[i]).kmer_id < (
            #[trigger] self.rows@[j]).kmer_id
        &&& forall|i: int|
            0 <= i < self.rows@.len() ==> in_ranges(self.range, (#[trigger] self.rows@[i]).kmer_id as int)
    }

    /// Every row's masked payload indexes a node of a taxonomy with
    /// `node_count` nodes.
    pub open spec fn keys_in_bounds(&self, value_mask: u32, node_count: int) -> bool {
        forall|i: int|
            0 <= i < self.rows@.len() ==> row_key(#[trigger] self.rows@[i], value_mask)
                < node_count
    }

    /// Packs rows and ranges into a group.
    pub fn new(rows: Vec<Row>, range: OptionPair<(usize, usize)>) -> (r: HitGroup)
        ensures
            r.rows == rows,
            r.range == range,
    {
        HitGroup { rows, range }
    }

    /// The total number of minimizer windows considered for this group: the
    /// sum of the configured range spans, independent of how many rows
    /// actually hit the table.
    pub fn capacity(&self) -> (r: usize)
        requires
            ranges_wf(self.range),
        ensures
            r == spec_capacity(self.range),
    {
        match self.range {
            OptionPair::Single(r) => r.1 - r.0,
            OptionPair::Pair(r1, r2) => (r1.1 - r1.0) + (r2.1 - r2.0),
        }
    }
}

} // verus!
