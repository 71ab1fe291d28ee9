//! The taxonomy tree, modelled as an arena of nodes addressed by integer
//! index. Each node stores the index of its parent; node 0 is the
//! root/unclassified sentinel, and every node's parent has a strictly smaller
//! index, so every ancestor chain terminates at node 0 and walks terminate.

use vstd::prelude::*;

verus! {

/// One node of the taxonomy arena: the index of its parent and the external
/// (published database) identifier of the taxon.
#[derive(Clone, Copy, PartialEq, Eq, Structural, Debug)]
pub struct TaxonomyNode {
    pub parent_id: u32,
    pub external_id: u64,
}

/// The taxonomy tree. Read-only during classification.
pub struct Taxonomy {
    pub nodes: Vec<TaxonomyNode>,
}

/// The parent of `t`, as a total function: whenever the arena is well formed
/// and `t` is in bounds this is the stored parent; otherwise it falls back to
/// the sentinel 0, so the result is strictly below any nonzero `t`.
pub open spec fn parent_of(nodes: Seq<TaxonomyNode>, t: u32) -> u32 {
    if 0 < t < nodes.len() && nodes[t as int].parent_id < t {
        nodes[t as int].parent_id
    } else {
        0
    }
}

/// The value of the upward walk "while b > a { b = parent(b) }": the first
/// node at or below `a` on the ancestor chain of `b`.
pub open spec fn anc_walk(nodes: Seq<TaxonomyNode>, a: u32, b: u32) -> u32
    decreases b,
{
    if b > a {
        anc_walk(nodes, a, parent_of(nodes, b))
    } else {
        b
    }
}

/// `a` is an ancestor of `b`, or equal to it. The sentinel 0 is never an
/// ancestor and has no ancestors.
pub open spec fn is_ancestor(nodes: Seq<TaxonomyNode>, a: u32, b: u32) -> bool {
    a != 0 && b != 0 && anc_walk(nodes, a, b) == a
}

/// The value of the meeting walk "while a != b { step the larger one to its
/// parent }": the highest-indexed common element of the two ancestor chains.
pub open spec fn lca_walk(nodes: Seq<TaxonomyNode>, a: u32, b: u32) -> u32
    decreases a + b,
{
    if a == b {
        a
    } else if a > b {
        lca_walk(nodes, parent_of(nodes, a), b)
    } else {
        lca_walk(nodes, a, parent_of(nodes, b))
    }
}

/// The lowest common ancestor; pairing with the sentinel yields the other
/// argument, so unioning calls over a set never loses information.
pub open spec fn lca_of(nodes: Seq<TaxonomyNode>, a: u32, b: u32) -> u32 {
    if a == 0 {
        b
    } else if b == 0 {
        a
    } else {
        lca_walk(nodes, a, b)
    }
}

/// The walk never climbs: its value is at most the start, and at most the
/// threshold once it moved at all.
pub proof fn lemma_anc_walk_le(nodes: Seq<TaxonomyNode>, a: u32, b: u32)
    ensures
        anc_walk(nodes, a, b) <= b,
        anc_walk(nodes, a, b) <= a || (b <= a && anc_walk(nodes, a, b) == b),
    decreases b,
{
    if b > a {
        lemma_anc_walk_le(nodes, a, parent_of(nodes, b));
    }
}

/// Walking down to `a` commutes with first walking down to a higher
/// threshold `b`: the chain is linear.
pub proof fn lemma_anc_walk_compose(nodes: Seq<TaxonomyNode>, a: u32, b: u32, c: u32)
    requires
        a <= b,
    ensures
        anc_walk(nodes, a, c) == anc_walk(nodes, a, anc_walk(nodes, b, c)),
    decreases c,
{
    if c > b {
        lemma_anc_walk_compose(nodes, a, b, parent_of(nodes, c));
    }
}

/// Ancestorship is transitive.
pub proof fn lemma_ancestor_transitive(nodes: Seq<TaxonomyNode>, a: u32, b: u32, c: u32)
    requires
        is_ancestor(nodes, a, b),
        is_ancestor(nodes, b, c),
    ensures
        is_ancestor(nodes, a, c),
{
    lemma_anc_walk_le(nodes, a, b);
    lemma_anc_walk_compose(nodes, a, b, c);
}

/// Two elements of one ancestor chain are themselves related: the lower is an
/// ancestor of (or equal to) the higher.
pub proof fn lemma_chain_linear(nodes: Seq<TaxonomyNode>, x: u32, y: u32, c: u32)
    requires
        anc_walk(nodes, x, c) == x,
        anc_walk(nodes, y, c) == y,
        x <= y,
    ensures
        anc_walk(nodes, x, y) == x,
{
    lemma_anc_walk_compose(nodes, x, y, c);
}

/// The meeting walk lands on both ancestor chains, at or below both starts.
pub proof fn lemma_lca_walk_on_chains(nodes: Seq<TaxonomyNode>, a: u32, b: u32)
    ensures
        lca_walk(nodes, a, b) <= a,
        lca_walk(nodes, a, b) <= b,
        anc_walk(nodes, lca_walk(nodes, a, b), a) == lca_walk(nodes, a, b),
        anc_walk(nodes, lca_walk(nodes, a, b), b) == lca_walk(nodes, a, b),
    decreases a + b,
{
    if a == b {
    } else if a > b {
        lemma_lca_walk_on_chains(nodes, parent_of(nodes, a), b);
    } else {
        lemma_lca_walk_on_chains(nodes, a, parent_of(nodes, b));
    }
}

/// Any common element of the two ancestor chains lies at or below the meeting
/// point; in particular a nonzero common element keeps the meeting point
/// away from the sentinel.
pub proof fn lemma_lca_walk_above_common(nodes: Seq<TaxonomyNode>, a: u32, b: u32, c: u32)
    requires
        anc_walk(nodes, c, a) == c,
        anc_walk(nodes, c, b) == c,
    ensures
        lca_walk(nodes, a, b) >= c,
    decreases a + b,
{
    lemma_anc_walk_le(nodes, c, a);
    lemma_anc_walk_le(nodes, c, b);
    if a == b {
    } else if a > b {
        assert(anc_walk(nodes, c, a) == anc_walk(nodes, c, parent_of(nodes, a)));
        lemma_lca_walk_above_common(nodes, parent_of(nodes, a), b, c);
    } else {
        assert(anc_walk(nodes, c, b) == anc_walk(nodes, c, parent_of(nodes, b)));
        lemma_lca_walk_above_common(nodes, a, parent_of(nodes, b), c);
    }
}

impl Taxonomy {
    /// The arena invariant: nonempty, the sentinel is its own parent, and
    /// every other node's parent has a strictly smaller index.
    pub open spec fn well_formed(&self) -> bool {
        &&& self.nodes@.len() > 0
        &&& self.nodes@[0].parent_id == 0
        &&& forall|i: int|
            0 < i < self.nodes@.len() ==> (#[trigger] self.nodes@[i].parent_id) < i
    }

    /// How many nodes the taxonomy holds.
    pub fn node_count(&self) -> (r: usize)
        ensures
            r == self.nodes@.len(),
    {
        self.nodes.len()
    }

    /// Whether `a` is an ancestor of `b` (or equal to it), by walking `b`'s
    /// parent chain down to the first node at or below `a`.
    pub fn is_a_ancestor_of_b(&self, a: u32, b: u32) -> (r: bool)
        requires
            self.well_formed(),
            a < self.nodes@.len(),
            b < self.nodes@.len(),
        ensures
            r == is_ancestor(self.nodes@, a, b),
    {
        if a == 0 || b == 0 {
            return false;
        }
        let ghost b0 = b;
        let mut cur = b;
        while cur > a
            invariant
                self.well_formed(),
                cur < self.nodes@.len(),
                anc_walk(self.nodes@, a, cur) == anc_walk(self.nodes@, a, b0),
            decreases cur,
        {
            cur = self.nodes[cur as usize].parent_id;
        }
        cur == a
    }

    /// The lowest common ancestor of `a` and `b`; the sentinel pairs to the
    /// other argument.
    pub fn lca(&self, a: u32, b: u32) -> (r: u32)
        requires
            self.well_formed(),
            a < self.nodes@.len(),
            b < self.nodes@.len(),
        ensures
            r == lca_of(self.nodes@, a, b),
            r < self.nodes@.len(),
    {
        if a == 0 {
            return b;
        }
        if b == 0 {
            return a;
        }
        let ghost a0 = a;
        let ghost b0 = b;
        let mut x = a;
        let mut y = b;
        while x != y
            invariant
                self.well_formed(),
                x < self.nodes@.len(),
                y < self.nodes@.len(),
                lca_walk(self.nodes@, x, y) == lca_walk(self.nodes@, a0, b0),
            decreases x + y,
        {
            if x > y {
                x = self.nodes[x as usize].parent_id;
            } else {
                y = self.nodes[y as usize].parent_id;
            }
        }
        x
    }
}

} // verus!
