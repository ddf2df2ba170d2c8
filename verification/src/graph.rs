//! The relation that a duplicate scan computes: which hashed files are
//! close enough to count as duplicates, and which are joined by a chain of
//! such pairs.

use crate::duplicates::{is_ignored, EntryView};
use crate::hashbits::{block_key_of, hamming};
use vstd::prelude::*;

verus! {

/// What a duplicate scan works on: the hashed files, the pairs that are set
/// aside, and the largest distance that counts.
pub struct Graph {
    pub entries: Seq<EntryView>,
    pub ignored: Set<(Seq<char>, Seq<char>)>,
    pub threshold: u32,
}

/// Whether two hashes have a block in common: the same 16 bits at the same
/// position, positions counted modulo 65536.
pub open spec fn share_block(x: Seq<u16>, y: Seq<u16>) -> bool {
    exists|i: int, j: int|
        0 <= i < x.len() && 0 <= j < y.len() && #[trigger] block_key_of(i, x[i])
            == #[trigger] block_key_of(j, y[j])
}

impl Graph {
    /// Whether the files at `a` and at `b`, the later one, are duplicates of
    /// each other: their hashes have a block in common and differ in no more
    /// bits than the threshold, and the pair is not set aside.
    pub open spec fn close(&self, a: int, b: int) -> bool {
        &&& 0 <= a < b < self.entries.len()
        &&& share_block(self.entries[a].blocks, self.entries[b].blocks)
        &&& hamming(self.entries[a].bits, self.entries[b].bits) <= self.threshold
        &&& !is_ignored(self.ignored, self.entries[a].name, self.entries[b].name)
    }

    /// Whether two files are duplicates of each other, in either order.
    pub open spec fn adjacent(&self, a: int, b: int) -> bool {
        self.close(a, b) || self.close(b, a)
    }

    /// Whether `path` is a chain of files, each a duplicate of the next.
    pub open spec fn is_chain(&self, path: Seq<int>) -> bool {
        &&& path.len() >= 1
        &&& forall|i: int| 0 <= i < path.len() ==> 0 <= #[trigger] path[i] < self.entries.len()
        &&& forall|i: int| 0 <= i < path.len() - 1 ==> self.adjacent(#[trigger] path[i], path[i + 1])
    }

    /// Whether `path` is a chain from `a` to `b`.
    pub open spec fn links(&self, path: Seq<int>, a: int, b: int) -> bool {
        self.is_chain(path) && path[0] == a && path.last() == b
    }

    /// Whether a chain of duplicates leads from `a` to `b`.
    pub open spec fn connected(&self, a: int, b: int) -> bool {
        exists|path: Seq<int>| self.links(path, a, b)
    }

    /// Whether the file at `a` has a duplicate.
    pub open spec fn has_partner(&self, a: int) -> bool {
        exists|b: int| b != a && self.connected(a, b)
    }

    /// Every file is connected to itself.
    pub proof fn lemma_connected_refl(&self, a: int)
        requires
            0 <= a < self.entries.len(),
        ensures
            self.connected(a, a),
    {
        assert(self.links(seq![a], a, a));
    }

    /// Duplicates are connected.
    pub proof fn lemma_adjacent_connected(&self, a: int, b: int)
        requires
            self.adjacent(a, b),
        ensures
            self.connected(a, b),
    {
        assert(self.links(seq![a, b], a, b));
    }

    /// Being connected is symmetric.
    pub proof fn lemma_connected_sym(&self, a: int, b: int)
        requires
            self.connected(a, b),
        ensures
            self.connected(b, a),
    {
        let path = choose|path: Seq<int>| self.links(path, a, b);
        let back = path.reverse();
        assert forall|i: int| 0 <= i < back.len() - 1 implies self.adjacent(
            #[trigger] back[i],
            back[i + 1],
        ) by {
            let k = path.len() - 2 - i;
            assert(self.adjacent(path[k], path[k + 1]));
        }
        assert(self.links(back, b, a));
    }

    /// Being connected is transitive.
    pub proof fn lemma_connected_trans(&self, a: int, b: int, c: int)
        requires
            self.connected(a, b),
            self.connected(b, c),
        ensures
            self.connected(a, c),
    {
        let p = choose|path: Seq<int>| self.links(path, a, b);
        let q = choose|path: Seq<int>| self.links(path, b, c);
        let r = p + q.drop_first();
        assert forall|i: int| 0 <= i < r.len() - 1 implies self.adjacent(#[trigger] r[i], r[i + 1]) by {
            if i < p.len() - 1 {
                assert(self.adjacent(p[i], p[i + 1]));
            } else {
                let k = i - (p.len() - 1);
                assert(self.adjacent(q[k], q[k + 1]));
            }
        }
        assert(self.links(r, a, c));
    }

    /// Connected files are files of the scan.
    pub proof fn lemma_connected_in_range(&self, a: int, b: int)
        requires
            self.connected(a, b),
        ensures
            0 <= a < self.entries.len(),
            0 <= b < self.entries.len(),
    {
        let p = choose|path: Seq<int>| self.links(path, a, b);
        assert(0 <= p[0] < self.entries.len());
        assert(0 <= p[p.len() - 1] < self.entries.len());
    }

    /// Where an equivalence holds of every pair of duplicates, it holds of
    /// every pair of connected files.
    pub proof fn lemma_chain_within(&self, path: Seq<int>, rel: spec_fn(int, int) -> bool)
        requires
            self.is_chain(path),
            forall|x: int| 0 <= x < self.entries.len() ==> #[trigger] rel(x, x),
            forall|x: int, y: int, z: int| #![trigger rel(x, y), rel(y, z)] rel(x, y)
                && rel(y, z) ==> rel(x, z),
            forall|x: int, y: int| self.adjacent(x, y) ==> #[trigger] rel(x, y),
        ensures
            rel(path[0], path.last()),
        decreases path.len(),
    {
        if path.len() > 1 {
            let shorter = path.drop_last();
            assert forall|i: int| 0 <= i < shorter.len() - 1 implies self.adjacent(
                #[trigger] shorter[i],
                shorter[i + 1],
            ) by {
                assert(self.adjacent(path[i], path[i + 1]));
            }
            self.lemma_chain_within(shorter, rel);
            let k = path.len() - 2;
            assert(self.adjacent(path[k], path[k + 1]));
            assert(rel(shorter.last(), path.last()));
        }
    }
}

/// Setting more pairs aside never connects what was not connected: files
/// that a chain of duplicates joins while `more` is set aside are joined
/// while only `fewer` is.
pub proof fn lemma_connected_monotone(
    entries: Seq<EntryView>,
    threshold: u32,
    fewer: Set<(Seq<char>, Seq<char>)>,
    more: Set<(Seq<char>, Seq<char>)>,
    a: int,
    b: int,
)
    requires
        fewer.subset_of(more),
        (Graph { entries, ignored: more, threshold }).connected(a, b),
    ensures
        (Graph { entries, ignored: fewer, threshold }).connected(a, b),
{
    let big = Graph { entries, ignored: more, threshold };
    let small = Graph { entries, ignored: fewer, threshold };
    let path = choose|path: Seq<int>| big.links(path, a, b);
    assert forall|i: int| 0 <= i < path.len() - 1 implies small.adjacent(
        #[trigger] path[i],
        path[i + 1],
    ) by {
        assert(big.adjacent(path[i], path[i + 1]));
    }
    assert(small.links(path, a, b));
}

} // verus!
