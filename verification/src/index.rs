//! The candidate index of a duplicate scan: every block of every hash under
//! its key, sorted by key, with the run of each key.

use crate::duplicates::Entry;
use crate::hashbits::{block_key, block_key_of};
use vstd::prelude::*;
use vstd::seq_lib::to_multiset_contains;

verus! {

/// Trusted: `sort_unstable_by_key` sorts the slice by the key that the
/// closure picks, here the first component. It rearranges the items and
/// neither adds nor drops any.
#[verifier::external_body]
fn sort_by_key(pairs: &mut Vec<(u32, usize)>)
    ensures
        final(pairs)@.to_multiset() == old(pairs)@.to_multiset(),
        forall|i: int, j: int| 0 <= i <= j < final(pairs)@.len()
            ==> final(pairs)@[i].0 <= final(pairs)@[j].0,
{
    pairs.sort_unstable_by_key(|p| p.0);
}

/// The blocks of each entry.
pub open spec fn block_lists(entries: Seq<Entry>) -> Seq<Seq<u16>> {
    Seq::new(entries.len(), |a: int| entries[a].blocks@)
}

/// Whether `pair` stands for a block of the hash that it names.
pub open spec fn is_block(blocks: Seq<Seq<u16>>, pair: (u32, usize)) -> bool {
    pair.1 < blocks.len() && exists|i: int|
        0 <= i < blocks[pair.1 as int].len() && pair.0 == #[trigger] block_key_of(
            i,
            blocks[pair.1 as int][i],
        )
}

/// The pair that stands for block `i` of hash `a`.
pub open spec fn pair_of(blocks: Seq<Seq<u16>>, a: int, i: int) -> (u32, usize) {
    (block_key_of(i, blocks[a][i]), a as usize)
}

/// `pairs` holds the blocks of the first `n` hashes and of the first `m`
/// blocks of the next, and nothing else.
pub open spec fn lists_blocks(pairs: Seq<(u32, usize)>, blocks: Seq<Seq<u16>>, n: int, m: int) -> bool {
    &&& forall|t: int| 0 <= t < pairs.len() ==> is_block(blocks, #[trigger] pairs[t])
    &&& forall|a: int, i: int|
        0 <= a < blocks.len() && 0 <= i < blocks[a].len() && (a < n || (a == n && i < m))
            ==> pairs.contains(#[trigger] pair_of(blocks, a, i))
}

/// Whether position `t` lies in one of the runs.
pub open spec fn in_run(ranges: Seq<(usize, usize)>, t: int) -> bool {
    exists|pos: int| 0 <= pos < ranges.len() && (#[trigger] ranges[pos]).0 <= t < ranges[pos].1
}

/// The candidate index.
pub struct BlockIndex {
    /// Key and entry of every block, ascending by key.
    pub pairs: Vec<(u32, usize)>,
    /// The keys that occur, ascending.
    pub keys: Vec<u32>,
    /// For each key, where its run in `pairs` starts and ends.
    pub ranges: Vec<(usize, usize)>,
}

impl BlockIndex {
    /// The first `upto` positions of `pairs` are split into runs of one key
    /// each, the keys ascending.
    pub open spec fn runs_cover(&self, upto: int) -> bool {
        &&& self.keys@.len() == self.ranges@.len()
        &&& forall|p: int, q: int| 0 <= p < q < self.keys@.len() ==> self.keys@[p] < self.keys@[q]
        &&& forall|pos: int|
            0 <= pos < self.ranges@.len() ==> (#[trigger] self.ranges@[pos]).0 < self.ranges@[pos].1
                <= upto
        &&& forall|pos: int, t: int|
            0 <= pos < self.ranges@.len() && self.ranges@[pos].0 <= t < self.ranges@[pos].1 ==> (
            #[trigger] self.pairs@[t]).0 == #[trigger] self.keys@[pos]
        &&& forall|t: int| 0 <= t < upto ==> #[trigger] in_run(self.ranges@, t)
    }

    /// The index holds exactly the blocks of `blocks`, in runs by key.
    pub open spec fn indexes(&self, blocks: Seq<Seq<u16>>) -> bool {
        &&& lists_blocks(self.pairs@, blocks, blocks.len() as int, 0)
        &&& self.runs_cover(self.pairs@.len() as int)
    }

    /// Every occurrence of a key lies in the run of that key.
    pub proof fn lemma_in_run_of_key(&self, pos: int, t: int)
        requires
            self.runs_cover(self.pairs@.len() as int),
            0 <= pos < self.keys@.len(),
            0 <= t < self.pairs@.len(),
            self.pairs@[t].0 == self.keys@[pos],
        ensures
            self.ranges@[pos].0 <= t < self.ranges@[pos].1,
    {
        assert(in_run(self.ranges@, t));
        let other = choose|p: int|
            0 <= p < self.ranges@.len() && (#[trigger] self.ranges@[p]).0 <= t < self.ranges@[p].1;
        assert(self.pairs@[t].0 == self.keys@[other]);
        if other < pos {
            assert(self.keys@[other] < self.keys@[pos]);
        } else if pos < other {
            assert(self.keys@[pos] < self.keys@[other]);
        }
    }

    /// Every key of a pair is one of the keys.
    pub proof fn lemma_key_known(&self, t: int) -> (pos: int)
        requires
            self.runs_cover(self.pairs@.len() as int),
            0 <= t < self.pairs@.len(),
        ensures
            0 <= pos < self.keys@.len(),
            self.keys@[pos] == self.pairs@[t].0,
    {
        assert(in_run(self.ranges@, t));
        let pos = choose|p: int|
            0 <= p < self.ranges@.len() && (#[trigger] self.ranges@[p]).0 <= t < self.ranges@[p].1;
        assert(self.pairs@[t].0 == self.keys@[pos]);
        pos
    }

    /// The index of the blocks of `entries`.
    pub fn build(entries: &Vec<Entry>) -> (index: BlockIndex)
        ensures
            index.indexes(block_lists(entries@)),
    {
        let ghost blocks = block_lists(entries@);
        let mut pairs: Vec<(u32, usize)> = Vec::new();
        let mut a: usize = 0;
        while a < entries.len()
            invariant
                a <= entries.len(),
                blocks == block_lists(entries@),
                lists_blocks(pairs@, blocks, a as int, 0),
            decreases entries.len() - a,
        {
            let entry = &entries[a];
            let mut i: usize = 0;
            while i < entry.blocks.len()
                invariant
                    a < entries.len(),
                    i <= entry.blocks.len(),
                    *entry == entries@[a as int],
                    blocks == block_lists(entries@),
                    lists_blocks(pairs@, blocks, a as int, i as int),
                decreases entry.blocks.len() - i,
            {
                let ghost before = pairs@;
                let pair: (u32, usize) = (block_key(i, entry.blocks[i]), a);
                pairs.push(pair);
                proof {
                    assert(blocks[a as int] == entry.blocks@);
                    assert(pair.0 == block_key_of(i as int, blocks[a as int][i as int]));
                    assert(pair == pair_of(blocks, a as int, i as int));
                    assert(is_block(blocks, pair)) by {
                        let w = i as int;
                        assert(pair.1 < blocks.len());
                        assert(0 <= w < blocks[pair.1 as int].len());
                        assert(pair.0 == block_key_of(w, blocks[pair.1 as int][w]));
                    }
                    assert forall|t: int| 0 <= t < pairs@.len() implies is_block(
                        blocks,
                        #[trigger] pairs@[t],
                    ) by {
                        if t < before.len() {
                            assert(pairs@[t] == before[t]);
                        }
                    }
                    assert forall|x: int, k: int|
                        0 <= x < blocks.len() && 0 <= k < blocks[x].len() && (x < a || (x == a && k
                            < i + 1)) implies pairs@.contains(#[trigger] pair_of(blocks, x, k)) by {
                        if x == a && k == i {
                            assert(pairs@[before.len() as int] == pair);
                        } else {
                            let t = choose|t: int|
                                0 <= t < before.len() && before[t] == pair_of(blocks, x, k);
                            assert(pairs@[t] == before[t]);
                        }
                    }
                }
                i += 1;
            }
            a += 1;
        }
        let ghost unsorted = pairs@;
        sort_by_key(&mut pairs);
        proof {
            assert forall|t: int| 0 <= t < pairs@.len() implies is_block(
                blocks,
                #[trigger] pairs@[t],
            ) by {
                assert(pairs@.contains(pairs@[t]));
                to_multiset_contains(pairs@, pairs@[t]);
                to_multiset_contains(unsorted, pairs@[t]);
                assert(unsorted.contains(pairs@[t]));
                let u = choose|u: int| 0 <= u < unsorted.len() && unsorted[u] == pairs@[t];
                assert(is_block(blocks, unsorted[u]));
            }
            assert forall|x: int, k: int|
                0 <= x < blocks.len() && 0 <= k < blocks[x].len() implies pairs@.contains(
                #[trigger] pair_of(blocks, x, k),
            ) by {
                assert(unsorted.contains(pair_of(blocks, x, k)));
                to_multiset_contains(pairs@, pair_of(blocks, x, k));
                to_multiset_contains(unsorted, pair_of(blocks, x, k));
            }
        }
        let mut index = BlockIndex { pairs, keys: Vec::new(), ranges: Vec::new() };
        let mut i: usize = 0;
        while i < index.pairs.len()
            invariant
                i <= index.pairs@.len(),
                lists_blocks(index.pairs@, blocks, blocks.len() as int, 0),
                forall|x: int, y: int|
                    0 <= x <= y < index.pairs@.len() ==> index.pairs@[x].0 <= index.pairs@[y].0,
                index.runs_cover(i as int),
                i > 0 ==> index.keys@.len() > 0 && index.keys@.last() == index.pairs@[i - 1].0,
                i == 0 ==> index.keys@.len() == 0,
                0 < i < index.pairs@.len() ==> index.pairs@[i - 1].0 != index.pairs@[i as int].0,
            decreases index.pairs@.len() - i,
        {
            let key: u32 = index.pairs[i].0;
            let start: usize = i;
            i += 1;
            while i < index.pairs.len() && index.pairs[i].0 == key
                invariant
                    start < i <= index.pairs@.len(),
                    forall|t: int| start <= t < i ==> index.pairs@[t].0 == key,
                decreases index.pairs@.len() - i,
            {
                i += 1;
            }
            let ghost old_keys = index.keys@;
            let ghost old_ranges = index.ranges@;
            index.keys.push(key);
            index.ranges.push((start, i));
            proof {
                let last = old_keys.len() as int;
                assert forall|p: int, q: int| 0 <= p < q < index.keys@.len() implies index.keys@[p]
                    < index.keys@[q] by {
                    if q == last {
                        assert(index.keys@[p] == old_keys[p]);
                        if p < last - 1 {
                            assert(old_keys[p] < old_keys[last - 1]);
                        }
                        assert(old_keys[last - 1] == index.pairs@[start - 1].0);
                        assert(index.pairs@[start - 1].0 <= index.pairs@[start as int].0);
                    } else {
                        assert(index.keys@[p] == old_keys[p] && index.keys@[q] == old_keys[q]);
                    }
                }
                assert forall|pos: int|
                    0 <= pos < index.ranges@.len() implies (#[trigger] index.ranges@[pos]).0
                    < index.ranges@[pos].1 <= i by {
                    if pos < last {
                        assert(index.ranges@[pos] == old_ranges[pos]);
                    }
                }
                assert forall|pos: int, t: int|
                    0 <= pos < index.ranges@.len() && index.ranges@[pos].0 <= t
                        < index.ranges@[pos].1 implies (#[trigger] index.pairs@[t]).0
                    == #[trigger] index.keys@[pos] by {
                    if pos < last {
                        assert(index.ranges@[pos] == old_ranges[pos]);
                        assert(index.keys@[pos] == old_keys[pos]);
                    }
                }
                assert forall|t: int| 0 <= t < i implies #[trigger] in_run(index.ranges@, t) by {
                    if t < start {
                        assert(in_run(old_ranges, t));
                        let pos = choose|pos: int|
                            0 <= pos < old_ranges.len() && (#[trigger] old_ranges[pos]).0 <= t
                                < old_ranges[pos].1;
                        assert(index.ranges@[pos] == old_ranges[pos]);
                    } else {
                        assert(index.ranges@[last] == (start, i));
                    }
                }
            }
        }
        index
    }

    /// The run of `key`.
    pub fn lookup(&self, key: u32) -> (r: Option<usize>)
        requires
            self.runs_cover(self.pairs@.len() as int),
        ensures
            match r {
                Some(pos) => pos < self.keys@.len() && self.keys@[pos as int] == key,
                None => forall|pos: int| 0 <= pos < self.keys@.len() ==> self.keys@[pos] != key,
            },
    {
        let mut lo: usize = 0;
        let mut hi: usize = self.keys.len();
        while lo < hi
            invariant
                lo <= hi <= self.keys@.len(),
                forall|p: int, q: int| 0 <= p < q < self.keys@.len() ==> self.keys@[p] < self.keys@[q],
                forall|pos: int| 0 <= pos < lo ==> self.keys@[pos] < key,
                forall|pos: int| hi <= pos < self.keys@.len() ==> self.keys@[pos] > key,
            decreases hi - lo,
        {
            let mid: usize = lo + (hi - lo) / 2;
            let found: u32 = self.keys[mid];
            if found == key {
                return Some(mid);
            } else if found < key {
                assert forall|pos: int| 0 <= pos < mid + 1 implies self.keys@[pos] < key by {
                    if pos < mid {
                        assert(self.keys@[pos] < self.keys@[mid as int]);
                    }
                }
                lo = mid + 1;
            } else {
                assert forall|pos: int| mid <= pos < self.keys@.len() implies self.keys@[pos]
                    > key by {
                    if pos > mid {
                        assert(self.keys@[mid as int] < self.keys@[pos]);
                    }
                }
                hi = mid;
            }
        }
        None
    }
}

} // verus!
