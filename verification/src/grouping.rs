//! Joining duplicates into classes: the scan over the candidate index.

use crate::duplicates::{entry_views, ignore_keys, sets_aside, Entry};
use crate::graph::{share_block, Graph};
use crate::hashbits::{block_key, block_key_of, within_threshold};
use crate::index::{block_lists, is_block, pair_of, BlockIndex};
use crate::order::{
    is_stable_order, lemma_stable_order_ascends, lemma_stable_order_distinct, names_index,
    sorted_order, texts,
};
use crate::text::{chars_of, lex_le};
use crate::union_find::UnionFind;
use vstd::prelude::*;

verus! {

/// The scan of `entries` with the pairs of `ignored` set aside.
pub open spec fn graph_of(entries: Seq<Entry>, ignored: Seq<(String, String)>, threshold: u32) -> Graph {
    Graph { entries: entry_views(entries), ignored: ignore_keys(ignored), threshold }
}

/// Files of one class are connected.
pub open spec fn sound(uf: UnionFind, g: Graph) -> bool {
    forall|x: int, y: int|
        0 <= x < g.entries.len() && 0 <= y < g.entries.len() && #[trigger] uf.same(x, y)
            ==> g.connected(x, y)
}

/// Every pair of duplicates whose earlier file comes before `a` is in one
/// class.
pub open spec fn joined_before(uf: UnionFind, g: Graph, a: int) -> bool {
    forall|x: int, y: int| x < a && #[trigger] g.close(x, y) ==> uf.same(x, y)
}

/// Every file stamped in this round that is a duplicate of `a` is in the
/// class of `a`.
pub open spec fn stamped_joined(uf: UnionFind, g: Graph, stamp: Seq<u32>, token: u32, a: int) -> bool {
    forall|b: int|
        0 <= b < stamp.len() && #[trigger] stamp[b] == token && g.close(a, b) ==> uf.same(a, b)
}

/// Every later file that shares one of the first `upto` blocks of `a` is
/// stamped in this round.
pub open spec fn sharers_stamped(
    blocks: Seq<Seq<u16>>,
    stamp: Seq<u32>,
    token: u32,
    a: int,
    upto: int,
) -> bool {
    forall|b: int, i: int, j: int|
        a < b < blocks.len() && 0 <= i < upto && 0 <= j < blocks[b].len() && #[trigger] block_key_of(
            i,
            blocks[a][i],
        ) == #[trigger] block_key_of(j, blocks[b][j]) ==> stamp[b] == token
}

/// `n` stamps, none set.
fn zeros(n: usize) -> (v: Vec<u32>)
    ensures
        v@.len() == n,
        forall|i: int| 0 <= i < n ==> v@[i] == 0,
{
    let mut v: Vec<u32> = Vec::new();
    let mut i: usize = 0;
    while i < n
        invariant
            i <= n,
            v@.len() == i,
            forall|k: int| 0 <= k < i ==> v@[k] == 0,
        decreases n - i,
    {
        v.push(0);
        i += 1;
    }
    v
}

/// Joining the classes of two duplicates keeps classes connected, and keeps
/// together what was together.
proof fn lemma_union_keeps(before: UnionFind, after: UnionFind, g: Graph, a: int, b: int)
    requires
        before.wf(),
        after.wf(),
        before.size() == g.entries.len(),
        after.size() == before.size(),
        after.joins(before, a, b),
        sound(before, g),
        g.close(a, b),
    ensures
        sound(after, g),
        after.same(a, b),
        forall|x: int, y: int|
            0 <= x < before.size() && 0 <= y < before.size() && before.same(x, y) ==> after.same(
                x,
                y,
            ),
{
    assert(before.same(a, a) && before.same(b, b));
    assert(after.same(a, b));
    assert forall|x: int, y: int|
        0 <= x < g.entries.len() && 0 <= y < g.entries.len() && #[trigger] after.same(
            x,
            y,
        ) implies g.connected(x, y) by {
        g.lemma_adjacent_connected(a, b);
        g.lemma_connected_sym(a, b);
        if before.same(x, y) {
        } else if before.same(x, a) && before.same(y, b) {
            assert(before.same(b, y));
            g.lemma_connected_trans(x, a, b);
            g.lemma_connected_trans(x, b, y);
        } else {
            assert(before.same(x, b) && before.same(y, a));
            assert(before.same(a, y));
            g.lemma_connected_trans(x, b, a);
            g.lemma_connected_trans(x, a, y);
        }
    }
    assert forall|x: int, y: int|
        0 <= x < before.size() && 0 <= y < before.size() && before.same(x, y) implies after.same(
        x,
        y,
    ) by {}
}

/// Joins the duplicates among `entries` into classes: two files end in one
/// class exactly when a chain of duplicates leads from one to the other.
pub fn link_duplicates(entries: &Vec<Entry>, ignored: &Vec<(String, String)>, threshold: u32) -> (uf:
    UnionFind)
    ensures
        uf.wf(),
        uf.size() == entries@.len(),
        forall|a: int, b: int|
            0 <= a < entries@.len() && 0 <= b < entries@.len() ==> (#[trigger] uf.same(a, b)
                <==> graph_of(entries@, ignored@, threshold).connected(a, b)),
{
    let n: usize = entries.len();
    let ghost g = graph_of(entries@, ignored@, threshold);
    let ghost blocks = block_lists(entries@);
    let index = BlockIndex::build(entries);
    let mut uf = UnionFind::new(n);
    let mut stamp: Vec<u32> = zeros(n);
    let mut token: u32 = 1;
    proof {
        assert forall|x: int, y: int|
            0 <= x < g.entries.len() && 0 <= y < g.entries.len() && #[trigger] uf.same(
                x,
                y,
            ) implies g.connected(x, y) by {
            g.lemma_connected_refl(x);
        }
    }
    let mut a: usize = 0;
    while a < n
        invariant
            a <= n,
            n == entries@.len(),
            g == graph_of(entries@, ignored@, threshold),
            blocks == block_lists(entries@),
            index.indexes(blocks),
            uf.wf(),
            uf.size() == n,
            stamp@.len() == n,
            token >= 1,
            forall|b: int| 0 <= b < n ==> stamp@[b] < token,
            sound(uf, g),
            joined_before(uf, g, a as int),
        decreases n - a,
    {
        let ea = &entries[a];
        let mut bi: usize = 0;
        while bi < ea.blocks.len()
            invariant
                a < n,
                n == entries@.len(),
                *ea == entries@[a as int],
                bi <= ea.blocks@.len(),
                g == graph_of(entries@, ignored@, threshold),
                blocks == block_lists(entries@),
                    index.indexes(blocks),
                uf.wf(),
                uf.size() == n,
                stamp@.len() == n,
                token >= 1,
                forall|b: int| 0 <= b < n ==> stamp@[b] <= token,
                sound(uf, g),
                joined_before(uf, g, a as int),
                stamped_joined(uf, g, stamp@, token, a as int),
                sharers_stamped(blocks, stamp@, token, a as int, bi as int),
            decreases ea.blocks@.len() - bi,
        {
            let key: u32 = block_key(bi, ea.blocks[bi]);
            assert(blocks[a as int] == ea.blocks@);
            assert(key == block_key_of(bi as int, blocks[a as int][bi as int]));
            let found = index.lookup(key);
            let (start, end): (usize, usize) = match found {
                Some(pos) => index.ranges[pos],
                None => (0, 0),
            };
            proof {
                // the block of `a` itself stands in the index under this key
                let own = pair_of(blocks, a as int, bi as int);
                assert(index.pairs@.contains(own));
                let t0 = choose|t: int| 0 <= t < index.pairs@.len() && index.pairs@[t] == own;
                let p0 = index.lemma_key_known(t0);
                assert(found is Some);
            }
            let ghost pos = found->0 as int;
            let mut t: usize = start;
            while t < end
                invariant
                    a < n,
                    n == entries@.len(),
                    *ea == entries@[a as int],
                    bi < ea.blocks@.len(),
                    g == graph_of(entries@, ignored@, threshold),
                    blocks == block_lists(entries@),
                            index.indexes(blocks),
                    0 <= pos < index.keys@.len(),
                    index.keys@[pos] == key,
                    index.ranges@[pos] == (start, end),
                    key == block_key_of(bi as int, blocks[a as int][bi as int]),
                    start <= t <= end <= index.pairs@.len(),
                    uf.wf(),
                    uf.size() == n,
                    stamp@.len() == n,
                    token >= 1,
                    forall|b: int| 0 <= b < n ==> stamp@[b] <= token,
                    sound(uf, g),
                    joined_before(uf, g, a as int),
                    stamped_joined(uf, g, stamp@, token, a as int),
                    sharers_stamped(blocks, stamp@, token, a as int, bi as int),
                    forall|u: int|
                        start <= u < t && (#[trigger] index.pairs@[u]).1 > a
                            ==> stamp@[index.pairs@[u].1 as int] == token,
                decreases end - t,
            {
                let b: usize = index.pairs[t].1;
                assert(is_block(blocks, index.pairs@[t as int]));
                assert(index.pairs@[t as int].0 == key);
                if b > a && stamp[b] != token {
                    let ghost old_stamp = stamp@;
                    stamp[b] = token;
                    let mut link: bool = false;
                    if within_threshold(&ea.bits, &entries[b].bits, threshold) {
                        if !sets_aside(ignored, &ea.name, &entries[b].name) {
                            link = true;
                        }
                    }
                    proof {
                        assert(g.entries[a as int] == entries@[a as int]@);
                        assert(g.entries[b as int] == entries@[b as int]@);
                        if link {
                            let j = choose|j: int|
                                0 <= j < blocks[b as int].len() && key == #[trigger] block_key_of(
                                    j,
                                    blocks[b as int][j],
                                );
                            assert(block_key_of(bi as int, g.entries[a as int].blocks[bi as int])
                                == block_key_of(j, g.entries[b as int].blocks[j]));
                            assert(share_block(
                                g.entries[a as int].blocks,
                                g.entries[b as int].blocks,
                            ));
                            assert(g.close(a as int, b as int));
                        } else {
                            assert(!g.close(a as int, b as int));
                        }
                    }
                    let ghost before = uf;
                    if link {
                        uf.union(a, b);
                        proof {
                            lemma_union_keeps(before, uf, g, a as int, b as int);
                        }
                    }
                    proof {
                        assert forall|x: int, y: int| x < a && #[trigger] g.close(
                            x,
                            y,
                        ) implies uf.same(x, y) by {
                            assert(before.same(x, y));
                        }
                        assert forall|c: int|
                            0 <= c < stamp@.len() && #[trigger] stamp@[c] == token && g.close(
                                a as int,
                                c,
                            ) implies uf.same(a as int, c) by {
                            if c != b {
                                assert(old_stamp[c] == token);
                                assert(before.same(a as int, c));
                            }
                        }
                        assert forall|c: int, i: int, j: int|
                            a < c < blocks.len() && 0 <= i < bi && 0 <= j < blocks[c].len()
                                && #[trigger] block_key_of(i, blocks[a as int][i])
                                == #[trigger] block_key_of(j, blocks[c][j]) implies stamp@[c]
                            == token by {
                            if c != b {
                                assert(old_stamp[c] == token);
                            }
                        }
                        assert forall|u: int|
                            start <= u < t + 1
                                && (#[trigger] index.pairs@[u]).1
                                > a implies stamp@[index.pairs@[u].1 as int]
                            == token by {
                            if u < t && index.pairs@[u].1 != b {
                                assert(old_stamp[index.pairs@[u].1 as int] == token);
                            }
                        }
                    }
                }
                t += 1;
            }
            proof {
                assert forall|c: int, i: int, j: int|
                    a < c < blocks.len() && 0 <= i < bi + 1 && 0 <= j < blocks[c].len()
                        && #[trigger] block_key_of(i, blocks[a as int][i])
                        == #[trigger] block_key_of(j, blocks[c][j]) implies stamp@[c] == token by {
                    if i == bi {
                        let other = pair_of(blocks, c, j);
                        assert(index.pairs@.contains(other));
                        let u = choose|u: int| 0 <= u < index.pairs@.len() && index.pairs@[u] == other;
                        index.lemma_in_run_of_key(pos, u);
                        assert(index.pairs@[u].1 > a);
                    }
                }
            }
            bi += 1;
        }
        proof {
            assert forall|x: int, y: int| x < a + 1 && #[trigger] g.close(x, y) implies uf.same(
                x,
                y,
            ) by {
                if x == a {
                    assert(g.entries[a as int] == entries@[a as int]@);
                    assert(g.entries[y] == entries@[y]@);
                    let (i, j) = choose|i: int, j: int|
                        0 <= i < g.entries[x].blocks.len() && 0 <= j < g.entries[y].blocks.len()
                            && #[trigger] block_key_of(i, g.entries[x].blocks[i])
                            == #[trigger] block_key_of(j, g.entries[y].blocks[j]);
                    assert(blocks[a as int] == g.entries[x].blocks);
                    assert(blocks[y] == g.entries[y].blocks);
                    assert(block_key_of(i, blocks[a as int][i]) == block_key_of(j, blocks[y][j]));
                    assert(stamp@[y] == token);
                }
            }
        }
        if token == u32::MAX {
            stamp = zeros(n);
            token = 1;
        } else {
            token = token + 1;
        }
        a += 1;
    }
    proof {
        assert forall|x: int, y: int|
            0 <= x < entries@.len() && 0 <= y < entries@.len() implies (#[trigger] uf.same(x, y)
            <==> g.connected(x, y)) by {
            if g.connected(x, y) {
                let path = choose|path: Seq<int>| g.links(path, x, y);
                let rel = |p: int, q: int| uf.same(p, q);
                assert forall|p: int, q: int| g.adjacent(p, q) implies #[trigger] rel(p, q) by {
                    if g.close(p, q) {
                        assert(uf.same(p, q));
                    } else {
                        assert(g.close(q, p));
                        assert(uf.same(q, p));
                    }
                }
                g.lemma_chain_within(path, rel);
            }
        }
    }
    uf
}

/// Lists of indices as sequences of numbers.
pub open spec fn index_lists(lists: Seq<Vec<usize>>) -> Seq<Seq<int>> {
    Seq::new(lists.len(), |k: int| Seq::new(lists[k]@.len(), |p: int| lists[k]@[p] as int))
}

/// Whether `(k, p)` is a place in `lists`.
pub open spec fn is_place(lists: Seq<Seq<int>>, k: int, p: int) -> bool {
    0 <= k < lists.len() && 0 <= p < lists[k].len()
}

/// The index at place `(k, p)`.
pub open spec fn at(lists: Seq<Seq<int>>, k: int, p: int) -> int {
    lists[k][p]
}

/// Whether `x` stands somewhere in `lists`.
pub open spec fn placed(lists: Seq<Seq<int>>, x: int) -> bool {
    exists|k: int, p: int| is_place(lists, k, p) && #[trigger] at(lists, k, p) == x
}

/// No index stands at two places.
pub open spec fn places_distinct(lists: Seq<Seq<int>>) -> bool {
    forall|k: int, p: int, k2: int, p2: int|
        is_place(lists, k, p) && is_place(lists, k2, p2) && #[trigger] at(lists, k, p)
            == #[trigger] at(lists, k2, p2) ==> k == k2 && p == p2
}

/// Two placed files are connected exactly when they stand in one list.
pub open spec fn lists_are_classes(g: Graph, lists: Seq<Seq<int>>) -> bool {
    forall|k: int, p: int, k2: int, p2: int|
        is_place(lists, k, p) && is_place(lists, k2, p2) ==> (g.connected(
            #[trigger] at(lists, k, p),
            #[trigger] at(lists, k2, p2),
        ) <==> k == k2)
}

/// Every index in `lists` is a file of the scan.
pub open spec fn places_in_range(g: Graph, lists: Seq<Seq<int>>) -> bool {
    forall|k: int, p: int|
        is_place(lists, k, p) ==> 0 <= #[trigger] at(lists, k, p) < g.entries.len()
}

/// The class of the first file of list `k`.
pub open spec fn head_class(uf: UnionFind, lists: Seq<Seq<int>>, k: int) -> int {
    uf.class_of(at(lists, k, 0))
}

/// The classes of connected files, one list each, every file in one list.
fn classes(uf: &mut UnionFind, n: usize, Ghost(g): Ghost<Graph>) -> (lists: Vec<Vec<usize>>)
    requires
        old(uf).wf(),
        old(uf).size() == n,
        g.entries.len() == n,
        forall|a: int, b: int|
            0 <= a < n && 0 <= b < n ==> (#[trigger] old(uf).same(a, b) <==> g.connected(a, b)),
    ensures
        places_in_range(g, index_lists(lists@)),
        places_distinct(index_lists(lists@)),
        lists_are_classes(g, index_lists(lists@)),
        forall|x: int| 0 <= x < n ==> #[trigger] placed(index_lists(lists@), x),
        forall|k: int| 0 <= k < lists@.len() ==> (#[trigger] lists@[k])@.len() >= 1,
{
    let mut lists: Vec<Vec<usize>> = Vec::new();
    let mut slot: Vec<usize> = Vec::new();
    let mut i: usize = 0;
    while i < n
        invariant
            i <= n,
            slot@.len() == i,
            forall|r: int| 0 <= r < i ==> slot@[r] == n,
        decreases n - i,
    {
        slot.push(n);
        i += 1;
    }
    let mut x: usize = 0;
    while x < n
        invariant
            x <= n,
            uf.wf(),
            uf.size() == n,
            g.entries.len() == n,
            forall|y: int| uf.class_of(y) == old(uf).class_of(y),
            forall|a: int, b: int|
                0 <= a < n && 0 <= b < n ==> (#[trigger] old(uf).same(a, b) <==> g.connected(a, b)),
            slot@.len() == n,
            lists@.len() <= x,
            forall|k: int| 0 <= k < lists@.len() ==> (#[trigger] lists@[k])@.len() >= 1,
            forall|k: int, p: int|
                is_place(index_lists(lists@), k, p) ==> 0 <= #[trigger] at(
                    index_lists(lists@),
                    k,
                    p,
                ) < x && uf.class_of(at(index_lists(lists@), k, p)) == uf.class_of(
                    at(index_lists(lists@), k, 0),
                ),
            forall|k: int|
                0 <= k < lists@.len() ==> 0 <= #[trigger] head_class(*uf, index_lists(lists@), k)
                    < n && slot@[head_class(*uf, index_lists(lists@), k)] == k,
            forall|r: int|
                0 <= r < n ==> (#[trigger] slot@[r]) == n || (slot@[r] < lists@.len()
                    && uf.class_of(at(index_lists(lists@), slot@[r] as int, 0)) == r),
            places_distinct(index_lists(lists@)),
            forall|y: int| 0 <= y < x ==> #[trigger] placed(index_lists(lists@), y),
        decreases n - x,
    {
        let ghost before = index_lists(lists@);
        let ghost old_slot = slot@;
        let ghost mid = *uf;
        let root: usize = uf.find(x);
        proof {
            uf.lemma_class_in_range(x as int);
        }
        if slot[root] == n {
            let mut fresh: Vec<usize> = Vec::new();
            fresh.push(x);
            slot[root] = lists.len();
            lists.push(fresh);
            proof {
                let after = index_lists(lists@);
                let last = before.len() as int;
                assert(after[last] =~= seq![x as int]);
                assert forall|k: int| 0 <= k < last implies after[k] == before[k] by {
                    assert(after[k] =~= before[k]);
                }
                assert forall|k: int, p: int| is_place(after, k, p) implies 0 <= #[trigger] at(
                    after,
                    k,
                    p,
                ) < x + 1 && uf.class_of(at(after, k, p)) == uf.class_of(at(after, k, 0)) by {
                    if k < last {
                        assert(is_place(before, k, p));
                        assert(at(before, k, p) == at(after, k, p));
                    }
                }
                assert forall|k: int| 0 <= k < lists@.len() implies 0 <= #[trigger] head_class(
                    *uf,
                    after,
                    k,
                ) < n && slot@[head_class(*uf, after, k)] == k by {
                    if k < last {
                        assert(at(after, k, 0) == at(before, k, 0));
                        assert(head_class(*uf, before, k) == head_class(mid, before, k));
                        assert(head_class(*uf, after, k) == head_class(mid, before, k));
                        assert(old_slot[head_class(mid, before, k)] == k);
                        assert(head_class(mid, before, k) != root);
                    } else {
                        assert(at(after, last, 0) == x);
                        assert(head_class(*uf, after, k) == root);
                    }
                }
                assert forall|r: int| 0 <= r < n implies (#[trigger] slot@[r]) == n || (slot@[r]
                    < lists@.len() && uf.class_of(at(after, slot@[r] as int, 0)) == r) by {
                    if r != root {
                        assert(slot@[r] == old_slot[r]);
                        if old_slot[r] != n {
                            assert(at(after, old_slot[r] as int, 0) == at(
                                before,
                                old_slot[r] as int,
                                0,
                            ));
                        }
                    }
                }
                assert forall|k: int, p: int, k2: int, p2: int|
                    is_place(after, k, p) && is_place(after, k2, p2) && #[trigger] at(after, k, p)
                        == #[trigger] at(after, k2, p2) implies k == k2 && p == p2 by {
                    if k < last {
                        assert(is_place(before, k, p));
                        assert(at(before, k, p) == at(after, k, p));
                    }
                    if k2 < last {
                        assert(is_place(before, k2, p2));
                        assert(at(before, k2, p2) == at(after, k2, p2));
                    }
                }
                assert forall|y: int| 0 <= y < x + 1 implies #[trigger] placed(after, y) by {
                    if y < x {
                        assert(placed(before, y));
                        let (k, p) = choose|k: int, p: int|
                            is_place(before, k, p) && #[trigger] at(before, k, p) == y;
                        assert(is_place(after, k, p) && at(after, k, p) == y);
                    } else {
                        assert(is_place(after, last, 0) && at(after, last, 0) == y);
                    }
                }
            }
        } else {
            let k0: usize = slot[root];
            lists[k0].push(x);
            proof {
                let after = index_lists(lists@);
                let grown = before[k0 as int].len() as int;
                assert(after[k0 as int] =~= before[k0 as int].push(x as int));
                assert forall|k: int| 0 <= k < before.len() && k != k0 implies after[k]
                    == before[k] by {
                    assert(after[k] =~= before[k]);
                }
                assert(at(after, k0 as int, 0) == at(before, k0 as int, 0));
                assert forall|k: int, p: int| is_place(after, k, p) implies 0 <= #[trigger] at(
                    after,
                    k,
                    p,
                ) < x + 1 && uf.class_of(at(after, k, p)) == uf.class_of(at(after, k, 0)) by {
                    if k != k0 || p < grown {
                        assert(is_place(before, k, p));
                        assert(at(before, k, p) == at(after, k, p));
                        assert(at(before, k, 0) == at(after, k, 0));
                    }
                }
                assert forall|k: int| 0 <= k < lists@.len() implies 0 <= #[trigger] head_class(
                    *uf,
                    after,
                    k,
                ) < n && slot@[head_class(*uf, after, k)] == k by {
                    assert(at(after, k, 0) == at(before, k, 0));
                    assert(head_class(*uf, after, k) == head_class(mid, before, k));
                    assert(old_slot[head_class(mid, before, k)] == k);
                }
                assert forall|r: int| 0 <= r < n implies (#[trigger] slot@[r]) == n || (slot@[r]
                    < lists@.len() && uf.class_of(at(after, slot@[r] as int, 0)) == r) by {
                    if slot@[r] != n {
                        assert(at(after, slot@[r] as int, 0) == at(before, slot@[r] as int, 0));
                    }
                }
                assert forall|k: int, p: int, k2: int, p2: int|
                    is_place(after, k, p) && is_place(after, k2, p2) && #[trigger] at(after, k, p)
                        == #[trigger] at(after, k2, p2) implies k == k2 && p == p2 by {
                    if k != k0 || p < grown {
                        assert(is_place(before, k, p));
                        assert(at(before, k, p) == at(after, k, p));
                    }
                    if k2 != k0 || p2 < grown {
                        assert(is_place(before, k2, p2));
                        assert(at(before, k2, p2) == at(after, k2, p2));
                    }
                }
                assert forall|y: int| 0 <= y < x + 1 implies #[trigger] placed(after, y) by {
                    if y < x {
                        assert(placed(before, y));
                        let (k, p) = choose|k: int, p: int|
                            is_place(before, k, p) && #[trigger] at(before, k, p) == y;
                        assert(is_place(after, k, p) && at(after, k, p) == y);
                    } else {
                        assert(is_place(after, k0 as int, grown) && at(after, k0 as int, grown)
                            == y);
                    }
                }
            }
        }
        x += 1;
    }
    proof {
        let done = index_lists(lists@);
        assert forall|k: int, p: int, k2: int, p2: int|
            is_place(done, k, p) && is_place(done, k2, p2) implies (g.connected(
            #[trigger] at(done, k, p),
            #[trigger] at(done, k2, p2),
        ) <==> k == k2) by {
            let u = at(done, k, p);
            let v = at(done, k2, p2);
            assert(old(uf).same(u, v) <==> g.connected(u, v));
            assert(uf.class_of(u) == uf.class_of(at(done, k, 0)));
            assert(uf.class_of(v) == uf.class_of(at(done, k2, 0)));
            assert(slot@[head_class(*uf, done, k)] == k);
            assert(slot@[head_class(*uf, done, k2)] == k2);
        }
    }
    lists
}

/// The name of the file at place `(k, p)`.
pub open spec fn name_at(g: Graph, lists: Seq<Seq<int>>, k: int, p: int) -> Seq<char> {
    g.entries[at(lists, k, p)].name
}

/// Within each list the names ascend.
pub open spec fn names_ascend(g: Graph, lists: Seq<Seq<int>>) -> bool {
    forall|k: int, p: int, q: int|
        is_place(lists, k, p) && is_place(lists, k, q) && p <= q ==> lex_le(
            #[trigger] name_at(g, lists, k, p),
            #[trigger] name_at(g, lists, k, q),
        )
}

/// The lists ascend by the name of their first file.
pub open spec fn heads_ascend(g: Graph, lists: Seq<Seq<int>>) -> bool {
    forall|k: int, k2: int|
        0 <= k <= k2 < lists.len() ==> lex_le(
            #[trigger] name_at(g, lists, k, 0),
            #[trigger] name_at(g, lists, k2, 0),
        )
}

/// `members` are the groups of duplicates of a scan: one list for each class
/// of connected files that has more than one file, every such file in
/// exactly one list, the names ascending within each list and the lists
/// ascending by their first name.
pub open spec fn are_groups(g: Graph, members: Seq<Seq<int>>) -> bool {
    &&& places_in_range(g, members)
    &&& places_distinct(members)
    &&& lists_are_classes(g, members)
    &&& forall|x: int| 0 <= x < g.entries.len() && g.has_partner(x) ==> #[trigger] placed(members, x)
    &&& forall|k: int| 0 <= k < members.len() ==> (#[trigger] members[k]).len() >= 2
    &&& names_ascend(g, members)
    &&& heads_ascend(g, members)
}

/// `groups` holds the names of the files of `members`, place by place.
pub open spec fn names_of(g: Graph, members: Seq<Seq<int>>, groups: Seq<Vec<String>>) -> bool {
    &&& groups.len() == members.len()
    &&& forall|k: int| 0 <= k < groups.len() ==> (#[trigger] groups[k])@.len() == members[k].len()
    &&& forall|k: int, p: int|
        is_place(members, k, p) ==> groups[k]@[p]@ == #[trigger] name_at(g, members, k, p)
}

/// A copy of a list of indices.
fn copy_indices(v: &Vec<usize>) -> (out: Vec<usize>)
    ensures
        out@ == v@,
{
    let mut out: Vec<usize> = Vec::new();
    let mut i: usize = 0;
    while i < v.len()
        invariant
            i <= v.len(),
            out@ == v@.take(i as int),
        decreases v.len() - i,
    {
        out.push(v[i]);
        i += 1;
    }
    assert(v@.take(v@.len() as int) =~= v@);
    out
}

/// The files of `list` ordered by name, files of one name in the order of
/// the list.
fn sort_by_name(entries: &Vec<Entry>, list: &Vec<usize>) -> (r: (Vec<usize>, Ghost<Seq<usize>>))
    requires
        forall|p: int| 0 <= p < list@.len() ==> list@[p] < entries@.len(),
    ensures
        r.0@.len() == list@.len(),
        r.1@.len() == list@.len(),
        forall|p: int| 0 <= p < list@.len() ==> 0 <= #[trigger] r.1@[p] < list@.len() && r.0@[p]
            == list@[r.1@[p] as int],
        forall|p: int, q: int|
            0 <= p < list@.len() && 0 <= q < list@.len() && #[trigger] r.1@[p] == #[trigger] r.1@[q]
                ==> p == q,
        forall|i: int| 0 <= i < list@.len() ==> #[trigger] names_index(r.1@, i),
        forall|p: int, q: int|
            0 <= p <= q < list@.len() ==> lex_le(
                (#[trigger] entries@[r.0@[p] as int]).name@,
                (#[trigger] entries@[r.0@[q] as int]).name@,
            ),
{
    let mut keys: Vec<Vec<char>> = Vec::new();
    let mut i: usize = 0;
    while i < list.len()
        invariant
            i <= list.len(),
            keys@.len() == i,
            forall|p: int| 0 <= p < list@.len() ==> list@[p] < entries@.len(),
            forall|p: int| 0 <= p < i ==> (#[trigger] keys@[p])@ == entries@[list@[p] as int].name@,
        decreases list.len() - i,
    {
        keys.push(chars_of(entries[list[i]].name.as_str()));
        i += 1;
    }
    let order = sorted_order(&keys);
    let ghost ks = texts(keys@);
    let mut out: Vec<usize> = Vec::new();
    let mut p: usize = 0;
    while p < order.len()
        invariant
            p <= order@.len(),
            order@.len() == list@.len(),
            keys@.len() == list@.len(),
            ks == texts(keys@),
            is_stable_order(ks, order@),
            out@.len() == p,
            forall|q: int| 0 <= q < p ==> out@[q] == list@[order@[q] as int],
        decreases order@.len() - p,
    {
        out.push(list[order[p]]);
        p += 1;
    }
    proof {
        assert forall|a: int, b: int|
            0 <= a < list@.len() && 0 <= b < list@.len() && #[trigger] order@[a]
                == #[trigger] order@[b] implies a == b by {
            lemma_stable_order_distinct(ks, order@, a, b);
        }
        assert forall|a: int, b: int| 0 <= a <= b < list@.len() implies lex_le(
            (#[trigger] entries@[out@[a] as int]).name@,
            (#[trigger] entries@[out@[b] as int]).name@,
        ) by {
            lemma_stable_order_ascends(ks, order@, a, b);
            assert(ks[order@[a] as int] == keys@[order@[a] as int]@);
            assert(ks[order@[b] as int] == keys@[order@[b] as int]@);
        }
    }
    (out, Ghost(order@))
}

/// Whether `v` stands in list `k`.
pub open spec fn in_list(lists: Seq<Seq<int>>, k: int, v: int) -> bool {
    exists|q: int| is_place(lists, k, q) && #[trigger] at(lists, k, q) == v
}

/// The classes with more than one file, each ordered by name.
fn sorted_groups(entries: &Vec<Entry>, lists: &Vec<Vec<usize>>, Ghost(g): Ghost<Graph>) -> (out:
    Vec<Vec<usize>>)
    requires
        g.entries == entry_views(entries@),
        places_in_range(g, index_lists(lists@)),
        places_distinct(index_lists(lists@)),
        lists_are_classes(g, index_lists(lists@)),
        forall|x: int| 0 <= x < entries@.len() ==> #[trigger] placed(index_lists(lists@), x),
    ensures
        places_in_range(g, index_lists(out@)),
        places_distinct(index_lists(out@)),
        lists_are_classes(g, index_lists(out@)),
        forall|x: int|
            0 <= x < g.entries.len() && g.has_partner(x) ==> #[trigger] placed(
                index_lists(out@),
                x,
            ),
        forall|k: int| 0 <= k < out@.len() ==> (#[trigger] index_lists(out@)[k]).len() >= 2,
        names_ascend(g, index_lists(out@)),
{
    let ghost all = index_lists(lists@);
    let mut out: Vec<Vec<usize>> = Vec::new();
    let ghost mut src: Seq<int> = Seq::empty();
    let mut k: usize = 0;
    while k < lists.len()
        invariant
            k <= lists@.len(),
            all == index_lists(lists@),
            g.entries == entry_views(entries@),
            places_in_range(g, all),
            places_distinct(all),
            src.len() == out@.len(),
            sources_ascend(src),
            lists_are_classes(g, all),
            forall|x: int| 0 <= x < entries@.len() ==> #[trigger] placed(all, x),
            forall|j: int| 0 <= j < src.len() ==> 0 <= #[trigger] src[j] < k,
            forall|j: int, p: int|
                is_place(index_lists(out@), j, p) ==> in_list(
                    all,
                    src[j],
                    #[trigger] at(index_lists(out@), j, p),
                ),
            places_distinct(index_lists(out@)),
            forall|j: int| 0 <= j < out@.len() ==> (#[trigger] index_lists(out@)[j]).len() >= 2,
            names_ascend(g, index_lists(out@)),
            forall|k2: int, q: int|
                is_place(all, k2, q) && k2 < k && all[k2].len() >= 2 ==> placed(
                    index_lists(out@),
                    #[trigger] at(all, k2, q),
                ),
        decreases lists@.len() - k,
    {
        let list = &lists[k];
        if list.len() >= 2 {
            let ghost before = index_lists(out@);
            proof {
                assert forall|p: int| 0 <= p < list@.len() implies list@[p] < entries@.len() by {
                    assert(is_place(all, k as int, p));
                    assert(at(all, k as int, p) == list@[p]);
                }
            }
            let (sg, Ghost(ord)) = sort_by_name(entries, list);
            let ghost sgv = sg@;
            out.push(sg);
            proof {
                src = src.push(k as int);
                let after = index_lists(out@);
                let last = before.len() as int;
                assert forall|j: int| 0 <= j < last implies after[j] == before[j] by {
                    assert(after[j] =~= before[j]);
                }
                assert forall|p: int| 0 <= p < after[last].len() implies in_list(
                    all,
                    k as int,
                    #[trigger] at(after, last, p),
                ) && at(after, last, p) == at(all, k as int, ord[p] as int) by {
                    assert(out@[last]@ == sgv);
                    assert(at(after, last, p) == sgv[p]);
                    assert(sgv[p] == list@[ord[p] as int]);
                    assert(is_place(all, k as int, ord[p] as int));
                    assert(at(all, k as int, ord[p] as int) == list@[ord[p] as int]);
                }
                assert forall|j: int, p: int| is_place(after, j, p) implies in_list(
                    all,
                    src[j],
                    #[trigger] at(after, j, p),
                ) by {
                    if j < last {
                        assert(is_place(before, j, p));
                        assert(at(before, j, p) == at(after, j, p));
                    }
                }
                assert forall|j: int, p: int, j2: int, p2: int|
                    is_place(after, j, p) && is_place(after, j2, p2) && #[trigger] at(after, j, p)
                        == #[trigger] at(after, j2, p2) implies j == j2 && p == p2 by {
                    let v = at(after, j, p);
                    assert(in_list(all, src[j], v));
                    assert(in_list(all, src[j2], at(after, j2, p2)));
                    let q = choose|q: int| is_place(all, src[j], q)
                        && #[trigger] at(all, src[j], q) == v;
                    let q2 = choose|q: int|
                        is_place(all, src[j2], q) && #[trigger] at(all, src[j2], q) == v;
                    assert(src[j] == src[j2]);
                    if j < last && j2 < last {
                        assert(is_place(before, j, p) && is_place(before, j2, p2));
                        assert(at(before, j, p) == at(before, j2, p2));
                    } else if j == last && j2 == last {
                        assert(at(all, k as int, ord[p] as int) == at(all, k as int, ord[p2] as int));
                        assert(is_place(all, k as int, ord[p] as int));
                        assert(is_place(all, k as int, ord[p2] as int));
                    }
                }
                assert forall|j: int, p: int, q: int|
                    is_place(after, j, p) && is_place(after, j, q) && p <= q implies lex_le(
                    #[trigger] name_at(g, after, j, p),
                    #[trigger] name_at(g, after, j, q),
                ) by {
                    if j < last {
                        assert(is_place(before, j, p) && is_place(before, j, q));
                        assert(name_at(g, before, j, p) == name_at(g, after, j, p));
                        assert(name_at(g, before, j, q) == name_at(g, after, j, q));
                    } else {
                        assert(g.entries[at(after, j, p)] == entries@[at(after, j, p)]@);
                        assert(g.entries[at(after, j, q)] == entries@[at(after, j, q)]@);
                    }
                }
                assert forall|k2: int, q: int|
                    is_place(all, k2, q) && k2 < k + 1 && all[k2].len() >= 2 implies placed(
                    after,
                    #[trigger] at(all, k2, q),
                ) by {
                    if k2 < k {
                        assert(placed(before, at(all, k2, q)));
                        let (j, p) = choose|j: int, p: int|
                            is_place(before, j, p) && #[trigger] at(before, j, p) == at(all, k2, q);
                        assert(is_place(after, j, p) && at(after, j, p) == at(all, k2, q));
                    } else {
                        assert(names_index(ord, q));
                        let p = choose|p: int| 0 <= p < ord.len() && #[trigger] ord[p] == q;
                        assert(is_place(after, last, p) && at(after, last, p) == at(all, k2, q));
                    }
                }
            }
        }
        k += 1;
    }
    proof {
        let done = index_lists(out@);
        assert forall|j: int, p: int| is_place(done, j, p) implies 0 <= #[trigger] at(done, j, p)
            < g.entries.len() by {
            assert(in_list(all, src[j], at(done, j, p)));
        }
        assert forall|j: int, p: int, j2: int, p2: int|
            is_place(done, j, p) && is_place(done, j2, p2) implies (g.connected(
            #[trigger] at(done, j, p),
            #[trigger] at(done, j2, p2),
        ) <==> j == j2) by {
            let v = at(done, j, p);
            let w = at(done, j2, p2);
            assert(in_list(all, src[j], v));
            assert(in_list(all, src[j2], w));
            let q = choose|q: int| is_place(all, src[j], q) && #[trigger] at(all, src[j], q) == v;
            let q2 = choose|q: int| is_place(all, src[j2], q) && #[trigger] at(all, src[j2], q) == w;
            if j == j2 {
            } else if src[j] == src[j2] {
                // two groups from one class: the first file of each is the same file
                assert(in_list(all, src[j], at(done, j, 0)));
                lemma_one_group_per_list(all, done, src, j, j2);
            }
        }
        assert forall|x: int| 0 <= x < g.entries.len() && g.has_partner(x) implies #[trigger] placed(
            done,
            x,
        ) by {
            let y = choose|y: int| y != x && g.connected(x, y);
            g.lemma_connected_in_range(x, y);
            assert(placed(all, x));
            assert(placed(all, y));
            let (kx, px) = choose|kx: int, px: int| is_place(all, kx, px)
                && #[trigger] at(all, kx, px) == x;
            let (ky, py) = choose|ky: int, py: int| is_place(all, ky, py)
                && #[trigger] at(all, ky, py) == y;
            assert(kx == ky);
            assert(px != py);
            assert(all[kx].len() >= 2);
        }
    }
    out
}

/// No class gives two groups.
proof fn lemma_one_group_per_list(
    all: Seq<Seq<int>>,
    done: Seq<Seq<int>>,
    src: Seq<int>,
    j: int,
    j2: int,
)
    requires
        0 <= j < done.len(),
        0 <= j2 < done.len(),
        src.len() == done.len(),
        src[j] == src[j2],
        sources_ascend(src),
    ensures
        j == j2,
{
    if j < j2 {
        assert(src[j] < src[j2]);
    } else if j2 < j {
        assert(src[j2] < src[j]);
    }
}

/// Each group comes from a later list than the one before it.
pub open spec fn sources_ascend(src: Seq<int>) -> bool {
    forall|j: int, j2: int| 0 <= j < j2 < src.len() ==> #[trigger] src[j] < #[trigger] src[j2]
}

/// The groups ordered by the name of their first file.
fn order_groups(entries: &Vec<Entry>, groups: &Vec<Vec<usize>>, Ghost(g): Ghost<Graph>) -> (out: Vec<
    Vec<usize>,
>)
    requires
        g.entries == entry_views(entries@),
        places_in_range(g, index_lists(groups@)),
        places_distinct(index_lists(groups@)),
        lists_are_classes(g, index_lists(groups@)),
        forall|x: int|
            0 <= x < g.entries.len() && g.has_partner(x) ==> #[trigger] placed(
                index_lists(groups@),
                x,
            ),
        forall|k: int| 0 <= k < groups@.len() ==> (#[trigger] index_lists(groups@)[k]).len() >= 2,
        names_ascend(g, index_lists(groups@)),
    ensures
        are_groups(g, index_lists(out@)),
{
    let ghost given = index_lists(groups@);
    let mut keys: Vec<Vec<char>> = Vec::new();
    let mut j: usize = 0;
    while j < groups.len()
        invariant
            j <= groups@.len(),
            keys@.len() == j,
            given == index_lists(groups@),
            g.entries == entry_views(entries@),
            places_in_range(g, given),
            forall|k: int| 0 <= k < groups@.len() ==> (#[trigger] given[k]).len() >= 2,
            forall|k: int| 0 <= k < j ==> (#[trigger] keys@[k])@ == name_at(g, given, k, 0),
        decreases groups@.len() - j,
    {
        assert(given[j as int].len() >= 2);
        assert(is_place(given, j as int, 0));
        assert(at(given, j as int, 0) == groups@[j as int]@[0]);
        let first: usize = groups[j][0];
        assert(g.entries[first as int] == entries@[first as int]@);
        keys.push(chars_of(entries[first].name.as_str()));
        j += 1;
    }
    let order = sorted_order(&keys);
    let ghost ks = texts(keys@);
    let mut out: Vec<Vec<usize>> = Vec::new();
    let mut k: usize = 0;
    while k < order.len()
        invariant
            k <= order@.len(),
            order@.len() == groups@.len(),
            is_stable_order(ks, order@),
            ks.len() == groups@.len(),
            out@.len() == k,
            forall|i: int| 0 <= i < k ==> (#[trigger] out@[i])@ == groups@[order@[i] as int]@,
        decreases order@.len() - k,
    {
        assert(0 <= order@[k as int] < groups@.len());
        out.push(copy_indices(&groups[order[k]]));
        k += 1;
    }
    proof {
        let done = index_lists(out@);
        assert forall|i: int| 0 <= i < done.len() implies 0 <= #[trigger] order@[i] < given.len()
            && done[i] == given[order@[i] as int] by {
            assert(done[i] =~= given[order@[i] as int]);
        }
        assert forall|i: int, p: int| is_place(done, i, p) implies is_place(
            given,
            order@[i] as int,
            p,
        ) && #[trigger] at(done, i, p) == at(given, order@[i] as int, p) by {
            assert(done[i] == given[order@[i] as int]);
        }
        assert(places_in_range(g, done));
        assert forall|i: int, p: int, i2: int, p2: int|
            is_place(done, i, p) && is_place(done, i2, p2) && #[trigger] at(done, i, p)
                == #[trigger] at(done, i2, p2) implies i == i2 && p == p2 by {
            assert(at(given, order@[i] as int, p) == at(given, order@[i2] as int, p2));
            lemma_stable_order_distinct(ks, order@, i, i2);
        }
        assert forall|i: int, p: int, i2: int, p2: int|
            is_place(done, i, p) && is_place(done, i2, p2) implies (g.connected(
            #[trigger] at(done, i, p),
            #[trigger] at(done, i2, p2),
        ) <==> i == i2) by {
            assert(g.connected(
                at(given, order@[i] as int, p),
                at(given, order@[i2] as int, p2),
            ) <==> order@[i] == order@[i2]);
            if order@[i] == order@[i2] {
                lemma_stable_order_distinct(ks, order@, i, i2);
            }
        }
        assert forall|x: int| 0 <= x < g.entries.len() && g.has_partner(x) implies #[trigger] placed(
            done,
            x,
        ) by {
            assert(placed(given, x));
            let (s, p) = choose|s: int, p: int| is_place(given, s, p) && #[trigger] at(given, s, p) == x;
            assert(names_index(order@, s));
            let i = choose|i: int| 0 <= i < order@.len() && #[trigger] order@[i] == s;
            assert(is_place(done, i, p) && at(done, i, p) == x);
        }
        assert forall|i: int| 0 <= i < done.len() implies (#[trigger] done[i]).len() >= 2 by {
            assert(given[order@[i] as int].len() >= 2);
        }
        assert forall|i: int, p: int, q: int|
            is_place(done, i, p) && is_place(done, i, q) && p <= q implies lex_le(
            #[trigger] name_at(g, done, i, p),
            #[trigger] name_at(g, done, i, q),
        ) by {
            assert(name_at(g, done, i, p) == name_at(g, given, order@[i] as int, p));
            assert(name_at(g, done, i, q) == name_at(g, given, order@[i] as int, q));
        }
        assert forall|i: int, i2: int| 0 <= i <= i2 < done.len() implies lex_le(
            #[trigger] name_at(g, done, i, 0),
            #[trigger] name_at(g, done, i2, 0),
        ) by {
            lemma_stable_order_ascends(ks, order@, i, i2);
            assert(is_place(done, i, 0) && is_place(done, i2, 0));
            assert(name_at(g, done, i, 0) == name_at(g, given, order@[i] as int, 0));
            assert(name_at(g, done, i2, 0) == name_at(g, given, order@[i2] as int, 0));
            assert(ks[order@[i] as int] == keys@[order@[i] as int]@);
            assert(ks[order@[i2] as int] == keys@[order@[i2] as int]@);
        }
    }
    out
}

/// The names of the files of each group.
fn group_names(entries: &Vec<Entry>, members: &Vec<Vec<usize>>, Ghost(g): Ghost<Graph>) -> (groups:
    Vec<Vec<String>>)
    requires
        g.entries == entry_views(entries@),
        places_in_range(g, index_lists(members@)),
    ensures
        names_of(g, index_lists(members@), groups@),
{
    let ghost lists = index_lists(members@);
    let mut groups: Vec<Vec<String>> = Vec::new();
    let mut k: usize = 0;
    while k < members.len()
        invariant
            k <= members@.len(),
            lists == index_lists(members@),
            g.entries == entry_views(entries@),
            places_in_range(g, lists),
            groups@.len() == k,
            forall|i: int| 0 <= i < k ==> (#[trigger] groups@[i])@.len() == lists[i].len(),
            forall|i: int, p: int|
                is_place(lists, i, p) && i < k ==> groups@[i]@[p]@ == #[trigger] name_at(
                    g,
                    lists,
                    i,
                    p,
                ),
        decreases members@.len() - k,
    {
        let list = &members[k];
        let mut names: Vec<String> = Vec::new();
        let mut p: usize = 0;
        while p < list.len()
            invariant
                p <= list@.len(),
                k < members@.len(),
                *list == members@[k as int],
                lists == index_lists(members@),
                g.entries == entry_views(entries@),
                places_in_range(g, lists),
                names@.len() == p,
                forall|q: int| 0 <= q < p ==> (#[trigger] names@[q])@ == name_at(g, lists, k as int, q),
            decreases list@.len() - p,
        {
            assert(is_place(lists, k as int, p as int));
            assert(at(lists, k as int, p as int) == list@[p as int]);
            let x: usize = list[p];
            assert(g.entries[x as int] == entries@[x as int]@);
            names.push(entries[x].name.clone());
            p += 1;
        }
        groups.push(names);
        k += 1;
    }
    groups
}

/// The groups of duplicates among `entries`: the classes of files that a
/// chain of duplicates connects, those with more than one file, as lists of
/// names. Within a group the names ascend; the groups ascend by their first
/// name.
pub fn group_duplicates(
    entries: &Vec<Entry>,
    ignored: &Vec<(String, String)>,
    threshold: u32,
) -> (groups:
    Vec<Vec<String>>)
    ensures
        exists|members: Seq<Seq<int>>|
            are_groups(graph_of(entries@, ignored@, threshold), members) && #[trigger] names_of(
                graph_of(entries@, ignored@, threshold),
                members,
                groups@,
            ),
{
    let ghost g = graph_of(entries@, ignored@, threshold);
    let n: usize = entries.len();
    if n < 2 {
        let groups: Vec<Vec<String>> = Vec::new();
        proof {
            let none: Seq<Seq<int>> = Seq::empty();
            assert forall|x: int| 0 <= x < g.entries.len() && g.has_partner(x) implies #[trigger] placed(
                none,
                x,
            ) by {
                let y = choose|y: int| y != x && g.connected(x, y);
                g.lemma_connected_in_range(x, y);
            }
            assert(are_groups(g, none));
            assert(names_of(g, none, groups@));
        }
        return groups;
    }
    let mut uf = link_duplicates(entries, ignored, threshold);
    let lists = classes(&mut uf, n, Ghost(g));
    let sorted = sorted_groups(entries, &lists, Ghost(g));
    let members = order_groups(entries, &sorted, Ghost(g));
    let groups = group_names(entries, &members, Ghost(g));
    assert(names_of(g, index_lists(members@), groups@));
    groups
}

/// Setting more pairs aside never makes a new group: two files that stand
/// in one group while `more` is set aside stand in one group while only
/// `fewer` is.
pub proof fn lemma_groups_monotone(
    entries: Seq<crate::duplicates::EntryView>,
    threshold: u32,
    fewer: Set<(Seq<char>, Seq<char>)>,
    more: Set<(Seq<char>, Seq<char>)>,
    groups_fewer: Seq<Seq<int>>,
    groups_more: Seq<Seq<int>>,
    k: int,
    p: int,
    q: int,
)
    requires
        fewer.subset_of(more),
        are_groups(Graph { entries, ignored: fewer, threshold }, groups_fewer),
        are_groups(Graph { entries, ignored: more, threshold }, groups_more),
        is_place(groups_more, k, p),
        is_place(groups_more, k, q),
    ensures
        exists|k1: int, p1: int, q1: int|
            is_place(groups_fewer, k1, p1) && is_place(groups_fewer, k1, q1) && #[trigger] at(
                groups_fewer,
                k1,
                p1,
            ) == at(groups_more, k, p) && #[trigger] at(groups_fewer, k1, q1) == at(
                groups_more,
                k,
                q,
            ),
{
    let big = Graph { entries, ignored: more, threshold };
    let small = Graph { entries, ignored: fewer, threshold };
    let x = at(groups_more, k, p);
    let y = at(groups_more, k, q);
    assert(groups_more[k].len() >= 2);
    let r = if p == 0 {
        1int
    } else {
        0int
    };
    assert(is_place(groups_more, k, r));
    let z = at(groups_more, k, r);
    assert(z != x);
    assert(big.connected(x, z));
    assert(big.connected(x, y));
    crate::graph::lemma_connected_monotone(entries, threshold, fewer, more, x, z);
    crate::graph::lemma_connected_monotone(entries, threshold, fewer, more, x, y);
    assert(small.has_partner(x));
    small.lemma_connected_sym(x, y);
    if y == x {
        assert(small.has_partner(y));
    } else {
        assert(small.has_partner(y));
    }
    assert(placed(groups_fewer, x));
    assert(placed(groups_fewer, y));
    let (k1, p1) = choose|k1: int, p1: int|
        is_place(groups_fewer, k1, p1) && #[trigger] at(groups_fewer, k1, p1) == x;
    let (k2, q1) = choose|k2: int, q1: int|
        is_place(groups_fewer, k2, q1) && #[trigger] at(groups_fewer, k2, q1) == y;
    assert(k1 == k2);
}

} // verus!
