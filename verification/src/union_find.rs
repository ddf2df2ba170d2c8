//! Disjoint sets over `0..n`, with path compression and union by rank.

use vstd::prelude::*;

verus! {

/// A partition of `0..n` into classes. Each class is a tree of parent
/// links; `rep` names the root of each element's tree, and `height` is a
/// measure that grows along every parent link.
pub struct UnionFind {
    parent: Vec<usize>,
    rank: Vec<usize>,
    rep: Ghost<Seq<int>>,
    height: Ghost<Seq<nat>>,
}

impl UnionFind {
    /// The number of elements.
    pub closed spec fn size(&self) -> nat {
        self.parent@.len()
    }

    /// The representative of the class of `x`.
    pub closed spec fn class_of(&self, x: int) -> int {
        self.rep@[x]
    }

    /// Whether `x` and `y` are in one class.
    pub open spec fn same(&self, x: int, y: int) -> bool {
        self.class_of(x) == self.class_of(y)
    }

    /// The classes of `self` are those of `before` with the classes of `a`
    /// and `b` made one.
    pub open spec fn joins(&self, before: UnionFind, a: int, b: int) -> bool {
        forall|x: int, y: int|
            0 <= x < before.size() && 0 <= y < before.size() ==> (#[trigger] self.same(x, y)
                <==> before.same(x, y) || (before.same(x, a) && before.same(y, b)) || (before.same(
                x,
                b,
            ) && before.same(y, a)))
    }

    /// The links form trees whose roots are the representatives.
    pub closed spec fn wf(&self) -> bool {
        let n = self.parent@.len();
        &&& self.rank@.len() == n
        &&& self.rep@.len() == n
        &&& self.height@.len() == n
        &&& forall|x: int| 0 <= x < n ==> (#[trigger] self.parent@[x]) < n
        &&& forall|x: int| 0 <= x < n ==> 0 <= (#[trigger] self.rep@[x]) < n
        &&& forall|x: int| 0 <= x < n ==> self.rep@[(#[trigger] self.parent@[x]) as int] == self.rep@[x]
        &&& forall|x: int| 0 <= x < n && (#[trigger] self.parent@[x]) == x ==> self.rep@[x] == x
        &&& forall|x: int| 0 <= x < n ==> self.parent@[(#[trigger] self.rep@[x])] == self.rep@[x]
        &&& forall|x: int|
            0 <= x < n && (#[trigger] self.parent@[x]) != x ==> self.height@[x]
                < self.height@[self.parent@[x] as int]
        &&& forall|x: int| 0 <= x < n ==> self.height@[x] <= self.height@[#[trigger] self.rep@[x]]
    }

    /// The representative of a class is one of its elements.
    pub proof fn lemma_class_in_range(&self, x: int)
        requires
            self.wf(),
            0 <= x < self.size(),
        ensures
            0 <= self.class_of(x) < self.size(),
            self.class_of(self.class_of(x)) == self.class_of(x),
    {
        let r = self.rep@[x];
        assert(self.parent@[r] == r);
    }

    /// `n` classes of one element each.
    pub fn new(n: usize) -> (uf: UnionFind)
        ensures
            uf.wf(),
            uf.size() == n,
            forall|x: int, y: int| 0 <= x < n && 0 <= y < n ==> (uf.same(x, y) <==> x == y),
    {
        let mut parent: Vec<usize> = Vec::new();
        let mut rank: Vec<usize> = Vec::new();
        let mut i: usize = 0;
        while i < n
            invariant
                i <= n,
                parent@.len() == i,
                rank@.len() == i,
                forall|x: int| 0 <= x < i ==> parent@[x] == x,
            decreases n - i,
        {
            parent.push(i);
            rank.push(0);
            i += 1;
        }
        UnionFind {
            parent,
            rank,
            rep: Ghost(Seq::new(n as nat, |x: int| x)),
            height: Ghost(Seq::new(n as nat, |x: int| 0nat)),
        }
    }

    /// The representative of the class of `x`. The links on the way to it
    /// are shortened; the classes stay as they are.
    pub fn find(&mut self, x: usize) -> (root: usize)
        requires
            old(self).wf(),
            x < old(self).size(),
        ensures
            final(self).wf(),
            final(self).size() == old(self).size(),
            root == old(self).class_of(x as int),
            forall|y: int| final(self).class_of(y) == old(self).class_of(y),
    {
        let mut root: usize = x;
        while self.parent[root] != root
            invariant
                self.wf(),
                *self == *old(self),
                root < self.parent@.len(),
                self.rep@[root as int] == self.rep@[x as int],
            decreases self.height@[self.rep@[x as int]] - self.height@[root as int],
        {
            root = self.parent[root];
        }
        let mut cur: usize = x;
        while self.parent[cur] != cur
            invariant
                self.wf(),
                self.rep == old(self).rep,
                self.height == old(self).height,
                self.parent@.len() == old(self).parent@.len(),
                cur < self.parent@.len(),
                root < self.parent@.len(),
                self.parent@[root as int] == root,
                self.rep@[cur as int] == root,
            decreases self.height@[root as int] - self.height@[cur as int],
        {
            let next: usize = self.parent[cur];
            self.parent[cur] = root;
            cur = next;
        }
        root
    }

    /// Joins the classes of `a` and `b`.
    pub fn union(&mut self, a: usize, b: usize)
        requires
            old(self).wf(),
            a < old(self).size(),
            b < old(self).size(),
        ensures
            final(self).wf(),
            final(self).size() == old(self).size(),
            final(self).joins(*old(self), a as int, b as int),
    {
        let found_a: usize = self.find(a);
        let found_b: usize = self.find(b);
        if found_a == found_b {
            return ;
        }
        let (ra, rb): (usize, usize) = if self.rank[found_a] < self.rank[found_b] {
            (found_b, found_a)
        } else {
            (found_a, found_b)
        };
        proof {
            self.lemma_class_in_range(a as int);
            self.lemma_class_in_range(b as int);
        }
        let ghost before = *self;
        self.parent[rb] = ra;
        if self.rank[ra] == self.rank[rb] && self.rank[ra] < usize::MAX {
            self.rank[ra] = self.rank[ra] + 1;
        }
        proof {
            let old_rep = before.rep@;
            let old_height = before.height@;
            let lifted: nat = if old_height[ra as int] > old_height[rb as int] {
                old_height[ra as int]
            } else {
                old_height[rb as int] + 1
            };
            self.rep = Ghost(
                Seq::new(
                    old_rep.len(),
                    |x: int|
                        if old_rep[x] == rb {
                            ra as int
                        } else {
                            old_rep[x]
                        },
                ),
            );
            self.height = Ghost(old_height.update(ra as int, lifted));
            assert(old_rep[ra as int] == ra);
            assert(old_rep[rb as int] == rb);
            assert forall|x: int| 0 <= x < self.parent@.len() implies self.rep@[(
            #[trigger] self.parent@[x]) as int] == self.rep@[x] by {
                if x != rb {
                    assert(before.parent@[x] == self.parent@[x]);
                }
            }
            assert forall|x: int| 0 <= x < self.parent@.len() implies self.parent@[(
            #[trigger] self.rep@[x])] == self.rep@[x] by {
                assert(before.parent@[before.rep@[x]] == before.rep@[x]);
            }
            assert forall|x: int|
                0 <= x < self.parent@.len() && (#[trigger] self.parent@[x])
                    != x implies self.height@[x] < self.height@[self.parent@[x] as int] by {
                if x != rb {
                    assert(before.parent@[x] == self.parent@[x]);
                }
            }
            assert forall|x: int| 0 <= x < self.parent@.len() implies self.height@[x]
                <= self.height@[#[trigger] self.rep@[x]] by {
                assert(before.height@[x] <= before.height@[before.rep@[x]]);
            }
        }
    }
}

} // verus!
