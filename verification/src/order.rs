//! Ordering texts the way `str` orders them, and keeping what compares equal
//! in the order in which it came.

use crate::text::{
    chars_eq, chars_le, lemma_lex_antisym, lemma_lex_refl, lemma_lex_total, lemma_lex_trans, lex_le,
};
use vstd::prelude::*;

verus! {

/// The texts of a vector of character vectors.
pub open spec fn texts(keys: Seq<Vec<char>>) -> Seq<Seq<char>> {
    Seq::new(keys.len(), |i: int| keys[i]@)
}

/// Whether the item at `i` goes before the item at `j`: its key is smaller,
/// or the keys are equal and it came first.
pub open spec fn goes_before(keys: Seq<Seq<char>>, i: int, j: int) -> bool {
    if keys[i] == keys[j] {
        i < j
    } else {
        lex_le(keys[i], keys[j])
    }
}

/// Whether `order` names the index `i` somewhere.
pub open spec fn names_index(order: Seq<usize>, i: int) -> bool {
    exists|p: int| 0 <= p < order.len() && #[trigger] order[p] == i
}

/// `order` lists the first `n` indices of `keys`, each once, an item that
/// goes before another standing before it.
pub open spec fn orders_first(keys: Seq<Seq<char>>, order: Seq<usize>, n: int) -> bool {
    &&& order.len() == n
    &&& forall|p: int| 0 <= p < n ==> 0 <= #[trigger] order[p] < n
    &&& forall|p: int, q: int|
        0 <= p < q < n ==> goes_before(keys, #[trigger] order[p] as int, #[trigger] order[q] as int)
    &&& forall|i: int| 0 <= i < n ==> #[trigger] names_index(order, i)
}

/// `order` is the stable ascending order of `keys`: a permutation of their
/// indices along which the keys ascend, equal keys in the order they came.
pub open spec fn is_stable_order(keys: Seq<Seq<char>>, order: Seq<usize>) -> bool {
    orders_first(keys, order, keys.len() as int)
}

/// Of two different items, one goes before the other.
pub proof fn lemma_goes_before_total(keys: Seq<Seq<char>>, i: int, j: int)
    requires
        i != j,
    ensures
        goes_before(keys, i, j) || goes_before(keys, j, i),
        !(goes_before(keys, i, j) && goes_before(keys, j, i)),
{
    lemma_lex_total(keys[i], keys[j]);
    if lex_le(keys[i], keys[j]) && lex_le(keys[j], keys[i]) {
        lemma_lex_antisym(keys[i], keys[j]);
    }
}

/// Going before is transitive.
pub proof fn lemma_goes_before_trans(keys: Seq<Seq<char>>, i: int, j: int, k: int)
    requires
        goes_before(keys, i, j),
        goes_before(keys, j, k),
    ensures
        goes_before(keys, i, k),
{
    lemma_lex_refl(keys[i]);
    lemma_lex_refl(keys[j]);
    if keys[i] == keys[j] {
    } else if keys[j] == keys[k] {
    } else {
        lemma_lex_trans(keys[i], keys[j], keys[k]);
        if keys[i] == keys[k] {
            lemma_lex_antisym(keys[i], keys[j]);
        }
    }
}

/// Along a stable order the keys ascend.
pub proof fn lemma_stable_order_ascends(keys: Seq<Seq<char>>, order: Seq<usize>, p: int, q: int)
    requires
        is_stable_order(keys, order),
        0 <= p <= q < keys.len(),
    ensures
        lex_le(keys[order[p] as int], keys[order[q] as int]),
{
    lemma_lex_refl(keys[order[p] as int]);
    if p < q {
        assert(goes_before(keys, order[p] as int, order[q] as int));
    }
}

/// A stable order names no index twice.
pub proof fn lemma_stable_order_distinct(keys: Seq<Seq<char>>, order: Seq<usize>, p: int, q: int)
    requires
        is_stable_order(keys, order),
        0 <= p < keys.len(),
        0 <= q < keys.len(),
        order[p] == order[q],
    ensures
        p == q,
{
    if p < q {
        assert(goes_before(keys, order[p] as int, order[q] as int));
    } else if q < p {
        assert(goes_before(keys, order[q] as int, order[p] as int));
    }
}

/// The stable ascending order of `keys`.
pub fn sorted_order(keys: &Vec<Vec<char>>) -> (order: Vec<usize>)
    ensures
        is_stable_order(texts(keys@), order@),
{
    let ghost ks = texts(keys@);
    let mut order: Vec<usize> = Vec::new();
    let mut i: usize = 0;
    while i < keys.len()
        invariant
            i <= keys.len(),
            ks == texts(keys@),
            orders_first(ks, order@, i as int),
        decreases keys.len() - i,
    {
        let mut p: usize = 0;
        while p < order.len() && (chars_eq(&keys[order[p]], &keys[i]) || chars_le(
            &keys[order[p]],
            &keys[i],
        ))
            invariant
                i < keys.len(),
                p <= order.len(),
                ks == texts(keys@),
                orders_first(ks, order@, i as int),
                forall|q: int| 0 <= q < p ==> goes_before(ks, #[trigger] order@[q] as int, i as int),
            decreases order.len() - p,
        {
            p += 1;
        }
        let ghost prev = order@;
        assert(p < prev.len() ==> goes_before(ks, i as int, prev[p as int] as int)) by {
            if p < prev.len() {
                lemma_goes_before_total(ks, i as int, prev[p as int] as int);
            }
        }
        order.insert(p, i);
        proof {
            let next = order@;
            assert forall|a: int, b: int| 0 <= a < b < i + 1 implies goes_before(
                ks,
                #[trigger] next[a] as int,
                #[trigger] next[b] as int,
            ) by {
                if b < p {
                    assert(next[a] == prev[a] && next[b] == prev[b]);
                } else if b == p {
                    assert(next[a] == prev[a]);
                } else if a == p {
                    assert(next[b] == prev[b - 1]);
                    if b - 1 > p {
                        assert(goes_before(ks, prev[p as int] as int, prev[b - 1] as int));
                        lemma_goes_before_trans(
                            ks,
                            i as int,
                            prev[p as int] as int,
                            prev[b - 1] as int,
                        );
                    }
                } else if a < p {
                    assert(next[a] == prev[a] && next[b] == prev[b - 1]);
                } else {
                    assert(next[a] == prev[a - 1] && next[b] == prev[b - 1]);
                }
            }
            assert forall|x: int| 0 <= x < i + 1 implies #[trigger] names_index(next, x) by {
                if x == i {
                    assert(next[p as int] == x);
                } else {
                    assert(names_index(prev, x));
                    let q0 = choose|q: int| 0 <= q < prev.len() && #[trigger] prev[q] == x;
                    if q0 < p {
                        assert(next[q0] == x);
                    } else {
                        assert(next[q0 + 1] == x);
                    }
                }
            }
            assert forall|q: int| 0 <= q < i + 1 implies 0 <= #[trigger] next[q] < i + 1 by {
                if q < p {
                    assert(next[q] == prev[q]);
                } else if q > p {
                    assert(next[q] == prev[q - 1]);
                }
            }
        }
        i += 1;
    }
    order
}

/// `out` is `given` in the stable ascending order of `keys`.
pub open spec fn stably_sorted<V>(given: Seq<V>, keys: Seq<Seq<char>>, out: Seq<V>) -> bool {
    exists|order: Seq<usize>|
        #![trigger is_stable_order(keys, order)]
        keys.len() == given.len() && is_stable_order(keys, order) && out.len() == given.len()
            && forall|i: int| 0 <= i < out.len() ==> #[trigger] out[i] == given[order[i] as int]
}

/// A value that can be copied field by field.
pub trait Duplicate: Sized {
    /// A copy of the value.
    fn duplicate(&self) -> (copy: Self)
        ensures
            copy == *self,
    ;
}

/// The items in the stable ascending order of their keys.
pub fn sort_with_keys<T: Duplicate>(items: &Vec<T>, keys: &Vec<Vec<char>>) -> (out: Vec<T>)
    requires
        keys@.len() == items@.len(),
    ensures
        stably_sorted(items@, texts(keys@), out@),
{
    let order = sorted_order(keys);
    let mut out: Vec<T> = Vec::new();
    let mut i: usize = 0;
    while i < order.len()
        invariant
            i <= order@.len(),
            order@.len() == items@.len(),
            texts(keys@).len() == items@.len(),
            is_stable_order(texts(keys@), order@),
            out@.len() == i,
            forall|k: int| 0 <= k < i ==> #[trigger] out@[k] == items@[order@[k] as int],
        decreases order@.len() - i,
    {
        out.push(items[order[i]].duplicate());
        i += 1;
    }
    out
}

} // verus!
