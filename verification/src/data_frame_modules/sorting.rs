use crate::data_frame_modules::label_order::{compares_as_specified, exceeds, label_le, orders_totally};
use crate::data_frame_modules::series_index::SeriesIndex;
use std::fmt::Debug;
use vstd::prelude::*;

verus! {

/// `p` names every position below `n` exactly once.
pub open spec fn is_permutation(p: Seq<int>, n: nat) -> bool {
    &&& p.len() == n
    &&& forall|k: int| 0 <= k < n ==> 0 <= #[trigger] p[k] < n
    &&& forall|k: int, l: int| 0 <= k < l < n ==> #[trigger] p[k] != #[trigger] p[l]
}

/// `after` holds the items of `before` in another order: the item at `k`
/// stood at `p[k]`.
pub open spec fn reordered<A>(before: Seq<A>, after: Seq<A>, p: Seq<int>) -> bool {
    &&& after.len() == before.len()
    &&& is_permutation(p, before.len())
    &&& forall|k: int| 0 <= k < after.len() ==> #[trigger] after[k] == before[p[k]]
}

/// `a` may stand before `b`: going up, `a` does not come after `b`; going
/// down, `b` does not come after `a`.
pub open spec fn in_order<T: Ord>(a: T, b: T, descending: bool) -> bool {
    if descending {
        label_le(b, a)
    } else {
        label_le(a, b)
    }
}

/// Every label may stand before every later one.
pub open spec fn is_ordered<T: Ord>(labels: Seq<T>, descending: bool) -> bool {
    forall|k: int, l: int|
        0 <= k < l < labels.len() ==> in_order(
            #[trigger] labels[k],
            #[trigger] labels[l],
            descending,
        )
}

/// Items that could as well stand the other way round stand as they stood
/// before: of two such, the one that was first is still first.
pub open spec fn ties_kept<T: Ord>(labels: Seq<T>, p: Seq<int>, descending: bool) -> bool {
    forall|k: int, l: int|
        0 <= k < l < labels.len() && in_order(
            #[trigger] labels[l],
            #[trigger] labels[k],
            descending,
        ) ==> p[k] < p[l]
}

/// No label comes after a later one.
pub open spec fn is_ascending<T: Ord>(labels: Seq<T>) -> bool {
    is_ordered(labels, false)
}

/// No label comes before a later one.
pub open spec fn is_descending<T: Ord>(labels: Seq<T>) -> bool {
    is_ordered(labels, true)
}

/// Among ascending labels, items that the order of the labels does not tell
/// apart stand as they stood before.
pub open spec fn keeps_ties<T: Ord>(labels: Seq<T>, p: Seq<int>) -> bool {
    ties_kept(labels, p, false)
}

/// As `keeps_ties`, for labels that descend.
pub open spec fn keeps_ties_descending<T: Ord>(labels: Seq<T>, p: Seq<int>) -> bool {
    ties_kept(labels, p, true)
}

/// The labels of an order, position by position.
pub open spec fn labels_of<T: Clone + Debug + Ord>(order: Seq<SeriesIndex<T>>) -> Seq<T> {
    Seq::new(order.len(), |k: int| order[k].label)
}

/// Positions as mathematical integers.
pub open spec fn as_ints(positions: Seq<usize>) -> Seq<int> {
    Seq::new(positions.len(), |k: int| positions[k] as int)
}

/// The labels found at `positions` of an order, one after the other.
pub open spec fn labels_at<T: Clone + Debug + Ord>(
    order: Seq<SeriesIndex<T>>,
    positions: Seq<usize>,
) -> Seq<T> {
    Seq::new(positions.len(), |k: int| order[positions[k] as int].label)
}

/// Where the item at `k` stood before the item at `from` moved down to `to`.
pub open spec fn source(k: int, to: int, from: int) -> int {
    if k < to {
        k
    } else if k == to {
        from
    } else if k <= from {
        k - 1
    } else {
        k
    }
}

proof fn lemma_move_down<A>(s: Seq<A>, to: int, from: int)
    requires
        0 <= to <= from < s.len(),
    ensures
        s.remove(from).insert(to, s[from]).len() == s.len(),
        forall|k: int|
            0 <= k < s.len() ==> #[trigger] s.remove(from).insert(to, s[from])[k] == s[source(
                k,
                to,
                from,
            )],
{
}

/// Whether `a` has to move behind `b`.
fn out_of_order<T: Ord>(a: &T, b: &T, descending: bool) -> (r: bool)
    ensures
        compares_as_specified::<T>() ==> r == !in_order(*a, *b, descending),
{
    if descending {
        exceeds(b, a)
    } else {
        exceeds(a, b)
    }
}

/// Sorts the order by label, up or down, moving each item down past the
/// items that have to stand behind it.
pub fn sort_in_direction<T: Clone + Debug + Ord>(
    order: &mut Vec<SeriesIndex<T>>,
    descending: bool,
) -> (p: Ghost<Seq<int>>)
    ensures
        reordered(old(order)@, final(order)@, p@),
        compares_as_specified::<T>() ==> ties_kept(labels_of(final(order)@), p@, descending),
        orders_totally::<T>() ==> is_ordered(labels_of(final(order)@), descending),
{
    let n = order.len();
    let ghost before = order@;
    let ghost mut perm: Seq<int> = Seq::new(n as nat, |k: int| k);
    let mut i: usize = 1;
    while i < n
        invariant
            1 <= i,
            order@.len() == n,
            before.len() == n,
            is_permutation(perm, n as nat),
            forall|k: int| 0 <= k < n ==> #[trigger] order@[k] == before[perm[k]],
            forall|k: int| i <= k < n ==> #[trigger] perm[k] == k,
            forall|k: int| 0 <= k < i && k < n ==> #[trigger] perm[k] < i,
            compares_as_specified::<T>() ==> forall|k: int, l: int|
                0 <= k < l < i && l < n && in_order(
                    (#[trigger] order@[l]).label,
                    (#[trigger] order@[k]).label,
                    descending,
                ) ==> perm[k] < perm[l],
            orders_totally::<T>() ==> forall|k: int, l: int|
                0 <= k < l < i && l < n ==> in_order(
                    (#[trigger] order@[k]).label,
                    (#[trigger] order@[l]).label,
                    descending,
                ),
        decreases n - i,
    {
        let mut j: usize = i;
        let mut searching = true;
        while searching && j > 0
            invariant
                j <= i < n,
                order@.len() == n,
                compares_as_specified::<T>() ==> forall|k: int|
                    j <= k < i ==> !in_order(
                        (#[trigger] order@[k]).label,
                        order@[i as int].label,
                        descending,
                    ),
                compares_as_specified::<T>() && !searching ==> j > 0 && in_order(
                    order@[j - 1].label,
                    order@[i as int].label,
                    descending,
                ),
            decreases j + (if searching { 1int } else { 0int }),
        {
            if out_of_order(&order[j - 1].label, &order[i].label, descending) {
                j = j - 1;
            } else {
                searching = false;
            }
        }
        let ghost prior = order@;
        let ghost prior_perm = perm;
        if j < i {
            let item = order.remove(i);
            order.insert(j, item);
            proof {
                perm = prior_perm.remove(i as int).insert(j as int, prior_perm[i as int]);
                lemma_move_down(prior, j as int, i as int);
                lemma_move_down(prior_perm, j as int, i as int);
            }
        }
        proof {
            assert forall|k: int| 0 <= k < n implies #[trigger] order@[k] == before[perm[k]] by {
                if j < i {
                    assert(order@[k] == prior[source(k, j as int, i as int)]);
                    assert(perm[k] == prior_perm[source(k, j as int, i as int)]);
                }
            }
            assert(is_permutation(perm, n as nat)) by {
                if j < i {
                    assert forall|k: int| 0 <= k < n implies 0 <= #[trigger] perm[k] < n by {
                        assert(perm[k] == prior_perm[source(k, j as int, i as int)]);
                    }
                    assert forall|k: int, l: int| 0 <= k < l < n implies #[trigger] perm[k]
                        != #[trigger] perm[l] by {
                        assert(perm[k] == prior_perm[source(k, j as int, i as int)]);
                        assert(perm[l] == prior_perm[source(l, j as int, i as int)]);
                    }
                }
            }
            assert forall|k: int| i + 1 <= k < n implies #[trigger] perm[k] == k by {
                if j < i {
                    assert(perm[k] == prior_perm[source(k, j as int, i as int)]);
                }
            }
            assert forall|k: int| 0 <= k < i + 1 && k < n implies #[trigger] perm[k] < i + 1 by {
                if j < i {
                    assert(perm[k] == prior_perm[source(k, j as int, i as int)]);
                }
            }
            if compares_as_specified::<T>() {
                assert forall|k: int, l: int|
                    0 <= k < l < i + 1 && l < n && in_order(
                        (#[trigger] order@[l]).label,
                        (#[trigger] order@[k]).label,
                        descending,
                    ) implies perm[k] < perm[l] by {
                    if j < i {
                        assert(order@[k] == prior[source(k, j as int, i as int)]);
                        assert(order@[l] == prior[source(l, j as int, i as int)]);
                        assert(perm[k] == prior_perm[source(k, j as int, i as int)]);
                        assert(perm[l] == prior_perm[source(l, j as int, i as int)]);
                    }
                }
            }
            if orders_totally::<T>() {
                assert forall|k: int, l: int| 0 <= k < l < i + 1 && l < n implies in_order(
                    (#[trigger] order@[k]).label,
                    (#[trigger] order@[l]).label,
                    descending,
                ) by {
                    let x = prior[i as int].label;
                    if j < i {
                        assert(order@[k] == prior[source(k, j as int, i as int)]);
                        assert(order@[l] == prior[source(l, j as int, i as int)]);
                    }
                    if j > 0 {
                        assert(in_order(prior[j - 1].label, x, descending));
                        if k < j - 1 {
                            assert(in_order(prior[k].label, prior[j - 1].label, descending));
                        }
                    }
                    if l > j && k == j {
                        assert(!in_order(prior[l - 1].label, x, descending));
                    }
                }
            }
        }
        i = i + 1;
    }
    proof {
        assert(labels_of(order@).len() == n);
        if n == 0 {
            assert(is_permutation(perm, n as nat));
        }
    }
    Ghost(perm)
}

/// Sorts the order by label, ascending. Items with equal labels stay in the
/// order they had.
pub fn sort_by_label<T: Clone + Debug + Ord>(order: &mut Vec<SeriesIndex<T>>) -> (p: Ghost<
    Seq<int>,
>)
    ensures
        reordered(old(order)@, final(order)@, p@),
        compares_as_specified::<T>() ==> keeps_ties(labels_of(final(order)@), p@),
        orders_totally::<T>() ==> is_ascending(labels_of(final(order)@)),
{
    sort_in_direction(order, false)
}

/// Labels behind references are ordered as the labels are.
proof fn lemma_references_order_alike<T: Ord>()
    ensures
        forall|a: &T, b: &T| #[trigger] label_le::<&T>(a, b) == label_le::<T>(*a, *b),
        compares_as_specified::<T>() ==> compares_as_specified::<&T>(),
        orders_totally::<T>() ==> orders_totally::<&T>(),
{
    assert forall|a: &T, b: &T| #[trigger] label_le::<&T>(a, b) == label_le::<T>(*a, *b) by {}
    if orders_totally::<T>() {
        assert forall|a: &T, b: &T| #[trigger] label_le::<&T>(a, b) || label_le::<&T>(b, a) by {
            assert(label_le::<T>(*a, *b) || label_le::<T>(*b, *a));
        }
        assert forall|a: &T, b: &T, c: &T|
            #[trigger] label_le::<&T>(a, b) && #[trigger] label_le::<&T>(b, c) implies label_le::<
            &T,
        >(a, c) by {
            assert(label_le::<T>(*a, *b) && label_le::<T>(*b, *c));
            assert(label_le::<T>(*a, *c));
        }
    }
}

/// The positions of an order, arranged so that the labels found there
/// descend; positions with equal labels in rising order. The order itself is
/// left as it is: what is sorted is a list of the positions, each beside a
/// reference to its label.
pub fn descending_positions_of<T: Clone + Debug + Ord>(order: &Vec<SeriesIndex<T>>) -> (positions:
    Vec<usize>)
    ensures
        is_permutation(as_ints(positions@), order@.len()),
        compares_as_specified::<T>() ==> keeps_ties_descending(
            labels_at(order@, positions@),
            as_ints(positions@),
        ),
        orders_totally::<T>() ==> is_descending(labels_at(order@, positions@)),
{
    let n = order.len();
    let mut listed: Vec<SeriesIndex<&T>> = Vec::new();
    let mut c: usize = 0;
    while c < n
        invariant
            c <= n,
            n == order@.len(),
            listed@.len() == c,
            forall|k: int|
                0 <= k < c ==> (#[trigger] listed@[k]).key == k && *listed@[k].label
                    == order@[k].label,
        decreases n - c,
    {
        listed.push(SeriesIndex::new(&order[c].label, c));
        c = c + 1;
    }
    let ghost unsorted = listed@;
    let p = sort_in_direction(&mut listed, true);
    let mut positions: Vec<usize> = Vec::new();
    let mut d: usize = 0;
    while d < n
        invariant
            d <= n,
            listed@.len() == n,
            positions@.len() == d,
            forall|k: int| 0 <= k < d ==> #[trigger] positions@[k] == listed@[k].key,
        decreases n - d,
    {
        positions.push(listed[d].key);
        d = d + 1;
    }
    proof {
        lemma_references_order_alike::<T>();
        assert forall|k: int| 0 <= k < n implies #[trigger] positions@[k] == p@[k] && *listed@[k].label
            == order@[p@[k]].label by {
            assert(listed@[k] == unsorted[p@[k]]);
            assert(0 <= p@[k] < n);
        }
        assert(as_ints(positions@) =~= p@);
        if compares_as_specified::<T>() {
            assert forall|k: int, l: int|
                0 <= k < l < n && in_order(
                    #[trigger] labels_at(order@, positions@)[l],
                    #[trigger] labels_at(order@, positions@)[k],
                    true,
                ) implies p@[k] < p@[l] by {
                assert(positions@[k] == p@[k] && positions@[l] == p@[l]);
                assert(labels_of(listed@)[k] == listed@[k].label);
                assert(labels_of(listed@)[l] == listed@[l].label);
                assert(in_order(labels_of(listed@)[l], labels_of(listed@)[k], true));
            }
        }
        if orders_totally::<T>() {
            assert forall|k: int, l: int| 0 <= k < l < n implies in_order(
                #[trigger] labels_at(order@, positions@)[k],
                #[trigger] labels_at(order@, positions@)[l],
                true,
            ) by {
                assert(positions@[k] == p@[k] && positions@[l] == p@[l]);
                assert(labels_of(listed@)[k] == listed@[k].label);
                assert(labels_of(listed@)[l] == listed@[l].label);
                assert(in_order(labels_of(listed@)[k], labels_of(listed@)[l], true));
            }
        }
    }
    positions
}

} // verus!
