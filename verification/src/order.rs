//! Stable sorting by rank.
//!
//! Every sort in the library is stable: where two items rank the same, the
//! one that came first stays first. An item's rank is a list of integers,
//! and ranks compare as words in a dictionary do. That covers a single
//! number as well as a name, whose rank is its characters.

use vstd::prelude::*;

verus! {

/// Dictionary order on two ranks, decided from position `k` on.
pub open spec fn lex_lt_from(a: Seq<i64>, b: Seq<i64>, k: int) -> bool
    decreases a.len() - k,
{
    if k < 0 {
        false
    } else if k >= a.len() {
        k < b.len()
    } else if k >= b.len() {
        false
    } else if a[k] != b[k] {
        a[k] < b[k]
    } else {
        lex_lt_from(a, b, k + 1)
    }
}

/// Whether rank `a` comes strictly before rank `b` in dictionary order.
pub open spec fn lex_lt(a: Seq<i64>, b: Seq<i64>) -> bool {
    lex_lt_from(a, b, 0)
}

/// Whether item `i` comes before item `j` once sorted: by rank, and where
/// neither rank is smaller, by position.
pub open spec fn precedes(ranks: Seq<Seq<i64>>, i: int, j: int) -> bool {
    lex_lt(ranks[i], ranks[j]) || (!lex_lt(ranks[j], ranks[i]) && i < j)
}

/// Whether `order` names each of the positions `0 .. n` exactly once.
pub open spec fn is_permutation(order: Seq<usize>, n: nat) -> bool {
    &&& order.len() == n
    &&& forall|k: int| 0 <= k < order.len() ==> (#[trigger] order[k]) < n
    &&& forall|k: int, l: int| 0 <= k < l < order.len() ==> order[k] != order[l]
    &&& forall|v: int| 0 <= v < n ==> placed(order, v)
}

/// Whether position `v` is named somewhere in `order`.
pub open spec fn placed(order: Seq<usize>, v: int) -> bool {
    exists|k: int| 0 <= k < order.len() && #[trigger] order[k] == v
}

/// Whether `order` lists the positions of `ranks` in stably sorted order.
pub open spec fn sorts(order: Seq<usize>, ranks: Seq<Seq<i64>>) -> bool {
    &&& is_permutation(order, ranks.len())
    &&& forall|x: int, y: int|
        0 <= x < y < order.len() ==> precedes(ranks, #[trigger] order[x] as int, #[trigger] order[y] as int)
}

/// The contents of a list of ranks.
pub open spec fn rank_views(ranks: Seq<Vec<i64>>) -> Seq<Seq<i64>> {
    Seq::new(ranks.len(), |i: int| ranks[i]@)
}

/// Whether `output` is `input` sorted stably by the rank of each item.
pub open spec fn is_stable_sort<T>(input: Seq<T>, output: Seq<T>, rank: spec_fn(T) -> Seq<i64>) -> bool {
    exists|order: Seq<usize>| #[trigger]
        sorts(order, input.map_values(rank)) && output == arranged(input, order)
}

/// The items picked in the order given.
pub open spec fn arranged<T>(items: Seq<T>, order: Seq<usize>) -> Seq<T> {
    Seq::new(order.len(), |k: int| items[order[k] as int])
}

/// No rank comes before itself, and of two ranks at most one comes before
/// the other.
pub proof fn lemma_lex_asymmetric(a: Seq<i64>, b: Seq<i64>, k: int)
    requires
        0 <= k,
        lex_lt_from(a, b, k),
    ensures
        !lex_lt_from(b, a, k),
    decreases a.len() - k,
{
    if k < a.len() && k < b.len() && a[k] == b[k] {
        lemma_lex_asymmetric(a, b, k + 1);
    }
}

/// A rank that comes before `b` comes before `c` too, unless `c` itself
/// comes before `b`.
pub proof fn lemma_lex_between(a: Seq<i64>, b: Seq<i64>, c: Seq<i64>, k: int)
    requires
        0 <= k,
        lex_lt_from(a, b, k),
    ensures
        lex_lt_from(a, c, k) || lex_lt_from(c, b, k),
    decreases a.len() - k,
{
    if k < a.len() && k < b.len() && a[k] == b[k] {
        if k < c.len() && c[k] == a[k] {
            lemma_lex_between(a, b, c, k + 1);
        }
    }
}

/// Two ranks of which neither comes before the other are the same rank.
pub proof fn lemma_lex_tie(a: Seq<i64>, b: Seq<i64>, k: int)
    requires
        0 <= k <= a.len(),
        k <= b.len(),
        !lex_lt_from(a, b, k),
        !lex_lt_from(b, a, k),
    ensures
        a.subrange(k, a.len() as int) == b.subrange(k, b.len() as int),
    decreases a.len() - k,
{
    if k < a.len() && k < b.len() {
        lemma_lex_tie(a, b, k + 1);
        assert(a.subrange(k, a.len() as int) =~= seq![a[k]] + a.subrange(k + 1, a.len() as int));
        assert(b.subrange(k, b.len() as int) =~= seq![b[k]] + b.subrange(k + 1, b.len() as int));
    } else {
        assert(a.subrange(k, a.len() as int) =~= b.subrange(k, b.len() as int));
    }
}

/// Decides dictionary order.
pub fn rank_before(a: &Vec<i64>, b: &Vec<i64>) -> (out: bool)
    ensures
        out == lex_lt(a@, b@),
{
    let mut k: usize = 0;
    while k < a.len() && k < b.len() && a[k] == b[k]
        invariant
            k <= a.len(),
            k <= b.len(),
            lex_lt(a@, b@) == lex_lt_from(a@, b@, k as int),
        decreases a.len() - k,
    {
        k += 1;
    }
    if k >= a.len() {
        k < b.len()
    } else if k >= b.len() {
        false
    } else {
        a[k] < b[k]
    }
}

/// Sorts `items` stably by the rank given for each.
///
/// Returns the items in their new order, and for each place in it the
/// position that its item came from.
pub fn stable_sort<T>(items: Vec<T>, ranks: &Vec<Vec<i64>>) -> (out: (Vec<T>, Vec<usize>))
    requires
        items.len() == ranks.len(),
    ensures
        sorts(out.1@, rank_views(ranks@)),
        out.0@ == arranged(items@, out.1@),
{
    let ghost given = items@;
    let ghost rk = rank_views(ranks@);
    let n = items.len();
    let mut rest = items;
    let mut sorted: Vec<T> = Vec::new();
    let mut order: Vec<usize> = Vec::new();
    let mut i: usize = 0;
    while i < n
        invariant
            n == ranks.len(),
            n == given.len(),
            i <= n,
            rest@ == given.subrange(i as int, n as int),
            is_permutation(order@, i as nat),
            rk == rank_views(ranks@),
            forall|x: int, y: int|
                0 <= x < y < order.len() ==> precedes(
                    rk,
                    #[trigger] order[x] as int,
                    #[trigger] order[y] as int,
                ),
            sorted@ == arranged(given, order@),
        decreases n - i,
    {
        let item = rest.remove(0);
        assert(item == given[i as int]);
        assert(rest@ =~= given.subrange(i + 1, n as int));
        let mut p: usize = 0;
        while p < order.len() && !rank_before(&ranks[i], &ranks[order[p]])
            invariant
                i < n,
                n == ranks.len(),
                p <= order.len(),
                is_permutation(order@, i as nat),
                rk == rank_views(ranks@),
                forall|x: int| 0 <= x < p ==> !lex_lt(rk[i as int], rk[order[x] as int]),
            decreases order.len() - p,
        {
            p += 1;
        }
        let ghost before = order@;
        proof {
            assert forall|y: int| p <= y < before.len() implies lex_lt(
                rk[i as int],
                rk[before[y] as int],
            ) by {
                if y > p {
                    assert(precedes(rk, before[p as int] as int, before[y] as int));
                    lemma_lex_between(
                        rk[i as int],
                        rk[before[p as int] as int],
                        rk[before[y] as int],
                        0,
                    );
                    if lex_lt(rk[before[p as int] as int], rk[before[y] as int]) {
                        lemma_lex_asymmetric(
                            rk[before[p as int] as int],
                            rk[before[y] as int],
                            0,
                        );
                    }
                }
            }
        }
        order.insert(p, i);
        sorted.insert(p, item);
        proof {
            let after = order@;
            assert forall|k: int| 0 <= k < after.len() implies (#[trigger] after[k]) < i + 1 by {
                if k < p {
                    assert(after[k] == before[k]);
                } else if k > p {
                    assert(after[k] == before[k - 1]);
                }
            }
            assert forall|k: int, l: int| 0 <= k < l < after.len() implies after[k] != after[l] by {
                let a = if k < p {
                    k
                } else {
                    k - 1
                };
                let b = if l < p {
                    l
                } else {
                    l - 1
                };
                if k != p {
                    assert(after[k] == before[a]);
                }
                if l != p {
                    assert(after[l] == before[b]);
                }
            }
            assert forall|v: int| 0 <= v < i + 1 implies placed(after, v) by {
                if v == i {
                    assert(after[p as int] == v);
                } else {
                    assert(placed(before, v));
                    let k = choose|k: int| 0 <= k < before.len() && #[trigger] before[k] == v;
                    if k < p {
                        assert(after[k] == v);
                    } else {
                        assert(after[k + 1] == v);
                    }
                }
            }
            assert forall|x: int, y: int| 0 <= x < y < after.len() implies precedes(
                rk,
                #[trigger] after[x] as int,
                #[trigger] after[y] as int,
            ) by {
                let a = if x < p {
                    x
                } else {
                    x - 1
                };
                let b = if y < p {
                    y
                } else {
                    y - 1
                };
                if x != p {
                    assert(after[x] == before[a]);
                }
                if y != p {
                    assert(after[y] == before[b]);
                }
                if x == p {
                    assert(lex_lt(rk[i as int], rk[before[b] as int]));
                } else if y == p {
                    assert(!lex_lt(rk[i as int], rk[before[a] as int]));
                    assert(before[a] < i);
                } else {
                    assert(precedes(rk, before[a] as int, before[b] as int));
                }
            }
            assert(sorted@ =~= arranged(given, after)) by {
                assert forall|k: int| 0 <= k < after.len() implies sorted@[k] == given[after[k] as int] by {
                    if k < p {
                        assert(after[k] == before[k]);
                    } else if k > p {
                        assert(after[k] == before[k - 1]);
                        assert(sorted@[k] == arranged(given, before)[k - 1]);
                    }
                }
            }
        }
        i += 1;
    }
    assert(given =~= items@);
    (sorted, order)
}

/// Of two different items one comes before the other, never both.
pub proof fn lemma_precedes_one_way(ranks: Seq<Seq<i64>>, i: int, j: int)
    requires
        precedes(ranks, i, j),
    ensures
        !precedes(ranks, j, i),
{
    if lex_lt(ranks[i], ranks[j]) {
        lemma_lex_asymmetric(ranks[i], ranks[j], 0);
    }
}

/// Two orders that sort the same ranks agree on their first `k` places.
pub proof fn lemma_orders_agree(first: Seq<usize>, second: Seq<usize>, ranks: Seq<Seq<i64>>, k: int)
    requires
        sorts(first, ranks),
        sorts(second, ranks),
        0 <= k <= ranks.len(),
    ensures
        forall|j: int| 0 <= j < k ==> first[j] == second[j],
    decreases k,
{
    if k > 0 {
        lemma_orders_agree(first, second, ranks, k - 1);
        let a = first[k - 1] as int;
        let b = second[k - 1] as int;
        if a != b {
            assert(placed(second, a));
            let m = choose|m: int| 0 <= m < second.len() && #[trigger] second[m] == a;
            if m < k - 1 {
                assert(first[m] == second[m]);
                assert(first[m] != first[k - 1]);
            }
            assert(m > k - 1);
            assert(precedes(ranks, second[k - 1] as int, second[m] as int));
            assert(placed(first, b));
            let w = choose|w: int| 0 <= w < first.len() && #[trigger] first[w] == b;
            if w < k - 1 {
                assert(first[w] == second[w]);
                assert(second[w] != second[k - 1]);
            }
            assert(w > k - 1);
            assert(precedes(ranks, first[k - 1] as int, first[w] as int));
            lemma_precedes_one_way(ranks, a, b);
        }
    }
}

/// There is one way only to sort a list stably.
pub proof fn lemma_stable_sort_unique<T>(
    input: Seq<T>,
    first: Seq<T>,
    second: Seq<T>,
    rank: spec_fn(T) -> Seq<i64>,
)
    requires
        is_stable_sort(input, first, rank),
        is_stable_sort(input, second, rank),
    ensures
        first == second,
{
    let ranks = input.map_values(rank);
    let one = choose|order: Seq<usize>| #[trigger]
        sorts(order, ranks) && first == arranged(input, order);
    let two = choose|order: Seq<usize>| #[trigger]
        sorts(order, ranks) && second == arranged(input, order);
    lemma_orders_agree(one, two, ranks, ranks.len() as int);
    assert(one =~= two);
}

/// A sorted list is as long as the list it was sorted from.
pub proof fn lemma_sort_keeps_length<T>(input: Seq<T>, output: Seq<T>, rank: spec_fn(T) -> Seq<i64>)
    requires
        is_stable_sort(input, output, rank),
    ensures
        output.len() == input.len(),
{
}

/// What holds of every item before sorting holds of every item after.
pub proof fn lemma_sort_keeps_property<T>(
    input: Seq<T>,
    output: Seq<T>,
    rank: spec_fn(T) -> Seq<i64>,
    property: spec_fn(T) -> bool,
)
    requires
        is_stable_sort(input, output, rank),
        forall|i: int| 0 <= i < input.len() ==> property(#[trigger] input[i]),
    ensures
        forall|i: int| 0 <= i < output.len() ==> property(#[trigger] output[i]),
{
    let order = choose|order: Seq<usize>| #[trigger]
        sorts(order, input.map_values(rank)) && output == arranged(input, order);
    assert forall|i: int| 0 <= i < output.len() implies property(#[trigger] output[i]) by {
        assert(output[i] == input[order[i] as int]);
    }
}

/// Sorting loses no item: each item of the list is somewhere in the
/// sorted list.
pub proof fn lemma_sort_keeps_items<T>(input: Seq<T>, output: Seq<T>, rank: spec_fn(T) -> Seq<i64>, i: int)
    requires
        is_stable_sort(input, output, rank),
        0 <= i < input.len(),
    ensures
        exists|k: int| 0 <= k < output.len() && #[trigger] output[k] == input[i],
{
    let order = choose|order: Seq<usize>| #[trigger]
        sorts(order, input.map_values(rank)) && output == arranged(input, order);
    assert(placed(order, i));
    let k = choose|k: int| 0 <= k < order.len() && #[trigger] order[k] == i;
    assert(output[k] == input[i]);
}

/// In a sorted list no item ranks before an item that stands before it.
pub proof fn lemma_sorted_ranks<T>(input: Seq<T>, output: Seq<T>, rank: spec_fn(T) -> Seq<i64>, a: int, b: int)
    requires
        is_stable_sort(input, output, rank),
        0 <= a <= b < output.len(),
    ensures
        !lex_lt(rank(output[b]), rank(output[a])),
{
    let ranks = input.map_values(rank);
    let order = choose|order: Seq<usize>| #[trigger]
        sorts(order, ranks) && output == arranged(input, order);
    assert(output[a] == input[order[a] as int]);
    assert(output[b] == input[order[b] as int]);
    assert(ranks[order[a] as int] == rank(input[order[a] as int]));
    assert(ranks[order[b] as int] == rank(input[order[b] as int]));
    if a < b {
        assert(precedes(ranks, order[a] as int, order[b] as int));
        lemma_precedes_one_way(ranks, order[a] as int, order[b] as int);
        if lex_lt(rank(output[b]), rank(output[a])) {
            assert(precedes(ranks, order[b] as int, order[a] as int));
        }
    } else {
        if lex_lt(rank(output[a]), rank(output[a])) {
            lemma_lex_asymmetric(rank(output[a]), rank(output[a]), 0);
        }
    }
}

/// The items whose mark is set, in their order.
pub open spec fn marked<T>(items: Seq<T>, keep: Seq<bool>) -> Seq<T>
    decreases items.len(),
{
    if items.len() == 0 || keep.len() != items.len() {
        Seq::empty()
    } else if keep.last() {
        marked(items.drop_last(), keep.drop_last()).push(items.last())
    } else {
        marked(items.drop_last(), keep.drop_last())
    }
}

/// The positions whose mark is set, in ascending order.
pub open spec fn marked_positions(keep: Seq<bool>) -> Seq<int>
    decreases keep.len(),
{
    if keep.len() == 0 {
        Seq::empty()
    } else if keep.last() {
        marked_positions(keep.drop_last()).push(keep.len() - 1)
    } else {
        marked_positions(keep.drop_last())
    }
}

/// The marked items are the items at the marked positions: one for each
/// position whose mark is set, in ascending order of position.
pub proof fn lemma_marked_positions<T>(items: Seq<T>, keep: Seq<bool>)
    requires
        keep.len() == items.len(),
    ensures
        marked_positions(keep).len() == marked(items, keep).len(),
        forall|k: int|
            0 <= k < marked_positions(keep).len() ==> 0 <= (#[trigger] marked_positions(keep)[k])
                < keep.len() && keep[marked_positions(keep)[k]] && marked(items, keep)[k]
                == items[marked_positions(keep)[k]],
        forall|k: int, l: int|
            0 <= k < l < marked_positions(keep).len() ==> marked_positions(keep)[k]
                < marked_positions(keep)[l],
        forall|i: int|
            0 <= i < keep.len() && keep[i] ==> exists|k: int|
                0 <= k < marked_positions(keep).len() && #[trigger] marked_positions(keep)[k] == i,
    decreases items.len(),
{
    if items.len() > 0 {
        let shorter = keep.drop_last();
        lemma_marked_positions(items.drop_last(), shorter);
        let before = marked_positions(shorter);
        let now = marked_positions(keep);
        assert forall|i: int| 0 <= i < keep.len() && keep[i] implies exists|k: int|
            0 <= k < now.len() && #[trigger] now[k] == i by {
            if i < keep.len() - 1 {
                assert(shorter[i]);
                let k = choose|k: int| 0 <= k < before.len() && #[trigger] before[k] == i;
                assert(now[k] == i);
            } else {
                assert(now[now.len() - 1] == i);
            }
        }
        assert forall|k: int| 0 <= k < now.len() implies 0 <= (#[trigger] now[k]) < keep.len()
            && keep[now[k]] && marked(items, keep)[k] == items[now[k]] by {
            if k < before.len() {
                assert(now[k] == before[k]);
                assert(shorter[before[k]] == keep[before[k]]);
                assert(items.drop_last()[before[k]] == items[before[k]]);
            }
        }
        assert forall|k: int, l: int| 0 <= k < l < now.len() implies now[k] < now[l] by {
            if l < before.len() {
                assert(now[k] == before[k]);
                assert(now[l] == before[l]);
            } else {
                assert(now[k] == before[k]);
            }
        }
    }
}

/// Marking the items that have a property picks the same items as
/// filtering by it.
pub proof fn lemma_marked_filter<T>(items: Seq<T>, keep: Seq<bool>, wanted: spec_fn(T) -> bool)
    requires
        keep.len() == items.len(),
        forall|i: int| 0 <= i < items.len() ==> keep[i] == wanted(#[trigger] items[i]),
    ensures
        marked(items, keep) == items.filter(wanted),
    decreases items.len(),
{
    reveal(Seq::filter);
    if items.len() > 0 {
        lemma_marked_filter(items.drop_last(), keep.drop_last(), wanted);
    }
}

/// Keeps the items whose mark is set, in their order.
pub fn keep_marked<T>(items: Vec<T>, keep: &Vec<bool>) -> (out: Vec<T>)
    requires
        keep.len() == items.len(),
    ensures
        out@ == marked(items@, keep@),
{
    let ghost given = items@;
    let n = items.len();
    let mut rest = items;
    let mut out: Vec<T> = Vec::new();
    let mut i: usize = 0;
    while i < n
        invariant
            n == given.len(),
            n == keep.len(),
            i <= n,
            rest@ == given.subrange(i as int, n as int),
            out@ == marked(given.subrange(0, i as int), keep@.subrange(0, i as int)),
        decreases n - i,
    {
        let item = rest.remove(0);
        assert(item == given[i as int]);
        assert(rest@ =~= given.subrange(i + 1, n as int));
        proof {
            assert(given.subrange(0, i + 1).drop_last() =~= given.subrange(0, i as int));
            assert(keep@.subrange(0, i + 1).drop_last() =~= keep@.subrange(0, i as int));
        }
        if keep[i] {
            out.push(item);
        }
        i += 1;
    }
    assert(given.subrange(0, n as int) =~= given);
    assert(keep@.subrange(0, n as int) =~= keep@);
    out
}

} // verus!
