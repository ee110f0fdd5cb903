use vstd::prelude::*;

verus! {

/// Whether the entry at index `i` comes before the entry at index `j`: it has the greater
/// key, or the same key and the earlier place.
pub open spec fn beats(keys: Seq<int>, i: int, j: int) -> bool {
    keys[i] > keys[j] || (keys[i] == keys[j] && i < j)
}

/// Whether `order` lists the indices below `m`, each once, so that every index beats all
/// that come behind it.
pub open spec fn ranks_first(keys: Seq<int>, m: int, order: Seq<int>) -> bool {
    &&& order.len() == m
    &&& forall|p: int| 0 <= p < order.len() ==> 0 <= #[trigger] order[p] < m
    &&& forall|i: int| 0 <= i < m ==> order.contains(i)
    &&& forall|p: int, q: int|
        0 <= p < q < order.len() ==> beats(keys, #[trigger] order[p], #[trigger] order[q])
}

/// Whether `order` is the ranking of `keys`: the indices of `keys` by falling key, those of
/// one key in rising order.
pub open spec fn is_ranking(keys: Seq<int>, order: Seq<int>) -> bool {
    ranks_first(keys, keys.len() as int, order)
}

/// The ranking of `keys`.
pub open spec fn ranking(keys: Seq<int>) -> Seq<int> {
    choose|order: Seq<int>| is_ranking(keys, order)
}

/// Where the index `m` goes into an order of the indices below `m`: behind all entries whose
/// key is no less than its own.
pub open spec fn place_of(keys: Seq<int>, order: Seq<int>, m: int) -> int
    decreases order.len(),
{
    if order.len() > 0 && keys[order.last()] < keys[m] {
        place_of(keys, order.drop_last(), m)
    } else {
        order.len() as int
    }
}

/// The entries from the place of `m` on have lesser keys, and the entry before it has not.
proof fn lemma_place_of(keys: Seq<int>, order: Seq<int>, m: int)
    ensures
        0 <= place_of(keys, order, m) <= order.len(),
        forall|q: int| place_of(keys, order, m) <= q < order.len() ==> keys[#[trigger] order[q]] < keys[m],
        place_of(keys, order, m) > 0 ==> keys[order[place_of(keys, order, m) - 1]] >= keys[m],
    decreases order.len(),
{
    if order.len() > 0 && keys[order.last()] < keys[m] {
        lemma_place_of(keys, order.drop_last(), m);
        let p = place_of(keys, order, m);
        assert forall|q: int| p <= q < order.len() implies keys[#[trigger] order[q]] < keys[m] by {
            if q < order.len() - 1 {
                assert(order.drop_last()[q] == order[q]);
            }
        }
        if p > 0 {
            assert(order.drop_last()[p - 1] == order[p - 1]);
        }
    }
}

/// An order of the indices below `m` with `m` put in its place is an order of the indices
/// up to `m`.
proof fn lemma_insert_keeps_order(keys: Seq<int>, m: int, order: Seq<int>, p: int)
    requires
        0 <= m,
        ranks_first(keys, m, order),
        0 <= p <= order.len(),
        forall|q: int| p <= q < order.len() ==> keys[#[trigger] order[q]] < keys[m],
        p > 0 ==> keys[order[p - 1]] >= keys[m],
    ensures
        ranks_first(keys, m + 1, order.insert(p, m)),
{
    let after = order.insert(p, m);
    assert forall|i: int| 0 <= i < m + 1 implies after.contains(i) by {
        if i == m {
            assert(after[p] == i);
        } else {
            assert(order.contains(i));
            let q = choose|q: int| 0 <= q < order.len() && order[q] == i;
            if q < p {
                assert(after[q] == i);
            } else {
                assert(after[q + 1] == i);
            }
        }
    }
    assert forall|a: int, b: int| 0 <= a < b < after.len() implies beats(
        keys,
        #[trigger] after[a],
        #[trigger] after[b],
    ) by {
        if b < p {
            assert(beats(keys, order[a], order[b]));
        } else if b == p {
            assert(after[a] == order[a]);
            if p > 0 {
                assert(beats(keys, order[a], order[p - 1]) || a == p - 1);
            }
        } else if a < p {
            assert(beats(keys, order[a], order[b - 1]));
        } else if a == p {
            assert(keys[order[b - 1]] < keys[m]);
        } else {
            assert(beats(keys, order[a - 1], order[b - 1]));
        }
    }
}

/// The indices below `m` can be ranked.
proof fn lemma_ranks_first_exists(keys: Seq<int>, m: int) -> (order: Seq<int>)
    requires
        0 <= m,
    ensures
        ranks_first(keys, m, order),
    decreases m,
{
    if m == 0 {
        Seq::empty()
    } else {
        let before = lemma_ranks_first_exists(keys, m - 1);
        lemma_place_of(keys, before, m - 1);
        lemma_insert_keeps_order(keys, m - 1, before, place_of(keys, before, m - 1));
        before.insert(place_of(keys, before, m - 1), m - 1)
    }
}

/// Every sequence of keys has a ranking.
pub proof fn lemma_ranking_exists(keys: Seq<int>)
    ensures
        is_ranking(keys, ranking(keys)),
{
    let order = lemma_ranks_first_exists(keys, keys.len() as int);
    assert(is_ranking(keys, order));
}

/// Two orders that rank the same indices by the same keys agree up to every place.
proof fn lemma_ranks_agree(keys: Seq<int>, m: int, a: Seq<int>, b: Seq<int>, upto: int)
    requires
        ranks_first(keys, m, a),
        ranks_first(keys, m, b),
        0 <= upto <= m,
    ensures
        a.take(upto) == b.take(upto),
    decreases upto,
{
    if upto == 0 {
        assert(a.take(0) =~= b.take(0));
    } else {
        let p = upto - 1;
        lemma_ranks_agree(keys, m, a, b, p);
        assert forall|q: int| 0 <= q < p implies a[q] == b[q] by {
            assert(a.take(p)[q] == b.take(p)[q]);
        }
        let x = a[p];
        let y = b[p];
        if x != y {
            assert(b.contains(x));
            let qb = choose|q: int| 0 <= q < b.len() && b[q] == x;
            if qb < p {
                assert(beats(keys, a[qb], a[p]));
            }
            assert(beats(keys, b[p], b[qb]));
            assert(a.contains(y));
            let qa = choose|q: int| 0 <= q < a.len() && a[q] == y;
            if qa < p {
                assert(beats(keys, b[qa], b[p]));
            }
            assert(beats(keys, a[p], a[qa]));
        }
        assert(a.take(upto) =~= b.take(upto));
    }
}

/// Keys have one ranking only.
pub proof fn lemma_ranking_unique(keys: Seq<int>, a: Seq<int>, b: Seq<int>)
    requires
        is_ranking(keys, a),
        is_ranking(keys, b),
    ensures
        a == b,
{
    lemma_ranks_agree(keys, keys.len() as int, a, b, keys.len() as int);
    assert(a.take(a.len() as int) =~= a);
    assert(b.take(b.len() as int) =~= b);
}

/// An order that ranks the keys is their ranking.
pub proof fn lemma_ranking_is(keys: Seq<int>, order: Seq<int>)
    requires
        is_ranking(keys, order),
    ensures
        ranking(keys) == order,
{
    lemma_ranking_unique(keys, ranking(keys), order);
}

/// The keys as mathematical integers.
pub open spec fn key_values(keys: Seq<i64>) -> Seq<int> {
    Seq::new(keys.len(), |i: int| keys[i] as int)
}

/// The indices as mathematical integers.
pub open spec fn index_values(order: Seq<usize>) -> Seq<int> {
    Seq::new(order.len(), |p: int| order[p] as int)
}

/// Ranks the indices of `keys` by falling key, those of one key in rising order.
pub fn rank_order(keys: &Vec<i64>) -> (order: Vec<usize>)
    ensures
        index_values(order@) == ranking(key_values(keys@)),
        is_ranking(key_values(keys@), index_values(order@)),
{
    let ghost ks = key_values(keys@);
    let mut order: Vec<usize> = Vec::new();
    let mut m: usize = 0;
    while m < keys.len()
        invariant
            m <= keys.len(),
            ks == key_values(keys@),
            ranks_first(ks, m as int, index_values(order@)),
        decreases keys.len() - m,
    {
        let key = keys[m];
        let mut p: usize = order.len();
        assert forall|q: int| 0 <= q < order.len() implies #[trigger] order@[q] < m by {
            assert(index_values(order@)[q] < m);
        }
        while p > 0 && keys[order[p - 1]] < key
            invariant
                p <= order.len(),
                order.len() == m,
                m < keys.len(),
                key == keys@[m as int],
                ks == key_values(keys@),
                ranks_first(ks, m as int, index_values(order@)),
                forall|q: int| 0 <= q < order.len() ==> #[trigger] order@[q] < m,
                forall|q: int| p <= q < order.len() ==> ks[#[trigger] index_values(order@)[q]] < key,
            decreases p,
        {
            p -= 1;
        }
        let ghost before = index_values(order@);
        order.insert(p, m);
        proof {
            assert forall|q: int| p <= q < before.len() implies ks[#[trigger] before[q]] < ks[m as int] by {}
            lemma_insert_keeps_order(ks, m as int, before, p as int);
            assert(index_values(order@) =~= before.insert(p as int, m as int));
        }
        m += 1;
    }
    proof {
        lemma_ranking_is(ks, index_values(order@));
    }
    order
}

} // verus!
