//! Stable sorting by a key, as an order of indices.

use vstd::prelude::*;

verus! {

/// Index `a` comes before index `b`: by key, and by position where keys agree.
pub open spec fn precedes(keys: Seq<i64>, a: int, b: int) -> bool {
    keys[a] < keys[b] || (keys[a] == keys[b] && a < b)
}

/// `order` lists the indices from `low` to `high`, each once, in order.
pub open spec fn orders(keys: Seq<i64>, low: int, high: int, order: Seq<usize>) -> bool {
    &&& order.len() == high - low
    &&& forall|i: int| 0 <= i < order.len() ==> low <= #[trigger] order[i] < high
    &&& forall|k: int| low <= k < high ==> order.contains(#[trigger] (k as usize))
    &&& forall|i: int, j: int|
        0 <= i < j < order.len() ==> precedes(keys, #[trigger] order[i] as int, #[trigger] order[j]
            as int)
}

/// The order of all indices.
pub open spec fn sorted_order(keys: Seq<i64>) -> Seq<usize> {
    choose|order: Seq<usize>| orders(keys, 0, keys.len() as int, order)
}

proof fn lemma_same_prefix(keys: Seq<i64>, a: Seq<usize>, b: Seq<usize>, n: int)
    requires
        keys.len() <= usize::MAX,
        orders(keys, 0, keys.len() as int, a),
        orders(keys, 0, keys.len() as int, b),
        0 <= n <= keys.len(),
    ensures
        forall|i: int| 0 <= i < n ==> a[i] == b[i],
    decreases n,
{
    if n > 0 {
        lemma_same_prefix(keys, a, b, n - 1);
        let last = n - 1;
        assert(b.contains((a[last] as int) as usize));
        let k = choose|k: int| 0 <= k < b.len() && b[k] == a[last];
        assert(a.contains((b[last] as int) as usize));
        let m = choose|m: int| 0 <= m < a.len() && a[m] == b[last];
        if k < last {
            assert(precedes(keys, a[k] as int, a[last] as int));
            assert(false);
        }
        if m < last {
            assert(precedes(keys, b[m] as int, b[last] as int));
            assert(false);
        }
        if k > last && m > last {
            assert(precedes(keys, b[last] as int, b[k] as int));
            assert(precedes(keys, a[last] as int, a[m] as int));
            assert(false);
        }
    }
}

/// There is only one order.
pub proof fn order_is_unique(keys: Seq<i64>, a: Seq<usize>, b: Seq<usize>)
    requires
        keys.len() <= usize::MAX,
        orders(keys, 0, keys.len() as int, a),
        orders(keys, 0, keys.len() as int, b),
    ensures
        a == b,
{
    lemma_same_prefix(keys, a, b, keys.len() as int);
    assert(a =~= b);
}

/// Where an index with this key belongs, from position `i` on.
spec fn place(keys: Seq<i64>, order: Seq<usize>, key: i64, i: int) -> int
    decreases order.len() - i,
{
    if i >= order.len() || keys[order[i] as int] > key {
        i
    } else {
        place(keys, order, key, i + 1)
    }
}

proof fn lemma_place(keys: Seq<i64>, order: Seq<usize>, key: i64, i: int)
    requires
        0 <= i <= order.len(),
    ensures
        i <= place(keys, order, key, i) <= order.len(),
        forall|j: int| i <= j < place(keys, order, key, i) ==> keys[#[trigger] order[j] as int] <= key,
        place(keys, order, key, i) < order.len() ==> keys[order[place(keys, order, key, i)] as int]
            > key,
    decreases order.len() - i,
{
    if i < order.len() && keys[order[i] as int] <= key {
        lemma_place(keys, order, key, i + 1);
    }
}

proof fn lemma_ordering(keys: Seq<i64>, n: int) -> (order: Seq<usize>)
    requires
        0 <= n <= keys.len() <= usize::MAX,
    ensures
        orders(keys, 0, n, order),
    decreases n,
{
    if n == 0 {
        Seq::empty()
    } else {
        let last = n - 1;
        let earlier = lemma_ordering(keys, last);
        lemma_place(keys, earlier, keys[last], 0);
        let p = place(keys, earlier, keys[last], 0);
        let order = earlier.insert(p, last as usize);
        assert forall|k: int| 0 <= k < n implies order.contains(#[trigger] (k as usize)) by {
            if k == last {
                assert(order[p] == k as usize);
            } else {
                assert(earlier.contains(k as usize));
                let i = choose|i: int| 0 <= i < earlier.len() && earlier[i] == k as usize;
                assert(order[if i < p {
                    i
                } else {
                    i + 1
                }] == k as usize);
            }
        }
        assert forall|i: int, j: int| 0 <= i < j < order.len() implies precedes(
            keys,
            #[trigger] order[i] as int,
            #[trigger] order[j] as int,
        ) by {
            let a = if i < p {
                i
            } else {
                i - 1
            };
            let b = if j < p {
                j
            } else {
                j - 1
            };
            if i != p && j != p {
                assert(precedes(keys, earlier[a] as int, earlier[b] as int));
            } else if i == p && p < b {
                assert(precedes(keys, earlier[p] as int, earlier[b] as int));
            }
        }
        order
    }
}

/// Every list of keys has its order.
pub proof fn order_exists(keys: Seq<i64>)
    requires
        keys.len() <= usize::MAX,
    ensures
        orders(keys, 0, keys.len() as int, sorted_order(keys)),
{
    let order = lemma_ordering(keys, keys.len() as int);
    assert(orders(keys, 0, keys.len() as int, order));
}

fn comes_first(keys: &Vec<i64>, a: usize, b: usize) -> (r: bool)
    requires
        a < keys@.len(),
        b < keys@.len(),
    ensures
        r == precedes(keys@, a as int, b as int),
{
    keys[a] < keys[b] || (keys[a] == keys[b] && a < b)
}

fn merge(
    keys: &Vec<i64>,
    left: &Vec<usize>,
    right: &Vec<usize>,
    low: usize,
    middle: usize,
    high: usize,
) -> (r: Vec<usize>)
    requires
        low <= middle <= high <= keys@.len(),
        orders(keys@, low as int, middle as int, left@),
        orders(keys@, middle as int, high as int, right@),
    ensures
        orders(keys@, low as int, high as int, r@),
{
    let mut r: Vec<usize> = Vec::new();
    let mut i: usize = 0;
    let mut j: usize = 0;
    while i < left.len() || j < right.len()
        invariant
            low <= middle <= high <= keys@.len(),
            orders(keys@, low as int, middle as int, left@),
            orders(keys@, middle as int, high as int, right@),
            i <= left@.len(),
            j <= right@.len(),
            r@.len() == i + j,
            forall|k: int| 0 <= k < r@.len() ==> low <= #[trigger] r@[k] < high,
            forall|k: int| 0 <= k < i ==> r@.contains(#[trigger] left@[k]),
            forall|k: int| 0 <= k < j ==> r@.contains(#[trigger] right@[k]),
            forall|a: int, b: int|
                0 <= a < b < r@.len() ==> precedes(keys@, #[trigger] r@[a] as int, #[trigger] r@[b]
                    as int),
            forall|a: int, b: int|
                0 <= a < r@.len() && i <= b < left@.len() ==> precedes(
                    keys@,
                    #[trigger] r@[a] as int,
                    #[trigger] left@[b] as int,
                ),
            forall|a: int, b: int|
                0 <= a < r@.len() && j <= b < right@.len() ==> precedes(
                    keys@,
                    #[trigger] r@[a] as int,
                    #[trigger] right@[b] as int,
                ),
        decreases left.len() - i + right.len() - j,
    {
        let ghost before = r@;
        let take_left = if i == left.len() {
            false
        } else if j == right.len() {
            true
        } else {
            comes_first(keys, left[i], right[j])
        };
        if take_left {
            r.push(left[i]);
            i += 1;
        } else {
            r.push(right[j]);
            j += 1;
        }
        proof {
            let added = r@.last();
            assert(r@ =~= before.push(added));
            assert forall|x: usize| before.contains(x) implies r@.contains(x) by {
                let k = choose|k: int| 0 <= k < before.len() && before[k] == x;
                assert(r@[k] == x);
            }
            assert(r@[r@.len() - 1] == added);
            assert forall|a: int, b: int|
                0 <= a < r@.len() && i <= b < left@.len() implies precedes(
                keys@,
                #[trigger] r@[a] as int,
                #[trigger] left@[b] as int,
            ) by {
                if a == before.len() && !take_left {
                    assert(!precedes(keys@, left@[i as int] as int, added as int));
                    assert(left@[i as int] < middle <= added);
                    if i < b {
                        assert(precedes(keys@, left@[i as int] as int, left@[b] as int));
                    }
                }
            }
            assert forall|a: int, b: int|
                0 <= a < r@.len() && j <= b < right@.len() implies precedes(
                keys@,
                #[trigger] r@[a] as int,
                #[trigger] right@[b] as int,
            ) by {
                if a == before.len() && take_left {
                    assert(precedes(keys@, added as int, right@[j as int] as int));
                    if j < b {
                        assert(precedes(keys@, right@[j as int] as int, right@[b] as int));
                    }
                }
            }
        }
    }
    proof {
        assert forall|k: int| low <= k < high implies r@.contains(#[trigger] (k as usize)) by {
            if k < middle {
                assert(left@.contains(k as usize));
            } else {
                assert(right@.contains(k as usize));
            }
        }
    }
    r
}

fn order_range(keys: &Vec<i64>, low: usize, high: usize) -> (r: Vec<usize>)
    requires
        low <= high <= keys@.len(),
    ensures
        orders(keys@, low as int, high as int, r@),
    decreases high - low,
{
    let mut r: Vec<usize> = Vec::new();
    if high - low == 0 {
        return r;
    }
    if high - low == 1 {
        r.push(low);
        assert(r@[0] == low);
        return r;
    }
    let middle: usize = low + (high - low) / 2;
    let left = order_range(keys, low, middle);
    let right = order_range(keys, middle, high);
    merge(keys, &left, &right, low, middle, high)
}

/// Sorts by key, and keeps the given order where keys agree.
pub fn stable_order(keys: &Vec<i64>) -> (r: Vec<usize>)
    ensures
        r@ == sorted_order(keys@),
        orders(keys@, 0, keys@.len() as int, r@),
{
    let length: usize = keys.len();
    let r = order_range(keys, 0, length);
    proof {
        order_is_unique(keys@, r@, sorted_order(keys@));
    }
    r
}

} // verus!
