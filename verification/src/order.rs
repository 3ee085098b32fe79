//! Stable ordering of items by descending key: the newest file first, the best match first.

use vstd::prelude::*;

verus! {

/// Item `a` comes before item `b`: its key is larger or, where the keys are the same, it stood
/// before `b` to begin with.
pub open spec fn comes_before(keys: Seq<i128>, a: usize, b: usize) -> bool {
    keys[a as int] > keys[b as int] || (keys[a as int] == keys[b as int] && a < b)
}

/// Each item of `order` comes before all items after it.
pub open spec fn is_ordered(keys: Seq<i128>, order: Seq<usize>) -> bool {
    forall|i: int, j: int|
        0 <= i < j < order.len() ==> #[trigger] comes_before(keys, order[i], order[j])
}

/// `order` lists the items of `keys`, each once, in the stable order of descending keys.
pub open spec fn is_descending_order(keys: Seq<i128>, order: Seq<usize>) -> bool {
    &&& order.len() == keys.len()
    &&& forall|i: int| 0 <= i < order.len() ==> (#[trigger] order[i]) < keys.len()
    &&& is_ordered(keys, order)
}

/// All items of `order` are in the range from `lo` to `hi`, `hi` left out.
spec fn is_within(order: Seq<usize>, lo: int, hi: int) -> bool {
    forall|i: int| 0 <= i < order.len() ==> lo <= (#[trigger] order[i]) < hi
}

/// Merges two ordered lists, all items of the first of which stood before those of the second.
fn merge_ordered(
    keys: &Vec<i128>,
    left: &Vec<usize>,
    right: &Vec<usize>,
    Ghost(lo): Ghost<int>,
    Ghost(mid): Ghost<int>,
    Ghost(hi): Ghost<int>,
) -> (merged: Vec<usize>)
    requires
        0 <= lo <= mid <= hi <= keys@.len(),
        left@.len() + right@.len() <= keys@.len(),
        is_within(left@, lo, mid),
        is_within(right@, mid, hi),
        is_ordered(keys@, left@),
        is_ordered(keys@, right@),
    ensures
        merged@.len() == left@.len() + right@.len(),
        is_within(merged@, lo, hi),
        is_ordered(keys@, merged@),
{
    let mut merged: Vec<usize> = Vec::new();
    let mut i: usize = 0;
    let mut j: usize = 0;
    while i < left.len() || j < right.len()
        invariant
            0 <= lo <= mid <= hi <= keys@.len(),
            left@.len() + right@.len() <= keys@.len(),
            is_within(left@, lo, mid),
            is_within(right@, mid, hi),
            is_ordered(keys@, left@),
            is_ordered(keys@, right@),
            i <= left@.len(),
            j <= right@.len(),
            merged@.len() == i + j,
            is_within(merged@, lo, hi),
            is_ordered(keys@, merged@),
            forall|a: int, b: int|
                0 <= a < merged@.len() && i <= b < left@.len() ==> #[trigger] comes_before(
                    keys@,
                    merged@[a],
                    left@[b],
                ),
            forall|a: int, b: int|
                0 <= a < merged@.len() && j <= b < right@.len() ==> #[trigger] comes_before(
                    keys@,
                    merged@[a],
                    right@[b],
                ),
        decreases left@.len() - i + right@.len() - j,
    {
        let take_left: bool = if i == left.len() {
            false
        } else if j == right.len() {
            true
        } else {
            assert(left@[i as int] < mid);
            assert(right@[j as int] < hi);
            keys[left[i]] >= keys[right[j]]
        };
        let ghost before = merged@;
        if take_left {
            let item: usize = left[i];
            assert(lo <= item < mid);
            merged.push(item);
            assert forall|a: int, b: int|
                0 <= a < merged@.len() && j <= b < right@.len() implies #[trigger] comes_before(
                keys@,
                merged@[a],
                right@[b],
            ) by {
                if a == before.len() {
                    assert(mid <= right@[b]);
                    if b > j {
                        assert(comes_before(keys@, right@[j as int], right@[b]));
                    }
                } else {
                    assert(merged@[a] == before[a]);
                }
            }
            assert forall|a: int, b: int|
                0 <= a < merged@.len() && i + 1 <= b < left@.len() implies #[trigger] comes_before(
                keys@,
                merged@[a],
                left@[b],
            ) by {
                if a == before.len() {
                    assert(comes_before(keys@, left@[i as int], left@[b]));
                } else {
                    assert(merged@[a] == before[a]);
                }
            }
            assert forall|a: int, b: int| 0 <= a < b < merged@.len() implies #[trigger] comes_before(
                keys@,
                merged@[a],
                merged@[b],
            ) by {
                assert(merged@[a] == before[a]);
                if b == before.len() {
                    assert(comes_before(keys@, before[a], left@[i as int]));
                } else {
                    assert(merged@[b] == before[b]);
                }
            }
            i += 1;
        } else {
            let item: usize = right[j];
            assert(mid <= item < hi);
            merged.push(item);
            assert forall|a: int, b: int|
                0 <= a < merged@.len() && i <= b < left@.len() implies #[trigger] comes_before(
                keys@,
                merged@[a],
                left@[b],
            ) by {
                if a == before.len() {
                    if b > i {
                        assert(comes_before(keys@, left@[i as int], left@[b]));
                    }
                } else {
                    assert(merged@[a] == before[a]);
                }
            }
            assert forall|a: int, b: int|
                0 <= a < merged@.len() && j + 1 <= b < right@.len() implies #[trigger] comes_before(
                keys@,
                merged@[a],
                right@[b],
            ) by {
                if a == before.len() {
                    assert(comes_before(keys@, right@[j as int], right@[b]));
                } else {
                    assert(merged@[a] == before[a]);
                }
            }
            assert forall|a: int, b: int| 0 <= a < b < merged@.len() implies #[trigger] comes_before(
                keys@,
                merged@[a],
                merged@[b],
            ) by {
                assert(merged@[a] == before[a]);
                if b == before.len() {
                    assert(comes_before(keys@, before[a], right@[j as int]));
                } else {
                    assert(merged@[b] == before[b]);
                }
            }
            j += 1;
        }
    }
    merged
}

/// Orders the items from `lo` to `hi`, `hi` left out.
fn order_range(keys: &Vec<i128>, lo: usize, hi: usize) -> (order: Vec<usize>)
    requires
        lo <= hi <= keys@.len(),
    ensures
        order@.len() == hi - lo,
        is_within(order@, lo as int, hi as int),
        is_ordered(keys@, order@),
    decreases hi - lo,
{
    if hi - lo == 0 {
        Vec::new()
    } else if hi - lo == 1 {
        vec![lo]
    } else {
        let mid: usize = lo + (hi - lo) / 2;
        let left = order_range(keys, lo, mid);
        let right = order_range(keys, mid, hi);
        merge_ordered(keys, &left, &right, Ghost(lo as int), Ghost(mid as int), Ghost(hi as int))
    }
}

/// The stable order of the items by descending key.
pub fn descending_order(keys: &Vec<i128>) -> (order: Vec<usize>)
    ensures
        is_descending_order(keys@, order@),
        order@.no_duplicates(),
        forall|item: usize| item < keys@.len() ==> order@.contains(item),
        forall|i: int, j: int|
            #![trigger order@[i], order@[j]]
            0 <= i < j < order@.len() ==> keys@[order@[i] as int] > keys@[order@[j] as int] || (
            keys@[order@[i] as int] == keys@[order@[j] as int] && order@[i] < order@[j]),
{
    let order = order_range(keys, 0, keys.len());
    proof {
        lemma_order_lists_each_once(keys@, order@);
        lemma_order_goes_down(keys@, order@);
    }
    order
}

/// An order lists every item, and none twice.
pub proof fn lemma_order_lists_each_once(keys: Seq<i128>, order: Seq<usize>)
    requires
        is_descending_order(keys, order),
    ensures
        order.no_duplicates(),
        forall|item: usize| item < keys.len() ==> order.contains(item),
        keys.len() <= usize::MAX + 1,
{
    assert forall|i: int, j: int| 0 <= i < order.len() && 0 <= j < order.len() && i != j implies order[i]
        != order[j] by {
        if i < j {
            assert(comes_before(keys, order[i], order[j]));
        } else {
            assert(comes_before(keys, order[j], order[i]));
        }
    }
    let places = order.map_values(|item: usize| item as int);
    assert(places.no_duplicates());
    places.unique_seq_to_set();
    let all = vstd::set_lib::set_int_range(0, keys.len() as int);
    vstd::set_lib::lemma_int_range(0, keys.len() as int);
    assert(places.to_set().subset_of(all)) by {
        assert forall|p: int| places.to_set().contains(p) implies all.contains(p) by {
            let i = choose|i: int| 0 <= i < places.len() && places[i] == p;
            assert(places[i] == order[i] as int);
        }
    }
    vstd::set_lib::lemma_subset_equality(places.to_set(), all);
    assert forall|item: usize| item < keys.len() implies order.contains(item) by {
        assert(all.contains(item as int));
        assert(places.to_set().contains(item as int));
        let i = choose|i: int| 0 <= i < places.len() && places[i] == item as int;
        assert(order[i] == item);
    }
    if keys.len() > usize::MAX + 1 {
        assert(all.contains(usize::MAX + 1));
        let i = choose|i: int| 0 <= i < places.len() && places[i] == usize::MAX + 1;
        assert(places[i] == order[i] as int);
    }
}

/// Two ordered lists of the same items are the same.
pub proof fn lemma_ordered_lists_agree(keys: Seq<i128>, a: Seq<usize>, b: Seq<usize>)
    requires
        is_ordered(keys, a),
        is_ordered(keys, b),
        forall|item: usize| a.contains(item) <==> b.contains(item),
    ensures
        a == b,
{
    lemma_ordered_prefixes_agree(keys, a, b, a.len() as int);
    lemma_ordered_prefixes_agree(keys, b, a, b.len() as int);
    assert(a.take(a.len() as int) =~= a);
    assert(b.take(b.len() as int) =~= b);
}

/// Two ordered lists of the same items agree on the first `n` items of one of them.
proof fn lemma_ordered_prefixes_agree(keys: Seq<i128>, a: Seq<usize>, b: Seq<usize>, n: int)
    requires
        is_ordered(keys, a),
        is_ordered(keys, b),
        forall|item: usize| a.contains(item) <==> b.contains(item),
        0 <= n <= a.len(),
    ensures
        n <= b.len(),
        a.take(n) == b.take(n),
    decreases n,
{
    if n > 0 {
        lemma_ordered_prefixes_agree(keys, a, b, n - 1);
        let x = a[n - 1];
        assert(a.contains(x));
        let p = choose|p: int| 0 <= p < b.len() && b[p] == x;
        if p < n - 1 {
            assert(a.take(n - 1)[p] == b.take(n - 1)[p]);
            assert(comes_before(keys, a[p], a[n - 1]));
        }
        let y = b[n - 1];
        if x != y {
            assert(b.contains(y));
            let q = choose|q: int| 0 <= q < a.len() && a[q] == y;
            if q < n - 1 {
                assert(a.take(n - 1)[q] == b.take(n - 1)[q]);
                assert(comes_before(keys, b[q], b[n - 1]));
            }
            assert(comes_before(keys, y, b[p]));
            assert(comes_before(keys, x, a[q]));
        }
        assert(a.take(n) =~= a.take(n - 1).push(x));
        assert(b.take(n) =~= b.take(n - 1).push(y));
    } else {
        assert(a.take(0) =~= b.take(0));
    }
}

/// There is only one order of the items.
pub proof fn lemma_order_is_unique(keys: Seq<i128>, a: Seq<usize>, b: Seq<usize>)
    requires
        is_descending_order(keys, a),
        is_descending_order(keys, b),
    ensures
        a == b,
{
    lemma_order_lists_each_once(keys, a);
    lemma_order_lists_each_once(keys, b);
    lemma_ordered_lists_agree(keys, a, b);
}

/// An order goes down in keys, and items of one key stay in the order in which they stood.
pub proof fn lemma_order_goes_down(keys: Seq<i128>, order: Seq<usize>)
    requires
        is_descending_order(keys, order),
    ensures
        order.len() == keys.len(),
        forall|i: int, j: int|
            #![trigger order[i], order[j]]
            0 <= i < j < order.len() ==> keys[order[i] as int] > keys[order[j] as int] || (
            keys[order[i] as int] == keys[order[j] as int] && order[i] < order[j]),
{
    assert forall|i: int, j: int|
        #![trigger order[i], order[j]]
        0 <= i < j < order.len() implies keys[order[i] as int] > keys[order[j] as int] || (
    keys[order[i] as int] == keys[order[j] as int] && order[i] < order[j]) by {
        assert(comes_before(keys, order[i], order[j]));
    }
}

} // verus!
