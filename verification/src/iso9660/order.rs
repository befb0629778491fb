//! Putting things into the order of their extents.
use vstd::prelude::*;

verus! {

/// Where among the first `at` places of an order an item belongs: behind all those
/// whose key is no greater.
pub open spec fn place_in(keys: Seq<u32>, order: Seq<int>, item: int, at: int) -> int
    decreases at,
{
    if at <= 0 {
        0
    } else if keys[order[at - 1]] <= keys[item] {
        at
    } else {
        place_in(keys, order, item, at - 1)
    }
}

/// The first `count` items in the order of their keys; items with one key stay in
/// the order in which they come.
pub open spec fn stable_order(keys: Seq<u32>, count: int) -> Seq<int>
    decreases count,
{
    if count <= 0 {
        Seq::empty()
    } else {
        let order = stable_order(keys, count - 1);
        order.insert(place_in(keys, order, count - 1, order.len() as int), count - 1)
    }
}

/// An item comes before another: its key is less, or it is the same and the item
/// came first.
pub open spec fn comes_before(keys: Seq<u32>, left: int, right: int) -> bool {
    keys[left] < keys[right] || (keys[left] == keys[right] && left < right)
}

/// An order has all of the first `count` items in it, each before those that it
/// comes before.
pub open spec fn is_order(keys: Seq<u32>, order: Seq<int>, count: int) -> bool {
    &&& order.len() == count
    &&& forall|i: int| 0 <= i < order.len() ==> 0 <= #[trigger] order[i] < count
    &&& forall|i: int, j: int|
        0 <= i < j < order.len() ==> comes_before(keys, #[trigger] order[i], #[trigger] order[j])
}

/// The place that is found is one of those looked at; what stands before it has
/// no greater key, and what stands from it on has a greater one, if the keys rise.
pub proof fn place_in_bounds(keys: Seq<u32>, order: Seq<int>, item: int, at: int)
    requires
        0 <= at <= order.len(),
        forall|i: int, j: int|
            0 <= i < j < order.len() ==> comes_before(keys, #[trigger] order[i], #[trigger] order[j]),
    ensures
        ({
            let place = place_in(keys, order, item, at);
            &&& 0 <= place <= at
            &&& forall|i: int| 0 <= i < place ==> keys[#[trigger] order[i]] <= keys[item]
            &&& forall|i: int| place <= i < at ==> keys[#[trigger] order[i]] > keys[item]
        }),
    decreases at,
{
    if at > 0 {
        if keys[order[at - 1]] <= keys[item] {
            assert forall|i: int| 0 <= i < at implies keys[#[trigger] order[i]] <= keys[item] by {
                if i < at - 1 {
                    assert(comes_before(keys, order[i], order[at - 1]));
                }
            }
        } else {
            place_in_bounds(keys, order, item, at - 1);
        }
    }
}

/// Sorting keeps every item, puts the keys into order, and leaves items with one
/// key in the order in which they come.
pub proof fn stable_order_sorts(keys: Seq<u32>, count: int)
    requires
        0 <= count <= keys.len(),
    ensures
        is_order(keys, stable_order(keys, count), count),
    decreases count,
{
    if count > 0 {
        stable_order_sorts(keys, count - 1);
        let before = stable_order(keys, count - 1);
        let item = count - 1;
        place_in_bounds(keys, before, item, before.len() as int);
        let place = place_in(keys, before, item, before.len() as int);
        let order = before.insert(place, item);
        assert forall|i: int, j: int| 0 <= i < j < order.len() implies comes_before(
            keys,
            #[trigger] order[i],
            #[trigger] order[j],
        ) by {
            let left = if i < place {
                i
            } else {
                i - 1
            };
            let right = if j < place {
                j
            } else {
                j - 1
            };
            if i == place {
                assert(order[j] == before[right]);
            } else if j == place {
                assert(order[i] == before[left]);
            } else {
                assert(order[i] == before[left] && order[j] == before[right]);
                assert(comes_before(keys, before[left], before[right]));
            }
        }
    }
}

/// The places of an order as integers.
pub open spec fn places(order: Seq<usize>) -> Seq<int> {
    Seq::new(order.len(), |i: int| order[i] as int)
}

/// Puts items into the order of their keys.
pub fn order_by(keys: &Vec<u32>) -> (order: Vec<usize>)
    ensures
        places(order@) == stable_order(keys@, keys.len() as int),
        order.len() == keys.len(),
        forall|i: int| 0 <= i < order.len() ==> #[trigger] order[i] < keys.len(),
{
    let mut order: Vec<usize> = Vec::new();
    let mut item: usize = 0;
    assert(places(order@) =~= stable_order(keys@, 0));
    while item < keys.len()
        invariant
            item <= keys.len(),
            order.len() == item,
            forall|i: int| 0 <= i < order.len() ==> #[trigger] order[i] < item,
            places(order@) == stable_order(keys@, item as int),
        decreases keys.len() - item,
    {
        let ghost before = places(order@);
        let mut at: usize = order.len();
        while at > 0 && keys[order[at - 1]] > keys[item]
            invariant
                at <= order.len() == item,
                item < keys.len(),
                forall|i: int| 0 <= i < order.len() ==> #[trigger] order[i] < item,
                before == places(order@),
                place_in(keys@, before, item as int, before.len() as int) == place_in(
                    keys@,
                    before,
                    item as int,
                    at as int,
                ),
            decreases at,
        {
            assert(before[at - 1] == order@[at - 1]);
            at = at - 1;
        }
        assert(at > 0 ==> before[at - 1] == order@[at - 1]);
        assert(place_in(keys@, before, item as int, at as int) == at);
        order.insert(at, item);
        assert(places(order@) =~= before.insert(at as int, item as int));
        item = item + 1;
    }
    order
}

} // verus!
