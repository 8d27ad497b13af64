//! What the estate screens list: the contracts with the open ones first,
//! whether the storeroom covers a contract, the stocked and sellable items,
//! and how many items the storeroom holds.

use vstd::prelude::*;
use crate::garden::first_short;
use crate::garden_fits::all_covered;
use crate::catalog::{debris_kind, is_debris};
use crate::models::{GameState, InventoryItem, ItemView, Order, OrderView, Requirement};
use crate::text::text_eq;

verus! {

/// The contract has been delivered.
pub open spec fn is_completed(o: OrderView) -> bool {
    o.status == "completed"@
}

/// The contracts still open, in their order.
pub open spec fn open_orders(orders: Seq<OrderView>) -> Seq<OrderView> {
    orders.filter(|o: OrderView| !is_completed(o))
}

/// The delivered contracts, in their order.
pub open spec fn completed_orders(orders: Seq<OrderView>) -> Seq<OrderView> {
    orders.filter(|o: OrderView| is_completed(o))
}

fn copy_order(o: &Order) -> (r: Order)
    ensures
        r@ == o@,
{
    let mut requirements: Vec<Requirement> = Vec::new();
    let mut k: usize = 0;
    while k < o.requirements.len()
        invariant
            k <= o.requirements@.len(),
            requirements@.len() == k,
            forall|j: int| 0 <= j < k ==> #[trigger] requirements@[j]@ == o.requirements@[j]@,
        decreases o.requirements@.len() - k,
    {
        let q = &o.requirements[k];
        requirements.push(Requirement { item_id: q.item_id.clone(), count: q.count });
        k = k + 1;
    }
    let r = Order {
        order_id: o.order_id.clone(),
        status: o.status.clone(),
        title: o.title.clone(),
        requirements,
        coins_reward: o.coins_reward,
        exp_reward: o.exp_reward,
    };
    assert(r.requirements@.map_values(|q: Requirement| q@) =~= o.requirements@.map_values(
        |q: Requirement| q@,
    ));
    r
}

/// The contracts with the open ones first and the delivered ones after,
/// each group in its given order.
pub fn open_orders_first(orders: &Vec<Order>) -> (r: Vec<Order>)
    ensures
        r@.map_values(|o: Order| o@) == open_orders(orders@.map_values(|o: Order| o@)) + completed_orders(
            orders@.map_values(|o: Order| o@),
        ),
{
    let ghost v = orders@.map_values(|o: Order| o@);
    let mut open: Vec<Order> = Vec::new();
    let mut done: Vec<Order> = Vec::new();
    let mut k: usize = 0;
    while k < orders.len()
        invariant
            k <= orders@.len(),
            v == orders@.map_values(|o: Order| o@),
            open@.map_values(|o: Order| o@) == open_orders(v.take(k as int)),
            done@.map_values(|o: Order| o@) == completed_orders(v.take(k as int)),
        decreases orders@.len() - k,
    {
        let o = &orders[k];
        let ghost before = v.take(k as int);
        let ghost x = v[k as int];
        proof {
            reveal(Seq::filter);
            assert(v.take(k + 1) =~= before.push(x));
            assert(before.push(x).drop_last() =~= before);
            assert(before.push(x).last() == x);
            assert(x == o@);
        }
        let copy = copy_order(o);
        let ghost open_before = open@;
        let ghost done_before = done@;
        if text_eq(o.status.as_str(), "completed") {
            done.push(copy);
            proof {
                assert(done@.map_values(|o: Order| o@) =~= done_before.map_values(|o: Order| o@).push(
                    copy@,
                ));
            }
        } else {
            open.push(copy);
            proof {
                assert(open@.map_values(|o: Order| o@) =~= open_before.map_values(|o: Order| o@).push(
                    copy@,
                ));
            }
        }
        k = k + 1;
    }
    assert(v.take(k as int) =~= v);
    let ghost open_v = open@;
    let ghost done_v = done@;
    open.append(&mut done);
    assert(open@.map_values(|o: Order| o@) =~= open_v.map_values(|o: Order| o@) + done_v.map_values(
        |o: Order| o@,
    ));
    open
}

/// Whether the storeroom holds every item the contract asks for.
pub fn can_deliver(state: &GameState, order: &Order) -> (r: bool)
    ensures
        r == (first_short(state@.inventory, order@.requirements, 0) < 0),
{
    all_covered(&state.inventory, &order.requirements)
}

/// The stacks that hold at least one item, in order.
pub open spec fn stocked(inv: Seq<ItemView>) -> Seq<ItemView> {
    inv.filter(|i: ItemView| i.count > 0)
}

/// The stacks of cleaning materials that hold at least one item, in order.
pub open spec fn sellable(inv: Seq<ItemView>) -> Seq<ItemView> {
    inv.filter(|i: ItemView| debris_kind(i.item_id) && i.count > 0)
}

fn copy_item(i: &InventoryItem) -> (r: InventoryItem)
    ensures
        r@ == i@,
{
    InventoryItem {
        item_id: i.item_id.clone(),
        count: i.count,
        name: i.name.clone(),
        item_type: i.item_type.clone(),
    }
}

/// The stacks that hold at least one item.
pub fn stocked_items(inv: &Vec<InventoryItem>) -> (r: Vec<InventoryItem>)
    ensures
        r@.map_values(|i: InventoryItem| i@) == stocked(inv@.map_values(|i: InventoryItem| i@)),
{
    let ghost v = inv@.map_values(|i: InventoryItem| i@);
    let mut r: Vec<InventoryItem> = Vec::new();
    let mut k: usize = 0;
    while k < inv.len()
        invariant
            k <= inv@.len(),
            v == inv@.map_values(|i: InventoryItem| i@),
            r@.map_values(|i: InventoryItem| i@) == stocked(v.take(k as int)),
        decreases inv@.len() - k,
    {
        let ghost before = v.take(k as int);
        let ghost x = v[k as int];
        proof {
            reveal(Seq::filter);
            assert(v.take(k + 1) =~= before.push(x));
            assert(before.push(x).drop_last() =~= before);
        }
        let ghost r_before = r@;
        if inv[k].count > 0 {
            r.push(copy_item(&inv[k]));
            assert(r@.map_values(|i: InventoryItem| i@) =~= r_before.map_values(|i: InventoryItem| i@).push(x));
        }
        k = k + 1;
    }
    assert(v.take(k as int) =~= v);
    r
}

/// The stacks of cleaning materials that hold at least one item.
pub fn sellable_items(inv: &Vec<InventoryItem>) -> (r: Vec<InventoryItem>)
    ensures
        r@.map_values(|i: InventoryItem| i@) == sellable(inv@.map_values(|i: InventoryItem| i@)),
{
    let ghost v = inv@.map_values(|i: InventoryItem| i@);
    let mut r: Vec<InventoryItem> = Vec::new();
    let mut k: usize = 0;
    while k < inv.len()
        invariant
            k <= inv@.len(),
            v == inv@.map_values(|i: InventoryItem| i@),
            r@.map_values(|i: InventoryItem| i@) == sellable(v.take(k as int)),
        decreases inv@.len() - k,
    {
        let ghost before = v.take(k as int);
        let ghost x = v[k as int];
        proof {
            reveal(Seq::filter);
            assert(v.take(k + 1) =~= before.push(x));
            assert(before.push(x).drop_last() =~= before);
        }
        let ghost r_before = r@;
        if is_debris(inv[k].item_id.as_str()) && inv[k].count > 0 {
            r.push(copy_item(&inv[k]));
            assert(r@.map_values(|i: InventoryItem| i@) =~= r_before.map_values(|i: InventoryItem| i@).push(x));
        }
        k = k + 1;
    }
    assert(v.take(k as int) =~= v);
    r
}

/// The number of items in the storeroom: the counts of all stacks added up.
pub open spec fn count_total(inv: Seq<ItemView>) -> int
    decreases inv.len(),
{
    if inv.len() == 0 {
        0
    } else {
        count_total(inv.drop_last()) + inv.last().count
    }
}

/// Adding up the counts in order stays within `i32`.
pub open spec fn total_fits(inv: Seq<ItemView>) -> bool {
    forall|k: int| 0 <= k <= inv.len() ==> i32::MIN <= #[trigger] count_total(inv.take(k)) <= i32::MAX
}

/// The number of items in the storeroom, or `None` when adding up the
/// counts in order leaves the range of `i32`.
pub fn stored_total(inv: &Vec<InventoryItem>) -> (r: Option<i32>)
    ensures
        match r {
            Some(t) => total_fits(inv@.map_values(|i: InventoryItem| i@)) && t == count_total(
                inv@.map_values(|i: InventoryItem| i@),
            ),
            None => !total_fits(inv@.map_values(|i: InventoryItem| i@)),
        },
{
    let ghost v = inv@.map_values(|i: InventoryItem| i@);
    let mut t: i64 = 0;
    let mut k: usize = 0;
    assert(v.take(0) =~= Seq::<ItemView>::empty());
    while k < inv.len()
        invariant
            k <= inv@.len(),
            v == inv@.map_values(|i: InventoryItem| i@),
            t == count_total(v.take(k as int)),
            forall|j: int| 0 <= j <= k ==> i32::MIN <= #[trigger] count_total(v.take(j)) <= i32::MAX,
        decreases inv@.len() - k,
    {
        proof {
            assert(v.take(k + 1).drop_last() =~= v.take(k as int));
        }
        t = t + inv[k].count as i64;
        if t < i32::MIN as i64 || t > i32::MAX as i64 {
            assert(count_total(v.take(k + 1)) == t);
            return None;
        }
        k = k + 1;
    }
    assert(v.take(k as int) =~= v);
    Some(t as i32)
}

} // verus!
