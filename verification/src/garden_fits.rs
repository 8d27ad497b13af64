//! Whether an estate action stays within the range of its numbers: the
//! condition under which `apply_action` may be called, as an executable test.

use vstd::prelude::*;
use crate::garden::{
    add_fits, can_remove, chore_of, exp_fits, find_stack, find_task, first_short, in_claim_window,
    lemma_first_short, lemma_order_from, lemma_stack_from, order_from, plus_coins, progress_fits,
    remove_fits, removals_fit, removed_all, restore_of, shop_offer, stack_of, step_fits, with_added,
    with_inventory, with_removed, Action,
};
use crate::models::{
    GameState, InventoryItem, ItemView, Order, Player, PlayerView, Requirement, Task,
};
use crate::text::text_eq;

verus! {

/// `x` lies within the range of `i32`.
fn in_i32(x: i64) -> (r: bool)
    ensures
        r == (i32::MIN <= x <= i32::MAX),
{
    i32::MIN as i64 <= x && x <= i32::MAX as i64
}

fn add_fits_exec(inv: &Vec<InventoryItem>, id: &str, n: i32) -> (r: bool)
    ensures
        r == add_fits(inv@.map_values(|i: InventoryItem| i@), id@, n),
{
    match find_stack(inv, id) {
        Some(k) => in_i32(inv[k].count as i64 + n as i64),
        None => true,
    }
}

fn can_remove_exec(inv: &Vec<InventoryItem>, id: &str, n: i32) -> (r: bool)
    ensures
        r == can_remove(inv@.map_values(|i: InventoryItem| i@), id@, n),
{
    match find_stack(inv, id) {
        Some(k) => inv[k].count >= n,
        None => false,
    }
}

fn remove_fits_exec(inv: &Vec<InventoryItem>, id: &str, n: i32) -> (r: bool)
    ensures
        r == remove_fits(inv@.map_values(|i: InventoryItem| i@), id@, n),
{
    match find_stack(inv, id) {
        Some(k) => !(inv[k].count >= n) || in_i32(inv[k].count as i64 - n as i64),
        None => true,
    }
}

fn progress_fits_exec(tasks: &Vec<Task>, kind: &str, amount: i32) -> (r: bool)
    ensures
        r == progress_fits(tasks@.map_values(|t: Task| t@), kind@, amount),
{
    let ghost v = tasks@.map_values(|t: Task| t@);
    let mut k: usize = 0;
    while k < tasks.len()
        invariant
            k <= tasks@.len(),
            v == tasks@.map_values(|t: Task| t@),
            forall|j: int|
                0 <= j < k && #[trigger] v[j].task_type == kind@ && !v[j].claimed ==> i32::MIN
                    <= v[j].current_progress + amount <= i32::MAX,
        decreases tasks@.len() - k,
    {
        let t = &tasks[k];
        if text_eq(t.task_type.as_str(), kind) && !t.claimed {
            if !in_i32(t.current_progress as i64 + amount as i64) {
                assert(v[k as int].task_type == kind@);
                return false;
            }
        }
        k = k + 1;
    }
    true
}

fn exp_fits_exec(p: &Player, amount: i32) -> (r: bool)
    ensures
        r == exp_fits(p@, amount),
{
    let exp = p.exp as i64 + amount as i64;
    let required = p.level as i64 * 100;
    if !in_i32(exp) || !in_i32(required) {
        return false;
    }
    if exp >= required {
        let next = p.level as i64 + 1;
        in_i32(exp - required) && p.level < i32::MAX && in_i32(next * 5) && next * 5 + 30 <= i32::MAX as i64
    } else {
        true
    }
}

/// Price of the official shop's offer for `id`.
fn offer_price(id: &str) -> (r: Option<i32>)
    ensures
        match shop_offer(id@) {
            Some(o) => r == Some(o.0),
            None => r is None,
        },
{
    if text_eq(id, "elixir_water") {
        Some(50)
    } else if text_eq(id, "potion_energy") {
        Some(90)
    } else if text_eq(id, "estate_badge") {
        Some(150)
    } else {
        None
    }
}

/// Stamina restored by drinking `id`.
fn restore_exec(id: &str) -> (r: i32)
    ensures
        r == restore_of(id@),
{
    if text_eq(id, "elixir_water") {
        10
    } else if text_eq(id, "potion_energy") {
        20
    } else {
        0
    }
}

/// Stamina cost and yielded item of a cleaning chore.
fn chore_exec(kind: &str) -> (r: Option<(i32, &'static str)>)
    ensures
        match chore_of(kind@) {
            Some(c) => r matches Some((cost, item)) && cost == c.0 && item@ == c.1,
            None => r is None,
        },
{
    if text_eq(kind, "weed") {
        Some((3, "debris_weed"))
    } else if text_eq(kind, "prune") {
        Some((4, "estate_wood"))
    } else if text_eq(kind, "clean") {
        Some((3, "debris_leaves"))
    } else if text_eq(kind, "web") {
        Some((4, "spider_silk"))
    } else {
        None
    }
}

/// Adding to one item leaves the stack of any other item where it was.
proof fn lemma_add_other(inv: Seq<ItemView>, id: Seq<char>, n: i32, name: Seq<char>, kind: Seq<char>, other: Seq<char>)
    requires
        id != other,
    ensures
        stack_of(with_added(inv, id, n, name, kind), other) == stack_of(inv, other),
        add_fits(with_added(inv, id, n, name, kind), other, 1) == add_fits(inv, other, 1),
{
    let out = with_added(inv, id, n, name, kind);
    lemma_stack_from(inv, id, 0);
    lemma_stack_from(inv, other, 0);
    let k = stack_of(inv, id);
    if k < 0 {
        assert(out == inv.push(ItemView { item_id: id, count: n, name, item_type: kind }));
    } else {
        assert(out == inv.update(k, ItemView { count: (inv[k].count + n) as i32, ..inv[k] }));
    }
    lemma_stack_from(out, other, 0);
    assert forall|j: int| 0 <= j < inv.len() implies #[trigger] out[j].item_id == inv[j].item_id by {}
    if inv.len() < out.len() {
        assert(out[inv.len() as int].item_id == id);
    }
    let a = stack_of(inv, other);
    let b = stack_of(out, other);
    if a != b {
        if a == -1 {
            assert(out[b].item_id == other);
            if b < inv.len() {
                assert(inv[b].item_id == other);
            }
        } else if b == -1 {
            assert(inv[a].item_id == other);
            assert(out[a].item_id == other);
        } else if a < b {
            assert(out[a].item_id == other);
        } else {
            assert(inv[b].item_id == other);
        }
    }
}

fn copy_inventory(inv: &Vec<InventoryItem>) -> (r: Vec<InventoryItem>)
    ensures
        r@.map_values(|i: InventoryItem| i@) == inv@.map_values(|i: InventoryItem| i@),
{
    let mut r: Vec<InventoryItem> = Vec::new();
    let mut k: usize = 0;
    while k < inv.len()
        invariant
            k <= inv@.len(),
            r@.len() == k,
            forall|j: int| 0 <= j < k ==> #[trigger] r@[j]@ == inv@[j]@,
        decreases inv@.len() - k,
    {
        let it = &inv[k];
        r.push(
            InventoryItem {
                item_id: it.item_id.clone(),
                count: it.count,
                name: it.name.clone(),
                item_type: it.item_type.clone(),
            },
        );
        k = k + 1;
    }
    assert(r@.map_values(|i: InventoryItem| i@) =~= inv@.map_values(|i: InventoryItem| i@));
    r
}

/// Takes `n` of `id` from its first stack when it holds enough.
fn take_from(inv: &mut Vec<InventoryItem>, id: &str, n: i32)
    requires
        remove_fits(old(inv)@.map_values(|i: InventoryItem| i@), id@, n),
    ensures
        final(inv)@.map_values(|i: InventoryItem| i@) == with_removed(
            old(inv)@.map_values(|i: InventoryItem| i@),
            id@,
            n,
        ),
{
    let ghost v = inv@.map_values(|i: InventoryItem| i@);
    match find_stack(inv, id) {
        Some(k) => {
            if inv[k].count >= n {
                let mut item = inv.remove(k);
                item.count = item.count - n;
                inv.insert(k, item);
                assert(inv@.map_values(|i: InventoryItem| i@) =~= with_removed(v, id@, n));
            }
        },
        None => {},
    }
}

/// Whether taking the requirements one after the other stays in range.
fn removals_fit_exec(inv: &Vec<InventoryItem>, reqs: &Vec<Requirement>) -> (r: bool)
    ensures
        r == removals_fit(
            inv@.map_values(|i: InventoryItem| i@),
            reqs@.map_values(|q: Requirement| q@),
        ),
{
    let ghost rv = reqs@.map_values(|q: Requirement| q@);
    let ghost v0 = inv@.map_values(|i: InventoryItem| i@);
    let mut cur = copy_inventory(inv);
    let mut k: usize = 0;
    assert(rv.skip(0) =~= rv);
    while k < reqs.len()
        invariant
            k <= reqs@.len(),
            rv == reqs@.map_values(|q: Requirement| q@),
            v0 == inv@.map_values(|i: InventoryItem| i@),
            removals_fit(v0, rv) == removals_fit(cur@.map_values(|i: InventoryItem| i@), rv.skip(k as int)),
        decreases reqs@.len() - k,
    {
        let q = &reqs[k];
        let ghost cv = cur@.map_values(|i: InventoryItem| i@);
        let ghost rest = rv.skip(k as int);
        assert(rest[0] == rv[k as int]);
        assert(rest.skip(1) =~= rv.skip(k + 1));
        if !remove_fits_exec(&cur, q.item_id.as_str(), q.count) {
            return false;
        }
        take_from(&mut cur, q.item_id.as_str(), q.count);
        k = k + 1;
    }
    true
}

fn find_order(orders: &Vec<Order>, id: &str) -> (r: Option<usize>)
    ensures
        match r {
            Some(k) => k < orders@.len() && k as int == order_from(
                orders@.map_values(|o: Order| o@),
                id@,
                0,
            ),
            None => order_from(orders@.map_values(|o: Order| o@), id@, 0) == -1,
        },
{
    let ghost v = orders@.map_values(|o: Order| o@);
    proof {
        lemma_order_from(v, id@, 0);
    }
    let mut k: usize = 0;
    while k < orders.len()
        invariant
            k <= orders@.len(),
            v == orders@.map_values(|o: Order| o@),
            order_from(v, id@, k as int) == order_from(v, id@, 0),
        decreases orders@.len() - k,
    {
        if text_eq(orders[k].order_id.as_str(), id) {
            return Some(k);
        }
        k = k + 1;
    }
    None
}

/// Whether every requirement is covered by the storeroom.
pub(crate) fn all_covered(inv: &Vec<InventoryItem>, reqs: &Vec<Requirement>) -> (r: bool)
    ensures
        r == (first_short(
            inv@.map_values(|i: InventoryItem| i@),
            reqs@.map_values(|q: Requirement| q@),
            0,
        ) < 0),
{
    let ghost iv = inv@.map_values(|i: InventoryItem| i@);
    let ghost rv = reqs@.map_values(|q: Requirement| q@);
    proof {
        lemma_first_short(iv, rv, 0);
    }
    let mut k: usize = 0;
    while k < reqs.len()
        invariant
            k <= reqs@.len(),
            iv == inv@.map_values(|i: InventoryItem| i@),
            rv == reqs@.map_values(|q: Requirement| q@),
            first_short(iv, rv, k as int) == first_short(iv, rv, 0),
        decreases reqs@.len() - k,
    {
        let q = &reqs[k];
        let have: i32 = match find_stack(inv, q.item_id.as_str()) {
            Some(j) => inv[j].count,
            None => 0,
        };
        if have < q.count {
            return false;
        }
        k = k + 1;
    }
    true
}

/// Whether `action` may be applied to `state` on `today`: the condition of
/// `apply_action`, which every action meets unless some number of the estate
/// would leave the range of `i32`.
pub fn action_fits(state: &GameState, action: &Action, today: &str) -> (r: bool)
    ensures
        r == step_fits(state@, *action, today@),
{
    let ghost s = state@;
    let inv = &state.inventory;
    let p = &state.player;
    match action {
        Action::Purchase(id) => {
            match offer_price(id.as_str()) {
                Some(price) => {
                    proof {
                        assert(plus_coins(s, -price as int).inventory == s.inventory);
                        assert(plus_coins(s, -price as int).tasks == s.tasks);
                    }
                    !(p.coins >= price) || (add_fits_exec(inv, id.as_str(), 1) && progress_fits_exec(
                        &state.tasks,
                        "purchase",
                        1,
                    ))
                },
                None => true,
            }
        },
        Action::Drink(id) => {
            let restore = restore_exec(id.as_str());
            !(restore != 0 && can_remove_exec(inv, id.as_str(), 1)) || p.current_stamina as i64 + restore as i64
                <= i32::MAX as i64
        },
        Action::WatchAdRestore => {
            let claims: i32 = if text_eq(p.ad_claim_date.as_str(), today) {
                p.ad_stamina_claims_today
            } else {
                0
            };
            proof {
                let w = in_claim_window(s.player, today@);
                assert(w.ad_stamina_claims_today == claims);
                assert(w.current_stamina == s.player.current_stamina);
            }
            p.current_stamina as i64 + 8 <= i32::MAX as i64 && 6 - (claims as i64 + 1) <= i32::MAX as i64
        },
        Action::SubmitOrder(id) => {
            match find_order(&state.orders, id.as_str()) {
                None => true,
                Some(i) => {
                    let o = &state.orders[i];
                    if text_eq(o.status.as_str(), "completed") {
                        return true;
                    }
                    assert(o@.requirements == o.requirements@.map_values(|q: Requirement| q@));
                    if !all_covered(inv, &o.requirements) {
                        return true;
                    }
                    proof {
                        let s1 = with_inventory(s, removed_all(s.inventory, o@.requirements));
                        assert(plus_coins(s1, o.coins_reward as int).player.exp == s.player.exp);
                        assert(plus_coins(s1, o.coins_reward as int).player.level == s.player.level);
                        assert(plus_coins(s1, o.coins_reward as int).player == PlayerView {
                            coins: (s.player.coins + o.coins_reward) as i32,
                            ..s.player
                        });
                    }
                    let coins = p.coins as i64 + o.coins_reward as i64;
                    let fits = removals_fit_exec(inv, &o.requirements) && in_i32(coins) && progress_fits_exec(
                        &state.tasks,
                        "order",
                        1,
                    );
                    if !fits {
                        return false;
                    }
                    let richer = Player {
                        user_id: String::new(),
                        nickname: String::new(),
                        level: p.level,
                        exp: p.exp,
                        coins: coins as i32,
                        gems: p.gems,
                        current_stamina: p.current_stamina,
                        max_stamina: p.max_stamina,
                        score_2048: p.score_2048,
                        score_match3: p.score_match3,
                        score_make10: p.score_make10,
                        ad_claim_date: String::new(),
                        ad_stamina_claims_today: p.ad_stamina_claims_today,
                    };
                    exp_fits_exec(&richer, o.exp_reward)
                },
            }
        },
        Action::ExecuteTask(id) => {
            match find_task(&state.tasks, id.as_str()) {
                None => true,
                Some(i) => {
                    let t = &state.tasks[i];
                    if t.claimed || t.current_progress >= t.target_progress {
                        return true;
                    }
                    if text_eq(t.task_type.as_str(), "sign") {
                        proof {
                            assert(plus_coins(s, 50).player.exp == s.player.exp);
                            assert(plus_coins(s, 50).player.level == s.player.level);
                        }
                        p.coins as i64 + 50 <= i32::MAX as i64 && exp_fits_exec(p, 15)
                    } else {
                        match chore_exec(t.task_type.as_str()) {
                            Some((cost, item)) => !(p.current_stamina >= cost) || add_fits_exec(inv, item, 2),
                            None => true,
                        }
                    }
                },
            }
        },
        Action::ClaimTask(id) => {
            match find_task(&state.tasks, id.as_str()) {
                None => true,
                Some(i) => {
                    let t = &state.tasks[i];
                    if t.claimed || t.current_progress < t.target_progress {
                        return true;
                    }
                    proof {
                        assert(plus_coins(s, 100).player.exp == s.player.exp);
                        assert(plus_coins(s, 100).player.level == s.player.level);
                    }
                    p.coins as i64 + 100 <= i32::MAX as i64 && exp_fits_exec(p, 25)
                },
            }
        },
        Action::BuyBazaar(id, count, price) => {
            !(p.coins >= *price) || (p.coins as i64 - *price as i64 <= i32::MAX as i64 && add_fits_exec(
                inv,
                id.as_str(),
                *count,
            ))
        },
        Action::SellBazaar(id, count, price) => {
            let tenth: i32 = *price / 10;
            let fee: i64 = if tenth > 1 { tenth as i64 } else { 1 };
            let net: i64 = *price as i64 - fee;
            remove_fits_exec(inv, id.as_str(), *count) && (!can_remove_exec(inv, id.as_str(), *count) || (
            i32::MIN as i64 <= net && in_i32(p.coins as i64 + net)))
        },
        Action::FinishGame(game, score) => {
            let g = game.as_str();
            proof {
                reveal_strlit("debris_weed");
                reveal_strlit("debris_leaves");
                reveal_strlit("spider_silk");
                reveal_strlit("estate_wood");
                assert("debris_weed"@[7] != "debris_leaves"@[7]);
                assert("debris_leaves"@[0] != "spider_silk"@[0]);
                assert("estate_wood"@[0] != "spider_silk"@[0]);
            }
            if text_eq(g, "2048") {
                proof {
                    lemma_add_other(s.inventory, "debris_weed"@, 2, "干枯杂草"@, "debris"@, "debris_leaves"@);
                }
                !(*score > 0) || (add_fits_exec(inv, "debris_weed", 2) && add_fits_exec(inv, "debris_leaves", 1))
            } else if text_eq(g, "match3") {
                proof {
                    lemma_add_other(s.inventory, "debris_leaves"@, 2, "金色落叶"@, "debris"@, "spider_silk"@);
                }
                add_fits_exec(inv, "debris_leaves", 2) && add_fits_exec(inv, "spider_silk", 1)
            } else if text_eq(g, "make10") {
                proof {
                    lemma_add_other(s.inventory, "estate_wood"@, 2, "修剪碎木"@, "debris"@, "spider_silk"@);
                }
                add_fits_exec(inv, "estate_wood", 2) && add_fits_exec(inv, "spider_silk", 1)
            } else {
                true
            }
        },
    }
}

} // verus!
