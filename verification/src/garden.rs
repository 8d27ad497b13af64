//! The estate's local rules: buying, drinking, advert restores, delivering
//! contracts, doing and claiming chores, bazaar trades and mini-game payouts.

use vstd::prelude::*;
use crate::catalog::{item_name, name_of};
use crate::models::{
    GameState, GameStateView, InventoryItem, ItemView, Order, OrderView, Player, PlayerView, Requirement,
    RequirementView, Task, TaskView,
};
use crate::text::{decimal, push_decimal, text_eq};

verus! {

// ---------------------------------------------------------------------------
// The storeroom
// ---------------------------------------------------------------------------

/// Index of the first stack of `id` from position `k` on, or -1.
pub open spec fn stack_from(inv: Seq<ItemView>, id: Seq<char>, k: int) -> int
    decreases inv.len() - k,
{
    if k < 0 || k >= inv.len() {
        -1
    } else if inv[k].item_id == id {
        k
    } else {
        stack_from(inv, id, k + 1)
    }
}

/// Index of the first stack of `id`, or -1.
pub open spec fn stack_of(inv: Seq<ItemView>, id: Seq<char>) -> int {
    stack_from(inv, id, 0)
}

/// How many of `id` the storeroom holds (in its first stack of `id`).
pub open spec fn count_of(inv: Seq<ItemView>, id: Seq<char>) -> int {
    let k = stack_of(inv, id);
    if k < 0 { 0 } else { inv[k].count as int }
}

/// The storeroom after `n` of `id` are added: to the first stack of `id`, or
/// as a new stack with the given name and kind.
pub open spec fn with_added(
    inv: Seq<ItemView>,
    id: Seq<char>,
    n: i32,
    name: Seq<char>,
    kind: Seq<char>,
) -> Seq<ItemView> {
    let k = stack_of(inv, id);
    if k < 0 {
        inv.push(ItemView { item_id: id, count: n, name, item_type: kind })
    } else {
        inv.update(k, ItemView { count: (inv[k].count + n) as i32, ..inv[k] })
    }
}

/// Adding `n` of `id` stays within `i32`.
pub open spec fn add_fits(inv: Seq<ItemView>, id: Seq<char>, n: i32) -> bool {
    let k = stack_of(inv, id);
    k >= 0 ==> i32::MIN <= inv[k].count + n <= i32::MAX
}

/// Whether the first stack of `id` holds at least `n`.
pub open spec fn can_remove(inv: Seq<ItemView>, id: Seq<char>, n: i32) -> bool {
    let k = stack_of(inv, id);
    k >= 0 && inv[k].count >= n
}

/// The storeroom after taking `n` of `id` from its first stack, when that
/// stack holds enough; otherwise unchanged.
pub open spec fn with_removed(inv: Seq<ItemView>, id: Seq<char>, n: i32) -> Seq<ItemView> {
    let k = stack_of(inv, id);
    if can_remove(inv, id, n) {
        inv.update(k, ItemView { count: (inv[k].count - n) as i32, ..inv[k] })
    } else {
        inv
    }
}

/// Taking `n` of `id` stays within `i32`.
pub open spec fn remove_fits(inv: Seq<ItemView>, id: Seq<char>, n: i32) -> bool {
    let k = stack_of(inv, id);
    can_remove(inv, id, n) ==> inv[k].count - n <= i32::MAX
}

pub(crate) proof fn lemma_stack_from(inv: Seq<ItemView>, id: Seq<char>, k: int)
    requires
        0 <= k <= inv.len(),
    ensures
        stack_from(inv, id, k) == -1 || (k <= stack_from(inv, id, k) < inv.len()
            && inv[stack_from(inv, id, k)].item_id == id),
        stack_from(inv, id, k) == -1 ==> forall|j: int| k <= j < inv.len() ==> #[trigger] inv[j].item_id != id,
        forall|j: int| k <= j < stack_from(inv, id, k) ==> #[trigger] inv[j].item_id != id,
    decreases inv.len() - k,
{
    if k < inv.len() {
        lemma_stack_from(inv, id, k + 1);
    }
}

proof fn lemma_map_update<A, B>(s: Seq<A>, i: int, x: A, f: spec_fn(A) -> B)
    requires
        0 <= i < s.len(),
    ensures
        s.update(i, x).map_values(f) == s.map_values(f).update(i, f(x)),
{
    assert(s.update(i, x).map_values(f) =~= s.map_values(f).update(i, f(x)));
}

proof fn lemma_map_push<A, B>(s: Seq<A>, x: A, f: spec_fn(A) -> B)
    ensures
        s.push(x).map_values(f) == s.map_values(f).push(f(x)),
{
    assert(s.push(x).map_values(f) =~= s.map_values(f).push(f(x)));
}

/// Index of the first stack of `id`, if any.
pub(crate) fn find_stack(inv: &Vec<InventoryItem>, id: &str) -> (r: Option<usize>)
    ensures
        match r {
            Some(k) => k < inv@.len() && k as int == stack_of(inv@.map_values(|i: InventoryItem| i@), id@),
            None => stack_of(inv@.map_values(|i: InventoryItem| i@), id@) == -1,
        },
{
    let ghost v = inv@.map_values(|i: InventoryItem| i@);
    let mut k: usize = 0;
    while k < inv.len()
        invariant
            k <= inv@.len(),
            v == inv@.map_values(|i: InventoryItem| i@),
            stack_from(v, id@, k as int) == stack_of(v, id@),
        decreases inv@.len() - k,
    {
        proof {
            lemma_stack_from(v, id@, k as int);
        }
        if text_eq(inv[k].item_id.as_str(), id) {
            return Some(k);
        }
        k = k + 1;
    }
    None
}

/// Adds `count` of `item_id` to the storeroom.
pub fn add_inventory(state: &mut GameState, item_id: &str, count: i32, name: &str, item_type: &str)
    requires
        add_fits(old(state)@.inventory, item_id@, count),
    ensures
        final(state)@ == (GameStateView {
            inventory: with_added(old(state)@.inventory, item_id@, count, name@, item_type@),
            ..old(state)@
        }),
{
    let ghost v = state@.inventory;
    proof {
        lemma_stack_from(v, item_id@, 0);
    }
    match find_stack(&state.inventory, item_id) {
        Some(k) => {
            let mut item = state.inventory.remove(k);
            item.count = item.count + count;
            let ghost before = state.inventory@;
            state.inventory.insert(k, item);
            proof {
                assert(state.inventory@ =~= old(state).inventory@.update(k as int, item));
                lemma_map_update(old(state).inventory@, k as int, item, |i: InventoryItem| i@);
            }
        },
        None => {
            let item = InventoryItem {
                item_id: item_id.to_owned(),
                count,
                name: name.to_owned(),
                item_type: item_type.to_owned(),
            };
            state.inventory.push(item);
            proof {
                lemma_map_push(old(state).inventory@, item, |i: InventoryItem| i@);
            }
        },
    }
    assert(state@ =~= (GameStateView {
        inventory: with_added(old(state)@.inventory, item_id@, count, name@, item_type@),
        ..old(state)@
    }));
}

} // verus!

verus! {

/// Takes `count` of `item_id` from its first stack when that stack holds
/// enough; tells whether it did.
pub fn remove_inventory(state: &mut GameState, item_id: &str, count: i32) -> (done: bool)
    requires
        remove_fits(old(state)@.inventory, item_id@, count),
    ensures
        done == can_remove(old(state)@.inventory, item_id@, count),
        final(state)@ == (GameStateView {
            inventory: with_removed(old(state)@.inventory, item_id@, count),
            ..old(state)@
        }),
{
    let ghost v = state@.inventory;
    proof {
        lemma_stack_from(v, item_id@, 0);
    }
    if let Some(k) = find_stack(&state.inventory, item_id) {
        if state.inventory[k].count >= count {
            let mut item = state.inventory.remove(k);
            item.count = item.count - count;
            state.inventory.insert(k, item);
            proof {
                assert(state.inventory@ =~= old(state).inventory@.update(k as int, item));
                lemma_map_update(old(state).inventory@, k as int, item, |i: InventoryItem| i@);
            }
            assert(state@ =~= (GameStateView {
                inventory: with_removed(old(state)@.inventory, item_id@, count),
                ..old(state)@
            }));
            return true;
        }
    }
    assert(state@ =~= (GameStateView {
        inventory: with_removed(old(state)@.inventory, item_id@, count),
        ..old(state)@
    }));
    false
}

/// How many of `item_id` the storeroom holds.
pub fn inventory_count(state: &GameState, item_id: &str) -> (n: i32)
    ensures
        n == count_of(state@.inventory, item_id@),
{
    proof {
        lemma_stack_from(state@.inventory, item_id@, 0);
    }
    match find_stack(&state.inventory, item_id) {
        Some(k) => state.inventory[k].count,
        None => 0,
    }
}

/// The chore after `amount` more progress, capped at its target.
pub open spec fn progressed(t: TaskView, amount: i32) -> TaskView {
    let p = t.current_progress + amount;
    TaskView {
        current_progress: (if p < t.target_progress { p } else { t.target_progress as int }) as i32,
        ..t
    }
}

/// The chores after every unclaimed chore of `kind` advances by `amount`.
pub open spec fn with_progress(tasks: Seq<TaskView>, kind: Seq<char>, amount: i32) -> Seq<TaskView> {
    Seq::new(
        tasks.len(),
        |k: int|
            if tasks[k].task_type == kind && !tasks[k].claimed {
                progressed(tasks[k], amount)
            } else {
                tasks[k]
            },
    )
}

/// Advancing the chores of `kind` by `amount` stays within `i32`.
pub open spec fn progress_fits(tasks: Seq<TaskView>, kind: Seq<char>, amount: i32) -> bool {
    forall|k: int|
        0 <= k < tasks.len() && #[trigger] tasks[k].task_type == kind && !tasks[k].claimed
            ==> i32::MIN <= tasks[k].current_progress + amount <= i32::MAX
}

/// Advances every unclaimed chore of `task_type` by `amount`, capped at its
/// target.
pub fn progress_task(state: &mut GameState, task_type: &str, amount: i32)
    requires
        progress_fits(old(state)@.tasks, task_type@, amount),
    ensures
        final(state)@ == (GameStateView {
            tasks: with_progress(old(state)@.tasks, task_type@, amount),
            ..old(state)@
        }),
{
    let ghost t0 = state@.tasks;
    let mut k: usize = 0;
    while k < state.tasks.len()
        invariant
            k <= state.tasks@.len(),
            t0 == old(state)@.tasks,
            state.tasks@.len() == t0.len(),
            progress_fits(t0, task_type@, amount),
            state.player == old(state).player,
            state.inventory == old(state).inventory,
            state.orders == old(state).orders,
            state.transactions == old(state).transactions,
            forall|j: int| 0 <= j < k ==> #[trigger] state@.tasks[j] == with_progress(t0, task_type@, amount)[j],
            forall|j: int| k <= j < t0.len() ==> #[trigger] state@.tasks[j] == t0[j],
        decreases t0.len() - k,
    {
        let ghost cur = state.tasks@;
        assert(state@.tasks[k as int] == cur[k as int]@);
        if text_eq(state.tasks[k].task_type.as_str(), task_type) && !state.tasks[k].claimed {
            let mut task = state.tasks.remove(k);
            assert(task@ == t0[k as int]);
            assert(t0[k as int].task_type == task_type@);
            let next = task.current_progress + amount;
            task.current_progress = if next < task.target_progress { next } else { task.target_progress };
            state.tasks.insert(k, task);
            assert(state.tasks@ =~= cur.update(k as int, task));
            proof {
                lemma_map_update(cur, k as int, task, |t: Task| t@);
            }
        }
        k = k + 1;
    }
    assert(state@.tasks =~= with_progress(t0, task_type@, amount));
    assert(state@ =~= (GameStateView {
        tasks: with_progress(old(state)@.tasks, task_type@, amount),
        ..old(state)@
    }));
}

} // verus!

verus! {

/// The player after earning `amount` experience: reaching `level * 100`
/// raises the level by one, keeps the surplus, sets the stamina cap to
/// `level * 5 + 30` (at most 100) and fills the stamina.
pub open spec fn with_exp(p: PlayerView, amount: i32) -> PlayerView {
    let exp = p.exp + amount;
    let required = p.level * 100;
    if exp >= required {
        let level = p.level + 1;
        let cap = if level * 5 + 30 < 100 { level * 5 + 30 } else { 100 };
        PlayerView {
            exp: (exp - required) as i32,
            level: level as i32,
            max_stamina: cap as i32,
            current_stamina: cap as i32,
            ..p
        }
    } else {
        PlayerView { exp: exp as i32, ..p }
    }
}

/// Earning `amount` experience stays within `i32`.
pub open spec fn exp_fits(p: PlayerView, amount: i32) -> bool {
    let exp = p.exp + amount;
    let required = p.level * 100;
    &&& i32::MIN <= exp <= i32::MAX
    &&& i32::MIN <= required <= i32::MAX
    &&& exp >= required ==> {
        &&& exp - required <= i32::MAX
        &&& p.level < i32::MAX
        &&& i32::MIN <= (p.level + 1) * 5 <= i32::MAX
        &&& (p.level + 1) * 5 + 30 <= i32::MAX
    }
}

/// Grants experience, levelling up once when the threshold is reached.
pub fn grant_exp(state: &mut GameState, amount: i32)
    requires
        exp_fits(old(state)@.player, amount),
    ensures
        final(state)@ == (GameStateView { player: with_exp(old(state)@.player, amount), ..old(state)@ }),
{
    state.player.exp = state.player.exp + amount;
    let required = state.player.level * 100;
    if state.player.exp >= required {
        state.player.exp = state.player.exp - required;
        state.player.level = state.player.level + 1;
        let cap = state.player.level * 5 + 30;
        state.player.max_stamina = if cap < 100 { cap } else { 100 };
        state.player.current_stamina = state.player.max_stamina;
    }
    assert(state@ =~= (GameStateView { player: with_exp(old(state)@.player, amount), ..old(state)@ }));
}

/// The player after the advert counter is moved to `today`: a counter of
/// another day starts again from zero.
pub open spec fn in_claim_window(p: PlayerView, today: Seq<char>) -> PlayerView {
    if p.ad_claim_date != today {
        PlayerView { ad_claim_date: today, ad_stamina_claims_today: 0, ..p }
    } else {
        p
    }
}

/// Moves the advert counter to `today`.
pub fn normalize_ad_claim_window(player: &mut Player, today: &str)
    ensures
        final(player)@ == in_claim_window(old(player)@, today@),
{
    if !text_eq(player.ad_claim_date.as_str(), today) {
        player.ad_claim_date = today.to_owned();
        player.ad_stamina_claims_today = 0;
    }
}

/// Adverts already claimed on `today`.
pub fn normalized_ad_claims(player: &Player, today: &str) -> (n: i32)
    ensures
        n == (if player.ad_claim_date@ == today@ { player.ad_stamina_claims_today } else { 0 }),
{
    if text_eq(player.ad_claim_date.as_str(), today) {
        player.ad_stamina_claims_today
    } else {
        0
    }
}

/// Integer division rounding toward zero, for a positive divisor.
pub open spec fn quotient(a: int, b: int) -> int {
    if a >= 0 { a / b } else { -((-a) / b) }
}

/// `value` as a whole percentage of `max`, within `0..=100`; zero for a
/// non-positive `max`.
pub fn percent(value: i32, max: i32) -> (p: i32)
    requires
        max > 0 ==> i32::MIN <= value * 100 <= i32::MAX,
    ensures
        p == (if max <= 0 {
            0
        } else {
            let q = quotient(value * 100, max as int);
            if q < 0 { 0 } else if q > 100 { 100 } else { q }
        }),
{
    if max <= 0 {
        0
    } else {
        let q = (value * 100) / max;
        assert(q == quotient(value * 100, max as int));
        if q < 0 { 0 } else if q > 100 { 100 } else { q }
    }
}

} // verus!

verus! {

// ---------------------------------------------------------------------------
// Actions
// ---------------------------------------------------------------------------

/// What the player asks the estate to do.
pub enum Action {
    Purchase(String),
    Drink(String),
    WatchAdRestore,
    SubmitOrder(String),
    ExecuteTask(String),
    ClaimTask(String),
    BuyBazaar(String, i32, i32),
    SellBazaar(String, i32, i32),
    FinishGame(String, i32),
}

/// Stamina restored per advert.
pub const AD_STAMINA_REWARD: i32 = 8;

/// Adverts that restore stamina per day.
pub const AD_DAILY_LIMIT: i32 = 6;

/// An item of the official shop.
pub struct ShopItem {
    pub item_id: &'static str,
    pub name: &'static str,
    pub price: i32,
    pub item_type: &'static str,
    pub description: &'static str,
}

/// A player's offer in the bazaar.
pub struct BazaarListing {
    pub item_id: &'static str,
    pub qty: i32,
    pub price: i32,
    pub seller: &'static str,
}

/// The official shop's offer for `id`: price, name and kind.
pub open spec fn shop_offer(id: Seq<char>) -> Option<(i32, Seq<char>, Seq<char>)> {
    if id == "elixir_water"@ {
        Some((50i32, "黄金神水"@, "elixir"@))
    } else if id == "potion_energy"@ {
        Some((90i32, "庄园能量饮料"@, "elixir"@))
    } else if id == "estate_badge"@ {
        Some((150i32, "庄园荣誉徽章"@, "badge"@))
    } else {
        None
    }
}

/// The official shop's shelf.
pub fn shop_items() -> (items: Vec<ShopItem>)
    ensures
        items@.len() == 3,
        items@[0].item_id@ == "elixir_water"@ && items@[0].name@ == "黄金神水"@ && items@[0].price == 50
            && items@[0].item_type@ == "elixir"@ && items@[0].description@ == "服用后立即恢复 10 点体力"@,
        items@[1].item_id@ == "potion_energy"@ && items@[1].name@ == "庄园能量饮料"@ && items@[1].price
            == 90 && items@[1].item_type@ == "elixir"@ && items@[1].description@ == "服用后立即恢复 20 点体力"@,
        items@[2].item_id@ == "estate_badge"@ && items@[2].name@ == "庄园荣誉徽章"@ && items@[2].price
            == 150 && items@[2].item_type@ == "badge"@ && items@[2].description@ == "庄园建设的荣誉结晶，纪念收藏"@,
{
    vec![
        ShopItem {
            item_id: "elixir_water",
            name: "黄金神水",
            price: 50,
            item_type: "elixir",
            description: "服用后立即恢复 10 点体力",
        },
        ShopItem {
            item_id: "potion_energy",
            name: "庄园能量饮料",
            price: 90,
            item_type: "elixir",
            description: "服用后立即恢复 20 点体力",
        },
        ShopItem {
            item_id: "estate_badge",
            name: "庄园荣誉徽章",
            price: 150,
            item_type: "badge",
            description: "庄园建设的荣誉结晶，纪念收藏",
        },
    ]
}

/// The bazaar's standing offers.
pub fn bazaar_listings() -> (listings: Vec<BazaarListing>)
    ensures
        listings@.len() == 4,
        listings@[0].item_id@ == "debris_weed"@ && listings@[0].qty == 5 && listings@[0].price == 45
            && listings@[0].seller@ == "庄园清荒客"@,
        listings@[1].item_id@ == "debris_leaves"@ && listings@[1].qty == 4 && listings@[1].price == 50
            && listings@[1].seller@ == "落叶收藏家"@,
        listings@[2].item_id@ == "estate_wood"@ && listings@[2].qty == 3 && listings@[2].price == 60
            && listings@[2].seller@ == "砍柴老王"@,
        listings@[3].item_id@ == "spider_silk"@ && listings@[3].qty == 2 && listings@[3].price == 60
            && listings@[3].seller@ == "荒宅扫除人"@,
{
    vec![
        BazaarListing { item_id: "debris_weed", qty: 5, price: 45, seller: "庄园清荒客" },
        BazaarListing { item_id: "debris_leaves", qty: 4, price: 50, seller: "落叶收藏家" },
        BazaarListing { item_id: "estate_wood", qty: 3, price: 60, seller: "砍柴老王" },
        BazaarListing { item_id: "spider_silk", qty: 2, price: 60, seller: "荒宅扫除人" },
    ]
}

/// The state with another player record.
pub open spec fn with_player(s: GameStateView, p: PlayerView) -> GameStateView {
    GameStateView { player: p, ..s }
}

/// The state with another storeroom.
pub open spec fn with_inventory(s: GameStateView, inv: Seq<ItemView>) -> GameStateView {
    GameStateView { inventory: inv, ..s }
}

/// The state with more coins.
pub open spec fn plus_coins(s: GameStateView, n: int) -> GameStateView {
    with_player(s, PlayerView { coins: (s.player.coins + n) as i32, ..s.player })
}

/// The state after `with_exp`.
pub open spec fn plus_exp(s: GameStateView, n: i32) -> GameStateView {
    with_player(s, with_exp(s.player, n))
}

/// The state after `with_added`.
pub open spec fn plus_items(s: GameStateView, id: Seq<char>, n: i32, name: Seq<char>, kind: Seq<char>) -> GameStateView {
    with_inventory(s, with_added(s.inventory, id, n, name, kind))
}

/// The state after `with_progress`.
pub open spec fn plus_progress(s: GameStateView, kind: Seq<char>, n: i32) -> GameStateView {
    GameStateView { tasks: with_progress(s.tasks, kind, n), ..s }
}

/// Buying one item from the official shop.
pub open spec fn purchase_step(s: GameStateView, id: Seq<char>) -> (GameStateView, Seq<char>) {
    match shop_offer(id) {
        None => (s, "集市中暂时没有这件道具"@),
        Some((price, name, kind)) => if s.player.coins < price {
            (s, "金币财富不足，购买需要 "@ + decimal(price as int) + " 金币。"@)
        } else {
            let s1 = plus_coins(s, -price);
            let s2 = plus_items(s1, id, 1, name, kind);
            (plus_progress(s2, "purchase"@, 1), "购买成功，"@ + name + " 已存入仓库。"@)
        },
    }
}

/// Buying from the shop stays within `i32`.
pub open spec fn purchase_fits(s: GameStateView, id: Seq<char>) -> bool {
    match shop_offer(id) {
        Some((price, name, kind)) => s.player.coins >= price ==> {
            let s1 = plus_coins(s, -price);
            &&& add_fits(s1.inventory, id, 1)
            &&& progress_fits(s1.tasks, "purchase"@, 1)
        },
        None => true,
    }
}

/// Stamina restored by drinking an item; zero for items that cannot be drunk.
pub open spec fn restore_of(id: Seq<char>) -> i32 {
    if id == "elixir_water"@ { 10 } else if id == "potion_energy"@ { 20 } else { 0 }
}

/// Drinking one item.
pub open spec fn drink_step(s: GameStateView, id: Seq<char>) -> (GameStateView, Seq<char>) {
    let restore = restore_of(id);
    if restore == 0 {
        (s, "该物品无法直接消耗饮用"@)
    } else if !can_remove(s.inventory, id, 1) {
        (s, "仓库中缺少该道具"@)
    } else {
        let s1 = with_inventory(s, with_removed(s.inventory, id, 1));
        let raised = s.player.current_stamina + restore;
        let stamina = if raised < s.player.max_stamina { raised } else { s.player.max_stamina as int };
        (with_player(s1, PlayerView { current_stamina: stamina as i32, ..s.player }),
            "体力提升 "@ + decimal(restore as int) + " 点。"@)
    }
}

/// Drinking stays within `i32`.
pub open spec fn drink_fits(s: GameStateView, id: Seq<char>) -> bool {
    restore_of(id) != 0 && can_remove(s.inventory, id, 1) ==> s.player.current_stamina + restore_of(id)
        <= i32::MAX
}

/// Watching an advert to restore stamina on day `today`.
pub open spec fn advert_step(s: GameStateView, today: Seq<char>) -> (GameStateView, Seq<char>) {
    let p = in_claim_window(s.player, today);
    let s1 = with_player(s, p);
    if p.current_stamina >= p.max_stamina {
        (s1, "体力已满，暂时不需要广告补给。"@)
    } else if p.ad_stamina_claims_today >= 6 {
        (s1, "今日广告补给次数已用完，请明天再来。"@)
    } else {
        let raised = p.current_stamina + 8;
        let stamina = if raised < p.max_stamina { raised } else { p.max_stamina as int };
        let claims = p.ad_stamina_claims_today + 1;
        let gained = stamina - p.current_stamina;
        let left = if 6 - claims > 0 { 6 - claims } else { 0 };
        let p2 = PlayerView { current_stamina: stamina as i32, ad_stamina_claims_today: claims as i32, ..p };
        let s2 = GameStateView {
            player: p2,
            transactions: seq!["广告补给成功，体力 +"@ + decimal(gained) + "。"@] + s.transactions,
            ..s
        };
        (s2, "广告补给到账，体力 +"@ + decimal(gained) + "，今日还可恢复 "@ + decimal(left) + " 次。"@)
    }
}

/// Watching an advert stays within `i32`.
pub open spec fn advert_fits(s: GameStateView, today: Seq<char>) -> bool {
    let p = in_claim_window(s.player, today);
    &&& p.current_stamina + 8 <= i32::MAX
    &&& 6 - (p.ad_stamina_claims_today + 1) <= i32::MAX
}

} // verus!

verus! {

fn apply_purchase(state: &mut GameState, item_id: &str) -> (message: String)
    requires
        purchase_fits(old(state)@, item_id@),
    ensures
        (final(state)@, message@) == purchase_step(old(state)@, item_id@),
{
    let items = shop_items();
    proof {
        reveal_strlit("elixir_water");
        reveal_strlit("potion_energy");
        reveal_strlit("estate_badge");
    }
    let mut k: usize = 0;
    let mut found: Option<usize> = None;
    while k < items.len()
        invariant
            items@.len() == 3,
            k <= 3,
            items@[0].item_id@ == "elixir_water"@,
            items@[1].item_id@ == "potion_energy"@,
            items@[2].item_id@ == "estate_badge"@,
            found is None ==> forall|j: int| 0 <= j < k ==> #[trigger] items@[j].item_id@ != item_id@,
            found matches Some(f) ==> f < 3 && items@[f as int].item_id@ == item_id@ && forall|j: int|
                0 <= j < f ==> #[trigger] items@[j].item_id@ != item_id@,
        decreases 3 - k,
    {
        if found.is_none() && text_eq(items[k].item_id, item_id) {
            found = Some(k);
        }
        k = k + 1;
    }
    let f = match found {
        None => {
            return "集市中暂时没有这件道具".to_owned();
        },
        Some(f) => f,
    };
    let item = &items[f];
    assert(shop_offer(item_id@) == Some((item.price, item.name@, item.item_type@)));
    if state.player.coins < item.price {
        let mut message = "金币财富不足，购买需要 ".to_owned();
        push_decimal(&mut message, item.price as i64);
        message.append(" 金币。");
        return message;
    }
    state.player.coins = state.player.coins - item.price;
    add_inventory(state, item.item_id, 1, item.name, item.item_type);
    progress_task(state, "purchase", 1);
    let mut message = "购买成功，".to_owned();
    message.append(item.name);
    message.append(" 已存入仓库。");
    message
}

fn apply_drink(state: &mut GameState, item_id: &str) -> (message: String)
    requires
        drink_fits(old(state)@, item_id@),
    ensures
        (final(state)@, message@) == drink_step(old(state)@, item_id@),
{
    let restore = if text_eq(item_id, "elixir_water") {
        10
    } else if text_eq(item_id, "potion_energy") {
        20
    } else {
        0
    };
    if restore == 0 {
        return "该物品无法直接消耗饮用".to_owned();
    }
    if !remove_inventory(state, item_id, 1) {
        return "仓库中缺少该道具".to_owned();
    }
    let raised = state.player.current_stamina + restore;
    state.player.current_stamina = if raised < state.player.max_stamina {
        raised
    } else {
        state.player.max_stamina
    };
    let mut message = "体力提升 ".to_owned();
    push_decimal(&mut message, restore as i64);
    message.append(" 点。");
    assert(state@ =~= drink_step(old(state)@, item_id@).0);
    message
}

fn apply_advert(state: &mut GameState, today: &str) -> (message: String)
    requires
        advert_fits(old(state)@, today@),
    ensures
        (final(state)@, message@) == advert_step(old(state)@, today@),
{
    normalize_ad_claim_window(&mut state.player, today);
    if state.player.current_stamina >= state.player.max_stamina {
        assert(state@ =~= advert_step(old(state)@, today@).0);
        return "体力已满，暂时不需要广告补给。".to_owned();
    }
    if state.player.ad_stamina_claims_today >= AD_DAILY_LIMIT {
        assert(state@ =~= advert_step(old(state)@, today@).0);
        return "今日广告补给次数已用完，请明天再来。".to_owned();
    }
    let before = state.player.current_stamina;
    let raised = state.player.current_stamina + AD_STAMINA_REWARD;
    state.player.current_stamina = if raised < state.player.max_stamina {
        raised
    } else {
        state.player.max_stamina
    };
    state.player.ad_stamina_claims_today = state.player.ad_stamina_claims_today + 1;
    let gained = state.player.current_stamina - before;
    let mut note = "广告补给成功，体力 +".to_owned();
    push_decimal(&mut note, gained as i64);
    note.append("。");
    let ghost t0 = state.transactions@;
    state.transactions.insert(0, note);
    proof {
        assert(state.transactions@ =~= seq![note] + t0);
        assert(state.transactions@.map_values(|s: String| s@) =~= seq![note@] + t0.map_values(
            |s: String| s@,
        ));
    }
    let left = AD_DAILY_LIMIT - state.player.ad_stamina_claims_today;
    let mut message = "广告补给到账，体力 +".to_owned();
    push_decimal(&mut message, gained as i64);
    message.append("，今日还可恢复 ");
    push_decimal(&mut message, (if left > 0 { left } else { 0 }) as i64);
    message.append(" 次。");
    assert(state@ =~= advert_step(old(state)@, today@).0);
    message
}

} // verus!

verus! {

/// Index of the first contract with id `id` from position `k` on, or -1.
pub open spec fn order_from(orders: Seq<OrderView>, id: Seq<char>, k: int) -> int
    decreases orders.len() - k,
{
    if k < 0 || k >= orders.len() {
        -1
    } else if orders[k].order_id == id {
        k
    } else {
        order_from(orders, id, k + 1)
    }
}

/// Index of the first requirement from position `k` on that the storeroom
/// cannot cover, or -1.
pub open spec fn first_short(inv: Seq<ItemView>, reqs: Seq<RequirementView>, k: int) -> int
    decreases reqs.len() - k,
{
    if k < 0 || k >= reqs.len() {
        -1
    } else if count_of(inv, reqs[k].item_id) < reqs[k].count {
        k
    } else {
        first_short(inv, reqs, k + 1)
    }
}

/// The storeroom after the requirements are taken one after the other.
pub open spec fn removed_all(inv: Seq<ItemView>, reqs: Seq<RequirementView>) -> Seq<ItemView>
    decreases reqs.len(),
{
    if reqs.len() == 0 {
        inv
    } else {
        removed_all(with_removed(inv, reqs[0].item_id, reqs[0].count), reqs.skip(1))
    }
}

/// Taking the requirements one after the other stays within `i32`.
pub open spec fn removals_fit(inv: Seq<ItemView>, reqs: Seq<RequirementView>) -> bool
    decreases reqs.len(),
{
    reqs.len() == 0 || (remove_fits(inv, reqs[0].item_id, reqs[0].count) && removals_fit(
        with_removed(inv, reqs[0].item_id, reqs[0].count),
        reqs.skip(1),
    ))
}

/// Delivering the goods of contract `id`.
pub open spec fn submit_step(s: GameStateView, id: Seq<char>) -> (GameStateView, Seq<char>) {
    let i = order_from(s.orders, id, 0);
    if i < 0 {
        (s, "指定订单不存在"@)
    } else if s.orders[i].status == "completed"@ {
        (s, "该派单契约已经结算。"@)
    } else {
        let o = s.orders[i];
        let j = first_short(s.inventory, o.requirements, 0);
        if j >= 0 {
            (s, "缺少 "@ + name_of(o.requirements[j].item_id) + "。"@)
        } else {
            let s1 = with_inventory(s, removed_all(s.inventory, o.requirements));
            let s2 = GameStateView {
                orders: s1.orders.update(i, OrderView { status: "completed"@, ..o }),
                ..s1
            };
            let s3 = plus_coins(s2, o.coins_reward as int);
            let s4 = plus_exp(s3, o.exp_reward);
            (plus_progress(s4, "order"@, 1), "交货结账成功，金币 +"@ + decimal(o.coins_reward as int)
                + "，经验 +"@ + decimal(o.exp_reward as int) + "。"@)
        }
    }
}

/// Delivering stays within `i32`.
pub open spec fn submit_fits(s: GameStateView, id: Seq<char>) -> bool {
    let i = order_from(s.orders, id, 0);
    let o = s.orders[i];
    i >= 0 && s.orders[i].status != "completed"@ && first_short(s.inventory, o.requirements, 0) < 0
        ==> {
        let s1 = with_inventory(s, removed_all(s.inventory, o.requirements));
        let s3 = plus_coins(s1, o.coins_reward as int);
        &&& removals_fit(s.inventory, o.requirements)
        &&& i32::MIN <= s.player.coins + o.coins_reward <= i32::MAX
        &&& exp_fits(s3.player, o.exp_reward)
        &&& progress_fits(s.tasks, "order"@, 1)
    }
}

/// The contract found for `id` carries that id.
pub proof fn lemma_order_from_pub(orders: Seq<OrderView>, id: Seq<char>)
    ensures
        order_from(orders, id, 0) == -1 || (0 <= order_from(orders, id, 0) < orders.len()
            && orders[order_from(orders, id, 0)].order_id == id),
{
    lemma_order_from(orders, id, 0);
}

pub(crate) proof fn lemma_order_from(orders: Seq<OrderView>, id: Seq<char>, k: int)
    requires
        0 <= k <= orders.len(),
    ensures
        order_from(orders, id, k) == -1 || (k <= order_from(orders, id, k) < orders.len()
            && orders[order_from(orders, id, k)].order_id == id),
    decreases orders.len() - k,
{
    if k < orders.len() {
        lemma_order_from(orders, id, k + 1);
    }
}

pub(crate) proof fn lemma_first_short(inv: Seq<ItemView>, reqs: Seq<RequirementView>, k: int)
    requires
        0 <= k <= reqs.len(),
    ensures
        first_short(inv, reqs, k) == -1 || (k <= first_short(inv, reqs, k) < reqs.len()),
    decreases reqs.len() - k,
{
    if k < reqs.len() {
        lemma_first_short(inv, reqs, k + 1);
    }
}

fn apply_submit(state: &mut GameState, order_id: &str) -> (message: String)
    requires
        submit_fits(old(state)@, order_id@),
    ensures
        (final(state)@, message@) == submit_step(old(state)@, order_id@),
{
    let ghost s0 = state@;
    let mut index: usize = 0;
    while index < state.orders.len()
        invariant
            state@ == s0,
            s0 == old(state)@,
            index <= s0.orders.len(),
            order_from(s0.orders, order_id@, index as int) == order_from(s0.orders, order_id@, 0),
        ensures
            state@ == s0,
            index <= s0.orders.len(),
            order_from(s0.orders, order_id@, index as int) == order_from(s0.orders, order_id@, 0),
            index < s0.orders.len() ==> s0.orders[index as int].order_id == order_id@,
        decreases s0.orders.len() - index,
    {
        if text_eq(state.orders[index].order_id.as_str(), order_id) {
            break;
        }
        index = index + 1;
    }
    proof {
        lemma_order_from(s0.orders, order_id@, 0);
    }
    if index >= state.orders.len() {
        return "指定订单不存在".to_owned();
    }
    assert(order_from(s0.orders, order_id@, 0) == index);
    if text_eq(state.orders[index].status.as_str(), "completed") {
        return "该派单契约已经结算。".to_owned();
    }
    let ghost o = s0.orders[index as int];
    let ghost reqs = o.requirements;
    assert(state.orders@[index as int].requirements@.map_values(|r: Requirement| r@) == reqs);
    let mut r: usize = 0;
    while r < state.orders[index].requirements.len()
        invariant
            state@ == s0,
            s0 == old(state)@,
            index < s0.orders.len(),
            order_from(s0.orders, order_id@, 0) == index,
            s0.orders[index as int].status != "completed"@,
            o == s0.orders[index as int],
            reqs == o.requirements,
            state.orders@[index as int].requirements@.map_values(|r: Requirement| r@) == reqs,
            r <= reqs.len(),
            first_short(s0.inventory, reqs, r as int) == first_short(s0.inventory, reqs, 0),
        decreases reqs.len() - r,
    {
        let need = &state.orders[index].requirements[r];
        assert(need@ == reqs[r as int]);
        if inventory_count(state, need.item_id.as_str()) < need.count {
            assert(first_short(s0.inventory, reqs, 0) == r);
            let mut message = "缺少 ".to_owned();
            message.append(item_name(need.item_id.as_str()));
            message.append("。");
            return message;
        }
        r = r + 1;
    }
    proof {
        lemma_first_short(s0.inventory, reqs, 0);
    }
    assert(first_short(s0.inventory, reqs, 0) == -1);
    let mut r: usize = 0;
    let count = state.orders[index].requirements.len();
    assert(reqs.skip(0) =~= reqs);
    while r < count
        invariant
            s0 == old(state)@,
            index < s0.orders.len(),
            order_from(s0.orders, order_id@, 0) == index,
            s0.orders[index as int].status != "completed"@,
            first_short(s0.inventory, reqs, 0) == -1,
            count == reqs.len(),
            o == s0.orders[index as int],
            reqs == o.requirements,
            state@.orders == s0.orders,
            state@.player == s0.player,
            state@.tasks == s0.tasks,
            state@.transactions == s0.transactions,
            state.orders@.len() == s0.orders.len(),
            state.orders@[index as int].requirements@.map_values(|r: Requirement| r@) == reqs,
            r <= reqs.len(),
            removed_all(state@.inventory, reqs.skip(r as int)) == removed_all(s0.inventory, reqs),
            removals_fit(state@.inventory, reqs.skip(r as int)),
        decreases reqs.len() - r,
    {
        let item_id = state.orders[index].requirements[r].item_id.clone();
        let need = state.orders[index].requirements[r].count;
        let ghost rest = reqs.skip(r as int);
        assert(rest[0] == reqs[r as int]);
        assert(rest.skip(1) =~= reqs.skip(r + 1));
        remove_inventory(state, item_id.as_str(), need);
        r = r + 1;
    }
    assert(reqs.skip(count as int) =~= Seq::<RequirementView>::empty());
    let coins = state.orders[index].coins_reward;
    let exp = state.orders[index].exp_reward;
    let ghost cur = state.orders@;
    let mut order = state.orders.remove(index);
    order.status = "completed".to_owned();
    let ghost done = order;
    state.orders.insert(index, order);
    proof {
        assert(state.orders@ =~= cur.update(index as int, done));
        lemma_map_update(cur, index as int, done, |o: Order| o@);
        assert(done@ == OrderView { status: "completed"@, ..o });
    }
    state.player.coins = state.player.coins + coins;
    grant_exp(state, exp);
    progress_task(state, "order", 1);
    let mut message = "交货结账成功，金币 +".to_owned();
    push_decimal(&mut message, coins as i64);
    message.append("，经验 +");
    push_decimal(&mut message, exp as i64);
    message.append("。");
    message
}

} // verus!

verus! {

/// Index of the first chore with id `id` from position `k` on, or -1.
pub open spec fn task_from(tasks: Seq<TaskView>, id: Seq<char>, k: int) -> int
    decreases tasks.len() - k,
{
    if k < 0 || k >= tasks.len() {
        -1
    } else if tasks[k].task_id == id {
        k
    } else {
        task_from(tasks, id, k + 1)
    }
}

/// What a cleaning chore costs and yields: stamina, item, item name and the
/// message on success.
pub open spec fn chore_of(kind: Seq<char>) -> Option<(i32, Seq<char>, Seq<char>, Seq<char>)> {
    if kind == "weed"@ {
        Some((3i32, "debris_weed"@, "干枯杂草"@, "除草完成，干枯杂草 x2。"@))
    } else if kind == "prune"@ {
        Some((4i32, "estate_wood"@, "修剪碎木"@, "修剪完成，修剪碎木 x2。"@))
    } else if kind == "clean"@ {
        Some((3i32, "debris_leaves"@, "金色落叶"@, "清扫完成，金色落叶 x2。"@))
    } else if kind == "web"@ {
        Some((4i32, "spider_silk"@, "坚韧蛛丝"@, "蛛网清理完成，坚韧蛛丝 x2。"@))
    } else {
        None
    }
}

/// The state with chore `i` replaced.
pub open spec fn with_task(s: GameStateView, i: int, t: TaskView) -> GameStateView {
    GameStateView { tasks: s.tasks.update(i, t), ..s }
}

/// Doing chore `id` once.
pub open spec fn execute_step(s: GameStateView, id: Seq<char>) -> (GameStateView, Seq<char>) {
    let i = task_from(s.tasks, id, 0);
    if i < 0 {
        (s, "相应副业任务不存在"@)
    } else if s.tasks[i].claimed {
        (s, "该杂役奖励已领取完了"@)
    } else if s.tasks[i].current_progress >= s.tasks[i].target_progress {
        (s, "该杂役本轮额度已满，请领取奖励。"@)
    } else if s.tasks[i].task_type == "sign"@ {
        let s1 = with_task(s, i, TaskView { current_progress: 1, ..s.tasks[i] });
        (plus_exp(plus_coins(s1, 50), 15), "每日签到成功，金币 +50，经验 +15。"@)
    } else {
        match chore_of(s.tasks[i].task_type) {
            None => (s, "该任务暂时没有对应行动。"@),
            Some((cost, item, name, done)) => if s.player.current_stamina < cost {
                (s, "体力不足，需要 "@ + decimal(cost as int) + " 点。"@)
            } else {
                let p = PlayerView { current_stamina: (s.player.current_stamina - cost) as i32, ..s.player };
                let t = TaskView {
                    current_progress: (s.tasks[i].current_progress + 1) as i32,
                    ..s.tasks[i]
                };
                (plus_items(with_task(with_player(s, p), i, t), item, 2, name, "debris"@), done)
            },
        }
    }
}

/// Doing a chore stays within `i32`.
pub open spec fn execute_fits(s: GameStateView, id: Seq<char>) -> bool {
    let i = task_from(s.tasks, id, 0);
    let t = s.tasks[i];
    i >= 0 && !t.claimed && t.current_progress < t.target_progress ==> if t.task_type == "sign"@ {
        &&& s.player.coins + 50 <= i32::MAX
        &&& exp_fits(plus_coins(s, 50).player, 15)
    } else {
        match chore_of(t.task_type) {
            Some((cost, item, name, done)) => s.player.current_stamina >= cost ==> add_fits(
                s.inventory,
                item,
                2,
            ),
            None => true,
        }
    }
}

/// Claiming the reward of chore `id`.
pub open spec fn claim_step(s: GameStateView, id: Seq<char>) -> (GameStateView, Seq<char>) {
    let i = task_from(s.tasks, id, 0);
    if i < 0 {
        (s, "任务不存在"@)
    } else if s.tasks[i].claimed {
        (s, "奖励已经领取过了"@)
    } else if s.tasks[i].current_progress < s.tasks[i].target_progress {
        (s, "副务考核尚未通过。"@)
    } else {
        let s1 = with_task(s, i, TaskView { claimed: true, ..s.tasks[i] });
        (plus_exp(plus_coins(s1, 100), 25), "领取结业津贴，金币 +100，经验 +25。"@)
    }
}

/// Claiming stays within `i32`.
pub open spec fn claim_fits(s: GameStateView, id: Seq<char>) -> bool {
    let i = task_from(s.tasks, id, 0);
    let t = s.tasks[i];
    i >= 0 && !t.claimed && t.current_progress >= t.target_progress ==> {
        &&& s.player.coins + 100 <= i32::MAX
        &&& exp_fits(plus_coins(s, 100).player, 25)
    }
}

/// The chore found for `id` carries that id.
pub proof fn lemma_task_from_pub(tasks: Seq<TaskView>, id: Seq<char>)
    ensures
        task_from(tasks, id, 0) == -1 || (0 <= task_from(tasks, id, 0) < tasks.len()
            && tasks[task_from(tasks, id, 0)].task_id == id),
{
    lemma_task_from(tasks, id, 0);
}

pub(crate) proof fn lemma_task_from(tasks: Seq<TaskView>, id: Seq<char>, k: int)
    requires
        0 <= k <= tasks.len(),
    ensures
        task_from(tasks, id, k) == -1 || (k <= task_from(tasks, id, k) < tasks.len()
            && tasks[task_from(tasks, id, k)].task_id == id),
    decreases tasks.len() - k,
{
    if k < tasks.len() {
        lemma_task_from(tasks, id, k + 1);
    }
}

pub(crate) fn find_task(tasks: &Vec<Task>, id: &str) -> (r: Option<usize>)
    ensures
        match r {
            Some(k) => k < tasks@.len() && k as int == task_from(
                tasks@.map_values(|t: Task| t@),
                id@,
                0,
            ),
            None => task_from(tasks@.map_values(|t: Task| t@), id@, 0) == -1,
        },
{
    let ghost v = tasks@.map_values(|t: Task| t@);
    proof {
        lemma_task_from(v, id@, 0);
    }
    let mut k: usize = 0;
    while k < tasks.len()
        invariant
            k <= tasks@.len(),
            v == tasks@.map_values(|t: Task| t@),
            task_from(v, id@, k as int) == task_from(v, id@, 0),
        decreases tasks@.len() - k,
    {
        if text_eq(tasks[k].task_id.as_str(), id) {
            return Some(k);
        }
        k = k + 1;
    }
    None
}

/// Replaces the progress or the claim mark of chore `k`.
fn set_task_progress(state: &mut GameState, k: usize, progress: i32, claimed: bool)
    requires
        k < old(state).tasks@.len(),
    ensures
        final(state)@ == with_task(
            old(state)@,
            k as int,
            TaskView { current_progress: progress, claimed, ..old(state)@.tasks[k as int] },
        ),
{
    let ghost cur = state.tasks@;
    let mut task = state.tasks.remove(k);
    task.current_progress = progress;
    task.claimed = claimed;
    state.tasks.insert(k, task);
    proof {
        assert(state.tasks@ =~= cur.update(k as int, task));
        lemma_map_update(cur, k as int, task, |t: Task| t@);
    }
    assert(state@ =~= with_task(
        old(state)@,
        k as int,
        TaskView { current_progress: progress, claimed, ..old(state)@.tasks[k as int] },
    ));
}

/// A cleaning chore: spends stamina, advances the chore and stores two of
/// its item.
fn execute_chore(
    state: &mut GameState,
    task_index: usize,
    stamina: i32,
    item_id: &str,
    name: &str,
    message: &str,
) -> (r: String)
    requires
        task_index < old(state).tasks@.len(),
        old(state).player.current_stamina >= stamina ==> {
            &&& i32::MIN <= old(state).player.current_stamina - stamina <= i32::MAX
            &&& old(state).tasks@[task_index as int].current_progress < i32::MAX
            &&& add_fits(old(state)@.inventory, item_id@, 2)
        },
    ensures
        if old(state).player.current_stamina < stamina {
            final(state)@ == old(state)@ && r@ == "体力不足，需要 "@ + decimal(stamina as int) + " 点。"@
        } else {
            let s = old(state)@;
            let p = PlayerView { current_stamina: (s.player.current_stamina - stamina) as i32, ..s.player };
            let t = TaskView {
                current_progress: (s.tasks[task_index as int].current_progress + 1) as i32,
                ..s.tasks[task_index as int]
            };
            &&& final(state)@ == plus_items(
                with_task(with_player(s, p), task_index as int, t),
                item_id@,
                2,
                name@,
                "debris"@,
            )
            &&& r@ == message@
        },
{
    if state.player.current_stamina < stamina {
        let mut r = "体力不足，需要 ".to_owned();
        push_decimal(&mut r, stamina as i64);
        r.append(" 点。");
        return r;
    }
    state.player.current_stamina = state.player.current_stamina - stamina;
    let progress = state.tasks[task_index].current_progress + 1;
    let claimed = state.tasks[task_index].claimed;
    set_task_progress(state, task_index, progress, claimed);
    add_inventory(state, item_id, 2, name, "debris");
    message.to_owned()
}

fn apply_execute(state: &mut GameState, task_id: &str) -> (message: String)
    requires
        execute_fits(old(state)@, task_id@),
    ensures
        (final(state)@, message@) == execute_step(old(state)@, task_id@),
{
    let index = match find_task(&state.tasks, task_id) {
        None => {
            return "相应副业任务不存在".to_owned();
        },
        Some(k) => k,
    };
    assert(state@.tasks[index as int] == state.tasks@[index as int]@);
    if state.tasks[index].claimed {
        return "该杂役奖励已领取完了".to_owned();
    }
    if state.tasks[index].current_progress >= state.tasks[index].target_progress {
        return "该杂役本轮额度已满，请领取奖励。".to_owned();
    }
    let kind = state.tasks[index].task_type.clone();
    proof {
        reveal_strlit("sign");
        reveal_strlit("weed");
        reveal_strlit("prune");
        reveal_strlit("clean");
        reveal_strlit("web");
    }
    if text_eq(kind.as_str(), "sign") {
        let claimed = state.tasks[index].claimed;
        set_task_progress(state, index, 1, claimed);
        state.player.coins = state.player.coins + 50;
        grant_exp(state, 15);
        return "每日签到成功，金币 +50，经验 +15。".to_owned();
    } else if text_eq(kind.as_str(), "weed") {
        execute_chore(state, index, 3, "debris_weed", "干枯杂草", "除草完成，干枯杂草 x2。")
    } else if text_eq(kind.as_str(), "prune") {
        execute_chore(state, index, 4, "estate_wood", "修剪碎木", "修剪完成，修剪碎木 x2。")
    } else if text_eq(kind.as_str(), "clean") {
        execute_chore(state, index, 3, "debris_leaves", "金色落叶", "清扫完成，金色落叶 x2。")
    } else if text_eq(kind.as_str(), "web") {
        execute_chore(state, index, 4, "spider_silk", "坚韧蛛丝", "蛛网清理完成，坚韧蛛丝 x2。")
    } else {
        "该任务暂时没有对应行动。".to_owned()
    }
}

fn apply_claim(state: &mut GameState, task_id: &str) -> (message: String)
    requires
        claim_fits(old(state)@, task_id@),
    ensures
        (final(state)@, message@) == claim_step(old(state)@, task_id@),
{
    let index = match find_task(&state.tasks, task_id) {
        None => {
            return "任务不存在".to_owned();
        },
        Some(k) => k,
    };
    assert(state@.tasks[index as int] == state.tasks@[index as int]@);
    if state.tasks[index].claimed {
        return "奖励已经领取过了".to_owned();
    }
    if state.tasks[index].current_progress < state.tasks[index].target_progress {
        return "副务考核尚未通过。".to_owned();
    }
    let progress = state.tasks[index].current_progress;
    set_task_progress(state, index, progress, true);
    state.player.coins = state.player.coins + 100;
    grant_exp(state, 25);
    "领取结业津贴，金币 +100，经验 +25。".to_owned()
}

} // verus!

verus! {

/// Buying `count` of `id` from the bazaar for `price` coins.
pub open spec fn buy_step(s: GameStateView, id: Seq<char>, count: i32, price: i32) -> (GameStateView, Seq<char>) {
    if s.player.coins < price {
        (s, "金币不足，需要 "@ + decimal(price as int) + "。"@)
    } else {
        (plus_items(plus_coins(s, -price), id, count, name_of(id), "debris"@), "交易达成，"@ + name_of(id)
            + " x"@ + decimal(count as int) + " 已收入背囊。"@)
    }
}

/// Buying from the bazaar stays within `i32`.
pub open spec fn buy_fits(s: GameStateView, id: Seq<char>, count: i32, price: i32) -> bool {
    s.player.coins >= price ==> {
        &&& s.player.coins - price <= i32::MAX
        &&& add_fits(s.inventory, id, count)
    }
}

/// The bazaar's fee on a sale for `price`: a tenth, at least one coin.
pub open spec fn sale_fee(price: i32) -> int {
    let tenth = quotient(price as int, 10);
    if tenth > 1 { tenth } else { 1 }
}

/// Selling `count` of `id` in the bazaar for `price` coins, less the fee.
pub open spec fn sell_step(s: GameStateView, id: Seq<char>, count: i32, price: i32) -> (GameStateView, Seq<char>) {
    if !can_remove(s.inventory, id, count) {
        (s, name_of(id) + " 数量不足。"@)
    } else {
        let fee = sale_fee(price);
        let gain = price - fee;
        (plus_coins(with_inventory(s, with_removed(s.inventory, id, count)), gain), "挂牌成交，扣除手续费 "@
            + decimal(fee) + "，净收 "@ + decimal(gain) + " 金币。"@)
    }
}

/// Selling in the bazaar stays within `i32`.
pub open spec fn sell_fits(s: GameStateView, id: Seq<char>, count: i32, price: i32) -> bool {
    &&& remove_fits(s.inventory, id, count)
    &&& can_remove(s.inventory, id, count) ==> {
        &&& i32::MIN <= price - sale_fee(price)
        &&& i32::MIN <= s.player.coins + price - sale_fee(price) <= i32::MAX
    }
}

/// Booking a finished mini-game: the best score is kept and cleaning
/// materials are paid out.
pub open spec fn finish_step(s: GameStateView, game: Seq<char>, score: i32) -> (GameStateView, Seq<char>) {
    let p = s.player;
    if game == "2048"@ {
        let best = if p.score_2048 > score { p.score_2048 } else { score };
        let s1 = with_player(s, PlayerView { score_2048: best, ..p });
        let s2 = if score > 0 {
            plus_items(plus_items(s1, "debris_weed"@, 2, "干枯杂草"@, "debris"@), "debris_leaves"@, 1, "金色落叶"@, "debris"@)
        } else {
            s1
        };
        (s2, "2048 扫除完毕，获得 "@ + decimal(score as int) + " 分。"@)
    } else if game == "match3"@ {
        let best = if p.score_match3 > score { p.score_match3 } else { score };
        let s1 = with_player(s, PlayerView { score_match3: best, ..p });
        (plus_items(plus_items(s1, "debris_leaves"@, 2, "金色落叶"@, "debris"@), "spider_silk"@, 1, "坚韧蛛丝"@, "debris"@),
            "开心消消乐完成，获得 "@ + decimal(score as int) + " 分。"@)
    } else if game == "make10"@ {
        let best = if p.score_make10 > score { p.score_make10 } else { score };
        let s1 = with_player(s, PlayerView { score_make10: best, ..p });
        (plus_items(plus_items(s1, "estate_wood"@, 2, "修剪碎木"@, "debris"@), "spider_silk"@, 1, "坚韧蛛丝"@, "debris"@),
            "一不小心就到十完成，获得 "@ + decimal(score as int) + " 分。"@)
    } else {
        (s, "小游戏已结算。"@)
    }
}

/// Booking a mini-game stays within `i32`.
pub open spec fn finish_fits(s: GameStateView, game: Seq<char>, score: i32) -> bool {
    if game == "2048"@ {
        score > 0 ==> {
            &&& add_fits(s.inventory, "debris_weed"@, 2)
            &&& add_fits(with_added(s.inventory, "debris_weed"@, 2, "干枯杂草"@, "debris"@), "debris_leaves"@, 1)
        }
    } else if game == "match3"@ {
        &&& add_fits(s.inventory, "debris_leaves"@, 2)
        &&& add_fits(with_added(s.inventory, "debris_leaves"@, 2, "金色落叶"@, "debris"@), "spider_silk"@, 1)
    } else if game == "make10"@ {
        &&& add_fits(s.inventory, "estate_wood"@, 2)
        &&& add_fits(with_added(s.inventory, "estate_wood"@, 2, "修剪碎木"@, "debris"@), "spider_silk"@, 1)
    } else {
        true
    }
}

fn apply_buy(state: &mut GameState, item_id: &str, count: i32, price: i32) -> (message: String)
    requires
        buy_fits(old(state)@, item_id@, count, price),
    ensures
        (final(state)@, message@) == buy_step(old(state)@, item_id@, count, price),
{
    if state.player.coins < price {
        let mut message = "金币不足，需要 ".to_owned();
        push_decimal(&mut message, price as i64);
        message.append("。");
        return message;
    }
    state.player.coins = state.player.coins - price;
    add_inventory(state, item_id, count, item_name(item_id), "debris");
    let mut message = "交易达成，".to_owned();
    message.append(item_name(item_id));
    message.append(" x");
    push_decimal(&mut message, count as i64);
    message.append(" 已收入背囊。");
    message
}

fn apply_sell(state: &mut GameState, item_id: &str, count: i32, price: i32) -> (message: String)
    requires
        sell_fits(old(state)@, item_id@, count, price),
    ensures
        (final(state)@, message@) == sell_step(old(state)@, item_id@, count, price),
{
    if !remove_inventory(state, item_id, count) {
        let mut message = item_name(item_id).to_owned();
        message.append(" 数量不足。");
        return message;
    }
    let tenth = price / 10;
    assert(tenth == quotient(price as int, 10));
    let fee = if tenth > 1 { tenth } else { 1 };
    let gain = price - fee;
    state.player.coins = state.player.coins + gain;
    let mut message = "挂牌成交，扣除手续费 ".to_owned();
    push_decimal(&mut message, fee as i64);
    message.append("，净收 ");
    push_decimal(&mut message, gain as i64);
    message.append(" 金币。");
    message
}

fn apply_finish(state: &mut GameState, game_type: &str, score: i32) -> (message: String)
    requires
        finish_fits(old(state)@, game_type@, score),
    ensures
        (final(state)@, message@) == finish_step(old(state)@, game_type@, score),
{
    if text_eq(game_type, "2048") {
        if score > state.player.score_2048 {
            state.player.score_2048 = score;
        }
        if score > 0 {
            add_inventory(state, "debris_weed", 2, "干枯杂草", "debris");
            add_inventory(state, "debris_leaves", 1, "金色落叶", "debris");
        }
        let mut message = "2048 扫除完毕，获得 ".to_owned();
        push_decimal(&mut message, score as i64);
        message.append(" 分。");
        message
    } else if text_eq(game_type, "match3") {
        if score > state.player.score_match3 {
            state.player.score_match3 = score;
        }
        add_inventory(state, "debris_leaves", 2, "金色落叶", "debris");
        add_inventory(state, "spider_silk", 1, "坚韧蛛丝", "debris");
        let mut message = "开心消消乐完成，获得 ".to_owned();
        push_decimal(&mut message, score as i64);
        message.append(" 分。");
        message
    } else if text_eq(game_type, "make10") {
        if score > state.player.score_make10 {
            state.player.score_make10 = score;
        }
        add_inventory(state, "estate_wood", 2, "修剪碎木", "debris");
        add_inventory(state, "spider_silk", 1, "坚韧蛛丝", "debris");
        let mut message = "一不小心就到十完成，获得 ".to_owned();
        push_decimal(&mut message, score as i64);
        message.append(" 分。");
        message
    } else {
        "小游戏已结算。".to_owned()
    }
}

} // verus!

verus! {

/// The state after an action and the message shown for it, with `today` the
/// current day.
pub open spec fn step(s: GameStateView, action: Action, today: Seq<char>) -> (GameStateView, Seq<char>) {
    match action {
        Action::Purchase(id) => purchase_step(s, id@),
        Action::Drink(id) => drink_step(s, id@),
        Action::WatchAdRestore => advert_step(s, today),
        Action::SubmitOrder(id) => submit_step(s, id@),
        Action::ExecuteTask(id) => execute_step(s, id@),
        Action::ClaimTask(id) => claim_step(s, id@),
        Action::BuyBazaar(id, count, price) => buy_step(s, id@, count, price),
        Action::SellBazaar(id, count, price) => sell_step(s, id@, count, price),
        Action::FinishGame(game, score) => finish_step(s, game@, score),
    }
}

/// Performing an action stays within `i32`.
pub open spec fn step_fits(s: GameStateView, action: Action, today: Seq<char>) -> bool {
    match action {
        Action::Purchase(id) => purchase_fits(s, id@),
        Action::Drink(id) => drink_fits(s, id@),
        Action::WatchAdRestore => advert_fits(s, today),
        Action::SubmitOrder(id) => submit_fits(s, id@),
        Action::ExecuteTask(id) => execute_fits(s, id@),
        Action::ClaimTask(id) => claim_fits(s, id@),
        Action::BuyBazaar(id, count, price) => buy_fits(s, id@, count, price),
        Action::SellBazaar(id, count, price) => sell_fits(s, id@, count, price),
        Action::FinishGame(game, score) => finish_fits(s, game@, score),
    }
}

/// Performs `action` on the estate and gives the message to show; `today`
/// names the current day for the daily advert counter.
pub fn apply_action(state: &mut GameState, action: Action, today: &str) -> (message: String)
    requires
        step_fits(old(state)@, action, today@),
    ensures
        (final(state)@, message@) == step(old(state)@, action, today@),
{
    match action {
        Action::Purchase(item_id) => apply_purchase(state, item_id.as_str()),
        Action::Drink(item_id) => apply_drink(state, item_id.as_str()),
        Action::WatchAdRestore => apply_advert(state, today),
        Action::SubmitOrder(order_id) => apply_submit(state, order_id.as_str()),
        Action::ExecuteTask(task_id) => apply_execute(state, task_id.as_str()),
        Action::ClaimTask(task_id) => apply_claim(state, task_id.as_str()),
        Action::BuyBazaar(item_id, count, price) => apply_buy(state, item_id.as_str(), count, price),
        Action::SellBazaar(item_id, count, price) => apply_sell(state, item_id.as_str(), count, price),
        Action::FinishGame(game_type, score) => apply_finish(state, game_type.as_str(), score),
    }
}

} // verus!

verus! {

/// A contract waiting for delivery.
pub fn order(id: &str, title: &str, requirements: Vec<Requirement>, coins: i32, exp: i32) -> (o: Order)
    ensures
        o@ == (OrderView {
            order_id: id@,
            status: "available"@,
            title: title@,
            requirements: requirements@.map_values(|r: Requirement| r@),
            coins_reward: coins,
            exp_reward: exp,
        }),
{
    Order {
        order_id: id.to_owned(),
        status: "available".to_owned(),
        title: title.to_owned(),
        requirements,
        coins_reward: coins,
        exp_reward: exp,
    }
}

/// A contract line asking for `count` of `item_id`.
pub fn req(item_id: &str, count: i32) -> (r: Requirement)
    ensures
        r@ == (RequirementView { item_id: item_id@, count }),
{
    Requirement { item_id: item_id.to_owned(), count }
}

/// A chore not yet started.
pub fn task(id: &str, title: &str, description: &str, target: i32, task_type: &str) -> (t: Task)
    ensures
        t@ == (TaskView {
            task_id: id@,
            title: title@,
            description: description@,
            target_progress: target,
            current_progress: 0,
            claimed: false,
            task_type: task_type@,
        }),
{
    Task {
        task_id: id.to_owned(),
        title: title.to_owned(),
        description: description.to_owned(),
        target_progress: target,
        current_progress: 0,
        claimed: false,
        task_type: task_type.to_owned(),
    }
}

/// The contracts of a new estate: ids, titles, goods, rewards, all open.
pub open spec fn seed_orders_ok(orders: Seq<OrderView>) -> bool {
    &&& orders.len() == 5
    &&& orders[0].order_id == "order_001"@ && orders[0].coins_reward == 120 && orders[0].exp_reward == 20
    &&& orders[0].requirements == seq![
        RequirementView { item_id: "debris_weed"@, count: 3 },
        RequirementView { item_id: "estate_wood"@, count: 1 },
    ]
    &&& orders[1].order_id == "order_002"@ && orders[1].coins_reward == 160 && orders[1].exp_reward == 30
    &&& orders[1].requirements == seq![
        RequirementView { item_id: "debris_leaves"@, count: 3 },
        RequirementView { item_id: "debris_weed"@, count: 2 },
    ]
    &&& orders[2].order_id == "order_003"@ && orders[2].coins_reward == 220 && orders[2].exp_reward == 40
    &&& orders[2].requirements == seq![RequirementView { item_id: "estate_wood"@, count: 4 }]
    &&& orders[3].order_id == "order_004"@ && orders[3].coins_reward == 190 && orders[3].exp_reward == 35
    &&& orders[3].requirements == seq![RequirementView { item_id: "spider_silk"@, count: 3 }]
    &&& orders[4].order_id == "order_005"@ && orders[4].coins_reward == 450 && orders[4].exp_reward == 75
    &&& orders[4].requirements == seq![
        RequirementView { item_id: "estate_badge"@, count: 1 },
        RequirementView { item_id: "estate_wood"@, count: 5 },
    ]
    &&& orders[0].title == "张爷爷的过冬干草委托"@
    &&& orders[1].title == "苏菲博士的落叶堆肥"@
    &&& orders[2].title == "围栏工人的修枝木材需求"@
    &&& orders[3].title == "纺织坊老板的蛛丝契约"@
    &&& orders[4].title == "庄园伟业大建设计划"@
    &&& forall|k: int| 0 <= k < 5 ==> #[trigger] orders[k].status == "available"@
}

/// The chores of a new estate: ids, titles, descriptions, targets and kinds,
/// none started.
pub open spec fn seed_tasks_ok(tasks: Seq<TaskView>) -> bool {
    &&& tasks.len() == 5
    &&& tasks[0].task_id == "task_001"@ && tasks[0].target_progress == 1 && tasks[0].task_type == "sign"@
    &&& tasks[1].task_id == "task_002"@ && tasks[1].target_progress == 5 && tasks[1].task_type == "weed"@
    &&& tasks[2].task_id == "task_003"@ && tasks[2].target_progress == 5 && tasks[2].task_type == "prune"@
    &&& tasks[3].task_id == "task_004"@ && tasks[3].target_progress == 5 && tasks[3].task_type == "clean"@
    &&& tasks[4].task_id == "task_005"@ && tasks[4].target_progress == 3 && tasks[4].task_type == "web"@
    &&& tasks[0].title == "每日签到"@
    &&& tasks[0].description == "点击右侧签到按钮，获得 15 EXP 与 50 金币"@
    &&& tasks[1].title == "庄园除草"@
    &&& tasks[1].description == "清除庄园周边的野草，收集【干枯杂草】原料（消耗 3 体力）"@
    &&& tasks[2].title == "修剪杂枝"@
    &&& tasks[2].description == "修剪庄园里的杂乱枯枝，收集【修剪碎木】原料（消耗 4 体力）"@
    &&& tasks[3].title == "清扫落叶"@
    &&& tasks[3].description == "扫清庭院中飘落的枫叶，收集【金色落叶】原料（消耗 3 体力）"@
    &&& tasks[4].title == "清理蛛网"@
    &&& tasks[4].description == "清除门窗和回廊积累的厚重蛛网，收集【坚韧蛛丝】原料（消耗 4 体力）"@
    &&& forall|k: int| 0 <= k < 5 ==> #[trigger] tasks[k].current_progress == 0 && !tasks[k].claimed
}

fn two<T>(a: T, b: T) -> (v: Vec<T>)
    ensures
        v@ == seq![a, b],
{
    let mut v = Vec::new();
    v.push(a);
    v.push(b);
    assert(v@ =~= seq![a, b]);
    v
}

fn one<T>(a: T) -> (v: Vec<T>)
    ensures
        v@ == seq![a],
{
    let mut v = Vec::new();
    v.push(a);
    assert(v@ =~= seq![a]);
    v
}

/// A new estate on day `today`.
pub fn seed_state(today: &str) -> (s: GameState)
    ensures
        s@.player == (PlayerView {
            user_id: "u_10001"@,
            nickname: "庄园见习主理人"@,
            level: 1,
            exp: 0,
            coins: 300,
            gems: 10,
            current_stamina: 30,
            max_stamina: 30,
            score_2048: 0,
            score_match3: 0,
            score_make10: 0,
            ad_claim_date: today@,
            ad_stamina_claims_today: 0,
        }),
        s@.inventory == seq![
            ItemView { item_id: "elixir_water"@, count: 2, name: "黄金神水"@, item_type: "elixir"@ },
            ItemView { item_id: "potion_energy"@, count: 1, name: "庄园能量饮料"@, item_type: "elixir"@ },
        ],
        seed_orders_ok(s@.orders),
        seed_tasks_ok(s@.tasks),
        s@.transactions == seq!["欢迎入驻本庄园！日常订单、建设打理副业玩法正式启动！"@],
{
    let player = Player {
        user_id: "u_10001".to_owned(),
        nickname: "庄园见习主理人".to_owned(),
        level: 1,
        exp: 0,
        coins: 300,
        gems: 10,
        current_stamina: 30,
        max_stamina: 30,
        score_2048: 0,
        score_match3: 0,
        score_make10: 0,
        ad_claim_date: today.to_owned(),
        ad_stamina_claims_today: 0,
    };
    let inventory = two(
        InventoryItem {
            item_id: "elixir_water".to_owned(),
            count: 2,
            name: "黄金神水".to_owned(),
            item_type: "elixir".to_owned(),
        },
        InventoryItem {
            item_id: "potion_energy".to_owned(),
            count: 1,
            name: "庄园能量饮料".to_owned(),
            item_type: "elixir".to_owned(),
        },
    );
    let r1 = two(req("debris_weed", 3), req("estate_wood", 1));
    let r2 = two(req("debris_leaves", 3), req("debris_weed", 2));
    let r3 = one(req("estate_wood", 4));
    let r4 = one(req("spider_silk", 3));
    let r5 = two(req("estate_badge", 1), req("estate_wood", 5));
    proof {
        assert(r1@.map_values(|r: Requirement| r@) =~= seq![
            RequirementView { item_id: "debris_weed"@, count: 3 },
            RequirementView { item_id: "estate_wood"@, count: 1 },
        ]);
        assert(r2@.map_values(|r: Requirement| r@) =~= seq![
            RequirementView { item_id: "debris_leaves"@, count: 3 },
            RequirementView { item_id: "debris_weed"@, count: 2 },
        ]);
        assert(r3@.map_values(|r: Requirement| r@) =~= seq![RequirementView { item_id: "estate_wood"@, count: 4 }]);
        assert(r4@.map_values(|r: Requirement| r@) =~= seq![RequirementView { item_id: "spider_silk"@, count: 3 }]);
        assert(r5@.map_values(|r: Requirement| r@) =~= seq![
            RequirementView { item_id: "estate_badge"@, count: 1 },
            RequirementView { item_id: "estate_wood"@, count: 5 },
        ]);
    }
    let mut orders: Vec<Order> = Vec::new();
    orders.push(order("order_001", "张爷爷的过冬干草委托", r1, 120, 20));
    orders.push(order("order_002", "苏菲博士的落叶堆肥", r2, 160, 30));
    orders.push(order("order_003", "围栏工人的修枝木材需求", r3, 220, 40));
    orders.push(order("order_004", "纺织坊老板的蛛丝契约", r4, 190, 35));
    orders.push(order("order_005", "庄园伟业大建设计划", r5, 450, 75));
    let mut tasks: Vec<Task> = Vec::new();
    tasks.push(task("task_001", "每日签到", "点击右侧签到按钮，获得 15 EXP 与 50 金币", 1, "sign"));
    tasks.push(task("task_002", "庄园除草", "清除庄园周边的野草，收集【干枯杂草】原料（消耗 3 体力）", 5, "weed"));
    tasks.push(task("task_003", "修剪杂枝", "修剪庄园里的杂乱枯枝，收集【修剪碎木】原料（消耗 4 体力）", 5, "prune"));
    tasks.push(task("task_004", "清扫落叶", "扫清庭院中飘落的枫叶，收集【金色落叶】原料（消耗 3 体力）", 5, "clean"));
    tasks.push(task("task_005", "清理蛛网", "清除门窗和回廊积累的厚重蛛网，收集【坚韧蛛丝】原料（消耗 4 体力）", 3, "web"));
    let transactions = one("欢迎入驻本庄园！日常订单、建设打理副业玩法正式启动！".to_owned());
    let s = GameState { player, inventory, orders, tasks, transactions };
    assert(s@.inventory =~= seq![
        ItemView { item_id: "elixir_water"@, count: 2, name: "黄金神水"@, item_type: "elixir"@ },
        ItemView { item_id: "potion_energy"@, count: 1, name: "庄园能量饮料"@, item_type: "elixir"@ },
    ]);
    assert(s@.transactions =~= seq!["欢迎入驻本庄园！日常订单、建设打理副业玩法正式启动！"@]);
    assert(seed_tasks_ok(s@.tasks));
    assert(seed_orders_ok(s@.orders));
    s
}

} // verus!
