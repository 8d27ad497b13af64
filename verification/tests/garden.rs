use huayuan::catalog::{
    is_debris, item_definition, item_icon, item_kind_label, item_name, order_lore, promo_tag, task_icon,
    task_stamina, Tab,
};
use huayuan::garden::{
    add_inventory, apply_action, bazaar_listings, grant_exp, inventory_count, normalize_ad_claim_window,
    normalized_ad_claims, percent, progress_task, remove_inventory, seed_state, shop_items, Action,
};
use huayuan::garden_fits::action_fits;
use huayuan::listing::{can_deliver, open_orders_first, sellable_items, stocked_items, stored_total};
use huayuan::models::{AdRewardPolicy, GameState};

fn fresh() -> GameState {
    seed_state("2024-05-01")
}

fn act(state: &mut GameState, action: Action) -> String {
    apply_action(state, action, "2024-05-01")
}

#[test]
fn seed_state_matches_the_starting_estate() {
    let s = fresh();
    assert_eq!(s.player.user_id, "u_10001");
    assert_eq!((s.player.level, s.player.coins, s.player.gems), (1, 300, 10));
    assert_eq!((s.player.current_stamina, s.player.max_stamina), (30, 30));
    assert_eq!(s.player.ad_claim_date, "2024-05-01");
    assert_eq!(s.inventory.len(), 2);
    assert_eq!(s.orders.len(), 5);
    assert_eq!(s.orders[0].order_id, "order_001");
    assert_eq!(s.orders[4].coins_reward, 450);
    assert_eq!(s.tasks.len(), 5);
    assert_eq!(s.tasks[4].task_type, "web");
    assert_eq!(s.transactions, vec!["欢迎入驻本庄园！日常订单、建设打理副业玩法正式启动！".to_string()]);
}

#[test]
fn purchase_pays_and_stores() {
    let mut s = fresh();
    assert_eq!(act(&mut s, Action::Purchase("estate_badge".into())), "购买成功，庄园荣誉徽章 已存入仓库。");
    assert_eq!(s.player.coins, 150);
    assert_eq!(inventory_count(&s, "estate_badge"), 1);
    assert_eq!(act(&mut s, Action::Purchase("estate_badge".into())), "购买成功，庄园荣誉徽章 已存入仓库。");
    assert_eq!(act(&mut s, Action::Purchase("estate_badge".into())), "金币财富不足，购买需要 150 金币。");
    assert_eq!(act(&mut s, Action::Purchase("dragon".into())), "集市中暂时没有这件道具");
}

#[test]
fn drinking_restores_up_to_the_maximum() {
    let mut s = fresh();
    s.player.current_stamina = 25;
    assert_eq!(act(&mut s, Action::Drink("elixir_water".into())), "体力提升 10 点。");
    assert_eq!(s.player.current_stamina, 30);
    assert_eq!(inventory_count(&s, "elixir_water"), 1);
    assert_eq!(act(&mut s, Action::Drink("estate_badge".into())), "该物品无法直接消耗饮用");
    act(&mut s, Action::Drink("potion_energy".into()));
    assert_eq!(act(&mut s, Action::Drink("potion_energy".into())), "仓库中缺少该道具");
}

#[test]
fn advert_restore_counts_per_day() {
    let mut s = fresh();
    assert_eq!(act(&mut s, Action::WatchAdRestore), "体力已满，暂时不需要广告补给。");
    s.player.current_stamina = 25;
    assert_eq!(act(&mut s, Action::WatchAdRestore), "广告补给到账，体力 +5，今日还可恢复 5 次。");
    assert_eq!(s.transactions[0], "广告补给成功，体力 +5。");
    s.player.ad_stamina_claims_today = 6;
    s.player.current_stamina = 0;
    assert_eq!(act(&mut s, Action::WatchAdRestore), "今日广告补给次数已用完，请明天再来。");
    assert_eq!(
        apply_action(&mut s, Action::WatchAdRestore, "2024-05-02"),
        "广告补给到账，体力 +8，今日还可恢复 5 次。"
    );
    assert_eq!(s.player.ad_claim_date, "2024-05-02");
}

#[test]
fn claim_window_follows_the_day() {
    let mut s = fresh();
    s.player.ad_stamina_claims_today = 3;
    assert_eq!(normalized_ad_claims(&s.player, "2024-05-01"), 3);
    assert_eq!(normalized_ad_claims(&s.player, "2024-05-02"), 0);
    normalize_ad_claim_window(&mut s.player, "2024-05-02");
    assert_eq!(s.player.ad_stamina_claims_today, 0);
    assert_eq!(s.player.ad_claim_date, "2024-05-02");
}

#[test]
fn chores_cost_stamina_and_pay_materials() {
    let mut s = fresh();
    assert_eq!(act(&mut s, Action::ExecuteTask("task_002".into())), "除草完成，干枯杂草 x2。");
    assert_eq!(s.player.current_stamina, 27);
    assert_eq!(inventory_count(&s, "debris_weed"), 2);
    assert_eq!(s.tasks[1].current_progress, 1);
    s.player.current_stamina = 1;
    assert_eq!(act(&mut s, Action::ExecuteTask("task_003".into())), "体力不足，需要 4 点。");
    assert_eq!(act(&mut s, Action::ExecuteTask("task_404".into())), "相应副业任务不存在");
}

#[test]
fn signing_in_then_claiming_pays_out_once() {
    let mut s = fresh();
    assert_eq!(act(&mut s, Action::ExecuteTask("task_001".into())), "每日签到成功，金币 +50，经验 +15。");
    assert_eq!((s.player.coins, s.player.exp), (350, 15));
    assert_eq!(act(&mut s, Action::ExecuteTask("task_001".into())), "该杂役本轮额度已满，请领取奖励。");
    assert_eq!(act(&mut s, Action::ClaimTask("task_001".into())), "领取结业津贴，金币 +100，经验 +25。");
    assert_eq!((s.player.coins, s.player.exp), (450, 40));
    assert_eq!(act(&mut s, Action::ClaimTask("task_001".into())), "奖励已经领取过了");
    assert_eq!(act(&mut s, Action::ExecuteTask("task_001".into())), "该杂役奖励已领取完了");
    assert_eq!(act(&mut s, Action::ClaimTask("task_002".into())), "副务考核尚未通过。");
    assert_eq!(act(&mut s, Action::ClaimTask("nope".into())), "任务不存在");
}

#[test]
fn delivering_an_order_is_final() {
    let mut s = fresh();
    assert_eq!(act(&mut s, Action::SubmitOrder("order_004".into())), "缺少 坚韧蛛丝。");
    add_inventory(&mut s, "spider_silk", 3, "坚韧蛛丝", "debris");
    assert_eq!(act(&mut s, Action::SubmitOrder("order_004".into())), "交货结账成功，金币 +190，经验 +35。");
    assert_eq!(s.player.coins, 490);
    assert_eq!(inventory_count(&s, "spider_silk"), 0);
    assert_eq!(s.orders[3].status, "completed");
    assert_eq!(act(&mut s, Action::SubmitOrder("order_004".into())), "该派单契约已经结算。");
    assert_eq!(act(&mut s, Action::SubmitOrder("order_999".into())), "指定订单不存在");
}

#[test]
fn bazaar_trades_charge_a_fee() {
    let mut s = fresh();
    assert_eq!(act(&mut s, Action::BuyBazaar("debris_weed".into(), 5, 45)), "交易达成，干枯杂草 x5 已收入背囊。");
    assert_eq!(s.player.coins, 255);
    assert_eq!(act(&mut s, Action::SellBazaar("debris_weed".into(), 5, 45)), "挂牌成交，扣除手续费 4，净收 41 金币。");
    assert_eq!(s.player.coins, 296);
    assert_eq!(act(&mut s, Action::SellBazaar("debris_weed".into(), 1, 5)), "干枯杂草 数量不足。");
    assert_eq!(act(&mut s, Action::BuyBazaar("estate_wood".into(), 1, 1000)), "金币不足，需要 1000。");
    add_inventory(&mut s, "estate_wood", 1, "修剪碎木", "debris");
    assert_eq!(act(&mut s, Action::SellBazaar("estate_wood".into(), 1, 5)), "挂牌成交，扣除手续费 1，净收 4 金币。");
}

#[test]
fn finished_mini_games_pay_materials() {
    let mut s = fresh();
    assert_eq!(act(&mut s, Action::FinishGame("2048".into(), 512)), "2048 扫除完毕，获得 512 分。");
    assert_eq!(s.player.score_2048, 512);
    assert_eq!(inventory_count(&s, "debris_weed"), 2);
    assert_eq!(inventory_count(&s, "debris_leaves"), 1);
    act(&mut s, Action::FinishGame("2048".into(), 100));
    assert_eq!(s.player.score_2048, 512);
    assert_eq!(act(&mut s, Action::FinishGame("match3".into(), 90)), "开心消消乐完成，获得 90 分。");
    assert_eq!(inventory_count(&s, "spider_silk"), 1);
    assert_eq!(act(&mut s, Action::FinishGame("make10".into(), 44)), "一不小心就到十完成，获得 44 分。");
    assert_eq!(inventory_count(&s, "estate_wood"), 2);
    assert_eq!(act(&mut s, Action::FinishGame("chess".into(), 1)), "小游戏已结算。");
}

#[test]
fn experience_levels_up_and_refills_stamina() {
    let mut s = fresh();
    s.player.current_stamina = 3;
    grant_exp(&mut s, 120);
    assert_eq!((s.player.level, s.player.exp), (2, 20));
    assert_eq!((s.player.max_stamina, s.player.current_stamina), (40, 40));
}

#[test]
fn storeroom_helpers() {
    let mut s = fresh();
    assert!(remove_inventory(&mut s, "elixir_water", 2));
    assert_eq!(inventory_count(&s, "elixir_water"), 0);
    assert!(!remove_inventory(&mut s, "elixir_water", 1));
    assert!(!remove_inventory(&mut s, "nothing", 1));
    progress_task(&mut s, "weed", 9);
    assert_eq!(s.tasks[1].current_progress, 5);
}

#[test]
fn percent_is_held_to_the_range() {
    assert_eq!(percent(15, 30), 50);
    assert_eq!(percent(45, 30), 100);
    assert_eq!(percent(-5, 30), 0);
    assert_eq!(percent(5, 0), 0);
}

#[test]
fn shop_and_bazaar_offers() {
    let shop = shop_items();
    assert_eq!(shop.len(), 3);
    assert_eq!((shop[1].item_id, shop[1].price), ("potion_energy", 90));
    let bazaar = bazaar_listings();
    assert_eq!(bazaar.len(), 4);
    assert_eq!((bazaar[3].item_id, bazaar[3].seller), ("spider_silk", "荒宅扫除人"));
}

#[test]
fn catalog_names_and_labels() {
    assert_eq!(item_name("spider_silk"), "坚韧蛛丝");
    assert!(!item_icon("elixir_water").is_empty());
    assert_eq!(item_kind_label("debris"), "仓储废料");
    assert_eq!(item_kind_label("seed"), "庄园原料");
    assert!(!item_definition("estate_wood").is_empty());
    assert!(!order_lore("order_001").is_empty());
    assert_eq!(task_icon("web"), "丝");
    assert_eq!(task_icon("other"), "务");
    assert_eq!(promo_tag("estate_badge"), "建功大勋章");
    assert_eq!(promo_tag("x"), "精选新品");
    assert_eq!(task_stamina("prune"), 4);
    assert!(is_debris("debris_weed"));
    assert!(is_debris("estate_wood"));
    assert!(!is_debris("estate_badge"));
    assert_eq!(task_stamina("sign"), 0);
}

#[test]
fn tabs_have_titles_and_badges() {
    assert_eq!(Tab::Orders.title(), "居民契约");
    assert_eq!(Tab::Profile.title(), "个人信息");
    assert_eq!(Tab::Shop.icon(), "市");
    assert_eq!(Tab::Backpack.icon(), "仓");
}

#[test]
fn default_advert_policy() {
    let p = AdRewardPolicy::default();
    assert_eq!(p.placement_id, "reward_stamina");
    assert!(p.enabled);
    assert_eq!((p.stamina_reward, p.daily_limit, p.cooldown_seconds), (8, 6, 45));
}

#[test]
fn range_check_of_actions() {
    let mut s = fresh();
    assert!(action_fits(&s, &Action::Purchase("elixir_water".into()), "2024-05-01"));
    assert!(action_fits(&s, &Action::WatchAdRestore, "2024-05-01"));
    s.player.current_stamina = i32::MAX - 3;
    assert!(!action_fits(&s, &Action::WatchAdRestore, "2024-05-01"));
    assert!(!action_fits(&s, &Action::Drink("elixir_water".into()), "2024-05-01"));
    assert!(action_fits(&s, &Action::Drink("estate_badge".into()), "2024-05-01"));
    s.player.coins = i32::MAX;
    add_inventory(&mut s, "debris_weed", 1, "干枯杂草", "debris");
    assert!(!action_fits(&s, &Action::SellBazaar("debris_weed".into(), 1, 100), "2024-05-01"));
    assert!(action_fits(&s, &Action::SellBazaar("debris_weed".into(), 5, 100), "2024-05-01"));
    s.inventory[2].count = i32::MAX;
    assert!(action_fits(&s, &Action::FinishGame("2048".into(), 0), "2024-05-01"));
    assert!(!action_fits(&s, &Action::FinishGame("2048".into(), 5), "2024-05-01"));
    assert!(action_fits(&s, &Action::FinishGame("chess".into(), 5), "2024-05-01"));
}

#[test]
fn delivered_contracts_are_listed_last() {
    let mut s = fresh();
    assert!(!can_deliver(&s, &s.orders[3]));
    add_inventory(&mut s, "spider_silk", 3, "坚韧蛛丝", "debris");
    assert!(can_deliver(&s, &s.orders[3]));
    act(&mut s, Action::SubmitOrder("order_004".into()));
    let ids: Vec<String> = open_orders_first(&s.orders).into_iter().map(|o| o.order_id).collect();
    assert_eq!(ids, vec!["order_001", "order_002", "order_003", "order_005", "order_004"]);
}

#[test]
fn storeroom_listings() {
    let mut s = fresh();
    add_inventory(&mut s, "debris_weed", 0, "干枯杂草", "debris");
    add_inventory(&mut s, "spider_silk", 2, "坚韧蛛丝", "debris");
    let stocked: Vec<String> = stocked_items(&s.inventory).into_iter().map(|i| i.item_id).collect();
    assert_eq!(stocked, vec!["elixir_water", "potion_energy", "spider_silk"]);
    let sellable: Vec<String> = sellable_items(&s.inventory).into_iter().map(|i| i.item_id).collect();
    assert_eq!(sellable, vec!["spider_silk"]);
    assert_eq!(stored_total(&s.inventory), Some(5));
    s.inventory[0].count = i32::MAX;
    assert_eq!(stored_total(&s.inventory), None);
}
