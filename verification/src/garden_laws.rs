//! Properties that every estate action keeps.

use vstd::prelude::*;
use crate::garden::{
    Action, step, step_fits, with_exp, with_progress, order_from, task_from, submit_step,
    claim_step, plus_coins, shop_offer, progress_fits, first_short, advert_step, advert_fits,
    in_claim_window, claim_fits, can_remove,
};
use crate::models::{
    GameStateView, PlayerView, TaskView, OrderView,
};

verus! {

/// The stamina does not exceed its cap.
pub open spec fn stamina_capped(p: PlayerView) -> bool {
    p.current_stamina <= p.max_stamina
}

proof fn lemma_exp_capped(p: PlayerView, n: i32)
    requires
        stamina_capped(p),
    ensures
        stamina_capped(with_exp(p, n)),
{
}

/// No action lifts the stamina above its cap.
pub proof fn law_stamina_stays_capped(s: GameStateView, action: Action, today: Seq<char>)
    requires
        step_fits(s, action, today),
        stamina_capped(s.player),
    ensures
        stamina_capped(step(s, action, today).0.player),
{
    match action {
        Action::Purchase(id) => {},
        Action::Drink(id) => {},
        Action::WatchAdRestore => {},
        Action::SubmitOrder(id) => {
            let i = order_from(s.orders, id@, 0);
            if i >= 0 {
                let o = s.orders[i];
                lemma_exp_capped(plus_coins(s, o.coins_reward as int).player, o.exp_reward);
            }
        },
        Action::ExecuteTask(id) => {
            lemma_exp_capped(plus_coins(s, 50).player, 15);
        },
        Action::ClaimTask(id) => {
            lemma_exp_capped(plus_coins(s, 100).player, 25);
        },
        Action::BuyBazaar(id, count, price) => {},
        Action::SellBazaar(id, count, price) => {},
        Action::FinishGame(game, score) => {},
    }
}


/// At most six adverts are counted on a day.
pub open spec fn adverts_within_limit(p: PlayerView) -> bool {
    0 <= p.ad_stamina_claims_today <= 6
}

/// No action counts more than six adverts on a day.
pub proof fn law_advert_limit(s: GameStateView, action: Action, today: Seq<char>)
    requires
        step_fits(s, action, today),
        adverts_within_limit(s.player),
    ensures
        adverts_within_limit(step(s, action, today).0.player),
{
    match action {
        Action::SubmitOrder(id) => {
            let i = order_from(s.orders, id@, 0);
            if i >= 0 {
                let o = s.orders[i];
                assert(with_exp(plus_coins(s, o.coins_reward as int).player, o.exp_reward).ad_stamina_claims_today
                    == s.player.ad_stamina_claims_today);
            }
        },
        _ => {},
    }
}

/// Every chore's progress lies between zero and its target.
pub open spec fn progress_in_range(tasks: Seq<TaskView>) -> bool {
    forall|k: int| 0 <= k < tasks.len() ==> 0 <= #[trigger] tasks[k].current_progress <= tasks[k].target_progress
}

proof fn lemma_progress_keeps_range(tasks: Seq<TaskView>, kind: Seq<char>, n: i32)
    requires
        progress_in_range(tasks),
        n >= 0,
        progress_fits(tasks, kind, n),
    ensures
        progress_in_range(with_progress(tasks, kind, n)),
{
    let t = with_progress(tasks, kind, n);
    assert forall|k: int| 0 <= k < t.len() implies 0 <= #[trigger] t[k].current_progress <= t[k].target_progress by {
        if tasks[k].task_type == kind && !tasks[k].claimed {
            assert(tasks[k].current_progress + n <= i32::MAX);
        }
    }
}

/// No action moves a chore's progress out of the range from zero to its target.
pub proof fn law_progress_in_range(s: GameStateView, action: Action, today: Seq<char>)
    requires
        step_fits(s, action, today),
        progress_in_range(s.tasks),
    ensures
        progress_in_range(step(s, action, today).0.tasks),
{
    match action {
        Action::Purchase(id) => {
            if let Some((price, name, kind)) = shop_offer(id@) {
                if s.player.coins >= price {
                    lemma_progress_keeps_range(s.tasks, "purchase"@, 1);
                }
            }
        },
        Action::SubmitOrder(id) => {
            let i = order_from(s.orders, id@, 0);
            if i >= 0 && s.orders[i].status != "completed"@ && first_short(s.inventory, s.orders[i].requirements, 0) < 0 {
                lemma_progress_keeps_range(s.tasks, "order"@, 1);
            }
        },
        Action::ExecuteTask(id) => {
            let i = task_from(s.tasks, id@, 0);
            crate::garden::lemma_task_from_pub(s.tasks, id@);
            if i >= 0 {
                assert(0 <= s.tasks[i].current_progress <= s.tasks[i].target_progress);
            }
            let r = step(s, action, today).0.tasks;
            assert forall|k: int| 0 <= k < r.len() implies 0 <= #[trigger] r[k].current_progress <= r[k].target_progress by {
                assert(0 <= s.tasks[k].current_progress <= s.tasks[k].target_progress);
            }
        },
        Action::ClaimTask(id) => {
            let i = task_from(s.tasks, id@, 0);
            crate::garden::lemma_task_from_pub(s.tasks, id@);
            let r = step(s, action, today).0.tasks;
            assert forall|k: int| 0 <= k < r.len() implies 0 <= #[trigger] r[k].current_progress <= r[k].target_progress by {
                assert(0 <= s.tasks[k].current_progress <= s.tasks[k].target_progress);
            }
        },
        _ => {},
    }
}


/// Every contract pays a non-negative number of coins.
pub open spec fn rewards_nonnegative(orders: Seq<OrderView>) -> bool {
    forall|k: int| 0 <= k < orders.len() ==> #[trigger] orders[k].coins_reward >= 0
}

/// No action leaves the player in debt, selling at a price of at least one
/// coin.
pub proof fn law_coins_stay_nonnegative(s: GameStateView, action: Action, today: Seq<char>)
    requires
        step_fits(s, action, today),
        s.player.coins >= 0,
        rewards_nonnegative(s.orders),
        action matches Action::SellBazaar(id, count, price) ==> price >= 1,
    ensures
        step(s, action, today).0.player.coins >= 0,
{
    match action {
        Action::SubmitOrder(id) => {
            let i = order_from(s.orders, id@, 0);
            crate::garden::lemma_order_from_pub(s.orders, id@);
            if i >= 0 {
                assert(s.orders[i].coins_reward >= 0);
            }
        },
        _ => {},
    }
}

proof fn lemma_order_from_update(orders: Seq<OrderView>, id: Seq<char>, i: int, o: OrderView, k: int)
    requires
        0 <= i < orders.len(),
        0 <= k <= orders.len(),
        o.order_id == orders[i].order_id,
    ensures
        order_from(orders.update(i, o), id, k) == order_from(orders, id, k),
    decreases orders.len() - k,
{
    if k < orders.len() {
        lemma_order_from_update(orders, id, i, o, k + 1);
    }
}

/// Delivering a contract a second time changes nothing: a delivered
/// contract stays delivered.
pub proof fn law_delivery_is_final(s: GameStateView, id: Seq<char>)
    ensures
        submit_step(submit_step(s, id).0, id).0 == submit_step(s, id).0,
{
    let i = order_from(s.orders, id, 0);
    crate::garden::lemma_order_from_pub(s.orders, id);
    if i >= 0 && s.orders[i].status != "completed"@ && first_short(s.inventory, s.orders[i].requirements, 0) < 0 {
        let o = s.orders[i];
        let done = OrderView { status: "completed"@, ..o };
        lemma_order_from_update(s.orders, id, i, done, 0);
        let s1 = submit_step(s, id).0;
        assert(s1.orders == s.orders.update(i, done));
        assert(s1.orders[i].status == "completed"@);
    }
}

proof fn lemma_task_from_update(tasks: Seq<TaskView>, id: Seq<char>, i: int, t: TaskView, k: int)
    requires
        0 <= i < tasks.len(),
        0 <= k <= tasks.len(),
        t.task_id == tasks[i].task_id,
    ensures
        task_from(tasks.update(i, t), id, k) == task_from(tasks, id, k),
    decreases tasks.len() - k,
{
    if k < tasks.len() {
        lemma_task_from_update(tasks, id, i, t, k + 1);
    }
}

/// Claiming a chore's reward a second time changes nothing: a reward is
/// paid once.
pub proof fn law_reward_paid_once(s: GameStateView, id: Seq<char>)
    ensures
        claim_step(claim_step(s, id).0, id).0 == claim_step(s, id).0,
{
    let i = task_from(s.tasks, id, 0);
    crate::garden::lemma_task_from_pub(s.tasks, id);
    if i >= 0 && !s.tasks[i].claimed && s.tasks[i].current_progress >= s.tasks[i].target_progress {
        let t = TaskView { claimed: true, ..s.tasks[i] };
        lemma_task_from_update(s.tasks, id, i, t, 0);
        let s1 = claim_step(s, id).0;
        assert(s1.tasks == s.tasks.update(i, t));
    }
}

/// The best scores and the level are at least those of `p`.
pub open spec fn records_kept(p: PlayerView, q: PlayerView) -> bool {
    &&& p.score_2048 <= q.score_2048
    &&& p.score_match3 <= q.score_match3
    &&& p.score_make10 <= q.score_make10
    &&& p.level <= q.level
}

/// No action lowers a best score or the level.
pub proof fn law_records_never_drop(s: GameStateView, action: Action, today: Seq<char>)
    requires
        step_fits(s, action, today),
    ensures
        records_kept(s.player, step(s, action, today).0.player),
{
}

/// Watching an advert: the day's count stays at most six; stamina rises
/// exactly when it is below the cap and fewer than six adverts were counted
/// today; a refusal says why and changes nothing but moving the counter to
/// `today`.
pub proof fn law_advert_restore(s: GameStateView, today: Seq<char>)
    requires
        advert_fits(s, today),
        in_claim_window(s.player, today).ad_stamina_claims_today <= 6,
    ensures
        ({
            let p = in_claim_window(s.player, today);
            let (s1, r) = advert_step(s, today);
            &&& s1.player.ad_stamina_claims_today <= 6
            &&& (s1.player.current_stamina > s.player.current_stamina) == (p.current_stamina
                < p.max_stamina && p.ad_stamina_claims_today < 6)
            &&& p.current_stamina >= p.max_stamina ==> r == "体力已满，暂时不需要广告补给。"@
            &&& p.current_stamina < p.max_stamina && p.ad_stamina_claims_today >= 6 ==> r
                == "今日广告补给次数已用完，请明天再来。"@
            &&& !(p.current_stamina < p.max_stamina && p.ad_stamina_claims_today < 6) ==> s1
                == GameStateView { player: p, ..s }
        }),
{
}

/// Claiming a finished chore twice: the first claim marks it claimed and
/// pays 100 coins; the second is refused as already claimed and changes
/// nothing.
pub proof fn law_claim_twice(s: GameStateView, id: Seq<char>)
    requires
        task_from(s.tasks, id, 0) >= 0,
        !s.tasks[task_from(s.tasks, id, 0)].claimed,
        s.tasks[task_from(s.tasks, id, 0)].current_progress >= s.tasks[task_from(s.tasks, id, 0)].target_progress,
        claim_fits(s, id),
    ensures
        ({
            let i = task_from(s.tasks, id, 0);
            let (s1, r1) = claim_step(s, id);
            let (s2, r2) = claim_step(s1, id);
            &&& r1 == "领取结业津贴，金币 +100，经验 +25。"@
            &&& s1.tasks[i].claimed
            &&& s1.player.coins == s.player.coins + 100
            &&& r2 == "奖励已经领取过了"@
            &&& s2 == s1
        }),
{
    let i = task_from(s.tasks, id, 0);
    crate::garden::lemma_task_from_pub(s.tasks, id);
    let t = TaskView { claimed: true, ..s.tasks[i] };
    lemma_task_from_update(s.tasks, id, i, t, 0);
    let s1 = claim_step(s, id).0;
    assert(s1.tasks == s.tasks.update(i, t));
}

/// Delivering a contract whose goods are in stock pays its coin reward and
/// its experience: the experience rises by the reward, and on reaching
/// `level * 100` the level goes up by one, the surplus is kept, and the
/// stamina cap becomes `level * 5 + 30` (at most 100) with stamina filled.
pub proof fn law_delivery_pays(s: GameStateView, id: String, today: Seq<char>)
    requires
        step_fits(s, Action::SubmitOrder(id), today),
        order_from(s.orders, id@, 0) >= 0,
        s.orders[order_from(s.orders, id@, 0)].status != "completed"@,
        first_short(s.inventory, s.orders[order_from(s.orders, id@, 0)].requirements, 0) < 0,
    ensures
        ({
            let o = s.orders[order_from(s.orders, id@, 0)];
            let p = s.player;
            let q = step(s, Action::SubmitOrder(id), today).0.player;
            let exp = p.exp + o.exp_reward;
            &&& q.coins == p.coins + o.coins_reward
            &&& exp < p.level * 100 ==> {
                &&& q.exp == exp
                &&& q.level == p.level
                &&& q.max_stamina == p.max_stamina
                &&& q.current_stamina == p.current_stamina
            }
            &&& exp >= p.level * 100 ==> {
                &&& q.exp == exp - p.level * 100
                &&& q.level == p.level + 1
                &&& q.max_stamina == (if (p.level + 1) * 5 + 30 < 100 { (p.level + 1) * 5 + 30 } else { 100 })
                &&& q.current_stamina == q.max_stamina
            }
            &&& step(s, Action::SubmitOrder(id), today).0.orders[order_from(s.orders, id@, 0)].status
                == "completed"@
        }),
{
    crate::garden::lemma_order_from_pub(s.orders, id@);
}

/// Booking a finished mini-game keeps the larger of the old best score and
/// the new score for that game, and leaves the other games' best scores.
pub proof fn law_finish_keeps_best(s: GameStateView, game: String, score: i32, today: Seq<char>)
    requires
        step_fits(s, Action::FinishGame(game, score), today),
    ensures
        ({
            let p = s.player;
            let q = step(s, Action::FinishGame(game, score), today).0.player;
            &&& game@ == "2048"@ ==> q.score_2048 == (if p.score_2048 >= score { p.score_2048 } else { score })
                && q.score_match3 == p.score_match3 && q.score_make10 == p.score_make10
            &&& game@ == "match3"@ ==> q.score_match3 == (if p.score_match3 >= score { p.score_match3 } else { score })
                && q.score_2048 == p.score_2048 && q.score_make10 == p.score_make10
            &&& game@ == "make10"@ ==> q.score_make10 == (if p.score_make10 >= score { p.score_make10 } else { score })
                && q.score_2048 == p.score_2048 && q.score_match3 == p.score_match3
            &&& q.score_2048 >= p.score_2048
            &&& q.score_match3 >= p.score_match3
            &&& q.score_make10 >= p.score_make10
        }),
{
    reveal_strlit("2048");
    reveal_strlit("match3");
    reveal_strlit("make10");
    assert("2048"@.len() != "match3"@.len() && "2048"@.len() != "make10"@.len());
    assert("match3"@[2] != "make10"@[2]);
}

/// Drinking a potion in stock restores its amount of stamina, 10 for spring
/// water and 20 for an energy potion, up to the maximum.
pub proof fn law_drink_restores(s: GameStateView, id: String, today: Seq<char>)
    requires
        step_fits(s, Action::Drink(id), today),
        id@ == "elixir_water"@ || id@ == "potion_energy"@,
        can_remove(s.inventory, id@, 1),
    ensures
        ({
            let p = s.player;
            let (s1, r) = step(s, Action::Drink(id), today);
            let v: int = if id@ == "elixir_water"@ { 10 } else { 20 };
            &&& s1.player.current_stamina == (if p.current_stamina + v < p.max_stamina {
                p.current_stamina + v
            } else {
                p.max_stamina as int
            })
            &&& s1.player.max_stamina == p.max_stamina
            &&& s1.player.coins == p.coins
        }),
{
}

} // verus!
