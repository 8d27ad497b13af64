//! What the players' side of the back office does: advert reward claims,
//! mini-game settlements and the start-up bundle.

use vstd::prelude::*;
use crate::backend::{
    appended_log, coin_reward, duplicate_policy, find_game_switch, find_player, game_ids, games_by_id,
    is_rejection, lemma_append_keeps_ids, minigame_coin_reward, next_log_id, player_ids, push_log_at,
    same_except_logs, slot_of, sorted_game_switches, AdRewardResponse, ApiError, BackendState, GameSwitch,
    PlayerAdminRecord,
};
use crate::clock::{day_key, day_label, unix_now};
use crate::models::AdRewardPolicy;
use crate::text::{blank, decimal, is_blank, push_decimal, text_eq};

verus! {

// ---------------------------------------------------------------------------
// Requests and answers
// ---------------------------------------------------------------------------

/// An advert network's report that a player watched a rewarded advert.
pub struct AdRewardRequest {
    pub user_id: String,
    pub placement_id: String,
    pub ad_network: String,
    pub proof_token: String,
}

/// A game action sent by the estate client.
pub struct GameActionRequest {
    pub user_id: String,
    pub action_id: String,
    pub target_id: String,
    pub score: Option<i32>,
}

/// The answer to a game action.
pub struct GameActionResponse {
    pub success: bool,
    pub message: String,
    pub player: Option<PlayerAdminRecord>,
}

/// `r` refuses with `message` and carries no player.
pub open spec fn is_failure(r: GameActionResponse, message: Seq<char>) -> bool {
    &&& !r.success
    &&& r.message@ == message
    &&& r.player is None
}

fn action_failed(message: &str) -> (r: GameActionResponse)
    ensures
        is_failure(r, message@),
{
    GameActionResponse { success: false, message: message.to_owned(), player: None }
}

/// Nothing in the store changed.
pub open spec fn unchanged(old: &BackendState, new: &BackendState) -> bool {
    &&& same_except_logs(old, new)
    &&& old.audit_logs@ == new.audit_logs@
}

/// Only the player at `i` may differ, besides the audit log.
pub open spec fn only_player_changed(old: &BackendState, new: &BackendState, i: int) -> bool {
    &&& new.players@.len() == old.players@.len()
    &&& forall|j: int| 0 <= j < old.players@.len() && j != i ==> new.players@[j] == old.players@[j]
    &&& old.ad_policy == new.ad_policy
    &&& old.game_switches@ == new.game_switches@
    &&& old.admin_accounts@ == new.admin_accounts@
    &&& old.sessions@ == new.sessions@
}

/// `q` is `p` with the changeable fields set to the given values.
pub open spec fn player_became(
    p: PlayerAdminRecord,
    q: PlayerAdminRecord,
    coins: int,
    current_stamina: int,
    best: (int, int, int),
    ad_claim_date: Seq<char>,
    ad_claims_today: int,
    last_active_at: int,
) -> bool {
    &&& q.user_id == p.user_id
    &&& q.nickname == p.nickname
    &&& q.level == p.level
    &&& q.max_stamina == p.max_stamina
    &&& q.is_banned == p.is_banned
    &&& q.coins == coins
    &&& q.current_stamina == current_stamina
    &&& q.score_2048 == best.0
    &&& q.score_match3 == best.1
    &&& q.score_make10 == best.2
    &&& q.ad_claim_date@ == ad_claim_date
    &&& q.ad_claims_today == ad_claims_today
    &&& q.last_active_at == last_active_at
}

// ---------------------------------------------------------------------------
// Advert rewards
// ---------------------------------------------------------------------------

/// Claims counted for `today`: the stored count, or 0 on a new day.
pub open spec fn claims_on(p: PlayerAdminRecord, today: Seq<char>) -> int {
    if p.ad_claim_date@ == today { p.ad_claims_today as int } else { 0 }
}

/// The smaller of two integers.
pub open spec fn min_int(a: int, b: int) -> int {
    if a < b { a } else { b }
}

/// The larger of two integers.
pub open spec fn max_int(a: int, b: int) -> int {
    if a < b { b } else { a }
}

/// The claim passes every check and grants stamina.
pub open spec fn claim_grants(store: &BackendState, request: &AdRewardRequest, today: Seq<char>) -> bool {
    let i = slot_of(player_ids(store.players@), request.user_id@);
    let p = store.players@[i];
    &&& store.ad_policy.enabled
    &&& request.placement_id@ == store.ad_policy.placement_id@
    &&& !is_blank(request.proof_token@)
    &&& i >= 0
    &&& !p.is_banned
    &&& p.current_stamina < p.max_stamina
    &&& claims_on(p, today) < store.ad_policy.daily_limit
}

/// What a claim does, check by check: a closed feature, a wrong placement,
/// a missing proof, an unknown or banned player each leave the store as it
/// was; otherwise the player's counter is moved to `today` (kept even when
/// the claim is then refused for full stamina or a spent daily limit), and
/// an accepted claim adds the reward up to the maximum stamina, counts the
/// claim, stamps the player with `now` and logs it.
pub open spec fn claim_done(
    old: &BackendState,
    new: &BackendState,
    request: &AdRewardRequest,
    today: Seq<char>,
    now: u64,
    r: AdRewardResponse,
) -> bool {
    let policy = old.ad_policy;
    let i = slot_of(player_ids(old.players@), request.user_id@);
    let p = old.players@[i];
    let claims = claims_on(p, today);
    if !policy.enabled {
        unchanged(old, new) && is_rejection(r, "广告恢复体力功能已关闭"@)
    } else if request.placement_id@ != policy.placement_id@ {
        unchanged(old, new) && is_rejection(r, "广告位不匹配"@)
    } else if is_blank(request.proof_token@) {
        unchanged(old, new) && is_rejection(r, "缺少广告平台回调凭证"@)
    } else if i < 0 {
        unchanged(old, new) && is_rejection(r, "玩家不存在"@)
    } else if p.is_banned {
        unchanged(old, new) && is_rejection(r, "账号已被后台限制"@)
    } else if p.current_stamina >= p.max_stamina || claims >= policy.daily_limit {
        &&& only_player_changed(old, new, i)
        &&& old.audit_logs@ == new.audit_logs@
        &&& player_became(
            p,
            new.players@[i],
            p.coins as int,
            p.current_stamina as int,
            (p.score_2048 as int, p.score_match3 as int, p.score_make10 as int),
            today,
            claims,
            p.last_active_at as int,
        )
        &&& is_rejection(
            r,
            if p.current_stamina >= p.max_stamina { "体力已满"@ } else { "今日广告奖励次数已用完"@ },
        )
    } else {
        let stamina = min_int(p.current_stamina + policy.stamina_reward, p.max_stamina as int);
        &&& only_player_changed(old, new, i)
        &&& player_became(
            p,
            new.players@[i],
            p.coins as int,
            stamina,
            (p.score_2048 as int, p.score_match3 as int, p.score_make10 as int),
            today,
            claims + 1,
            now as int,
        )
        &&& appended_log(
            old.audit_logs@,
            new.audit_logs@,
            now,
            "ad-network"@,
            "ad.reward.claim"@,
            request.user_id@ + " 领取广告体力奖励"@,
        )
        &&& r.accepted
        &&& r.message@ == "广告奖励已发放"@
        &&& r.current_stamina == stamina
        &&& r.max_stamina == p.max_stamina
        &&& r.claims_left_today == max_int(policy.daily_limit - (claims + 1), 0)
    }
}

/// The new stamina of an accepted claim fits in an `i32` (it cannot exceed
/// the maximum, so only a negative reward could push it below the range).
pub open spec fn claim_fits(store: &BackendState, request: &AdRewardRequest, today: Seq<char>) -> bool {
    let i = slot_of(player_ids(store.players@), request.user_id@);
    claim_grants(store, request, today) ==> store.players@[i].current_stamina + store.ad_policy.stamina_reward
        >= i32::MIN
}

/// Room for one more audit line, and a well-formed store.
pub open spec fn ready(store: &BackendState) -> bool {
    &&& store.well_formed()
    &&& store.audit_logs@.len() < u64::MAX
}

pub proof fn lemma_log_room(store: &BackendState)
    requires
        ready(store),
    ensures
        next_log_id(store.audit_logs@) == store.audit_logs@.len() + 1,
        next_log_id(store.audit_logs@) <= u64::MAX,
{
    if store.audit_logs@.len() > 0 {
        let n = store.audit_logs@.len() - 1;
        assert(store.audit_logs@[n as int].id == n + 1);
    }
}

/// Whether a claim on `today` may be handled: the stamina of an accepted
/// claim stays within the range of `i32`.
pub fn claim_fits_check(store: &BackendState, request: &AdRewardRequest, today: &str) -> (r: bool)
    ensures
        r == claim_fits(store, request, today@),
{
    let i = match find_player(&store.players, request.user_id.as_str()) {
        Some(i) => i,
        None => return true,
    };
    let p = &store.players[i];
    let claims: i32 = if text_eq(p.ad_claim_date.as_str(), today) { p.ad_claims_today } else { 0 };
    let grants = store.ad_policy.enabled && text_eq(
        request.placement_id.as_str(),
        store.ad_policy.placement_id.as_str(),
    ) && !blank(request.proof_token.as_str()) && !p.is_banned && p.current_stamina < p.max_stamina
        && claims < store.ad_policy.daily_limit;
    !grants || p.current_stamina as i64 + store.ad_policy.stamina_reward as i64 >= i32::MIN as i64
}

/// Handles an advert reward claim on the day `today` at time `now`.
pub fn claim_ad_reward_at(store: &mut BackendState, request: &AdRewardRequest, today: &str, now: u64) -> (r:
    AdRewardResponse)
    requires
        ready(old(store)),
        claim_fits(old(store), request, today@),
    ensures
        claim_done(old(store), final(store), request, today@, now, r),
        final(store).well_formed(),
{
    proof {
        lemma_log_room(store);
    }
    if !store.ad_policy.enabled {
        return AdRewardResponse::rejected("广告恢复体力功能已关闭");
    }
    if !text_eq(request.placement_id.as_str(), store.ad_policy.placement_id.as_str()) {
        return AdRewardResponse::rejected("广告位不匹配");
    }
    if blank(request.proof_token.as_str()) {
        return AdRewardResponse::rejected("缺少广告平台回调凭证");
    }
    let i = match find_player(&store.players, request.user_id.as_str()) {
        Some(i) => i,
        None => return AdRewardResponse::not_found(),
    };
    if store.players[i].is_banned {
        return AdRewardResponse::rejected("账号已被后台限制");
    }
    let limit = store.ad_policy.daily_limit;
    let reward = store.ad_policy.stamina_reward;
    let ghost old_players = store.players@;
    let mut p = store.players.remove(i);
    if !text_eq(p.ad_claim_date.as_str(), today) {
        p.ad_claim_date = today.to_owned();
        p.ad_claims_today = 0;
    }
    if p.current_stamina >= p.max_stamina || p.ad_claims_today >= limit {
        let full = p.current_stamina >= p.max_stamina;
        store.players.insert(i, p);
        proof {
            assert(store.players@ =~= old_players.update(i as int, store.players@[i as int]));
            assert(player_ids(store.players@) =~= player_ids(old_players));
        }
        if full {
            return AdRewardResponse::rejected("体力已满");
        } else {
            return AdRewardResponse::rejected("今日广告奖励次数已用完");
        }
    }
    let sum: i64 = p.current_stamina as i64 + reward as i64;
    let stamina: i64 = if sum < p.max_stamina as i64 { sum } else { p.max_stamina as i64 };
    p.current_stamina = stamina as i32;
    p.ad_claims_today = p.ad_claims_today + 1;
    p.last_active_at = now;
    let left_raw: i64 = limit as i64 - p.ad_claims_today as i64;
    let left: i32 = if left_raw < 0 { 0 } else { left_raw as i32 };
    let message = "广告奖励已发放".to_owned();
    let response = AdRewardResponse {
        accepted: true,
        message,
        current_stamina: p.current_stamina,
        max_stamina: p.max_stamina,
        claims_left_today: left,
    };
    store.players.insert(i, p);
    proof {
        assert(store.players@ =~= old_players.update(i as int, store.players@[i as int]));
        assert(player_ids(store.players@) =~= player_ids(old_players));
    }
    let mut detail = request.user_id.clone();
    detail.append(" 领取广告体力奖励");
    let ghost before_log = store.audit_logs@;
    push_log_at(store, "ad-network", "ad.reward.claim", detail.as_str(), now);
    proof {
        lemma_append_keeps_ids(
            before_log,
            store.audit_logs@,
            now,
            "ad-network"@,
            "ad.reward.claim"@,
            detail@,
        );
    }
    response
}

/// Handles an advert reward claim, dated and stamped by the wall clock.
pub fn claim_ad_reward(store: &mut BackendState, request: &AdRewardRequest) -> (r: AdRewardResponse)
    requires
        ready(old(store)),
        forall|today: Seq<char>| claim_fits(old(store), request, today),
    ensures
        exists|now: u64| claim_done(old(store), final(store), request, #[trigger] day_label(now), now, r),
        final(store).well_formed(),
{
    let now = unix_now();
    let today = day_key(now);
    claim_ad_reward_at(store, request, today.as_str(), now)
}

// ---------------------------------------------------------------------------
// Mini-game settlements
// ---------------------------------------------------------------------------

/// The reported score, or 0 when none was sent, held to 0..=200000.
pub open spec fn clamped_score(score: Option<i32>) -> int {
    let s: int = match score {
        Some(v) => v as int,
        None => 0,
    };
    if s < 0 { 0 } else if s > 200_000 { 200_000 } else { s }
}

/// The best score after a run: raised to `score` when it is higher.
pub open spec fn best_of(best: i32, score: int) -> int {
    if best < score { score } else { best as int }
}

/// The settlement passes every check and pays out.
pub open spec fn finish_pays(store: &BackendState, request: &GameActionRequest) -> bool {
    let g = slot_of(game_ids(store.game_switches@), request.target_id@);
    let i = slot_of(player_ids(store.players@), request.user_id@);
    &&& g >= 0
    &&& store.game_switches@[g].enabled
    &&& i >= 0
    &&& !store.players@[i].is_banned
}

/// The coins after a payout fit in an `i32`.
pub open spec fn finish_fits(store: &BackendState, request: &GameActionRequest) -> bool {
    let i = slot_of(player_ids(store.players@), request.user_id@);
    finish_pays(store, request) ==> store.players@[i].coins + coin_reward(
        request.target_id@,
        clamped_score(request.score) as i32,
    ) <= i32::MAX
}

/// What settling a mini-game does: an unknown game, a closed game, an
/// unknown or banned player each leave the store as it was; otherwise the
/// player's best score for that game is raised, the coin reward is paid, the
/// player is stamped with `now` and the settlement is logged.
pub open spec fn finish_done(
    old: &BackendState,
    new: &BackendState,
    request: &GameActionRequest,
    now: u64,
    r: GameActionResponse,
) -> bool {
    let g = slot_of(game_ids(old.game_switches@), request.target_id@);
    let game = old.game_switches@[g];
    let i = slot_of(player_ids(old.players@), request.user_id@);
    let p = old.players@[i];
    let score = clamped_score(request.score);
    let id = request.target_id@;
    let reward = coin_reward(id, score as i32);
    if g < 0 {
        unchanged(old, new) && is_failure(r, "小游戏不存在。"@)
    } else if !game.enabled {
        unchanged(old, new) && is_failure(
            r,
            if game.maintenance_message@.len() == 0 {
                "小游戏维护中，暂时不能结算。"@
            } else {
                game.maintenance_message@
            },
        )
    } else if i < 0 {
        unchanged(old, new) && is_failure(r, "玩家不存在。"@)
    } else if p.is_banned {
        unchanged(old, new) && is_failure(r, "账号已被后台限制。"@)
    } else {
        let best = (
            if id == "2048"@ { best_of(p.score_2048, score) } else { p.score_2048 as int },
            if id == "match3"@ { best_of(p.score_match3, score) } else { p.score_match3 as int },
            if id == "make10"@ { best_of(p.score_make10, score) } else { p.score_make10 as int },
        );
        &&& only_player_changed(old, new, i)
        &&& player_became(
            p,
            new.players@[i],
            p.coins + reward,
            p.current_stamina as int,
            best,
            p.ad_claim_date@,
            p.ad_claims_today as int,
            now as int,
        )
        &&& appended_log(
            old.audit_logs@,
            new.audit_logs@,
            now,
            "game-api"@,
            "garden.finish_minigame"@,
            request.user_id@ + " 完成 "@ + id + " 分数 "@ + decimal(score),
        )
        &&& r.success
        &&& r.message@ == game.title@ + " 结算成功，金币 +"@ + decimal(reward) + "。"@
        &&& r.player == Some(new.players@[i])
    }
}

/// Whether a settlement may be handled: the coins after a payout stay
/// within the range of `i32`.
pub fn finish_fits_check(store: &BackendState, request: &GameActionRequest) -> (r: bool)
    ensures
        r == finish_fits(store, request),
{
    let g = match find_game_switch(&store.game_switches, request.target_id.as_str()) {
        Some(g) => g,
        None => return true,
    };
    let i = match find_player(&store.players, request.user_id.as_str()) {
        Some(i) => i,
        None => return true,
    };
    if !store.game_switches[g].enabled || store.players[i].is_banned {
        return true;
    }
    let raw: i32 = match request.score {
        Some(v) => v,
        None => 0,
    };
    let score: i32 = if raw < 0 { 0 } else if raw > 200_000 { 200_000 } else { raw };
    let reward = minigame_coin_reward(request.target_id.as_str(), score);
    store.players[i].coins as i64 + reward as i64 <= i32::MAX as i64
}

/// Settles a finished mini-game at time `now`.
pub fn finish_minigame_action_at(store: &mut BackendState, request: &GameActionRequest, now: u64) -> (r:
    GameActionResponse)
    requires
        ready(old(store)),
        finish_fits(old(store), request),
    ensures
        finish_done(old(store), final(store), request, now, r),
        final(store).well_formed(),
{
    proof {
        lemma_log_room(store);
        reveal_strlit("2048");
        reveal_strlit("match3");
        reveal_strlit("make10");
        assert("match3"@[2] != "make10"@[2]);
        assert("2048"@[0] != "make10"@[0]);
        assert("2048"@[0] != "match3"@[0]);
    }
    let game_id = request.target_id.as_str();
    let g = match find_game_switch(&store.game_switches, game_id) {
        Some(g) => g,
        None => return action_failed("小游戏不存在。"),
    };
    if !store.game_switches[g].enabled {
        if store.game_switches[g].maintenance_message.as_str().is_empty() {
            return action_failed("小游戏维护中，暂时不能结算。");
        }
        return GameActionResponse {
            success: false,
            message: store.game_switches[g].maintenance_message.clone(),
            player: None,
        };
    }
    let raw: i32 = match request.score {
        Some(v) => v,
        None => 0,
    };
    let score: i32 = if raw < 0 { 0 } else if raw > 200_000 { 200_000 } else { raw };
    let i = match find_player(&store.players, request.user_id.as_str()) {
        Some(i) => i,
        None => return action_failed("玩家不存在。"),
    };
    if store.players[i].is_banned {
        return action_failed("账号已被后台限制。");
    }
    let title = store.game_switches[g].title.clone();
    let ghost old_players = store.players@;
    let mut p = store.players.remove(i);
    if text_eq(game_id, "2048") {
        if p.score_2048 < score {
            p.score_2048 = score;
        }
    } else if text_eq(game_id, "match3") {
        if p.score_match3 < score {
            p.score_match3 = score;
        }
    } else if text_eq(game_id, "make10") {
        if p.score_make10 < score {
            p.score_make10 = score;
        }
    }
    let reward = minigame_coin_reward(game_id, score);
    p.coins = p.coins + reward;
    p.last_active_at = now;
    let settled = p.duplicate();
    store.players.insert(i, p);
    proof {
        assert(store.players@ =~= old_players.update(i as int, store.players@[i as int]));
        assert(player_ids(store.players@) =~= player_ids(old_players));
    }
    let mut detail = request.user_id.clone();
    detail.append(" 完成 ");
    detail.append(game_id);
    detail.append(" 分数 ");
    push_decimal(&mut detail, score as i64);
    let ghost before_log = store.audit_logs@;
    push_log_at(store, "game-api", "garden.finish_minigame", detail.as_str(), now);
    proof {
        lemma_append_keeps_ids(
            before_log,
            store.audit_logs@,
            now,
            "game-api"@,
            "garden.finish_minigame"@,
            detail@,
        );
    }
    let mut message = title;
    message.append(" 结算成功，金币 +");
    push_decimal(&mut message, reward as i64);
    message.append("。");
    GameActionResponse { success: true, message, player: Some(settled) }
}

/// Settles a finished mini-game, stamped by the wall clock.
pub fn finish_minigame_action(store: &mut BackendState, request: &GameActionRequest) -> (r:
    GameActionResponse)
    requires
        ready(old(store)),
        finish_fits(old(store), request),
    ensures
        exists|now: u64| #[trigger] finish_done(old(store), final(store), request, now, r),
        final(store).well_formed(),
{
    let now = unix_now();
    finish_minigame_action_at(store, request, now)
}

/// What a game action does: a settlement for `finish_minigame`, and a
/// refusal that changes nothing for any other action.
pub open spec fn garden_action_done(
    old: &BackendState,
    new: &BackendState,
    request: &GameActionRequest,
    now: u64,
    r: GameActionResponse,
) -> bool {
    if request.action_id@ == "finish_minigame"@ {
        finish_done(old, new, request, now, r)
    } else {
        unchanged(old, new) && is_failure(r, "暂不支持该游戏动作。"@)
    }
}

/// Handles a game action from the estate client at time `now`.
pub fn garden_action_at(store: &mut BackendState, request: &GameActionRequest, now: u64) -> (r:
    GameActionResponse)
    requires
        ready(old(store)),
        finish_fits(old(store), request),
    ensures
        garden_action_done(old(store), final(store), request, now, r),
        final(store).well_formed(),
{
    if text_eq(request.action_id.as_str(), "finish_minigame") {
        finish_minigame_action_at(store, request, now)
    } else {
        action_failed("暂不支持该游戏动作。")
    }
}

/// Handles a game action from the estate client, stamped by the wall clock.
pub fn garden_action(store: &mut BackendState, request: &GameActionRequest) -> (r: GameActionResponse)
    requires
        ready(old(store)),
        finish_fits(old(store), request),
    ensures
        exists|now: u64| #[trigger] garden_action_done(old(store), final(store), request, now, r),
        final(store).well_formed(),
{
    let now = unix_now();
    garden_action_at(store, request, now)
}

// ---------------------------------------------------------------------------
// Start-up bundle
// ---------------------------------------------------------------------------

/// What the estate client loads at start-up.
pub struct BootstrapResponse {
    pub player: PlayerAdminRecord,
    pub ad_policy: AdRewardPolicy,
    pub game_switches: Vec<GameSwitch>,
}

/// The player's record, the advert policy and the game switches by game id;
/// `NotFound` for an unknown player.
pub fn player_bootstrap(store: &BackendState, user_id: &str) -> (r: Result<BootstrapResponse, ApiError>)
    ensures
        ({
            let i = slot_of(player_ids(store.players@), user_id@);
            if i < 0 {
                r is Err && r->Err_0 == ApiError::NotFound
            } else {
                &&& r is Ok
                &&& r->Ok_0.player == store.players@[i]
                &&& r->Ok_0.ad_policy == store.ad_policy
                &&& games_by_id(r->Ok_0.game_switches@, store.game_switches@)
            }
        }),
{
    let i = match find_player(&store.players, user_id) {
        Some(i) => i,
        None => return Err(ApiError::NotFound),
    };
    Ok(
        BootstrapResponse {
            player: store.players[i].duplicate(),
            ad_policy: duplicate_policy(&store.ad_policy),
            game_switches: sorted_game_switches(store),
        },
    )
}

/// The game switches by game id, for the estate client.
pub fn public_game_switches(store: &BackendState) -> (r: Vec<GameSwitch>)
    ensures
        games_by_id(r@, store.game_switches@),
{
    sorted_game_switches(store)
}

} // verus!
