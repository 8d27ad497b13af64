use huayuan::backend::{
    minigame_coin_reward, push_log_at, require_admin_at, seed_game_switches, sorted_game_switches,
    AdRewardResponse, ApiError, BackendState, LoginResponse, SESSION_TTL_SECONDS,
};
use huayuan::backend_admin::{
    admin_dashboard_at, claims_today_fit, admin_login_at, get_ad_policy_at, grant_stamina_at, list_admin_accounts_at,
    list_game_switches_at, list_players_at, seed_backend_state_at, update_ad_policy_at,
    update_game_switch_at, LoginRequest, StaminaGrantRequest, UpdateGameSwitchRequest,
};
use huayuan::backend_ops::{
    claim_ad_reward_at, claim_fits_check, finish_fits_check, finish_minigame_action_at, garden_action_at, player_bootstrap, public_game_switches,
    AdRewardRequest, GameActionRequest,
};
use huayuan::models::AdRewardPolicy;

const ADMIN_HASH: &str = "f0474b572c56bca8f5e56f27fae7d8106f58a27b428bfc04e3f3643fe65ed7d1";
const TOKEN_42: &str = "791e1d44653b39f3aa7e263f8e587a8433e42f82819280cc0e4c172a869edbf2";

fn seeded() -> BackendState {
    seed_backend_state_at("admin", "admin123!", 1000, "day-0")
}

fn login(store: &mut BackendState, user: &str, password: &str, now: u64, nonce: u128) -> LoginResponse {
    let request = LoginRequest { username: user.to_string(), password: password.to_string() };
    admin_login_at(store, &request, now, nonce)
}

fn signed_in() -> (BackendState, String) {
    let mut store = seeded();
    let r = login(&mut store, "admin", "admin123!", 1000, 42);
    assert!(r.success);
    (store, r.token)
}

fn claim_request(user: &str, placement: &str, proof: &str) -> AdRewardRequest {
    AdRewardRequest {
        user_id: user.to_string(),
        placement_id: placement.to_string(),
        ad_network: "demo".to_string(),
        proof_token: proof.to_string(),
    }
}

fn finish_request(user: &str, game: &str, score: Option<i32>) -> GameActionRequest {
    GameActionRequest {
        user_id: user.to_string(),
        action_id: "finish_minigame".to_string(),
        target_id: game.to_string(),
        score,
    }
}

#[test]
fn seed_holds_owner_player_policy_and_games() {
    let s = seeded();
    assert_eq!(s.admin_accounts.len(), 1);
    assert_eq!(s.admin_accounts[0].username, "admin");
    assert_eq!(s.admin_accounts[0].password_hash, ADMIN_HASH);
    assert_eq!(s.admin_accounts[0].role, "owner");
    assert!(s.admin_accounts[0].enabled);
    assert_eq!(s.admin_accounts[0].created_at, 1000);
    assert_eq!(s.players.len(), 1);
    let p = &s.players[0];
    assert_eq!(p.user_id, "u_10001");
    assert_eq!(p.nickname, "庄园见习主理人");
    assert_eq!((p.level, p.coins, p.current_stamina, p.max_stamina), (1, 300, 12, 30));
    assert_eq!(p.ad_claim_date, "day-0");
    assert_eq!(p.ad_claims_today, 0);
    assert_eq!(s.ad_policy.placement_id, "reward_stamina");
    assert_eq!((s.ad_policy.stamina_reward, s.ad_policy.daily_limit, s.ad_policy.cooldown_seconds), (8, 6, 45));
    assert_eq!(s.game_switches.len(), 3);
    assert!(s.sessions.is_empty());
    assert!(s.audit_logs.is_empty());
}

#[test]
fn seeded_switches_are_open_in_order() {
    let games = seed_game_switches();
    let ids: Vec<&str> = games.iter().map(|g| g.game_id.as_str()).collect();
    assert_eq!(ids, vec!["2048", "match3", "make10"]);
    assert_eq!(games[0].title, "2048 扫除拼图");
    assert_eq!(games[1].title, "开心消消乐");
    assert_eq!(games[2].title, "一不小心就到十");
    assert!(games.iter().all(|g| g.enabled && g.maintenance_message.is_empty()));
}

#[test]
fn switches_are_listed_by_game_id() {
    let s = seeded();
    let ids: Vec<String> = sorted_game_switches(&s).into_iter().map(|g| g.game_id).collect();
    assert_eq!(ids, vec!["2048", "make10", "match3"]);
    let public: Vec<String> = public_game_switches(&s).into_iter().map(|g| g.game_id).collect();
    assert_eq!(public, ids);
}

#[test]
fn refusal_constructors() {
    let r = LoginResponse::failed("nope");
    assert!(!r.success);
    assert_eq!((r.token.as_str(), r.message.as_str(), r.expires_at), ("", "nope", 0));
    let a = AdRewardResponse::rejected("closed");
    assert!(!a.accepted);
    assert_eq!((a.message.as_str(), a.current_stamina, a.max_stamina, a.claims_left_today), ("closed", 0, 0, 0));
    assert_eq!(AdRewardResponse::not_found().message, "玩家不存在");
}

#[test]
fn audit_ids_count_up_from_one() {
    let mut s = seeded();
    push_log_at(&mut s, "a", "e1", "d1", 5);
    push_log_at(&mut s, "b", "e2", "d2", 6);
    assert_eq!(s.audit_logs.len(), 2);
    assert_eq!((s.audit_logs[0].id, s.audit_logs[0].at), (1, 5));
    assert_eq!((s.audit_logs[1].id, s.audit_logs[1].at), (2, 6));
    assert_eq!(s.audit_logs[1].actor, "b");
    assert_eq!(s.audit_logs[1].event, "e2");
    assert_eq!(s.audit_logs[1].detail, "d2");
}

#[test]
fn sign_in_issues_a_twelve_hour_token() {
    let mut s = seeded();
    let r = login(&mut s, "admin", "admin123!", 1000, 42);
    assert!(r.success);
    assert_eq!(r.message, "登录成功");
    assert_eq!(r.token, TOKEN_42);
    assert_eq!(r.expires_at, 1000 + 12 * 60 * 60);
    assert_eq!(SESSION_TTL_SECONDS, 43_200);
    assert_eq!(s.sessions.len(), 1);
    assert_eq!(s.sessions[0].0, TOKEN_42);
    assert_eq!(s.sessions[0].1.username, "admin");
    assert_eq!(s.audit_logs.len(), 1);
    assert_eq!(s.audit_logs[0].event, "admin.login.success");
    assert_eq!(s.audit_logs[0].detail, "后台登录成功");
}

#[test]
fn sign_in_with_wrong_password_is_refused_and_logged() {
    let mut s = seeded();
    let r = login(&mut s, "admin", "wrong", 1000, 1);
    assert!(!r.success);
    assert_eq!(r.message, "账户或密码错误");
    assert!(r.token.is_empty());
    assert_eq!(r.expires_at, 0);
    assert!(s.sessions.is_empty());
    assert_eq!(s.audit_logs[0].actor, "admin");
    assert_eq!(s.audit_logs[0].event, "admin.login.failed");
    assert_eq!(s.audit_logs[0].detail, "后台密码错误或账户禁用");
}

#[test]
fn sign_in_with_unknown_account_is_logged_as_anonymous() {
    let mut s = seeded();
    let r = login(&mut s, "ghost", "admin123!", 1000, 1);
    assert!(!r.success);
    assert_eq!(r.message, "账户或密码错误");
    assert_eq!(s.audit_logs[0].actor, "anonymous");
    assert_eq!(s.audit_logs[0].detail, "未知后台账户尝试登录");
}

#[test]
fn sign_in_to_disabled_account_is_refused() {
    let mut s = seeded();
    s.admin_accounts[0].enabled = false;
    let r = login(&mut s, "admin", "admin123!", 1000, 1);
    assert!(!r.success);
    assert!(s.sessions.is_empty());
}

#[test]
fn token_authorizes_until_it_expires() {
    let (s, token) = signed_in();
    assert_eq!(require_admin_at(&s, &token, 1001), Ok("admin".to_string()));
    assert_eq!(require_admin_at(&s, &token, 1000 + 43_199), Ok("admin".to_string()));
    assert_eq!(require_admin_at(&s, &token, 1000 + 43_200), Err(ApiError::Unauthorized));
    assert_eq!(require_admin_at(&s, "not-a-token", 1001), Err(ApiError::Unauthorized));
    assert_eq!(require_admin_at(&s, "", 1001), Err(ApiError::Unauthorized));
}

#[test]
fn token_of_disabled_account_is_refused() {
    let (mut s, token) = signed_in();
    s.admin_accounts[0].enabled = false;
    assert_eq!(require_admin_at(&s, &token, 1001), Err(ApiError::Unauthorized));
}

#[test]
fn dashboard_sums_todays_claims_and_shows_newest_logs_first() {
    let (mut s, token) = signed_in();
    s.players[0].ad_claims_today = 3;
    for k in 0..25u64 {
        push_log_at(&mut s, "t", "e", &format!("{}", k), 2000 + k);
    }
    let d = admin_dashboard_at(&s, &token, 1001, "day-0").ok().unwrap();
    assert_eq!((d.players_total, d.accounts_total), (1, 1));
    assert!(d.ad_reward_enabled);
    assert_eq!((d.stamina_reward, d.daily_limit), (8, 6));
    assert_eq!(d.ad_claims_today, 3);
    assert_eq!(d.latest_logs.len(), 20);
    assert_eq!(d.latest_logs[0].id, 26);
    assert_eq!(d.latest_logs[19].id, 7);
    let other_day = admin_dashboard_at(&s, &token, 1001, "day-1").ok().unwrap();
    assert_eq!(other_day.ad_claims_today, 0);
    assert!(matches!(admin_dashboard_at(&s, "bad", 1001, "day-0"), Err(ApiError::Unauthorized)));
}

#[test]
fn listings_need_a_token_and_come_sorted() {
    let (mut s, token) = signed_in();
    let mut extra = s.players[0].clone();
    extra.user_id = "a_00001".to_string();
    s.players.push(extra);
    let players = list_players_at(&s, &token, 1001).ok().unwrap();
    let ids: Vec<&str> = players.iter().map(|p| p.user_id.as_str()).collect();
    assert_eq!(ids, vec!["a_00001", "u_10001"]);
    let accounts = list_admin_accounts_at(&s, &token, 1001).ok().unwrap();
    assert_eq!(accounts.len(), 1);
    assert_eq!(accounts[0].username, "admin");
    assert_eq!(accounts[0].role, "owner");
    let games = list_game_switches_at(&s, &token, 1001).ok().unwrap();
    assert_eq!(games[1].game_id, "make10");
    assert!(matches!(list_players_at(&s, "x", 1001), Err(ApiError::Unauthorized)));
    assert!(matches!(list_admin_accounts_at(&s, "x", 1001), Err(ApiError::Unauthorized)));
    assert!(matches!(list_game_switches_at(&s, "x", 1001), Err(ApiError::Unauthorized)));
    assert!(matches!(get_ad_policy_at(&s, "x", 1001), Err(ApiError::Unauthorized)));
}

#[test]
fn written_policy_is_read_back() {
    let (mut s, token) = signed_in();
    let policy = AdRewardPolicy {
        placement_id: "p2".to_string(),
        enabled: false,
        stamina_reward: 3,
        daily_limit: 2,
        cooldown_seconds: 10,
    };
    let r = update_ad_policy_at(&mut s, &token, policy, 1002).ok().unwrap();
    assert_eq!(r.placement_id, "p2");
    let read = get_ad_policy_at(&s, &token, 1003).ok().unwrap();
    assert_eq!(read.placement_id, "p2");
    assert!(!read.enabled);
    assert_eq!((read.stamina_reward, read.daily_limit, read.cooldown_seconds), (3, 2, 10));
    let last = s.audit_logs.last().unwrap();
    assert_eq!((last.actor.as_str(), last.event.as_str()), ("admin", "ad_policy.update"));
    assert_eq!(last.detail, "更新广告恢复体力配置");
}

#[test]
fn unauthorized_policy_write_changes_nothing() {
    let mut s = seeded();
    let policy = AdRewardPolicy::default();
    let r = update_ad_policy_at(&mut s, "bad", policy, 1002);
    assert!(matches!(r, Err(ApiError::Unauthorized)));
    assert!(s.audit_logs.is_empty());
}

#[test]
fn switch_update_edits_known_games_and_adds_unknown_ones() {
    let (mut s, token) = signed_in();
    let close = UpdateGameSwitchRequest { enabled: false, maintenance_message: "维护".to_string() };
    let g = update_game_switch_at(&mut s, &token, "match3", &close, 1002).ok().unwrap();
    assert_eq!((g.game_id.as_str(), g.title.as_str()), ("match3", "开心消消乐"));
    assert!(!g.enabled);
    assert_eq!(s.game_switches.len(), 3);
    assert!(!s.game_switches[1].enabled);
    assert_eq!(s.audit_logs.last().unwrap().detail, "match3 开关更新");
    let open = UpdateGameSwitchRequest { enabled: true, maintenance_message: String::new() };
    let n = update_game_switch_at(&mut s, &token, "tetris", &open, 1003).ok().unwrap();
    assert_eq!((n.game_id.as_str(), n.title.as_str()), ("tetris", "tetris"));
    assert_eq!(s.game_switches.len(), 4);
    assert_eq!(s.game_switches[3].game_id, "tetris");
}

#[test]
fn stamina_grant_is_held_to_the_range_and_the_maximum() {
    let (mut s, token) = signed_in();
    let request = StaminaGrantRequest { amount: 5000, reason: "补偿".to_string() };
    let r = grant_stamina_at(&mut s, &token, "u_10001", &request, 1002).ok().unwrap();
    assert!(r.accepted);
    assert_eq!(r.message, "后台补发体力 999 点：补偿");
    assert_eq!((r.current_stamina, r.max_stamina, r.claims_left_today), (30, 30, 6));
    assert_eq!(s.players[0].current_stamina, 30);
    assert_eq!(s.audit_logs.last().unwrap().detail, "u_10001 补发体力 5000");
    assert_eq!(s.audit_logs.last().unwrap().event, "player.stamina.grant");
}

#[test]
fn negative_stamina_grant_grants_nothing_but_logs_the_request() {
    let (mut s, token) = signed_in();
    let request = StaminaGrantRequest { amount: -5, reason: "x".to_string() };
    let r = grant_stamina_at(&mut s, &token, "u_10001", &request, 1002).ok().unwrap();
    assert_eq!(r.message, "后台补发体力 0 点：x");
    assert_eq!(r.current_stamina, 12);
    assert_eq!(s.audit_logs.last().unwrap().detail, "u_10001 补发体力 -5");
}

#[test]
fn stamina_grant_to_unknown_player_is_not_found_and_unlogged() {
    let (mut s, token) = signed_in();
    let request = StaminaGrantRequest { amount: 5, reason: "x".to_string() };
    let r = grant_stamina_at(&mut s, &token, "nobody", &request, 1002).ok().unwrap();
    assert!(!r.accepted);
    assert_eq!(r.message, "玩家不存在");
    assert_eq!(s.audit_logs.len(), 1);
    assert!(matches!(grant_stamina_at(&mut s, "bad", "u_10001", &request, 1002), Err(ApiError::Unauthorized)));
}

#[test]
fn advert_claim_grants_eight_stamina() {
    let mut s = seeded();
    let request = claim_request("u_10001", "reward_stamina", "server_callback_token");
    let r = claim_ad_reward_at(&mut s, &request, "day-0", 1500);
    assert!(r.accepted);
    assert_eq!(r.message, "广告奖励已发放");
    assert_eq!((r.current_stamina, r.max_stamina, r.claims_left_today), (20, 30, 5));
    assert_eq!(s.players[0].ad_claims_today, 1);
    assert_eq!(s.players[0].last_active_at, 1500);
    let log = s.audit_logs.last().unwrap();
    assert_eq!((log.actor.as_str(), log.event.as_str()), ("ad-network", "ad.reward.claim"));
    assert_eq!(log.detail, "u_10001 领取广告体力奖励");
}

#[test]
fn advert_claim_checks_in_order() {
    let mut s = seeded();
    let good = claim_request("u_10001", "reward_stamina", "t");
    s.ad_policy.enabled = false;
    assert_eq!(claim_ad_reward_at(&mut s, &good, "day-0", 1).message, "广告恢复体力功能已关闭");
    s.ad_policy.enabled = true;
    let wrong = claim_request("u_10001", "elsewhere", "t");
    assert_eq!(claim_ad_reward_at(&mut s, &wrong, "day-0", 1).message, "广告位不匹配");
    let blank = claim_request("u_10001", "reward_stamina", " \t\u{3000}");
    assert_eq!(claim_ad_reward_at(&mut s, &blank, "day-0", 1).message, "缺少广告平台回调凭证");
    let nobody = claim_request("nobody", "reward_stamina", "t");
    assert_eq!(claim_ad_reward_at(&mut s, &nobody, "day-0", 1).message, "玩家不存在");
    s.players[0].is_banned = true;
    assert_eq!(claim_ad_reward_at(&mut s, &good, "day-0", 1).message, "账号已被后台限制");
    s.players[0].is_banned = false;
    s.players[0].current_stamina = 30;
    let full = claim_ad_reward_at(&mut s, &good, "day-0", 1);
    assert!(!full.accepted);
    assert_eq!(full.message, "体力已满");
    assert!(s.audit_logs.is_empty());
}

#[test]
fn advert_claims_stop_at_the_daily_limit_and_reset_next_day() {
    let mut s = seeded();
    s.players[0].current_stamina = 0;
    let good = claim_request("u_10001", "reward_stamina", "t");
    for _ in 0..3 {
        assert!(claim_ad_reward_at(&mut s, &good, "day-0", 1).accepted);
    }
    s.players[0].current_stamina = 0;
    for _ in 0..3 {
        assert!(claim_ad_reward_at(&mut s, &good, "day-0", 1).accepted);
    }
    assert_eq!(s.players[0].ad_claims_today, 6);
    let spent = claim_ad_reward_at(&mut s, &good, "day-0", 1);
    assert!(!spent.accepted);
    assert_eq!(spent.message, "今日广告奖励次数已用完");
    let next = claim_ad_reward_at(&mut s, &good, "day-1", 2);
    assert!(next.accepted);
    assert_eq!(next.claims_left_today, 5);
    assert_eq!(s.players[0].ad_claim_date, "day-1");
}

#[test]
fn repeated_claims_never_pass_the_limit_or_the_stamina_cap() {
    let mut s = seeded();
    s.players[0].current_stamina = 0;
    let good = claim_request("u_10001", "reward_stamina", "t");
    let mut accepted = 0;
    for _ in 0..20 {
        if claim_ad_reward_at(&mut s, &good, "day-0", 1).accepted {
            accepted += 1;
        }
        let p = &s.players[0];
        assert!(p.ad_claims_today <= s.ad_policy.daily_limit);
        assert!(p.current_stamina <= p.max_stamina);
    }
    assert!(accepted <= s.ad_policy.daily_limit);
}

#[test]
fn refused_full_claim_still_moves_the_counter_to_today() {
    let mut s = seeded();
    s.players[0].current_stamina = 30;
    s.players[0].ad_claims_today = 4;
    let good = claim_request("u_10001", "reward_stamina", "t");
    let r = claim_ad_reward_at(&mut s, &good, "day-9", 1);
    assert_eq!(r.message, "体力已满");
    assert_eq!(s.players[0].ad_claim_date, "day-9");
    assert_eq!(s.players[0].ad_claims_today, 0);
}

#[test]
fn coin_reward_rates_and_bounds() {
    assert_eq!(minigame_coin_reward("2048", 6400), 100);
    assert_eq!(minigame_coin_reward("2048", 64_000), 120);
    assert_eq!(minigame_coin_reward("match3", 360), 12);
    assert_eq!(minigame_coin_reward("make10", 49), 1);
    assert_eq!(minigame_coin_reward("other", 100), 2);
    assert_eq!(minigame_coin_reward("2048", -640), 0);
}

#[test]
fn settlement_pays_coins_and_keeps_the_best_score() {
    let mut s = seeded();
    let r = finish_minigame_action_at(&mut s, &finish_request("u_10001", "match3", Some(360)), 1700);
    assert!(r.success);
    assert_eq!(r.message, "开心消消乐 结算成功，金币 +12。");
    let p = r.player.unwrap();
    assert_eq!((p.coins, p.score_match3, p.last_active_at), (312, 360, 1700));
    let log = s.audit_logs.last().unwrap();
    assert_eq!((log.actor.as_str(), log.event.as_str()), ("game-api", "garden.finish_minigame"));
    assert_eq!(log.detail, "u_10001 完成 match3 分数 360");
    let lower = finish_minigame_action_at(&mut s, &finish_request("u_10001", "match3", Some(30)), 1800);
    assert_eq!(lower.player.unwrap().score_match3, 360);
    assert_eq!(s.players[0].coins, 313);
}

#[test]
fn settlement_scores_are_held_to_the_range() {
    let mut s = seeded();
    let big = finish_minigame_action_at(&mut s, &finish_request("u_10001", "2048", Some(500_000)), 1);
    assert_eq!(big.player.unwrap().score_2048, 200_000);
    assert_eq!(s.audit_logs.last().unwrap().detail, "u_10001 完成 2048 分数 200000");
    let none = finish_minigame_action_at(&mut s, &finish_request("u_10001", "make10", None), 1);
    assert_eq!(none.message, "一不小心就到十 结算成功，金币 +0。");
    let neg = finish_minigame_action_at(&mut s, &finish_request("u_10001", "make10", Some(-7)), 1);
    assert_eq!(neg.player.unwrap().score_make10, 0);
}

#[test]
fn settlement_refusals() {
    let mut s = seeded();
    let r = finish_minigame_action_at(&mut s, &finish_request("u_10001", "chess", Some(1)), 1);
    assert!(!r.success);
    assert_eq!(r.message, "小游戏不存在。");
    assert!(r.player.is_none());
    s.game_switches[0].enabled = false;
    let closed = finish_minigame_action_at(&mut s, &finish_request("u_10001", "2048", Some(1)), 1);
    assert_eq!(closed.message, "小游戏维护中，暂时不能结算。");
    s.game_switches[0].maintenance_message = "明天见".to_string();
    let closed = finish_minigame_action_at(&mut s, &finish_request("u_10001", "2048", Some(1)), 1);
    assert_eq!(closed.message, "明天见");
    let nobody = finish_minigame_action_at(&mut s, &finish_request("x", "match3", Some(1)), 1);
    assert_eq!(nobody.message, "玩家不存在。");
    s.players[0].is_banned = true;
    let banned = finish_minigame_action_at(&mut s, &finish_request("u_10001", "match3", Some(1)), 1);
    assert_eq!(banned.message, "账号已被后台限制。");
    assert!(s.audit_logs.is_empty());
}

#[test]
fn only_settlement_actions_are_supported() {
    let mut s = seeded();
    let mut request = finish_request("u_10001", "match3", Some(60));
    request.action_id = "submit_order".to_string();
    let r = garden_action_at(&mut s, &request, 1);
    assert!(!r.success);
    assert_eq!(r.message, "暂不支持该游戏动作。");
    request.action_id = "finish_minigame".to_string();
    assert!(garden_action_at(&mut s, &request, 1).success);
}

#[test]
fn bootstrap_bundles_player_policy_and_games() {
    let s = seeded();
    let b = player_bootstrap(&s, "u_10001").ok().unwrap();
    assert_eq!(b.player.user_id, "u_10001");
    assert_eq!(b.ad_policy.daily_limit, 6);
    assert_eq!(b.game_switches[2].game_id, "match3");
    assert!(matches!(player_bootstrap(&s, "nobody"), Err(ApiError::NotFound)));
}

#[test]
fn range_checks_flag_overflowing_requests() {
    let mut s = seeded();
    let good = claim_request("u_10001", "reward_stamina", "t");
    assert!(claim_fits_check(&s, &good, "day-0"));
    s.ad_policy.stamina_reward = i32::MIN;
    s.players[0].current_stamina = -1;
    assert!(!claim_fits_check(&s, &good, "day-0"));
    s.players[0].current_stamina = 30;
    assert!(claim_fits_check(&s, &good, "day-0"));
    let settle = finish_request("u_10001", "match3", Some(360));
    assert!(finish_fits_check(&s, &settle));
    s.players[0].coins = i32::MAX;
    assert!(!finish_fits_check(&s, &settle));
    assert!(finish_fits_check(&s, &finish_request("u_10001", "match3", Some(10))));
    assert!(claims_today_fit(&s, "day-0"));
    s.players[0].ad_claims_today = i32::MAX;
    let mut other = s.players[0].clone();
    other.user_id = "u_2".to_string();
    other.ad_claims_today = 1;
    s.players.push(other);
    assert!(!claims_today_fit(&s, "day-0"));
    assert!(claims_today_fit(&s, "day-1"));
}
