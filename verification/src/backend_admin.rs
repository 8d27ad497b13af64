//! What the administrators' side of the back office does: signing in, the
//! dashboard, listings, policy and switch updates, stamina grants, and the
//! seeded starting state.

use vstd::prelude::*;
use crate::backend::{
    account_names, admin_of, appended_log, arranged, find_account, find_game_switch, find_player,
    find_session, game_ids, games_by_id, is_rejection, lemma_append_keeps_ids, player_ids,
    push_log_at, require_admin_at, same_except_logs, seed_game_switches, session_tokens, slot_of,
    sorted_game_switches, AdRewardResponse, AdminAccount, AdminSession, ApiError, AuditLog,
    BackendState, GameSwitch, LoginResponse, PlayerAdminRecord, SESSION_TTL_SECONDS,
    duplicate_policy,
};
use crate::backend_ops::{
    lemma_log_room, max_int, min_int, only_player_changed, player_became, ready, unchanged,
};
use crate::clock::{
    day_key, day_label, unix_nonce, unix_now,
};
use crate::digest::{
    hash_password, issue_session_token_with, password_digest, token_digest,
};
use crate::models::AdRewardPolicy;
use crate::order::{
    is_ordering, keys_sorted, sorted_order, text_le,
};
use crate::text::{
    decimal, push_decimal, text_eq,
};

verus! {

// ---------------------------------------------------------------------------
// Signing in
// ---------------------------------------------------------------------------

/// A sign-in attempt.
pub struct LoginRequest {
    pub username: String,
    pub password: String,
}

/// The refusal of a sign-in, the same whatever went wrong.
pub open spec fn is_login_refusal(r: LoginResponse) -> bool {
    &&& !r.success
    &&& r.token@ == Seq::<char>::empty()
    &&& r.message@ == "账户或密码错误"@
    &&& r.expires_at == 0
}

/// When a session opened at `now` expires (the latest instant when the sum
/// does not fit).
pub open spec fn expiry_of(now: u64) -> u64 {
    if now + SESSION_TTL_SECONDS > u64::MAX { u64::MAX } else { (now + SESSION_TTL_SECONDS) as u64 }
}

/// `new` is `old` with the session for `token` set (added when the token is
/// new, replaced when it is known).
pub open spec fn session_set(
    old: Seq<(String, AdminSession)>,
    new: Seq<(String, AdminSession)>,
    token: Seq<char>,
    username: Seq<char>,
    expires_at: u64,
) -> bool {
    let s = slot_of(session_tokens(old), token);
    let e = if s < 0 { new.last() } else { new[s] };
    &&& if s < 0 {
        new.len() == old.len() + 1 && new.drop_last() == old
    } else {
        new.len() == old.len() && forall|j: int| 0 <= j < old.len() && j != s ==> new[j] == old[j]
    }
    &&& e.0@ == token
    &&& e.1.username@ == username
    &&& e.1.expires_at == expires_at
}

/// What a sign-in does: an unknown account, or a disabled account or wrong
/// password, is refused and logged; a good password opens a session whose
/// token digests the account and `nonce`, valid until `expiry_of(now)`.
pub open spec fn login_done(
    old: &BackendState,
    new: &BackendState,
    request: &LoginRequest,
    now: u64,
    nonce: u128,
    r: LoginResponse,
) -> bool {
    let a = slot_of(account_names(old.admin_accounts@), request.username@);
    let account = old.admin_accounts@[a];
    if a < 0 {
        &&& same_except_logs(old, new)
        &&& appended_log(
            old.audit_logs@,
            new.audit_logs@,
            now,
            "anonymous"@,
            "admin.login.failed"@,
            "未知后台账户尝试登录"@,
        )
        &&& is_login_refusal(r)
    } else if !account.enabled || account.password_hash@ != password_digest(request.password@) {
        &&& same_except_logs(old, new)
        &&& appended_log(
            old.audit_logs@,
            new.audit_logs@,
            now,
            request.username@,
            "admin.login.failed"@,
            "后台密码错误或账户禁用"@,
        )
        &&& is_login_refusal(r)
    } else {
        let token = token_digest(account.username@, account.password_hash@, nonce);
        &&& old.players@ == new.players@
        &&& old.ad_policy == new.ad_policy
        &&& old.game_switches@ == new.game_switches@
        &&& old.admin_accounts@ == new.admin_accounts@
        &&& session_set(old.sessions@, new.sessions@, token, account.username@, expiry_of(now))
        &&& appended_log(
            old.audit_logs@,
            new.audit_logs@,
            now,
            request.username@,
            "admin.login.success"@,
            "后台登录成功"@,
        )
        &&& r.success
        &&& r.token@ == token
        &&& r.token@.len() == 64
        &&& r.message@ == "登录成功"@
        &&& r.expires_at == expiry_of(now)
    }
}

fn login_refused() -> (r: LoginResponse)
    ensures
        is_login_refusal(r),
{
    LoginResponse::failed("账户或密码错误")
}

/// Adds or replaces the session for `token`.
fn set_session(sessions: &mut Vec<(String, AdminSession)>, token: String, session: AdminSession)
    requires
        crate::backend::distinct_keys(session_tokens(old(sessions)@)),
    ensures
        session_set(old(sessions)@, final(sessions)@, token@, session.username@, session.expires_at),
        crate::backend::distinct_keys(session_tokens(final(sessions)@)),
{
    let ghost before = sessions@;
    let ghost t = token@;
    let ghost u = session.username@;
    let ghost e = session.expires_at;
    proof {
        crate::backend::lemma_slot(session_tokens(before), t);
    }
    match find_session(sessions, token.as_str()) {
        Some(s) => {
            let _ = sessions.remove(s);
            sessions.insert(s, (token, session));
            proof {
                assert(sessions@ =~= before.update(s as int, sessions@[s as int]));
                assert(session_tokens(sessions@) =~= session_tokens(before));
            }
        },
        None => {
            sessions.push((token, session));
            proof {
                assert(sessions@.drop_last() =~= before);
                let keys = session_tokens(sessions@);
                assert forall|i: int, j: int| 0 <= i < j < keys.len() implies #[trigger] keys[i]
                    != #[trigger] keys[j] by {
                    if j == keys.len() - 1 {
                        assert(session_tokens(before)[i] == keys[i]);
                    } else {
                        assert(session_tokens(before)[i] == keys[i]);
                        assert(session_tokens(before)[j] == keys[j]);
                    }
                }
            }
        },
    }
}

/// Handles a sign-in at time `now`, with `nonce` for the token.
pub fn admin_login_at(store: &mut BackendState, request: &LoginRequest, now: u64, nonce: u128) -> (r:
    LoginResponse)
    requires
        ready(old(store)),
    ensures
        login_done(old(store), final(store), request, now, nonce, r),
        final(store).well_formed(),
{
    proof {
        lemma_log_room(store);
    }
    let ghost before_log = store.audit_logs@;
    let password_hash = hash_password(request.password.as_str());
    let a = match find_account(&store.admin_accounts, request.username.as_str()) {
        Some(a) => a,
        None => {
            push_log_at(store, "anonymous", "admin.login.failed", "未知后台账户尝试登录", now);
            proof {
                lemma_append_keeps_ids(
                    before_log,
                    store.audit_logs@,
                    now,
                    "anonymous"@,
                    "admin.login.failed"@,
                    "未知后台账户尝试登录"@,
                );
            }
            return login_refused();
        },
    };
    let account_username = store.admin_accounts[a].username.clone();
    let account_password_hash = store.admin_accounts[a].password_hash.clone();
    if !store.admin_accounts[a].enabled || !text_eq(
        account_password_hash.as_str(),
        password_hash.as_str(),
    ) {
        push_log_at(
            store,
            request.username.as_str(),
            "admin.login.failed",
            "后台密码错误或账户禁用",
            now,
        );
        proof {
            lemma_append_keeps_ids(
                before_log,
                store.audit_logs@,
                now,
                request.username@,
                "admin.login.failed"@,
                "后台密码错误或账户禁用"@,
            );
        }
        return login_refused();
    }
    let token = issue_session_token_with(account_username.as_str(), account_password_hash.as_str(), nonce);
    let expires_at = now.saturating_add(SESSION_TTL_SECONDS);
    set_session(
        &mut store.sessions,
        token.clone(),
        AdminSession { username: account_username, expires_at },
    );
    push_log_at(store, request.username.as_str(), "admin.login.success", "后台登录成功", now);
    proof {
        lemma_append_keeps_ids(
            before_log,
            store.audit_logs@,
            now,
            request.username@,
            "admin.login.success"@,
            "后台登录成功"@,
        );
    }
    LoginResponse { success: true, token, message: "登录成功".to_owned(), expires_at }
}

/// Handles a sign-in, stamped by the wall clock.
pub fn admin_login(store: &mut BackendState, request: &LoginRequest) -> (r: LoginResponse)
    requires
        ready(old(store)),
    ensures
        exists|now: u64, nonce: u128| #[trigger] login_done(old(store), final(store), request, now, nonce, r),
        final(store).well_formed(),
{
    let now = unix_now();
    let nonce = unix_nonce();
    admin_login_at(store, request, now, nonce)
}

// ---------------------------------------------------------------------------
// Dashboard
// ---------------------------------------------------------------------------

/// The back office's overview.
pub struct AdminDashboard {
    pub players_total: usize,
    pub accounts_total: usize,
    pub ad_reward_enabled: bool,
    pub stamina_reward: i32,
    pub daily_limit: i32,
    pub ad_claims_today: i32,
    pub game_switches: Vec<GameSwitch>,
    pub latest_logs: Vec<AuditLog>,
}

/// Advert claims made on `today`, over all players.
pub open spec fn claims_today_total(players: Seq<PlayerAdminRecord>, today: Seq<char>) -> int
    decreases players.len(),
{
    if players.len() == 0 {
        0
    } else {
        let p = players.last();
        claims_today_total(players.drop_last(), today) + if p.ad_claim_date@ == today {
            p.ad_claims_today as int
        } else {
            0
        }
    }
}

/// `r` is the last twenty audit lines (or all, when fewer), newest first.
pub open spec fn latest_of(r: Seq<AuditLog>, logs: Seq<AuditLog>) -> bool {
    &&& r.len() == if logs.len() < 20 { logs.len() } else { 20 }
    &&& forall|k: int| 0 <= k < r.len() ==> #[trigger] r[k] == logs[logs.len() - 1 - k]
}

/// What the dashboard shows, for an administrator signed in at `now`.
pub open spec fn dashboard_done(
    store: &BackendState,
    token: Seq<char>,
    now: u64,
    today: Seq<char>,
    r: Result<AdminDashboard, ApiError>,
) -> bool {
    match admin_of(store, token, now) {
        None => r == Err::<AdminDashboard, ApiError>(ApiError::Unauthorized),
        Some(_) => {
            &&& r is Ok
            &&& r->Ok_0.players_total == store.players@.len()
            &&& r->Ok_0.accounts_total == store.admin_accounts@.len()
            &&& r->Ok_0.ad_reward_enabled == store.ad_policy.enabled
            &&& r->Ok_0.stamina_reward == store.ad_policy.stamina_reward
            &&& r->Ok_0.daily_limit == store.ad_policy.daily_limit
            &&& r->Ok_0.ad_claims_today == claims_today_total(store.players@, today)
            &&& games_by_id(r->Ok_0.game_switches@, store.game_switches@)
            &&& latest_of(r->Ok_0.latest_logs@, store.audit_logs@)
        },
    }
}

proof fn lemma_claims_prefix(players: Seq<PlayerAdminRecord>, today: Seq<char>, k: int)
    requires
        0 <= k <= players.len(),
        forall|j: int| 0 <= j < players.len() ==> #[trigger] players[j].ad_claims_today >= 0,
    ensures
        0 <= claims_today_total(players.take(k), today) <= claims_today_total(players, today),
    decreases players.len() - k,
{
    if k < players.len() {
        lemma_claims_prefix(players, today, k + 1);
        assert(players.take(k + 1).drop_last() =~= players.take(k));
    } else {
        assert(players.take(k) =~= players);
    }
    lemma_claims_nonneg(players.take(k), today);
}

proof fn lemma_claims_nonneg(players: Seq<PlayerAdminRecord>, today: Seq<char>)
    requires
        forall|j: int| 0 <= j < players.len() ==> #[trigger] players[j].ad_claims_today >= 0,
    ensures
        claims_today_total(players, today) >= 0,
    decreases players.len(),
{
    if players.len() > 0 {
        let rest = players.drop_last();
        assert forall|j: int| 0 <= j < rest.len() implies #[trigger] rest[j].ad_claims_today >= 0 by {
            assert(rest[j] == players[j]);
        }
        lemma_claims_nonneg(rest, today);
    }
}

fn count_claims_today(players: &Vec<PlayerAdminRecord>, today: &str) -> (n: i32)
    requires
        forall|j: int| 0 <= j < players@.len() ==> #[trigger] players@[j].ad_claims_today >= 0,
        claims_today_total(players@, today@) <= i32::MAX,
    ensures
        n == claims_today_total(players@, today@),
{
    let mut n: i32 = 0;
    let mut k: usize = 0;
    while k < players.len()
        invariant
            k <= players@.len(),
            forall|j: int| 0 <= j < players@.len() ==> #[trigger] players@[j].ad_claims_today >= 0,
            claims_today_total(players@, today@) <= i32::MAX,
            n == claims_today_total(players@.take(k as int), today@),
        decreases players@.len() - k,
    {
        proof {
            lemma_claims_prefix(players@, today@, k + 1);
            assert(players@.take(k + 1).drop_last() =~= players@.take(k as int));
        }
        if text_eq(players[k].ad_claim_date.as_str(), today) {
            n = n + players[k].ad_claims_today;
        }
        k = k + 1;
    }
    assert(players@.take(k as int) =~= players@);
    n
}

fn latest_logs(logs: &Vec<AuditLog>) -> (r: Vec<AuditLog>)
    ensures
        latest_of(r@, logs@),
{
    let n = logs.len();
    let count: usize = if n < 20 { n } else { 20 };
    let mut r: Vec<AuditLog> = Vec::new();
    let mut k: usize = 0;
    while k < count
        invariant
            n == logs@.len(),
            count == if n < 20 { n } else { 20 },
            k <= count,
            r@.len() == k,
            forall|j: int| 0 <= j < k ==> #[trigger] r@[j] == logs@[n - 1 - j],
        decreases count - k,
    {
        r.push(logs[n - 1 - k].duplicate());
        k = k + 1;
    }
    r
}

/// Whether the claims made on `today` add up to a number within `i32`, as
/// the dashboard needs.
pub fn claims_today_fit(store: &BackendState, today: &str) -> (r: bool)
    requires
        store.well_formed(),
    ensures
        r == (claims_today_total(store.players@, today@) <= i32::MAX),
{
    let players = &store.players;
    let mut n: i64 = 0;
    let mut k: usize = 0;
    while k < players.len()
        invariant
            players@ == store.players@,
            k <= players@.len(),
            forall|j: int| 0 <= j < players@.len() ==> #[trigger] players@[j].ad_claims_today >= 0,
            n == claims_today_total(players@.take(k as int), today@),
            n <= i32::MAX,
        decreases players@.len() - k,
    {
        proof {
            lemma_claims_prefix(players@, today@, k + 1);
            assert(players@.take(k + 1).drop_last() =~= players@.take(k as int));
        }
        if text_eq(players[k].ad_claim_date.as_str(), today) {
            n = n + players[k].ad_claims_today as i64;
        }
        assert(n == claims_today_total(players@.take(k + 1), today@));
        if n > i32::MAX as i64 {
            return false;
        }
        k = k + 1;
    }
    assert(players@.take(k as int) =~= players@);
    true
}

/// The dashboard for the administrator of `token` at time `now` on `today`.
pub fn admin_dashboard_at(store: &BackendState, token: &str, now: u64, today: &str) -> (r: Result<
    AdminDashboard,
    ApiError,
>)
    requires
        store.well_formed(),
        claims_today_total(store.players@, today@) <= i32::MAX,
    ensures
        dashboard_done(store, token@, now, today@, r),
{
    match require_admin_at(store, token, now) {
        Err(e) => return Err(e),
        Ok(_) => {},
    }
    Ok(
        AdminDashboard {
            players_total: store.players.len(),
            accounts_total: store.admin_accounts.len(),
            ad_reward_enabled: store.ad_policy.enabled,
            stamina_reward: store.ad_policy.stamina_reward,
            daily_limit: store.ad_policy.daily_limit,
            ad_claims_today: count_claims_today(&store.players, today),
            game_switches: sorted_game_switches(store),
            latest_logs: latest_logs(&store.audit_logs),
        },
    )
}

/// The dashboard, by the wall clock.
pub fn admin_dashboard(store: &BackendState, token: &str) -> (r: Result<AdminDashboard, ApiError>)
    requires
        store.well_formed(),
        forall|today: Seq<char>| claims_today_total(store.players@, today) <= i32::MAX,
    ensures
        exists|now: u64| #[trigger] dashboard_done(store, token@, now, day_label(now), r),
{
    let now = unix_now();
    let today = day_key(now);
    admin_dashboard_at(store, token, now, today.as_str())
}

// ---------------------------------------------------------------------------
// Listings
// ---------------------------------------------------------------------------

/// How an administrator account is listed: without its password hash.
pub struct AdminAccountView {
    pub username: String,
    pub role: String,
    pub enabled: bool,
    pub created_at: u64,
}

/// `v` lists the account `a`.
pub open spec fn lists_account(v: AdminAccountView, a: AdminAccount) -> bool {
    &&& v.username == a.username
    &&& v.role == a.role
    &&& v.enabled == a.enabled
    &&& v.created_at == a.created_at
}

/// The accounts listed by user name.
pub open spec fn accounts_by_name(r: Seq<AdminAccountView>, s: Seq<AdminAccount>) -> bool {
    &&& exists|order: Seq<usize>|
        {
            &&& is_ordering(order, s.len())
            &&& r.len() == s.len()
            &&& forall|k: int| 0 <= k < r.len() ==> lists_account(r[k], s[#[trigger] order[k] as int])
        }
    &&& forall|k: int, l: int|
        0 <= k < l < r.len() ==> text_le(#[trigger] r[k].username@, #[trigger] r[l].username@)
}

/// The players listed by user id.
pub open spec fn players_by_id(r: Seq<PlayerAdminRecord>, s: Seq<PlayerAdminRecord>) -> bool {
    &&& exists|order: Seq<usize>| arranged(r, s, order)
    &&& forall|k: int, l: int|
        0 <= k < l < r.len() ==> text_le(#[trigger] r[k].user_id@, #[trigger] r[l].user_id@)
}

/// `r` is `Unauthorized` when `token` does not sign an administrator in at
/// `now`, and otherwise `Ok` with a value that meets `good`.
pub open spec fn guarded<T>(store: &BackendState, token: Seq<char>, now: u64, r: Result<T, ApiError>, good: bool) -> bool {
    match admin_of(store, token, now) {
        None => r == Err::<T, ApiError>(ApiError::Unauthorized),
        Some(_) => r is Ok && good,
    }
}

/// The account listing answers `r` at time `now`.
pub open spec fn accounts_listed(store: &BackendState, token: Seq<char>, now: u64, r: Result<Vec<AdminAccountView>, ApiError>) -> bool {
    guarded(store, token, now, r, r is Ok && accounts_by_name(r->Ok_0@, store.admin_accounts@))
}

/// The policy read answers `r` at time `now`.
pub open spec fn policy_read(store: &BackendState, token: Seq<char>, now: u64, r: Result<AdRewardPolicy, ApiError>) -> bool {
    guarded(store, token, now, r, r is Ok && r->Ok_0 == store.ad_policy)
}

/// The switch listing answers `r` at time `now`.
pub open spec fn switches_listed(store: &BackendState, token: Seq<char>, now: u64, r: Result<Vec<GameSwitch>, ApiError>) -> bool {
    guarded(store, token, now, r, r is Ok && games_by_id(r->Ok_0@, store.game_switches@))
}

/// The player listing answers `r` at time `now`.
pub open spec fn players_listed(store: &BackendState, token: Seq<char>, now: u64, r: Result<Vec<PlayerAdminRecord>, ApiError>) -> bool {
    guarded(store, token, now, r, r is Ok && players_by_id(r->Ok_0@, store.players@))
}

fn account_views(accounts: &Vec<AdminAccount>) -> (r: Vec<AdminAccountView>)
    ensures
        accounts_by_name(r@, accounts@),
{
    let mut keys: Vec<String> = Vec::new();
    let mut i: usize = 0;
    while i < accounts.len()
        invariant
            i <= accounts@.len(),
            keys@.len() == i,
            forall|k: int| 0 <= k < i ==> #[trigger] keys@[k] == accounts@[k].username,
        decreases accounts@.len() - i,
    {
        keys.push(accounts[i].username.clone());
        i = i + 1;
    }
    let order = sorted_order(&keys);
    let mut r: Vec<AdminAccountView> = Vec::new();
    let mut j: usize = 0;
    while j < order.len()
        invariant
            is_ordering(order@, keys@.len()),
            keys@.len() == accounts@.len(),
            j <= order@.len(),
            r@.len() == j,
            forall|k: int| 0 <= k < j ==> lists_account(r@[k], accounts@[#[trigger] order@[k] as int]),
        decreases order@.len() - j,
    {
        let a = &accounts[order[j]];
        r.push(
            AdminAccountView {
                username: a.username.clone(),
                role: a.role.clone(),
                enabled: a.enabled,
                created_at: a.created_at,
            },
        );
        j = j + 1;
    }
    proof {
        assert forall|k: int, l: int| 0 <= k < l < r@.len() implies text_le(
            #[trigger] r@[k].username@,
            #[trigger] r@[l].username@,
        ) by {
            assert(keys@[order@[k] as int] == accounts@[order@[k] as int].username);
            assert(keys@[order@[l] as int] == accounts@[order@[l] as int].username);
            assert(keys_sorted(keys@, order@));
        }
    }
    r
}

fn sorted_players(players: &Vec<PlayerAdminRecord>) -> (r: Vec<PlayerAdminRecord>)
    ensures
        players_by_id(r@, players@),
{
    let mut keys: Vec<String> = Vec::new();
    let mut i: usize = 0;
    while i < players.len()
        invariant
            i <= players@.len(),
            keys@.len() == i,
            forall|k: int| 0 <= k < i ==> #[trigger] keys@[k] == players@[k].user_id,
        decreases players@.len() - i,
    {
        keys.push(players[i].user_id.clone());
        i = i + 1;
    }
    let order = sorted_order(&keys);
    let mut r: Vec<PlayerAdminRecord> = Vec::new();
    let mut j: usize = 0;
    while j < order.len()
        invariant
            is_ordering(order@, keys@.len()),
            keys@.len() == players@.len(),
            j <= order@.len(),
            r@.len() == j,
            forall|k: int| 0 <= k < j ==> r@[k] == players@[#[trigger] order@[k] as int],
        decreases order@.len() - j,
    {
        r.push(players[order[j]].duplicate());
        j = j + 1;
    }
    proof {
        assert(arranged(r@, players@, order@));
        assert forall|k: int, l: int| 0 <= k < l < r@.len() implies text_le(
            #[trigger] r@[k].user_id@,
            #[trigger] r@[l].user_id@,
        ) by {
            assert(keys@[order@[k] as int] == players@[order@[k] as int].user_id);
            assert(keys@[order@[l] as int] == players@[order@[l] as int].user_id);
            assert(keys_sorted(keys@, order@));
        }
    }
    r
}

/// The administrator accounts by user name, at time `now`.
pub fn list_admin_accounts_at(store: &BackendState, token: &str, now: u64) -> (r: Result<
    Vec<AdminAccountView>,
    ApiError,
>)
    ensures
        accounts_listed(store, token@, now, r),
{
    match require_admin_at(store, token, now) {
        Err(e) => Err(e),
        Ok(_) => Ok(account_views(&store.admin_accounts)),
    }
}

/// The administrator accounts by user name, by the wall clock.
pub fn list_admin_accounts(store: &BackendState, token: &str) -> (r: Result<Vec<AdminAccountView>, ApiError>)
    ensures
        exists|now: u64|
            #[trigger] accounts_listed(store, token@, now, r),
{
    let now = unix_now();
    list_admin_accounts_at(store, token, now)
}

/// The advert policy, at time `now`.
pub fn get_ad_policy_at(store: &BackendState, token: &str, now: u64) -> (r: Result<AdRewardPolicy, ApiError>)
    ensures
        policy_read(store, token@, now, r),
{
    match require_admin_at(store, token, now) {
        Err(e) => Err(e),
        Ok(_) => Ok(duplicate_policy(&store.ad_policy)),
    }
}

/// The advert policy, by the wall clock.
pub fn get_ad_policy(store: &BackendState, token: &str) -> (r: Result<AdRewardPolicy, ApiError>)
    ensures
        exists|now: u64|
            #[trigger] policy_read(store, token@, now, r),
{
    let now = unix_now();
    get_ad_policy_at(store, token, now)
}

/// The game switches by game id, at time `now`.
pub fn list_game_switches_at(store: &BackendState, token: &str, now: u64) -> (r: Result<Vec<GameSwitch>, ApiError>)
    ensures
        switches_listed(store, token@, now, r),
{
    match require_admin_at(store, token, now) {
        Err(e) => Err(e),
        Ok(_) => Ok(sorted_game_switches(store)),
    }
}

/// The game switches by game id, by the wall clock.
pub fn list_game_switches(store: &BackendState, token: &str) -> (r: Result<Vec<GameSwitch>, ApiError>)
    ensures
        exists|now: u64|
            #[trigger] switches_listed(store, token@, now, r),
{
    let now = unix_now();
    list_game_switches_at(store, token, now)
}

/// The players by user id, at time `now`.
pub fn list_players_at(store: &BackendState, token: &str, now: u64) -> (r: Result<Vec<PlayerAdminRecord>, ApiError>)
    ensures
        players_listed(store, token@, now, r),
{
    match require_admin_at(store, token, now) {
        Err(e) => Err(e),
        Ok(_) => Ok(sorted_players(&store.players)),
    }
}

/// The players by user id, by the wall clock.
pub fn list_players(store: &BackendState, token: &str) -> (r: Result<Vec<PlayerAdminRecord>, ApiError>)
    ensures
        exists|now: u64|
            #[trigger] players_listed(store, token@, now, r),
{
    let now = unix_now();
    list_players_at(store, token, now)
}

// ---------------------------------------------------------------------------
// Updates
// ---------------------------------------------------------------------------

/// The players, game switches, accounts and sessions are the same.
pub open spec fn same_tables(old: &BackendState, new: &BackendState) -> bool {
    &&& old.players@ == new.players@
    &&& old.game_switches@ == new.game_switches@
    &&& old.admin_accounts@ == new.admin_accounts@
    &&& old.sessions@ == new.sessions@
}

/// What replacing the advert policy does: nothing without an administrator;
/// otherwise the policy becomes `policy`, the change is logged in the
/// administrator's name, and the new policy is answered.
pub open spec fn policy_updated(
    old: &BackendState,
    new: &BackendState,
    token: Seq<char>,
    policy: AdRewardPolicy,
    now: u64,
    r: Result<AdRewardPolicy, ApiError>,
) -> bool {
    match admin_of(old, token, now) {
        None => unchanged(old, new) && r == Err::<AdRewardPolicy, ApiError>(ApiError::Unauthorized),
        Some(name) => {
            &&& r == Ok::<AdRewardPolicy, ApiError>(policy)
            &&& new.ad_policy == policy
            &&& same_tables(old, new)
            &&& appended_log(
                old.audit_logs@,
                new.audit_logs@,
                now,
                name,
                "ad_policy.update"@,
                "更新广告恢复体力配置"@,
            )
        },
    }
}

/// Replaces the advert policy, at time `now`.
pub fn update_ad_policy_at(store: &mut BackendState, token: &str, policy: AdRewardPolicy, now: u64) -> (r: Result<
    AdRewardPolicy,
    ApiError,
>)
    requires
        ready(old(store)),
    ensures
        policy_updated(old(store), final(store), token@, policy, now, r),
        final(store).well_formed(),
{
    proof {
        lemma_log_room(store);
    }
    let username = match require_admin_at(store, token, now) {
        Err(e) => return Err(e),
        Ok(name) => name,
    };
    let answer = duplicate_policy(&policy);
    store.ad_policy = policy;
    let ghost before_log = store.audit_logs@;
    push_log_at(store, username.as_str(), "ad_policy.update", "更新广告恢复体力配置", now);
    proof {
        lemma_append_keeps_ids(
            before_log,
            store.audit_logs@,
            now,
            username@,
            "ad_policy.update"@,
            "更新广告恢复体力配置"@,
        );
    }
    Ok(answer)
}

/// Replaces the advert policy, by the wall clock.
pub fn update_ad_policy(store: &mut BackendState, token: &str, policy: AdRewardPolicy) -> (r: Result<
    AdRewardPolicy,
    ApiError,
>)
    requires
        ready(old(store)),
    ensures
        exists|now: u64| #[trigger] policy_updated(old(store), final(store), token@, policy, now, r),
        final(store).well_formed(),
{
    let now = unix_now();
    update_ad_policy_at(store, token, policy, now)
}

/// A request to open or close a mini-game.
pub struct UpdateGameSwitchRequest {
    pub enabled: bool,
    pub maintenance_message: String,
}

/// `new` is `old` with the switch of `game_id` set to `g`: an existing
/// switch keeps its id and title; an unknown game gets a new switch, titled
/// by its id, at the end.
pub open spec fn switch_written(
    old: Seq<GameSwitch>,
    new: Seq<GameSwitch>,
    game_id: Seq<char>,
    enabled: bool,
    message: Seq<char>,
    g: GameSwitch,
) -> bool {
    let s = slot_of(game_ids(old), game_id);
    &&& if s < 0 {
        &&& new.len() == old.len() + 1
        &&& new.drop_last() == old
        &&& new.last() == g
        &&& g.game_id@ == game_id
        &&& g.title@ == game_id
    } else {
        &&& new.len() == old.len()
        &&& forall|j: int| 0 <= j < old.len() && j != s ==> new[j] == old[j]
        &&& new[s] == g
        &&& g.game_id == old[s].game_id
        &&& g.title == old[s].title
    }
    &&& g.enabled == enabled
    &&& g.maintenance_message@ == message
}

/// What a switch update does: nothing without an administrator; otherwise
/// the switch is written, logged in the administrator's name, and answered.
pub open spec fn switch_updated(
    old: &BackendState,
    new: &BackendState,
    token: Seq<char>,
    game_id: Seq<char>,
    request: &UpdateGameSwitchRequest,
    now: u64,
    r: Result<GameSwitch, ApiError>,
) -> bool {
    match admin_of(old, token, now) {
        None => unchanged(old, new) && r == Err::<GameSwitch, ApiError>(ApiError::Unauthorized),
        Some(name) => {
            &&& r is Ok
            &&& switch_written(
                old.game_switches@,
                new.game_switches@,
                game_id,
                request.enabled,
                request.maintenance_message@,
                r->Ok_0,
            )
            &&& old.players@ == new.players@
            &&& old.ad_policy == new.ad_policy
            &&& old.admin_accounts@ == new.admin_accounts@
            &&& old.sessions@ == new.sessions@
            &&& appended_log(
                old.audit_logs@,
                new.audit_logs@,
                now,
                name,
                "game_switch.update"@,
                game_id + " 开关更新"@,
            )
        },
    }
}

fn write_switch(games: &mut Vec<GameSwitch>, game_id: &str, request: &UpdateGameSwitchRequest) -> (g: GameSwitch)
    requires
        crate::backend::distinct_keys(game_ids(old(games)@)),
    ensures
        switch_written(
            old(games)@,
            final(games)@,
            game_id@,
            request.enabled,
            request.maintenance_message@,
            g,
        ),
        crate::backend::distinct_keys(game_ids(final(games)@)),
{
    let ghost before = games@;
    proof {
        crate::backend::lemma_slot(game_ids(before), game_id@);
    }
    match find_game_switch(games, game_id) {
        Some(s) => {
            let mut g = games.remove(s);
            g.enabled = request.enabled;
            g.maintenance_message = request.maintenance_message.clone();
            let answer = g.duplicate();
            games.insert(s, g);
            proof {
                assert(games@ =~= before.update(s as int, games@[s as int]));
                assert(game_ids(games@) =~= game_ids(before));
            }
            answer
        },
        None => {
            let g = GameSwitch {
                game_id: game_id.to_owned(),
                title: game_id.to_owned(),
                enabled: request.enabled,
                maintenance_message: request.maintenance_message.clone(),
            };
            let answer = g.duplicate();
            games.push(g);
            proof {
                assert(games@.drop_last() =~= before);
                let keys = game_ids(games@);
                assert forall|i: int, j: int| 0 <= i < j < keys.len() implies #[trigger] keys[i]
                    != #[trigger] keys[j] by {
                    assert(game_ids(before)[i] == keys[i]);
                    if j < keys.len() - 1 {
                        assert(game_ids(before)[j] == keys[j]);
                    }
                }
            }
            answer
        },
    }
}

/// Opens or closes a mini-game, at time `now`.
pub fn update_game_switch_at(
    store: &mut BackendState,
    token: &str,
    game_id: &str,
    request: &UpdateGameSwitchRequest,
    now: u64,
) -> (r: Result<GameSwitch, ApiError>)
    requires
        ready(old(store)),
    ensures
        switch_updated(old(store), final(store), token@, game_id@, request, now, r),
        final(store).well_formed(),
{
    proof {
        lemma_log_room(store);
    }
    let username = match require_admin_at(store, token, now) {
        Err(e) => return Err(e),
        Ok(name) => name,
    };
    let updated = write_switch(&mut store.game_switches, game_id, request);
    let mut detail = game_id.to_owned();
    detail.append(" 开关更新");
    let ghost before_log = store.audit_logs@;
    push_log_at(store, username.as_str(), "game_switch.update", detail.as_str(), now);
    proof {
        lemma_append_keeps_ids(
            before_log,
            store.audit_logs@,
            now,
            username@,
            "game_switch.update"@,
            detail@,
        );
    }
    Ok(updated)
}

/// Opens or closes a mini-game, by the wall clock.
pub fn update_game_switch(
    store: &mut BackendState,
    token: &str,
    game_id: &str,
    request: &UpdateGameSwitchRequest,
) -> (r: Result<GameSwitch, ApiError>)
    requires
        ready(old(store)),
    ensures
        exists|now: u64| #[trigger] switch_updated(old(store), final(store), token@, game_id@, request, now, r),
        final(store).well_formed(),
{
    let now = unix_now();
    update_game_switch_at(store, token, game_id, request, now)
}

// ---------------------------------------------------------------------------
// Stamina grants
// ---------------------------------------------------------------------------

/// An administrator's stamina grant.
pub struct StaminaGrantRequest {
    pub amount: i32,
    pub reason: String,
}

/// The granted amount: the requested one held to 0..=999.
pub open spec fn grant_amount(amount: i32) -> int {
    if amount < 0 { 0 } else if amount > 999 { 999 } else { amount as int }
}

/// What a stamina grant does: nothing without an administrator, nothing
/// (but a not-found answer) for an unknown player; otherwise the player's
/// stamina rises by the granted amount up to the maximum, and the grant is
/// logged with the amount as requested.
pub open spec fn stamina_granted(
    old: &BackendState,
    new: &BackendState,
    token: Seq<char>,
    user_id: Seq<char>,
    request: &StaminaGrantRequest,
    now: u64,
    r: Result<AdRewardResponse, ApiError>,
) -> bool {
    match admin_of(old, token, now) {
        None => unchanged(old, new) && r == Err::<AdRewardResponse, ApiError>(ApiError::Unauthorized),
        Some(name) => {
            let i = slot_of(player_ids(old.players@), user_id);
            let p = old.players@[i];
            let amount = grant_amount(request.amount);
            let stamina = min_int(p.current_stamina + amount, p.max_stamina as int);
            if i < 0 {
                unchanged(old, new) && r is Ok && is_rejection(r->Ok_0, "玩家不存在"@)
            } else {
                &&& only_player_changed(old, new, i)
                &&& player_became(
                    p,
                    new.players@[i],
                    p.coins as int,
                    stamina,
                    (p.score_2048 as int, p.score_match3 as int, p.score_make10 as int),
                    p.ad_claim_date@,
                    p.ad_claims_today as int,
                    p.last_active_at as int,
                )
                &&& appended_log(
                    old.audit_logs@,
                    new.audit_logs@,
                    now,
                    name,
                    "player.stamina.grant"@,
                    user_id + " 补发体力 "@ + decimal(request.amount as int),
                )
                &&& r is Ok
                &&& r->Ok_0.accepted
                &&& r->Ok_0.message@ == "后台补发体力 "@ + decimal(amount) + " 点："@ + request.reason@
                &&& r->Ok_0.current_stamina == stamina
                &&& r->Ok_0.max_stamina == p.max_stamina
                &&& r->Ok_0.claims_left_today == max_int(
                    old.ad_policy.daily_limit - p.ad_claims_today,
                    0,
                )
            }
        },
    }
}

/// Grants stamina to a player, at time `now`.
pub fn grant_stamina_at(
    store: &mut BackendState,
    token: &str,
    user_id: &str,
    request: &StaminaGrantRequest,
    now: u64,
) -> (r: Result<AdRewardResponse, ApiError>)
    requires
        ready(old(store)),
    ensures
        stamina_granted(old(store), final(store), token@, user_id@, request, now, r),
        final(store).well_formed(),
{
    proof {
        lemma_log_room(store);
    }
    let username = match require_admin_at(store, token, now) {
        Err(e) => return Err(e),
        Ok(name) => name,
    };
    let daily_limit = store.ad_policy.daily_limit;
    let i = match find_player(&store.players, user_id) {
        Some(i) => i,
        None => return Ok(AdRewardResponse::not_found()),
    };
    let amount: i32 = if request.amount < 0 { 0 } else if request.amount > 999 { 999 } else { request.amount };
    let ghost old_players = store.players@;
    let mut p = store.players.remove(i);
    let sum: i64 = p.current_stamina as i64 + amount as i64;
    let stamina: i64 = if sum < p.max_stamina as i64 { sum } else { p.max_stamina as i64 };
    p.current_stamina = stamina as i32;
    let left_raw: i64 = daily_limit as i64 - p.ad_claims_today as i64;
    let left: i32 = if left_raw < 0 { 0 } else { left_raw as i32 };
    let mut message = "后台补发体力 ".to_owned();
    push_decimal(&mut message, amount as i64);
    message.append(" 点：");
    message.append(request.reason.as_str());
    let response = AdRewardResponse {
        accepted: true,
        message,
        current_stamina: p.current_stamina,
        max_stamina: p.max_stamina,
        claims_left_today: left,
    };
    store.players.insert(i, p);
    proof {
        assert(store.players@ =~= old_players.update(i as int, store.players@[i as int]));
        assert(player_ids(store.players@) =~= player_ids(old_players));
    }
    let mut detail = user_id.to_owned();
    detail.append(" 补发体力 ");
    push_decimal(&mut detail, request.amount as i64);
    let ghost before_log = store.audit_logs@;
    push_log_at(store, username.as_str(), "player.stamina.grant", detail.as_str(), now);
    proof {
        lemma_append_keeps_ids(
            before_log,
            store.audit_logs@,
            now,
            username@,
            "player.stamina.grant"@,
            detail@,
        );
    }
    Ok(response)
}

/// Grants stamina to a player, by the wall clock.
pub fn grant_stamina(store: &mut BackendState, token: &str, user_id: &str, request: &StaminaGrantRequest) -> (r:
    Result<AdRewardResponse, ApiError>)
    requires
        ready(old(store)),
    ensures
        exists|now: u64| #[trigger] stamina_granted(old(store), final(store), token@, user_id@, request, now, r),
        final(store).well_formed(),
{
    let now = unix_now();
    grant_stamina_at(store, token, user_id, request, now)
}

// ---------------------------------------------------------------------------
// The starting state
// ---------------------------------------------------------------------------

/// The seeded back office: one owner account for `admin_user` with the hash
/// of `admin_password`, the first player, the default advert policy, the
/// three open mini-games, no sessions and an empty audit log.
pub open spec fn seeded(
    s: &BackendState,
    admin_user: Seq<char>,
    admin_password: Seq<char>,
    now: u64,
    today: Seq<char>,
) -> bool {
    let a = s.admin_accounts@[0];
    let p = s.players@[0];
    &&& s.admin_accounts@.len() == 1
    &&& a.username@ == admin_user
    &&& a.password_hash@ == password_digest(admin_password)
    &&& a.role@ == "owner"@
    &&& a.enabled
    &&& a.created_at == now
    &&& s.players@.len() == 1
    &&& p.user_id@ == "u_10001"@
    &&& p.nickname@ == "庄园见习主理人"@
    &&& p.level == 1
    &&& p.coins == 300
    &&& p.current_stamina == 12
    &&& p.max_stamina == 30
    &&& p.score_2048 == 0
    &&& p.score_match3 == 0
    &&& p.score_make10 == 0
    &&& p.ad_claim_date@ == today
    &&& p.ad_claims_today == 0
    &&& !p.is_banned
    &&& p.last_active_at == now
    &&& s.ad_policy.placement_id@ == "reward_stamina"@
    &&& s.ad_policy.enabled
    &&& s.ad_policy.stamina_reward == 8
    &&& s.ad_policy.daily_limit == 6
    &&& s.ad_policy.cooldown_seconds == 45
    &&& s.game_switches@.len() == 3
    &&& s.game_switches@[0].game_id@ == "2048"@ && s.game_switches@[0].title@ == "2048 扫除拼图"@
    &&& s.game_switches@[1].game_id@ == "match3"@ && s.game_switches@[1].title@ == "开心消消乐"@
    &&& s.game_switches@[2].game_id@ == "make10"@ && s.game_switches@[2].title@ == "一不小心就到十"@
    &&& forall|k: int|
        0 <= k < 3 ==> #[trigger] s.game_switches@[k].enabled && s.game_switches@[k].maintenance_message@
            == Seq::<char>::empty()
    &&& s.sessions@.len() == 0
    &&& s.audit_logs@.len() == 0
}

/// The seeded back office, created at `now` on `today`.
pub fn seed_backend_state_at(admin_user: &str, admin_password: &str, now: u64, today: &str) -> (s: BackendState)
    ensures
        seeded(&s, admin_user@, admin_password@, now, today@),
        s.well_formed(),
{
    proof {
        reveal_strlit("2048");
        reveal_strlit("match3");
        reveal_strlit("make10");
        assert("match3"@[2] != "make10"@[2]);
        assert("2048"@[0] != "make10"@[0]);
        assert("2048"@[0] != "match3"@[0]);
    }
    let mut admin_accounts: Vec<AdminAccount> = Vec::new();
    admin_accounts.push(
        AdminAccount {
            username: admin_user.to_owned(),
            password_hash: hash_password(admin_password),
            role: "owner".to_owned(),
            enabled: true,
            created_at: now,
        },
    );
    let mut players: Vec<PlayerAdminRecord> = Vec::new();
    players.push(
        PlayerAdminRecord {
            user_id: "u_10001".to_owned(),
            nickname: "庄园见习主理人".to_owned(),
            level: 1,
            coins: 300,
            current_stamina: 12,
            max_stamina: 30,
            score_2048: 0,
            score_match3: 0,
            score_make10: 0,
            ad_claim_date: today.to_owned(),
            ad_claims_today: 0,
            is_banned: false,
            last_active_at: now,
        },
    );
    let s = BackendState {
        players,
        ad_policy: AdRewardPolicy {
            placement_id: "reward_stamina".to_owned(),
            enabled: true,
            stamina_reward: 8,
            daily_limit: 6,
            cooldown_seconds: 45,
        },
        game_switches: seed_game_switches(),
        admin_accounts,
        sessions: Vec::new(),
        audit_logs: Vec::new(),
    };
    proof {
        let g = game_ids(s.game_switches@);
        assert(g[0] == "2048"@);
        assert(g[1] == "match3"@);
        assert(g[2] == "make10"@);
    }
    s
}

/// The seeded back office, dated by the wall clock.
pub fn seed_backend_state(admin_user: &str, admin_password: &str) -> (s: BackendState)
    ensures
        exists|now: u64| #[trigger] seeded(&s, admin_user@, admin_password@, now, day_label(now)),
        s.well_formed(),
{
    let now = unix_now();
    let today = day_key(now);
    seed_backend_state_at(admin_user, admin_password, now, today.as_str())
}

} // verus!
