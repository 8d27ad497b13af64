//! The operator back office: its records, lookups by key, the audit log,
//! administrator sessions and the seeded starting state.
//!
//! Each keyed table is a vector in which a key occurs at most once (see
//! `BackendState::well_formed`); a lookup finds the entry with the key.

use vstd::prelude::*;

use crate::models::AdRewardPolicy;
use crate::order::{is_ordering, keys_sorted, sorted_order, text_le};
use crate::text::text_eq;

verus! {

/// How long an administrator session lasts, in seconds.
pub const SESSION_TTL_SECONDS: u64 = 12 * 60 * 60;

/// What the back office knows of a player.
#[derive(Clone)]
pub struct PlayerAdminRecord {
    pub user_id: String,
    pub nickname: String,
    pub level: i32,
    pub coins: i32,
    pub current_stamina: i32,
    pub max_stamina: i32,
    pub score_2048: i32,
    pub score_match3: i32,
    pub score_make10: i32,
    pub ad_claim_date: String,
    pub ad_claims_today: i32,
    pub is_banned: bool,
    pub last_active_at: u64,
}

/// Whether a mini-game is open, and what to say while it is not.
#[derive(Clone)]
pub struct GameSwitch {
    pub game_id: String,
    pub title: String,
    pub enabled: bool,
    pub maintenance_message: String,
}

/// An administrator account.
#[derive(Clone)]
pub struct AdminAccount {
    pub username: String,
    pub password_hash: String,
    pub role: String,
    pub enabled: bool,
    pub created_at: u64,
}

/// A signed-in administrator.
#[derive(Clone)]
pub struct AdminSession {
    pub username: String,
    pub expires_at: u64,
}

/// One line of the audit trail.
#[derive(Clone)]
pub struct AuditLog {
    pub id: u64,
    pub at: u64,
    pub actor: String,
    pub event: String,
    pub detail: String,
}

/// Everything the back office keeps. Sessions are keyed by their token.
pub struct BackendState {
    pub players: Vec<PlayerAdminRecord>,
    pub ad_policy: AdRewardPolicy,
    pub game_switches: Vec<GameSwitch>,
    pub admin_accounts: Vec<AdminAccount>,
    pub sessions: Vec<(String, AdminSession)>,
    pub audit_logs: Vec<AuditLog>,
}

/// Why a request was refused.
#[derive(Clone, Copy, Debug, PartialEq, Eq, Structural)]
pub enum ApiError {
    Unauthorized,
    NotFound,
}

// ---------------------------------------------------------------------------
// Keys
// ---------------------------------------------------------------------------

/// Position of the first occurrence of `key` in `keys` from `k` on, or -1.
pub open spec fn slot_from(keys: Seq<Seq<char>>, key: Seq<char>, k: int) -> int
    decreases keys.len() - k,
{
    if k < 0 || k >= keys.len() {
        -1
    } else if keys[k] == key {
        k
    } else {
        slot_from(keys, key, k + 1)
    }
}

/// Position of `key` in `keys`, or -1 when it is absent.
pub open spec fn slot_of(keys: Seq<Seq<char>>, key: Seq<char>) -> int {
    slot_from(keys, key, 0)
}

/// No key occurs twice.
pub open spec fn distinct_keys(keys: Seq<Seq<char>>) -> bool {
    forall|i: int, j: int| 0 <= i < j < keys.len() ==> #[trigger] keys[i] != #[trigger] keys[j]
}

pub open spec fn player_ids(ps: Seq<PlayerAdminRecord>) -> Seq<Seq<char>> {
    ps.map_values(|p: PlayerAdminRecord| p.user_id@)
}

pub open spec fn game_ids(gs: Seq<GameSwitch>) -> Seq<Seq<char>> {
    gs.map_values(|g: GameSwitch| g.game_id@)
}

pub open spec fn account_names(accounts: Seq<AdminAccount>) -> Seq<Seq<char>> {
    accounts.map_values(|a: AdminAccount| a.username@)
}

pub open spec fn session_tokens(sessions: Seq<(String, AdminSession)>) -> Seq<Seq<char>> {
    sessions.map_values(|s: (String, AdminSession)| s.0@)
}

/// The facts about a slot: it is -1 exactly when the key is absent, and
/// otherwise holds the key, with no earlier occurrence.
pub proof fn lemma_slot(keys: Seq<Seq<char>>, key: Seq<char>)
    ensures
        slot_of(keys, key) == -1 <==> (forall|j: int| 0 <= j < keys.len() ==> keys[j] != key),
        slot_of(keys, key) != -1 ==> 0 <= slot_of(keys, key) < keys.len() && keys[slot_of(keys, key)]
            == key,
        forall|j: int| 0 <= j < slot_of(keys, key) ==> keys[j] != key,
{
    lemma_slot_from(keys, key, 0);
}

proof fn lemma_slot_from(keys: Seq<Seq<char>>, key: Seq<char>, k: int)
    requires
        0 <= k <= keys.len(),
    ensures
        slot_from(keys, key, k) == -1 <==> (forall|j: int| k <= j < keys.len() ==> keys[j] != key),
        slot_from(keys, key, k) != -1 ==> k <= slot_from(keys, key, k) < keys.len() && keys[slot_from(
            keys,
            key,
            k,
        )] == key,
        forall|j: int| k <= j < slot_from(keys, key, k) ==> keys[j] != key,
    decreases keys.len() - k,
{
    if k < keys.len() {
        lemma_slot_from(keys, key, k + 1);
    }
}

/// With distinct keys, the slot of a key is the one position that holds it.
pub proof fn lemma_slot_unique(keys: Seq<Seq<char>>, key: Seq<char>, i: int)
    requires
        distinct_keys(keys),
        0 <= i < keys.len(),
        keys[i] == key,
    ensures
        slot_of(keys, key) == i,
{
    lemma_slot(keys, key);
    let s = slot_of(keys, key);
    if s != i {
        if s < i {
            assert(keys[s] != keys[i]);
        } else {
            assert(keys[i] != keys[s]);
        }
    }
}

/// Index of the player with `id`, if any.
pub fn find_player(players: &Vec<PlayerAdminRecord>, id: &str) -> (r: Option<usize>)
    ensures
        match r {
            Some(k) => k < players@.len() && k as int == slot_of(player_ids(players@), id@),
            None => slot_of(player_ids(players@), id@) == -1,
        },
{
    let ghost keys = player_ids(players@);
    let mut k: usize = 0;
    while k < players.len()
        invariant
            k <= players@.len(),
            keys == player_ids(players@),
            slot_from(keys, id@, k as int) == slot_of(keys, id@),
        decreases players@.len() - k,
    {
        if text_eq(players[k].user_id.as_str(), id) {
            return Some(k);
        }
        k = k + 1;
    }
    None
}

/// Index of the switch of the game `id`, if any.
pub fn find_game_switch(games: &Vec<GameSwitch>, id: &str) -> (r: Option<usize>)
    ensures
        match r {
            Some(k) => k < games@.len() && k as int == slot_of(game_ids(games@), id@),
            None => slot_of(game_ids(games@), id@) == -1,
        },
{
    let ghost keys = game_ids(games@);
    let mut k: usize = 0;
    while k < games.len()
        invariant
            k <= games@.len(),
            keys == game_ids(games@),
            slot_from(keys, id@, k as int) == slot_of(keys, id@),
        decreases games@.len() - k,
    {
        if text_eq(games[k].game_id.as_str(), id) {
            return Some(k);
        }
        k = k + 1;
    }
    None
}

/// Index of the account named `name`, if any.
pub fn find_account(accounts: &Vec<AdminAccount>, name: &str) -> (r: Option<usize>)
    ensures
        match r {
            Some(k) => k < accounts@.len() && k as int == slot_of(account_names(accounts@), name@),
            None => slot_of(account_names(accounts@), name@) == -1,
        },
{
    let ghost keys = account_names(accounts@);
    let mut k: usize = 0;
    while k < accounts.len()
        invariant
            k <= accounts@.len(),
            keys == account_names(accounts@),
            slot_from(keys, name@, k as int) == slot_of(keys, name@),
        decreases accounts@.len() - k,
    {
        if text_eq(accounts[k].username.as_str(), name) {
            return Some(k);
        }
        k = k + 1;
    }
    None
}

/// Index of the session with `token`, if any.
pub fn find_session(sessions: &Vec<(String, AdminSession)>, token: &str) -> (r: Option<usize>)
    ensures
        match r {
            Some(k) => k < sessions@.len() && k as int == slot_of(session_tokens(sessions@), token@),
            None => slot_of(session_tokens(sessions@), token@) == -1,
        },
{
    let ghost keys = session_tokens(sessions@);
    let mut k: usize = 0;
    while k < sessions.len()
        invariant
            k <= sessions@.len(),
            keys == session_tokens(sessions@),
            slot_from(keys, token@, k as int) == slot_of(keys, token@),
        decreases sessions@.len() - k,
    {
        if text_eq(sessions[k].0.as_str(), token) {
            return Some(k);
        }
        k = k + 1;
    }
    None
}

// ---------------------------------------------------------------------------
// Well-formedness
// ---------------------------------------------------------------------------

/// Audit log ids run 1, 2, 3, ... in order.
pub open spec fn ids_consecutive(logs: Seq<AuditLog>) -> bool {
    forall|k: int| 0 <= k < logs.len() ==> #[trigger] logs[k].id == k + 1
}

impl BackendState {
    /// Every table holds each key at most once, advert claim counters are
    /// never negative, and the audit log is numbered from 1 without gaps.
    pub open spec fn well_formed(&self) -> bool {
        &&& distinct_keys(player_ids(self.players@))
        &&& distinct_keys(game_ids(self.game_switches@))
        &&& distinct_keys(account_names(self.admin_accounts@))
        &&& distinct_keys(session_tokens(self.sessions@))
        &&& forall|k: int| 0 <= k < self.players@.len() ==> #[trigger] self.players@[k].ad_claims_today >= 0
        &&& ids_consecutive(self.audit_logs@)
    }
}

// ---------------------------------------------------------------------------
// Copies
// ---------------------------------------------------------------------------

impl PlayerAdminRecord {
    /// A field-by-field copy.
    pub fn duplicate(&self) -> (r: Self)
        ensures
            r == *self,
    {
        PlayerAdminRecord {
            user_id: self.user_id.clone(),
            nickname: self.nickname.clone(),
            level: self.level,
            coins: self.coins,
            current_stamina: self.current_stamina,
            max_stamina: self.max_stamina,
            score_2048: self.score_2048,
            score_match3: self.score_match3,
            score_make10: self.score_make10,
            ad_claim_date: self.ad_claim_date.clone(),
            ad_claims_today: self.ad_claims_today,
            is_banned: self.is_banned,
            last_active_at: self.last_active_at,
        }
    }
}

impl GameSwitch {
    /// A field-by-field copy.
    pub fn duplicate(&self) -> (r: Self)
        ensures
            r == *self,
    {
        GameSwitch {
            game_id: self.game_id.clone(),
            title: self.title.clone(),
            enabled: self.enabled,
            maintenance_message: self.maintenance_message.clone(),
        }
    }
}

impl AuditLog {
    /// A field-by-field copy.
    pub fn duplicate(&self) -> (r: Self)
        ensures
            r == *self,
    {
        AuditLog {
            id: self.id,
            at: self.at,
            actor: self.actor.clone(),
            event: self.event.clone(),
            detail: self.detail.clone(),
        }
    }
}

/// A field-by-field copy of the advert policy.
pub fn duplicate_policy(p: &AdRewardPolicy) -> (r: AdRewardPolicy)
    ensures
        r == *p,
{
    AdRewardPolicy {
        placement_id: p.placement_id.clone(),
        enabled: p.enabled,
        stamina_reward: p.stamina_reward,
        daily_limit: p.daily_limit,
        cooldown_seconds: p.cooldown_seconds,
    }
}

// ---------------------------------------------------------------------------
// The audit log
// ---------------------------------------------------------------------------

/// The id the next audit line gets: one past the last, or 1 for the first.
pub open spec fn next_log_id(logs: Seq<AuditLog>) -> int {
    if logs.len() == 0 { 1 } else { logs.last().id + 1 }
}

/// `new` is `old` with one line appended that records the given event.
pub open spec fn appended_log(
    old: Seq<AuditLog>,
    new: Seq<AuditLog>,
    at: u64,
    actor: Seq<char>,
    event: Seq<char>,
    detail: Seq<char>,
) -> bool {
    &&& new.len() == old.len() + 1
    &&& new.drop_last() == old
    &&& new.last().id == next_log_id(old)
    &&& new.last().at == at
    &&& new.last().actor@ == actor
    &&& new.last().event@ == event
    &&& new.last().detail@ == detail
}

/// Everything but the audit log is the same in both states.
pub open spec fn same_except_logs(a: &BackendState, b: &BackendState) -> bool {
    &&& a.players@ == b.players@
    &&& a.ad_policy == b.ad_policy
    &&& a.game_switches@ == b.game_switches@
    &&& a.admin_accounts@ == b.admin_accounts@
    &&& a.sessions@ == b.sessions@
}

/// Appends a line to the audit trail, stamped with `now`.
pub fn push_log_at(store: &mut BackendState, actor: &str, event: &str, detail: &str, now: u64)
    requires
        next_log_id(old(store).audit_logs@) <= u64::MAX,
    ensures
        appended_log(old(store).audit_logs@, final(store).audit_logs@, now, actor@, event@, detail@),
        same_except_logs(old(store), final(store)),
{
    let n = store.audit_logs.len();
    let id: u64 = if n == 0 { 1 } else { store.audit_logs[n - 1].id + 1 };
    store.audit_logs.push(AuditLog {
        id,
        at: now,
        actor: actor.to_owned(),
        event: event.to_owned(),
        detail: detail.to_owned(),
    });
    assert(store.audit_logs@.drop_last() =~= old(store).audit_logs@);
}

/// Appends a line to the audit trail, stamped with the wall clock.
pub fn push_log(store: &mut BackendState, actor: &str, event: &str, detail: &str)
    requires
        next_log_id(old(store).audit_logs@) <= u64::MAX,
    ensures
        exists|now: u64|
            appended_log(old(store).audit_logs@, final(store).audit_logs@, now, actor@, event@, detail@),
        same_except_logs(old(store), final(store)),
{
    let now = crate::clock::unix_now();
    push_log_at(store, actor, event, detail, now);
}

/// Appending a line keeps the numbering consecutive.
pub proof fn lemma_append_keeps_ids(
    old: Seq<AuditLog>,
    new: Seq<AuditLog>,
    at: u64,
    actor: Seq<char>,
    event: Seq<char>,
    detail: Seq<char>,
)
    requires
        ids_consecutive(old),
        appended_log(old, new, at, actor, event, detail),
    ensures
        ids_consecutive(new),
        new.last().id == new.len(),
{
    assert forall|k: int| 0 <= k < new.len() implies #[trigger] new[k].id == k + 1 by {
        if k < old.len() {
            assert(new[k] == new.drop_last()[k]);
        }
    }
}

// ---------------------------------------------------------------------------
// Responses
// ---------------------------------------------------------------------------

/// The answer to a sign-in attempt.
pub struct LoginResponse {
    pub success: bool,
    pub token: String,
    pub message: String,
    pub expires_at: u64,
}

impl LoginResponse {
    /// A refused sign-in with the given message.
    pub fn failed(message: &str) -> (r: Self)
        ensures
            !r.success,
            r.token@ == Seq::<char>::empty(),
            r.message@ == message@,
            r.expires_at == 0,
    {
        LoginResponse { success: false, token: String::new(), message: message.to_owned(), expires_at: 0 }
    }
}

/// The answer to an advert reward claim or a stamina grant.
pub struct AdRewardResponse {
    pub accepted: bool,
    pub message: String,
    pub current_stamina: i32,
    pub max_stamina: i32,
    pub claims_left_today: i32,
}

/// `r` refuses with `message` and reports no figures.
pub open spec fn is_rejection(r: AdRewardResponse, message: Seq<char>) -> bool {
    &&& !r.accepted
    &&& r.message@ == message
    &&& r.current_stamina == 0
    &&& r.max_stamina == 0
    &&& r.claims_left_today == 0
}

impl AdRewardResponse {
    /// A refusal with the given message.
    pub fn rejected(message: &str) -> (r: Self)
        ensures
            is_rejection(r, message@),
    {
        AdRewardResponse {
            accepted: false,
            message: message.to_owned(),
            current_stamina: 0,
            max_stamina: 0,
            claims_left_today: 0,
        }
    }

    /// The refusal for an unknown player.
    pub fn not_found() -> (r: Self)
        ensures
            is_rejection(r, "玩家不存在"@),
    {
        Self::rejected("玩家不存在")
    }
}

// ---------------------------------------------------------------------------
// Administrator sessions
// ---------------------------------------------------------------------------

/// The administrator that `token` signs in at time `now`: the session must
/// exist and not have expired, and its account must exist and be enabled.
pub open spec fn admin_of(store: &BackendState, token: Seq<char>, now: u64) -> Option<Seq<char>> {
    let s = slot_of(session_tokens(store.sessions@), token);
    if s < 0 {
        None
    } else {
        let session = store.sessions@[s].1;
        let a = slot_of(account_names(store.admin_accounts@), session.username@);
        if session.expires_at <= now {
            None
        } else if a < 0 || !store.admin_accounts@[a].enabled {
            None
        } else {
            Some(session.username@)
        }
    }
}

/// Checks an administrator token at time `now`, giving the administrator's
/// name.
pub fn require_admin_at(store: &BackendState, token: &str, now: u64) -> (r: Result<String, ApiError>)
    ensures
        match admin_of(store, token@, now) {
            None => r == Err::<String, ApiError>(ApiError::Unauthorized),
            Some(name) => r is Ok && r->Ok_0@ == name,
        },
{
    let s = match find_session(&store.sessions, token) {
        Some(s) => s,
        None => return Err(ApiError::Unauthorized),
    };
    if store.sessions[s].1.expires_at <= now {
        return Err(ApiError::Unauthorized);
    }
    let name = &store.sessions[s].1.username;
    match find_account(&store.admin_accounts, name.as_str()) {
        Some(a) => {
            if !store.admin_accounts[a].enabled {
                return Err(ApiError::Unauthorized);
            }
        },
        None => return Err(ApiError::Unauthorized),
    }
    Ok(name.clone())
}

/// Checks an administrator token against the wall clock.
pub fn require_admin(store: &BackendState, token: &str) -> (r: Result<String, ApiError>)
    ensures
        exists|now: u64|
            match #[trigger] admin_of(store, token@, now) {
                None => r == Err::<String, ApiError>(ApiError::Unauthorized),
                Some(name) => r is Ok && r->Ok_0@ == name,
            },
{
    let now = crate::clock::unix_now();
    require_admin_at(store, token, now)
}

// ---------------------------------------------------------------------------
// Mini-game payouts
// ---------------------------------------------------------------------------

/// Coins paid for a mini-game score: the score divided by the game's rate
/// (64 for 2048, 30 for match-3, 25 for make-10, 50 otherwise), rounded
/// toward zero and held to 0..=120.
pub open spec fn coin_reward(game_id: Seq<char>, score: i32) -> int {
    let rate: int = if game_id == "2048"@ {
        64
    } else if game_id == "match3"@ {
        30
    } else if game_id == "make10"@ {
        25
    } else {
        50
    };
    let s: int = score as int;
    let base: int = if s >= 0 { s / rate } else { -((-s) / rate) };
    if base < 0 { 0 } else if base > 120 { 120 } else { base }
}

/// Coins paid for finishing a mini-game with `score`.
pub fn minigame_coin_reward(game_id: &str, score: i32) -> (c: i32)
    ensures
        c == coin_reward(game_id@, score),
        0 <= c <= 120,
{
    let base: i32 = if text_eq(game_id, "2048") {
        score / 64
    } else if text_eq(game_id, "match3") {
        score / 30
    } else if text_eq(game_id, "make10") {
        score / 25
    } else {
        score / 50
    };
    if base < 0 { 0 } else if base > 120 { 120 } else { base }
}

// ---------------------------------------------------------------------------
// Sorted listings
// ---------------------------------------------------------------------------

/// `r` holds the entries of `s`, each exactly once, in the given order.
pub open spec fn arranged<T>(r: Seq<T>, s: Seq<T>, order: Seq<usize>) -> bool {
    &&& is_ordering(order, s.len())
    &&& r.len() == s.len()
    &&& forall|k: int| 0 <= k < r.len() ==> r[k] == s[#[trigger] order[k] as int]
}

/// The game switches listed by game id.
pub open spec fn games_by_id(r: Seq<GameSwitch>, s: Seq<GameSwitch>) -> bool {
    &&& exists|order: Seq<usize>| arranged(r, s, order)
    &&& forall|k: int, l: int| 0 <= k < l < r.len() ==> text_le(#[trigger] r[k].game_id@, #[trigger] r[l].game_id@)
}

/// The game switches of the store, ordered by game id.
pub fn sorted_game_switches(store: &BackendState) -> (r: Vec<GameSwitch>)
    ensures
        games_by_id(r@, store.game_switches@),
{
    let games = &store.game_switches;
    let mut keys: Vec<String> = Vec::new();
    let mut i: usize = 0;
    while i < games.len()
        invariant
            i <= games@.len(),
            keys@.len() == i,
            forall|k: int| 0 <= k < i ==> #[trigger] keys@[k] == games@[k].game_id,
        decreases games@.len() - i,
    {
        keys.push(games[i].game_id.clone());
        i = i + 1;
    }
    let order = sorted_order(&keys);
    let mut r: Vec<GameSwitch> = Vec::new();
    let mut j: usize = 0;
    while j < order.len()
        invariant
            is_ordering(order@, keys@.len()),
            keys@.len() == games@.len(),
            j <= order@.len(),
            r@.len() == j,
            forall|k: int| 0 <= k < j ==> r@[k] == games@[#[trigger] order@[k] as int],
        decreases order@.len() - j,
    {
        let g = games[order[j]].duplicate();
        r.push(g);
        j = j + 1;
    }
    proof {
        assert(arranged(r@, games@, order@));
        assert forall|k: int, l: int| 0 <= k < l < r@.len() implies text_le(
            #[trigger] r@[k].game_id@,
            #[trigger] r@[l].game_id@,
        ) by {
            assert(keys@[order@[k] as int] == games@[order@[k] as int].game_id);
            assert(keys@[order@[l] as int] == games@[order@[l] as int].game_id);
            assert(keys_sorted(keys@, order@));
        }
    }
    r
}

// ---------------------------------------------------------------------------
// Seeds
// ---------------------------------------------------------------------------

/// A switch that is open, with no maintenance message.
fn open_switch(game_id: &str, title: &str) -> (g: GameSwitch)
    ensures
        g.game_id@ == game_id@,
        g.title@ == title@,
        g.enabled,
        g.maintenance_message@ == Seq::<char>::empty(),
{
    GameSwitch {
        game_id: game_id.to_owned(),
        title: title.to_owned(),
        enabled: true,
        maintenance_message: String::new(),
    }
}

/// The three mini-games, all open.
pub fn seed_game_switches() -> (games: Vec<GameSwitch>)
    ensures
        games@.len() == 3,
        games@[0].game_id@ == "2048"@ && games@[0].title@ == "2048 扫除拼图"@,
        games@[1].game_id@ == "match3"@ && games@[1].title@ == "开心消消乐"@,
        games@[2].game_id@ == "make10"@ && games@[2].title@ == "一不小心就到十"@,
        forall|k: int|
            0 <= k < 3 ==> #[trigger] games@[k].enabled && games@[k].maintenance_message@ == Seq::<
                char,
            >::empty(),
{
    let mut games: Vec<GameSwitch> = Vec::new();
    games.push(open_switch("2048", "2048 扫除拼图"));
    games.push(open_switch("match3", "开心消消乐"));
    games.push(open_switch("make10", "一不小心就到十"));
    games
}

} // verus!
