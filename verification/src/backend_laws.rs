//! Properties of the back office that span its operations.

use vstd::prelude::*;
use crate::backend::{
    account_names, admin_of, game_ids, lemma_slot, lemma_slot_unique, player_ids, session_tokens,
    slot_of, BackendState,
};
use crate::backend_admin::{
    grant_amount, login_done, policy_read, policy_updated, stamina_granted, switch_updated,
    LoginRequest, StaminaGrantRequest, UpdateGameSwitchRequest,
};
use crate::backend_ops::{
    claim_done, claims_on, finish_done, AdRewardRequest, GameActionRequest, GameActionResponse,
};
use crate::backend::{
    AdRewardResponse, ApiError, GameSwitch, LoginResponse,
};
use crate::models::AdRewardPolicy;

verus! {

/// A successful sign-in opens a session that the token signs in with, as the
/// same administrator, at every time from the sign-in until it expires.
pub proof fn law_sign_in_then_authorized(
    old: &BackendState,
    new: &BackendState,
    request: &LoginRequest,
    now: u64,
    nonce: u128,
    r: LoginResponse,
    t: u64,
)
    requires
        new.well_formed(),
        login_done(old, new, request, now, nonce, r),
        r.success,
        now <= t < r.expires_at,
    ensures
        admin_of(new, r.token@, t) == Some(request.username@),
{
    let names = account_names(old.admin_accounts@);
    let a = slot_of(names, request.username@);
    lemma_slot(names, request.username@);
    let account = old.admin_accounts@[a];
    let tokens_old = session_tokens(old.sessions@);
    let tokens_new = session_tokens(new.sessions@);
    let s = slot_of(tokens_old, r.token@);
    lemma_slot(tokens_old, r.token@);
    let k = if s < 0 { new.sessions@.len() - 1 } else { s };
    assert(new.sessions@[k].0@ == r.token@);
    assert(tokens_new[k] == r.token@);
    lemma_slot_unique(tokens_new, r.token@, k);
    assert(new.sessions@[k].1.username@ == account.username@);
    assert(names[a] == account.username@);
    assert(account_names(new.admin_accounts@) == names);
}

/// After the advert policy is replaced, reading it with the same token at the
/// same time gives back the policy that was written.
pub proof fn law_policy_write_then_read(
    old: &BackendState,
    new: &BackendState,
    token: Seq<char>,
    policy: AdRewardPolicy,
    now: u64,
    r: Result<AdRewardPolicy, ApiError>,
    read: Result<AdRewardPolicy, ApiError>,
)
    requires
        policy_updated(old, new, token, policy, now, r),
        r is Ok,
        policy_read(new, token, now, read),
    ensures
        read == Ok::<AdRewardPolicy, ApiError>(policy),
{
    assert(session_tokens(new.sessions@) == session_tokens(old.sessions@));
    assert(account_names(new.admin_accounts@) == account_names(old.admin_accounts@));
}

/// After a switch update, the game's switch is in the table as answered.
pub proof fn law_switch_write_then_found(
    old: &BackendState,
    new: &BackendState,
    token: Seq<char>,
    game_id: Seq<char>,
    request: &UpdateGameSwitchRequest,
    now: u64,
    r: Result<GameSwitch, ApiError>,
)
    requires
        new.well_formed(),
        switch_updated(old, new, token, game_id, request, now, r),
        r is Ok,
    ensures
        slot_of(game_ids(new.game_switches@), game_id) >= 0,
        new.game_switches@[slot_of(game_ids(new.game_switches@), game_id)] == r->Ok_0,
        r->Ok_0.enabled == request.enabled,
        r->Ok_0.maintenance_message@ == request.maintenance_message@,
{
    let before = game_ids(old.game_switches@);
    let after = game_ids(new.game_switches@);
    let s = slot_of(before, game_id);
    lemma_slot(before, game_id);
    let k = if s < 0 { new.game_switches@.len() - 1 } else { s };
    assert(after[k] == game_id);
    lemma_slot_unique(after, game_id, k);
}

/// An accepted advert claim counts at most the daily limit for the day,
/// leaves stamina at or below the maximum, and reports the claims left.
pub proof fn law_accepted_claim_within_limits(
    old: &BackendState,
    new: &BackendState,
    request: &AdRewardRequest,
    today: Seq<char>,
    now: u64,
    r: AdRewardResponse,
)
    requires
        old.well_formed(),
        claim_done(old, new, request, today, now, r),
        r.accepted,
    ensures
        ({
            let i = slot_of(player_ids(old.players@), request.user_id@);
            let q = new.players@[i];
            &&& 0 <= i < new.players@.len()
            &&& q.ad_claim_date@ == today
            &&& 1 <= q.ad_claims_today <= old.ad_policy.daily_limit
            &&& q.current_stamina <= q.max_stamina
            &&& r.current_stamina == q.current_stamina
            &&& r.claims_left_today == old.ad_policy.daily_limit - q.ad_claims_today
        }),
{
    let i = slot_of(player_ids(old.players@), request.user_id@);
    lemma_slot(player_ids(old.players@), request.user_id@);
    let p = old.players@[i];
    assert(p.ad_claims_today >= 0);
    assert(claims_on(p, today) >= 0);
}

/// Every player has made at most the daily limit of advert claims on `today`
/// and has no more stamina than the maximum.
pub open spec fn within_ad_limits(store: &BackendState, today: Seq<char>) -> bool {
    forall|j: int|
        0 <= j < store.players@.len() ==> {
            let p = #[trigger] store.players@[j];
            &&& (p.ad_claim_date@ != today || p.ad_claims_today <= store.ad_policy.daily_limit)
            &&& p.current_stamina <= p.max_stamina
        }
}

/// An advert claim, accepted or refused, keeps every player within the day's
/// limit and the stamina cap; so over any run of claims on one day no player
/// is granted more than the daily limit and stamina never passes the maximum.
/// The daily limit is taken to be at least zero: with a negative limit a
/// refusal on a new day records zero claims for the day, above the limit.
pub proof fn law_claims_keep_daily_limits(
    old: &BackendState,
    new: &BackendState,
    request: &AdRewardRequest,
    today: Seq<char>,
    now: u64,
    r: AdRewardResponse,
)
    requires
        old.ad_policy.daily_limit >= 0,
        within_ad_limits(old, today),
        claim_done(old, new, request, today, now, r),
    ensures
        within_ad_limits(new, today),
{
    let i = slot_of(player_ids(old.players@), request.user_id@);
    lemma_slot(player_ids(old.players@), request.user_id@);
    assert forall|j: int| 0 <= j < new.players@.len() implies {
        let q = #[trigger] new.players@[j];
        &&& (q.ad_claim_date@ != today || q.ad_claims_today <= new.ad_policy.daily_limit)
        &&& q.current_stamina <= q.max_stamina
    } by {
        let p = old.players@[j];
        assert(old.players@.len() == new.players@.len());
        assert(p.ad_claim_date@ != today || p.ad_claims_today <= old.ad_policy.daily_limit);
    }
}

/// A refused advert claim grants nothing: no player's stamina changes and
/// nothing is logged.
pub proof fn law_refused_claim_grants_nothing(
    old: &BackendState,
    new: &BackendState,
    request: &AdRewardRequest,
    today: Seq<char>,
    now: u64,
    r: AdRewardResponse,
)
    requires
        claim_done(old, new, request, today, now, r),
        !r.accepted,
    ensures
        new.players@.len() == old.players@.len(),
        forall|j: int|
            0 <= j < old.players@.len() ==> #[trigger] new.players@[j].current_stamina
                == old.players@[j].current_stamina,
        new.audit_logs@ == old.audit_logs@,
{
}

/// A stamina grant never leaves a player above the maximum, and never takes
/// stamina away from a player who was at or below it.
pub proof fn law_grant_caps_stamina(
    old: &BackendState,
    new: &BackendState,
    token: Seq<char>,
    user_id: Seq<char>,
    request: &StaminaGrantRequest,
    now: u64,
    r: Result<AdRewardResponse, ApiError>,
)
    requires
        stamina_granted(old, new, token, user_id, request, now, r),
        r is Ok,
        r->Ok_0.accepted,
    ensures
        ({
            let i = slot_of(player_ids(old.players@), user_id);
            let p = old.players@[i];
            let q = new.players@[i];
            &&& q.current_stamina <= q.max_stamina
            &&& p.current_stamina <= p.max_stamina ==> p.current_stamina <= q.current_stamina
            &&& q.current_stamina <= p.current_stamina + grant_amount(request.amount)
        }),
{
}

/// Settling a mini-game never lowers a best score and never takes coins
/// away.
pub proof fn law_settlement_never_lowers(
    old: &BackendState,
    new: &BackendState,
    request: &GameActionRequest,
    now: u64,
    r: GameActionResponse,
)
    requires
        finish_done(old, new, request, now, r),
    ensures
        new.players@.len() == old.players@.len(),
        forall|j: int|
            0 <= j < old.players@.len() ==> {
                let p = old.players@[j];
                let q = #[trigger] new.players@[j];
                &&& p.score_2048 <= q.score_2048
                &&& p.score_match3 <= q.score_match3
                &&& p.score_make10 <= q.score_make10
                &&& p.coins <= q.coins
            },
{
}

} // verus!
