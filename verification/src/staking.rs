use vstd::prelude::*;
use crate::account::Account;
use crate::ledger::{map_total, lemma_map_total_insert, lemma_map_total_remove};
use crate::arith::{fits_i128, tdiv, lemma_div_bounds, lemma_div_at_most};

verus! {

/// Scale of the reward rate: a rate of `SCALAR` pays one reward unit per
/// staked unit per second.
pub const SCALAR: i128 = 1_000_000;

/// A user's position: the amount staked, when the lock-up started, and
/// when rewards were last paid.
#[derive(Clone, Copy, Debug, PartialEq, Eq, Structural)]
pub struct StakeInfo {
    pub amount: i128,
    pub start_ts: u64,
    pub last_claim_ts: u64,
}

/// The pool's parameters, fixed at initialization.
#[derive(Clone, Debug, PartialEq, Eq)]
pub struct StakingConfig {
    pub admin: Account,
    pub staking_token: Account,
    pub reward_token: Account,
    /// rewards per staked unit per second, scaled by `SCALAR`
    pub reward_rate: i128,
    /// seconds a stake must stay to be withdrawn without penalty
    pub lock_up_period: u64,
    /// percentage of the stake withheld on an early withdrawal (0 to 100)
    pub penalty_rate: i128,
}

/// Why a staking operation is rejected.
#[derive(Clone, Copy, Debug, PartialEq, Eq, Structural)]
pub enum StakingError {
    AlreadyInitialized,
    PenaltyRateOutOfRange,
    NotInitialized,
    AmountNotPositive,
    NoStakeFound,
    ZeroBalance,
    Overflow,
    AddOverflow,
    SubOverflow,
    MulOverflow,
}

/// The text a rejection is reported with.
pub open spec fn staking_error_text(e: StakingError) -> Seq<char> {
    match e {
        StakingError::AlreadyInitialized => "Already initialized"@,
        StakingError::PenaltyRateOutOfRange => "Penalty rate must be between 0 and 100"@,
        StakingError::NotInitialized => "Not init"@,
        StakingError::AmountNotPositive => "Must stake more than zero"@,
        StakingError::NoStakeFound => "No stake found"@,
        StakingError::ZeroBalance => "Zero balance"@,
        StakingError::Overflow => "Overflow"@,
        StakingError::AddOverflow => "attempt to add with overflow"@,
        StakingError::SubOverflow => "attempt to subtract with overflow"@,
        StakingError::MulOverflow => "attempt to multiply with overflow"@,
    }
}

impl StakingError {
    /// The message the contract aborts with.
    pub fn message(&self) -> (r: &'static str)
        ensures
            r@ == staking_error_text(*self),
    {
        match self {
            StakingError::AlreadyInitialized => "Already initialized",
            StakingError::PenaltyRateOutOfRange => "Penalty rate must be between 0 and 100",
            StakingError::NotInitialized => "Not init",
            StakingError::AmountNotPositive => "Must stake more than zero",
            StakingError::NoStakeFound => "No stake found",
            StakingError::ZeroBalance => "Zero balance",
            StakingError::Overflow => "Overflow",
            StakingError::AddOverflow => "attempt to add with overflow",
            StakingError::SubOverflow => "attempt to subtract with overflow",
            StakingError::MulOverflow => "attempt to multiply with overflow",
        }
    }
}

/// What a stake does: the rewards paid out first (if any), the position
/// afterwards and the new total staked.
#[derive(Clone, Copy, Debug, PartialEq, Eq, Structural)]
pub struct StakeOutcome {
    pub rewards_paid: Option<i128>,
    pub stake: StakeInfo,
    pub total_staked: i128,
}

/// What a withdrawal does: the rewards paid out (if any), the penalty kept
/// (if the lock-up had not ended), the principal returned and the new total
/// staked. The position is removed.
#[derive(Clone, Copy, Debug, PartialEq, Eq, Structural)]
pub struct UnstakeOutcome {
    pub rewards_paid: Option<i128>,
    pub penalty: Option<i128>,
    pub returned: i128,
    pub total_staked: i128,
}

/// What a claim does: the rewards computed, the rewards paid out (only
/// when positive), and the position afterwards.
#[derive(Clone, Copy, Debug, PartialEq, Eq, Structural)]
pub struct ClaimOutcome {
    pub rewards: i128,
    pub rewards_paid: Option<i128>,
    pub stake: StakeInfo,
}

/// The reward rate in force: the configured one, or zero before
/// initialization.
pub open spec fn rate_of(config: Option<StakingConfig>) -> i128 {
    match config {
        Some(c) => c.reward_rate,
        None => 0,
    }
}

/// The rewards accrued by `stake` at time `now`:
/// `amount * rate * (now - last_claim_ts) / SCALAR`, rounded toward zero,
/// and nothing for an empty position or when no time has passed. `None`
/// when the product does not fit.
pub open spec fn rewards_spec(rate: i128, stake: StakeInfo, now: u64) -> Option<i128> {
    if stake.amount <= 0 || now <= stake.last_claim_ts {
        Some(0)
    } else {
        let elapsed = now - stake.last_claim_ts;
        if !fits_i128(stake.amount * rate) || !fits_i128(stake.amount * rate * elapsed) {
            None
        } else {
            Some(tdiv(stake.amount * rate * elapsed, SCALAR as int) as i128)
        }
    }
}

/// The effect of staking `amount` more at time `now`.
pub open spec fn stake_spec(config: Option<StakingConfig>, total_staked: i128, current: Option<StakeInfo>, amount: i128, now: u64) -> Result<StakeOutcome, StakingError> {
    let position = match current {
        Some(s) => s,
        None => StakeInfo { amount: 0, start_ts: now, last_claim_ts: now },
    };
    let rewards = if position.amount > 0 { rewards_spec(rate_of(config), position, now) } else { Some(0) };
    if amount <= 0 {
        Err(StakingError::AmountNotPositive)
    } else if config is None {
        Err(StakingError::NotInitialized)
    } else if rewards is None {
        Err(StakingError::Overflow)
    } else if !fits_i128(position.amount + amount) || !fits_i128(total_staked + amount) {
        Err(StakingError::AddOverflow)
    } else {
        let paid = rewards->Some_0;
        Ok(StakeOutcome {
            rewards_paid: if paid > 0 { Some(paid) } else { None },
            stake: StakeInfo { amount: (position.amount + amount) as i128, start_ts: now, last_claim_ts: now },
            total_staked: (total_staked + amount) as i128,
        })
    }
}

/// The penalty on withdrawing `amount` early at `penalty_rate` percent,
/// rounded toward zero.
pub open spec fn penalty_of(amount: int, penalty_rate: int) -> int {
    tdiv(amount * penalty_rate, 100)
}

/// The effect of withdrawing the whole position at time `now`.
pub open spec fn unstake_spec(config: Option<StakingConfig>, total_staked: i128, current: Option<StakeInfo>, now: u64) -> Result<UnstakeOutcome, StakingError> {
    match current {
        None => Err(StakingError::NoStakeFound),
        Some(s) => {
            let rewards = rewards_spec(rate_of(config), s, now);
            let lock = match config { Some(c) => c.lock_up_period as int, None => 0 };
            let prate = match config { Some(c) => c.penalty_rate as int, None => 0 };
            let early = now < s.start_ts + lock;
            let penalty = penalty_of(s.amount as int, prate);
            if s.amount <= 0 {
                Err(StakingError::ZeroBalance)
            } else if rewards is None {
                Err(StakingError::Overflow)
            } else if rewards->Some_0 > 0 && config is None {
                Err(StakingError::NotInitialized)
            } else if s.start_ts + lock > u64::MAX {
                Err(StakingError::AddOverflow)
            } else if early && !fits_i128(s.amount * prate) {
                Err(StakingError::MulOverflow)
            } else if early && !fits_i128(s.amount - penalty) {
                Err(StakingError::SubOverflow)
            } else if config is None {
                Err(StakingError::NotInitialized)
            } else if !fits_i128(total_staked - s.amount) {
                Err(StakingError::SubOverflow)
            } else {
                let paid = rewards->Some_0;
                Ok(UnstakeOutcome {
                    rewards_paid: if paid > 0 { Some(paid) } else { None },
                    penalty: if early { Some(penalty as i128) } else { None },
                    returned: if early { (s.amount - penalty) as i128 } else { s.amount },
                    total_staked: (total_staked - s.amount) as i128,
                })
            }
        },
    }
}

/// The effect of claiming rewards at time `now`.
pub open spec fn claim_spec(config: Option<StakingConfig>, current: Option<StakeInfo>, now: u64) -> Result<ClaimOutcome, StakingError> {
    match current {
        None => Err(StakingError::NoStakeFound),
        Some(s) => match rewards_spec(rate_of(config), s, now) {
            None => Err(StakingError::Overflow),
            Some(r) => if r > 0 {
                if config is None {
                    Err(StakingError::NotInitialized)
                } else {
                    Ok(ClaimOutcome { rewards: r, rewards_paid: Some(r), stake: StakeInfo { last_claim_ts: now, ..s } })
                }
            } else {
                Ok(ClaimOutcome { rewards: r, rewards_paid: None, stake: s })
            },
        },
    }
}


/// The position amount of a possibly missing position.
pub open spec fn staked_amount(current: Option<StakeInfo>) -> int {
    match current {
        Some(s) => s.amount as int,
        None => 0,
    }
}

/// The total staked moves in step with the positions: staking adds the
/// staked amount to both the user's position and the total, withdrawing
/// removes the whole position from the total, and claiming leaves the
/// position's amount alone. So the total minus the sum of all positions
/// never changes.
pub proof fn lemma_total_tracks_positions(config: Option<StakingConfig>, total_staked: i128, current: Option<StakeInfo>, amount: i128, now: u64)
    ensures
        stake_spec(config, total_staked, current, amount, now) matches Ok(o) ==> {
            &&& o.total_staked - total_staked == amount
            &&& o.stake.amount - staked_amount(current) == amount
        },
        unstake_spec(config, total_staked, current, now) matches Ok(u) ==>
            total_staked - u.total_staked == staked_amount(current),
        claim_spec(config, current, now) matches Ok(c) ==> c.stake.amount == staked_amount(current),
{
}

/// How a stored position counts toward the total staked.
pub open spec fn stake_amount() -> spec_fn(StakeInfo) -> int {
    |s: StakeInfo| s.amount as int
}

/// The stored position of `who`, if any.
pub open spec fn position_of(positions: Map<Seq<u8>, StakeInfo>, who: Seq<u8>) -> Option<StakeInfo> {
    if positions.dom().contains(who) { Some(positions[who]) } else { None }
}

/// The stored total staked equals the sum of all stored positions.
pub open spec fn stakes_balanced(total_staked: i128, positions: Map<Seq<u8>, StakeInfo>) -> bool {
    &&& positions.dom().finite()
    &&& total_staked as int == map_total(positions, stake_amount())
}

/// The total staked stays equal to the sum of all positions across calls:
/// if it does before, it does after a stake by `who` (writing `who`'s new
/// position and the new total), after `who` withdraws (removing the
/// position and writing the new total), and after `who` claims (writing the
/// position back, the total unchanged).
pub proof fn lemma_total_staked_stays_balanced(
    config: Option<StakingConfig>,
    total_staked: i128,
    positions: Map<Seq<u8>, StakeInfo>,
    who: Seq<u8>,
    amount: i128,
    now: u64,
)
    requires
        stakes_balanced(total_staked, positions),
    ensures
        stake_spec(config, total_staked, position_of(positions, who), amount, now) matches Ok(o)
            ==> stakes_balanced(o.total_staked, positions.insert(who, o.stake)),
        unstake_spec(config, total_staked, position_of(positions, who), now) matches Ok(u)
            ==> stakes_balanced(u.total_staked, positions.remove(who)),
        claim_spec(config, position_of(positions, who), now) matches Ok(c)
            ==> stakes_balanced(total_staked, positions.insert(who, c.stake)),
{
    let current = position_of(positions, who);
    if let Ok(o) = stake_spec(config, total_staked, current, amount, now) {
        lemma_map_total_insert(positions, stake_amount(), who, o.stake);
    }
    if let Ok(u) = unstake_spec(config, total_staked, current, now) {
        lemma_map_total_remove(positions, stake_amount(), who);
        assert(positions.remove(who).dom() =~= positions.dom().remove(who));
    }
    if let Ok(c) = claim_spec(config, current, now) {
        lemma_map_total_insert(positions, stake_amount(), who, c.stake);
    }
}

/// The reward rate a configuration sets (zero when there is none).
pub open spec fn configured_rate(config: Option<StakingConfig>) -> int {
    match config {
        Some(c) => c.reward_rate as int,
        None => 0,
    }
}

/// Rewards accrued by a position of `amount` between its last claim at
/// `last_claim_ts` and `now`: `amount * rate * (now - last_claim_ts) /
/// SCALAR`, rounded toward zero, and nothing for an empty position or when
/// no time has passed since the last claim.
pub open spec fn accrued_since_last_claim(amount: int, rate: int, last_claim_ts: int, now: int) -> int {
    if amount > 0 && now > last_claim_ts {
        tdiv(amount * rate * (now - last_claim_ts), SCALAR as int)
    } else {
        0
    }
}

/// The accrued-rewards rule: whenever the rewards of a position can be
/// computed they are `amount * rate * (now - last_claim_ts) / SCALAR`
/// (nothing for an empty position or before the last claim), and for an
/// everyday position (amount up to 10^17, rate from 0 to 10^9, at most
/// 10^10 seconds since the last claim) they can always be computed.
pub proof fn lemma_reward_formula(rate: i128, s: StakeInfo, now: u64)
    ensures
        rewards_spec(rate, s, now) matches Some(r)
            ==> r == accrued_since_last_claim(s.amount as int, rate as int, s.last_claim_ts as int, now as int),
        (s.amount <= 100_000_000_000_000_000 && 0 <= rate <= 1_000_000_000
            && now <= s.last_claim_ts + 10_000_000_000) ==> rewards_spec(rate, s, now) is Some,
{
    if s.amount > 0 && s.amount <= 100_000_000_000_000_000 && 0 <= rate <= 1_000_000_000
        && now > s.last_claim_ts && now <= s.last_claim_ts + 10_000_000_000 {
        let e = now - s.last_claim_ts;
        assert(0 <= s.amount * rate <= 100_000_000_000_000_000_000_000_000) by (nonlinear_arith)
            requires 0 < s.amount <= 100_000_000_000_000_000, 0 <= rate <= 1_000_000_000;
        assert(0 <= s.amount * rate * e <= 1_000_000_000_000_000_000_000_000_000_000_000_000) by (nonlinear_arith)
            requires 0 <= s.amount * rate <= 100_000_000_000_000_000_000_000_000, 0 < e <= 10_000_000_000;
        lemma_div_bounds(s.amount * rate * e, SCALAR as int);
        assert((s.amount * rate * e) / (SCALAR as int) <= s.amount * rate * e) by (nonlinear_arith)
            requires ((s.amount * rate * e) / (SCALAR as int)) * (SCALAR as int) <= s.amount * rate * e,
                (s.amount * rate * e) / (SCALAR as int) >= 0;
    }
}

/// An everyday position in an initialized pool: amount, total and stake up
/// to 10^17, rate from 0 to 10^9, lock-up up to 10^10 seconds, start and
/// last claim up to 10^12, `now` at most 10^10 seconds after the last claim.
pub open spec fn everyday_position(config: StakingConfig, total_staked: i128, s: StakeInfo, now: u64) -> bool {
    &&& 0 <= total_staked <= 100_000_000_000_000_000
    &&& 0 <= s.amount <= 100_000_000_000_000_000
    &&& 0 <= config.reward_rate <= 1_000_000_000
    &&& 0 <= config.penalty_rate <= 100
    &&& config.lock_up_period <= 10_000_000_000
    &&& s.start_ts <= 1_000_000_000_000
    &&& s.last_claim_ts <= 1_000_000_000_000
    &&& now <= s.last_claim_ts + 10_000_000_000
}

/// Everyday staking, claiming and withdrawing go through. A stake of a
/// positive amount up to 10^17 succeeds; a claim succeeds; a withdrawal of
/// a non-empty position succeeds and returns the whole stake from the end
/// of the lock-up on, or the stake less `amount * penalty_rate / 100`
/// before it, taking the whole stake off the total.
pub proof fn lemma_everyday_operations_succeed(config: StakingConfig, total_staked: i128, s: StakeInfo, amount: i128, now: u64)
    requires
        everyday_position(config, total_staked, s, now),
    ensures
        0 < amount <= 100_000_000_000_000_000 ==> stake_spec(Some(config), total_staked, Some(s), amount, now) is Ok,
        claim_spec(Some(config), Some(s), now) is Ok,
        s.amount > 0 ==> (unstake_spec(Some(config), total_staked, Some(s), now) matches Ok(u) && {
            &&& u.total_staked == total_staked - s.amount
            &&& now >= s.start_ts + config.lock_up_period ==> u.returned == s.amount && u.penalty is None
            &&& now < s.start_ts + config.lock_up_period ==> u.returned == s.amount - (s.amount * config.penalty_rate) / 100
                && u.penalty == Some(((s.amount * config.penalty_rate) / 100) as i128)
        }),
{
    lemma_reward_formula(config.reward_rate, s, now);
    let a = s.amount as int;
    let r = config.penalty_rate as int;
    assert(0 <= a * r <= 100 * a) by (nonlinear_arith)
        requires 0 <= a, 0 <= r <= 100;
    if a > 0 {
        lemma_div_bounds(a * r, 100);
        lemma_div_at_most(a * r, 100, a);
    }
}

/// Staking restarts both clocks: a stake that goes through leaves a
/// position of the old amount plus `amount`, whose lock-up and reward clock
/// both start at `now`, raises the total by `amount`, and first pays what
/// the old position had accrued since its last claim (when positive). From
/// then on the new position accrues from `now`.
pub proof fn lemma_stake_restarts_clocks(config: Option<StakingConfig>, total_staked: i128, current: Option<StakeInfo>, amount: i128, now: u64, later: u64)
    ensures
        stake_spec(config, total_staked, current, amount, now) matches Ok(o) ==> {
            let old_amount: int = match current { Some(s) => s.amount as int, None => 0 };
            let accrued: int = match current {
                Some(s) => accrued_since_last_claim(s.amount as int, configured_rate(config), s.last_claim_ts as int, now as int),
                None => 0,
            };
            &&& o.stake.amount == old_amount + amount
            &&& o.stake.start_ts == now
            &&& o.stake.last_claim_ts == now
            &&& o.total_staked == total_staked + amount
            &&& o.rewards_paid == (if accrued > 0 { Some(accrued as i128) } else { None::<i128> })
            &&& rewards_spec(rate_of(config), o.stake, later) matches Some(r)
                ==> r == accrued_since_last_claim(o.stake.amount as int, configured_rate(config), now as int, later as int)
        },
{
}

/// A claim pays what accrued since the last claim: the rewards a claim
/// computes are `amount * rate * (now - last_claim_ts) / SCALAR` (nothing
/// when no time has passed), the stake's amount and lock-up start are kept,
/// and the reward clock restarts at `now` exactly when something is paid.
pub proof fn lemma_claim_pays_since_last_claim(config: Option<StakingConfig>, s: StakeInfo, now: u64)
    ensures
        claim_spec(config, Some(s), now) matches Ok(c) ==> {
            &&& c.rewards == accrued_since_last_claim(s.amount as int, configured_rate(config), s.last_claim_ts as int, now as int)
            &&& c.rewards_paid == (if c.rewards > 0 { Some(c.rewards) } else { None::<i128> })
            &&& c.stake.amount == s.amount
            &&& c.stake.start_ts == s.start_ts
            &&& c.stake.last_claim_ts == (if c.rewards > 0 { now } else { s.last_claim_ts })
        },
{
}

/// A withdrawal pays what accrued since the last claim: the rewards an
/// unstake pays are `amount * rate * (now - last_claim_ts) / SCALAR` when
/// that is positive, and nothing otherwise.
pub proof fn lemma_unstake_pays_since_last_claim(config: Option<StakingConfig>, total_staked: i128, s: StakeInfo, now: u64)
    ensures
        unstake_spec(config, total_staked, Some(s), now) matches Ok(u) ==> {
            let accrued = accrued_since_last_claim(s.amount as int, configured_rate(config), s.last_claim_ts as int, now as int);
            u.rewards_paid == (if accrued > 0 { Some(accrued as i128) } else { None::<i128> })
        },
{
}

/// Claiming first never adds to what a withdrawal pays: for a non-negative
/// stake and rate, the rewards of a claim at `t1` plus those of withdrawing
/// the resulting position at `t2` are at most what withdrawing the original
/// position at `t2` pays; likewise a claim at `t1` and another at `t2` pay
/// at most one claim at `t2`.
pub proof fn lemma_claim_then_settle_never_pays_more(config: Option<StakingConfig>, total_staked: i128, s: StakeInfo, t1: u64, t2: u64)
    requires
        configured_rate(config) >= 0,
        s.amount >= 0,
        s.last_claim_ts <= t1 <= t2,
    ensures
        claim_spec(config, Some(s), t1) matches Ok(c1) ==> {
            &&& unstake_spec(config, total_staked, Some(c1.stake), t2) matches Ok(u1) ==> (
                unstake_spec(config, total_staked, Some(s), t2) matches Ok(u) ==>
                    c1.rewards + (match u1.rewards_paid { Some(r) => r as int, None => 0 })
                        <= (match u.rewards_paid { Some(r) => r as int, None => 0 }))
            &&& claim_spec(config, Some(c1.stake), t2) matches Ok(c2) ==> (
                claim_spec(config, Some(s), t2) matches Ok(c) ==> c1.rewards + c2.rewards <= c.rewards)
        },
{
    let rate = rate_of(config);
    if let Ok(c1) = claim_spec(config, Some(s), t1) {
        if rewards_spec(rate, s, t2) is Some {
            lemma_split_claims_never_pay_more(rate, s, t1, t2);
            let later = StakeInfo { last_claim_ts: t1, ..s };
            if c1.rewards > 0 {
                assert(c1.stake == later);
            } else {
                // nothing was paid at t1: the clock did not move
                assert(rewards_spec(rate, s, t1) == Some(c1.rewards));
                assert(c1.stake == s);
            }
        }
    }
}

/// Early withdrawals pay the penalty, later ones do not: with a penalty
/// rate between 0 and 100, a withdrawal before `start_ts + lock_up_period`
/// keeps back `amount * penalty_rate / 100` (between zero and the stake)
/// and returns the rest; from that time on the whole stake is returned.
pub proof fn lemma_early_exit_penalty(config: StakingConfig, total_staked: i128, s: StakeInfo, now: u64)
    requires
        0 <= config.penalty_rate <= 100,
        unstake_spec(Some(config), total_staked, Some(s), now) is Ok,
    ensures
        ({
            let u = unstake_spec(Some(config), total_staked, Some(s), now)->Ok_0;
            &&& (u.penalty is Some) == (now < s.start_ts + config.lock_up_period)
            &&& u.penalty matches Some(p) ==> {
                &&& p == (s.amount * config.penalty_rate) / 100
                &&& 0 <= p <= s.amount
                &&& u.returned == s.amount - p
            }
            &&& u.penalty is None ==> u.returned == s.amount
            &&& 0 <= u.returned <= s.amount
        }),
{
    let a = s.amount as int;
    let r = config.penalty_rate as int;
    assert(0 <= a * r <= 100 * a) by (nonlinear_arith)
        requires a > 0, 0 <= r <= 100;
    lemma_div_bounds(a * r, 100);
    lemma_div_at_most(a * r, 100, a);
}

/// Claiming more often never pays more: the rewards for a period claimed in
/// two parts add up to at most the rewards claimed in one go (rounding
/// only loses), for a non-negative stake and rate.
pub proof fn lemma_split_claims_never_pay_more(rate: i128, s: StakeInfo, t1: u64, t2: u64)
    requires
        rate >= 0,
        s.amount >= 0,
        s.last_claim_ts <= t1 <= t2,
        rewards_spec(rate, s, t2) is Some,
    ensures
        ({
            let later = StakeInfo { last_claim_ts: t1, ..s };
            &&& rewards_spec(rate, s, t1) is Some
            &&& rewards_spec(rate, later, t2) is Some
            &&& 0 <= rewards_spec(rate, s, t1)->Some_0
            &&& 0 <= rewards_spec(rate, later, t2)->Some_0
            &&& rewards_spec(rate, s, t1)->Some_0 + rewards_spec(rate, later, t2)->Some_0
                <= rewards_spec(rate, s, t2)->Some_0
        }),
{
    let later = StakeInfo { last_claim_ts: t1, ..s };
    if s.amount > 0 && t2 > s.last_claim_ts {
        let p = s.amount * rate;
        let e1 = t1 - s.last_claim_ts;
        let e2 = t2 - t1;
        let e = t2 - s.last_claim_ts;
        assert(p >= 0) by (nonlinear_arith)
            requires p == s.amount * rate, s.amount > 0, rate >= 0;
        assert(0 <= p * e1 <= p * e && 0 <= p * e2 <= p * e && p * e1 + p * e2 == p * e) by (nonlinear_arith)
            requires p >= 0, e1 >= 0, e2 >= 0, e == e1 + e2;
        lemma_div_bounds(p * e1, SCALAR as int);
        lemma_div_bounds(p * e2, SCALAR as int);
        lemma_div_bounds(p * e, SCALAR as int);
        let q1 = (p * e1) / (SCALAR as int);
        let q2 = (p * e2) / (SCALAR as int);
        assert((q1 + q2) * (SCALAR as int) <= p * e) by (nonlinear_arith)
            requires q1 * (SCALAR as int) <= p * e1, q2 * (SCALAR as int) <= p * e2, p * e1 + p * e2 == p * e;
        assert(p * e < (q1 + q2 + 1) * (SCALAR as int) || q1 + q2 <= (p * e) / (SCALAR as int));
        if q1 + q2 > (p * e) / (SCALAR as int) {
            let q = (p * e) / (SCALAR as int);
            assert((q1 + q2) * (SCALAR as int) >= (q + 1) * (SCALAR as int)) by (nonlinear_arith)
                requires q1 + q2 >= q + 1;
        }
    }
}

/// A claim that pays out resets the accrual: right after it, nothing more
/// is pending at the same time. Staking likewise pays out what was pending
/// on the old position and leaves nothing pending.
pub proof fn lemma_payouts_reset_accrual(config: Option<StakingConfig>, total_staked: i128, current: Option<StakeInfo>, amount: i128, now: u64)
    ensures
        claim_spec(config, current, now) matches Ok(c) ==> (c.rewards > 0 ==>
            rewards_spec(rate_of(config), c.stake, now) == Some(0i128)),
        stake_spec(config, total_staked, current, amount, now) matches Ok(o) ==> {
            &&& rewards_spec(rate_of(config), o.stake, now) == Some(0i128)
            &&& (current matches Some(s) && s.amount > 0) ==> ({
                let pending = rewards_spec(rate_of(config), current->Some_0, now)->Some_0;
                o.rewards_paid == (if pending > 0 { Some(pending) } else { None::<i128> })
            })
        },
{
}

/// The rate configured, or zero before initialization.
fn rate_in_force(config: &Option<StakingConfig>) -> (r: i128)
    ensures
        r == rate_of(*config),
{
    match config {
        Some(c) => c.reward_rate,
        None => 0,
    }
}

/// Namespace of the staking pool's entry points.
pub struct StakingContract;

impl StakingContract {
    /// Sets the pool's parameters; the total staked starts at zero.
    /// Rejected if already initialized or if the penalty rate is not a
    /// percentage between 0 and 100.
    pub fn initialize(
        existing: &Option<StakingConfig>,
        admin: Account,
        staking_token: Account,
        reward_token: Account,
        reward_rate: i128,
        lock_up_period: u64,
        penalty_rate: i128,
    ) -> (r: Result<(StakingConfig, i128), StakingError>)
        ensures
            existing.is_some() ==> r == Err::<(StakingConfig, i128), StakingError>(StakingError::AlreadyInitialized),
            existing.is_none() && (penalty_rate < 0 || penalty_rate > 100) ==>
                r == Err::<(StakingConfig, i128), StakingError>(StakingError::PenaltyRateOutOfRange),
            existing.is_none() && 0 <= penalty_rate <= 100 ==> (r matches Ok((c, total)) && {
                &&& total == 0
                &&& c.admin@ == admin@
                &&& c.staking_token@ == staking_token@
                &&& c.reward_token@ == reward_token@
                &&& c.reward_rate == reward_rate
                &&& c.lock_up_period == lock_up_period
                &&& c.penalty_rate == penalty_rate
            }),
    {
        if existing.is_some() {
            return Err(StakingError::AlreadyInitialized);
        }
        if penalty_rate < 0 || penalty_rate > 100 {
            return Err(StakingError::PenaltyRateOutOfRange);
        }
        Ok((StakingConfig { admin, staking_token, reward_token, reward_rate, lock_up_period, penalty_rate }, 0))
    }

    /// Rewards accrued by `stake` at `now` at the given rate (scaled by
    /// `SCALAR`); rejected when the product does not fit.
    pub fn calculate_rewards(reward_rate: i128, stake: &StakeInfo, now: u64) -> (r: Result<i128, StakingError>)
        ensures
            match rewards_spec(reward_rate, *stake, now) {
                Some(v) => r == Ok::<i128, StakingError>(v),
                None => r == Err::<i128, StakingError>(StakingError::Overflow),
            },
    {
        if stake.amount <= 0 || now <= stake.last_claim_ts {
            return Ok(0);
        }
        let elapsed = now - stake.last_claim_ts;
        let scaled = match stake.amount.checked_mul(reward_rate) {
            Some(v) => v,
            None => return Err(StakingError::Overflow),
        };
        let total = match scaled.checked_mul(elapsed as i128) {
            Some(v) => v,
            None => return Err(StakingError::Overflow),
        };
        match total.checked_div(SCALAR) {
            Some(v) => Ok(v),
            None => Err(StakingError::Overflow),
        }
    }

    /// Adds `amount` to the user's position at time `now`. Rewards accrued
    /// on an existing position are paid out first (when positive); the
    /// lock-up and the reward clock restart at `now`.
    pub fn stake(
        config: &Option<StakingConfig>,
        total_staked: i128,
        current: Option<StakeInfo>,
        amount: i128,
        now: u64,
    ) -> (r: Result<StakeOutcome, StakingError>)
        ensures
            r == stake_spec(*config, total_staked, current, amount, now),
    {
        if amount <= 0 {
            return Err(StakingError::AmountNotPositive);
        }
        if config.is_none() {
            return Err(StakingError::NotInitialized);
        }
        let position = match current {
            Some(s) => s,
            None => StakeInfo { amount: 0, start_ts: now, last_claim_ts: now },
        };
        let mut rewards_paid: Option<i128> = None;
        if position.amount > 0 {
            let rewards = Self::calculate_rewards(rate_in_force(config), &position, now)?;
            if rewards > 0 {
                rewards_paid = Some(rewards);
            }
        }
        let new_amount = match position.amount.checked_add(amount) {
            Some(v) => v,
            None => return Err(StakingError::AddOverflow),
        };
        let new_total = match total_staked.checked_add(amount) {
            Some(v) => v,
            None => return Err(StakingError::AddOverflow),
        };
        Ok(StakeOutcome {
            rewards_paid,
            stake: StakeInfo { amount: new_amount, start_ts: now, last_claim_ts: now },
            total_staked: new_total,
        })
    }

    /// Withdraws the whole position at time `now`: accrued rewards are paid
    /// out (when positive), and before the lock-up has ended the penalty
    /// percentage of the stake is kept back.
    pub fn unstake(
        config: &Option<StakingConfig>,
        total_staked: i128,
        current: Option<StakeInfo>,
        now: u64,
    ) -> (r: Result<UnstakeOutcome, StakingError>)
        ensures
            r == unstake_spec(*config, total_staked, current, now),
    {
        let s = match current {
            None => return Err(StakingError::NoStakeFound),
            Some(s) => s,
        };
        if s.amount <= 0 {
            return Err(StakingError::ZeroBalance);
        }
        let rewards = Self::calculate_rewards(rate_in_force(config), &s, now)?;
        if rewards > 0 && config.is_none() {
            return Err(StakingError::NotInitialized);
        }
        let (lock, prate) = match config {
            Some(c) => (c.lock_up_period, c.penalty_rate),
            None => (0, 0),
        };
        let lock_end = match s.start_ts.checked_add(lock) {
            Some(v) => v,
            None => return Err(StakingError::AddOverflow),
        };
        let mut penalty: Option<i128> = None;
        let mut returned = s.amount;
        if now < lock_end {
            let scaled = match s.amount.checked_mul(prate) {
                Some(v) => v,
                None => return Err(StakingError::MulOverflow),
            };
            let p = match scaled.checked_div(100) {
                Some(v) => v,
                None => return Err(StakingError::Overflow),
            };
            returned = match s.amount.checked_sub(p) {
                Some(v) => v,
                None => return Err(StakingError::SubOverflow),
            };
            penalty = Some(p);
        }
        if config.is_none() {
            return Err(StakingError::NotInitialized);
        }
        let new_total = match total_staked.checked_sub(s.amount) {
            Some(v) => v,
            None => return Err(StakingError::SubOverflow),
        };
        Ok(UnstakeOutcome {
            rewards_paid: if rewards > 0 { Some(rewards) } else { None },
            penalty,
            returned,
            total_staked: new_total,
        })
    }

    /// Pays out the rewards accrued at time `now` without touching the
    /// stake. When they are positive the reward clock restarts at `now`;
    /// otherwise nothing changes. Returns the rewards computed either way.
    pub fn claim_rewards(config: &Option<StakingConfig>, current: Option<StakeInfo>, now: u64) -> (r: Result<ClaimOutcome, StakingError>)
        ensures
            r == claim_spec(*config, current, now),
    {
        let s = match current {
            None => return Err(StakingError::NoStakeFound),
            Some(s) => s,
        };
        let rewards = Self::calculate_rewards(rate_in_force(config), &s, now)?;
        if rewards > 0 {
            if config.is_none() {
                return Err(StakingError::NotInitialized);
            }
            return Ok(ClaimOutcome { rewards, rewards_paid: Some(rewards), stake: StakeInfo { last_claim_ts: now, ..s } });
        }
        Ok(ClaimOutcome { rewards, rewards_paid: None, stake: s })
    }

    /// The rewards a user would be paid at time `now`; a user without a
    /// position has none.
    pub fn get_pending_rewards(config: &Option<StakingConfig>, current: Option<StakeInfo>, now: u64) -> (r: Result<i128, StakingError>)
        ensures
            match current {
                None => r == Ok::<i128, StakingError>(0),
                Some(s) => match rewards_spec(rate_of(*config), s, now) {
                    Some(v) => r == Ok::<i128, StakingError>(v),
                    None => r == Err::<i128, StakingError>(StakingError::Overflow),
                },
            },
    {
        let s = match current {
            Some(s) => s,
            None => StakeInfo { amount: 0, start_ts: 0, last_claim_ts: 0 },
        };
        Self::calculate_rewards(rate_in_force(config), &s, now)
    }

    /// The user's position; rejected when there is none.
    pub fn get_stake_info(current: Option<StakeInfo>) -> (r: Result<StakeInfo, StakingError>)
        ensures
            match current {
                Some(s) => r == Ok::<StakeInfo, StakingError>(s),
                None => r == Err::<StakeInfo, StakingError>(StakingError::NoStakeFound),
            },
    {
        match current {
            Some(s) => Ok(s),
            None => Err(StakingError::NoStakeFound),
        }
    }
}

} // verus!
