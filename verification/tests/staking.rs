use defi_contracts::account::Account;
use defi_contracts::staking::{StakeInfo, StakingContract, StakingError, SCALAR};

fn acct(tag: u8) -> Account {
    Account::new(vec![0, 0, 0, 18, 0, 0, 0, 1, tag])
}

#[test]
fn test_staking_rewards_and_penalty() {
    let daily_rate = 100 * SCALAR / (24 * 60 * 60);
    let (config, total) = StakingContract::initialize(&None, acct(1), acct(2), acct(3), daily_rate, 1000, 10).unwrap();
    let config = Some(config);

    // the user's whole balance of 1000 is staked
    let staked = StakingContract::stake(&config, total, None, 1000, 0).unwrap();
    assert_eq!(staked.stake, StakeInfo { amount: 1000, start_ts: 0, last_claim_ts: 0 });
    assert_eq!(staked.total_staked, 1000);
    assert_eq!(staked.rewards_paid, None);

    let pending = StakingContract::get_pending_rewards(&config, Some(staked.stake), 500).unwrap();
    assert!(pending > 0);

    // early exit: 10% penalty, 900 returned, rewards paid too
    let out = StakingContract::unstake(&config, staked.total_staked, Some(staked.stake), 500).unwrap();
    assert_eq!(out.returned, 900);
    assert_eq!(out.penalty, Some(100));
    assert_eq!(out.total_staked, 0);
    assert!(out.rewards_paid.unwrap() > 0);
    assert_eq!(out.rewards_paid, Some(pending));

    // restake 1000, then leave after the lock-up: no penalty
    let staked2 = StakingContract::stake(&config, out.total_staked, None, 1000, 500).unwrap();
    assert_eq!(staked2.stake.amount, 1000);
    let out2 = StakingContract::unstake(&config, staked2.total_staked, Some(staked2.stake), 2000).unwrap();
    assert_eq!(out2.returned, 1000);
    assert_eq!(out2.penalty, None);
}

#[test]
fn test_autopayout_on_restake() {
    let (config, total) = StakingContract::initialize(&None, acct(1), acct(2), acct(3), SCALAR, 0, 0).unwrap();
    let config = Some(config);
    let first = StakingContract::stake(&config, total, None, 1000, 0).unwrap();
    assert_eq!(first.rewards_paid, None);
    let second = StakingContract::stake(&config, first.total_staked, Some(first.stake), 1000, 100).unwrap();
    // (1000 * 1_000_000 * 100) / 1_000_000
    assert_eq!(second.rewards_paid, Some(100_000));
    assert_eq!(second.stake, StakeInfo { amount: 2000, start_ts: 100, last_claim_ts: 100 });
    assert_eq!(second.total_staked, 2000);
}

#[test]
fn test_prevent_re_init() {
    let (config, _) = StakingContract::initialize(&None, acct(1), acct(1), acct(1), 1, 0, 0).unwrap();
    let again = StakingContract::initialize(&Some(config), acct(1), acct(1), acct(1), 1, 0, 0);
    assert_eq!(again, Err(StakingError::AlreadyInitialized));
    assert_eq!(again.unwrap_err().message(), "Already initialized");
}

#[test]
fn penalty_rate_must_be_a_percentage() {
    assert_eq!(
        StakingContract::initialize(&None, acct(1), acct(2), acct(3), 1, 0, 101),
        Err(StakingError::PenaltyRateOutOfRange)
    );
    assert_eq!(
        StakingContract::initialize(&None, acct(1), acct(2), acct(3), 1, 0, -1),
        Err(StakingError::PenaltyRateOutOfRange)
    );
    assert!(StakingContract::initialize(&None, acct(1), acct(2), acct(3), 1, 0, 100).is_ok());
}

#[test]
fn reward_formula_values() {
    let s = StakeInfo { amount: 1000, start_ts: 0, last_claim_ts: 10 };
    assert_eq!(StakingContract::calculate_rewards(1157, &s, 510), Ok(578));
    assert_eq!(StakingContract::calculate_rewards(1157, &s, 10), Ok(0));
    assert_eq!(StakingContract::calculate_rewards(1157, &s, 5), Ok(0));
    // negative rates round toward zero
    assert_eq!(StakingContract::calculate_rewards(-1, &s, 1010), Ok(-1));
    let empty = StakeInfo { amount: 0, start_ts: 0, last_claim_ts: 0 };
    assert_eq!(StakingContract::calculate_rewards(1157, &empty, 510), Ok(0));
    let big = StakeInfo { amount: i128::MAX, start_ts: 0, last_claim_ts: 0 };
    assert_eq!(StakingContract::calculate_rewards(2, &big, 1), Err(StakingError::Overflow));
}

#[test]
fn staking_rejections() {
    let (config, total) = StakingContract::initialize(&None, acct(1), acct(2), acct(3), 1, 0, 0).unwrap();
    assert_eq!(StakingContract::stake(&Some(config), total, None, 0, 0), Err(StakingError::AmountNotPositive));
    assert_eq!(StakingContract::stake(&None, 0, None, 10, 0), Err(StakingError::NotInitialized));
    assert_eq!(StakingContract::unstake(&None, 0, None, 0), Err(StakingError::NoStakeFound));
    let zero = StakeInfo { amount: 0, start_ts: 0, last_claim_ts: 0 };
    assert_eq!(StakingContract::unstake(&None, 0, Some(zero), 0), Err(StakingError::ZeroBalance));
    let some = StakeInfo { amount: 5, start_ts: 0, last_claim_ts: 0 };
    assert_eq!(StakingContract::unstake(&None, 5, Some(some), 0), Err(StakingError::NotInitialized));
    assert_eq!(StakingContract::claim_rewards(&None, None, 0), Err(StakingError::NoStakeFound));
    assert_eq!(StakingContract::get_stake_info(None), Err(StakingError::NoStakeFound));
    assert_eq!(StakingContract::get_stake_info(Some(some)), Ok(some));
}

#[test]
fn lock_up_end_overflow_is_refused() {
    let (config, _) = StakingContract::initialize(&None, acct(1), acct(2), acct(3), 0, u64::MAX, 0).unwrap();
    let s = StakeInfo { amount: 5, start_ts: 10, last_claim_ts: 10 };
    let r = StakingContract::unstake(&Some(config), 5, Some(s), 20);
    assert_eq!(r, Err(StakingError::AddOverflow));
    assert_eq!(r.unwrap_err().message(), "attempt to add with overflow");
}

#[test]
fn claim_pays_and_resets_clock() {
    let (config, total) = StakingContract::initialize(&None, acct(1), acct(2), acct(3), SCALAR, 0, 0).unwrap();
    let config = Some(config);
    let staked = StakingContract::stake(&config, total, None, 10, 0).unwrap();
    let claimed = StakingContract::claim_rewards(&config, Some(staked.stake), 7).unwrap();
    assert_eq!(claimed.rewards, 70);
    assert_eq!(claimed.rewards_paid, Some(70));
    assert_eq!(claimed.stake, StakeInfo { amount: 10, start_ts: 0, last_claim_ts: 7 });
    assert_eq!(StakingContract::get_pending_rewards(&config, Some(claimed.stake), 7), Ok(0));
    // nothing accrued: the position is unchanged
    let again = StakingContract::claim_rewards(&config, Some(claimed.stake), 7).unwrap();
    assert_eq!(again.rewards, 0);
    assert_eq!(again.rewards_paid, None);
    assert_eq!(again.stake, claimed.stake);
    // without a position, nothing is pending
    assert_eq!(StakingContract::get_pending_rewards(&config, None, 100), Ok(0));
}

#[test]
fn split_claims_never_pay_more() {
    let s = StakeInfo { amount: 3, start_ts: 0, last_claim_ts: 0 };
    let rate = 333_333;
    let whole = StakingContract::calculate_rewards(rate, &s, 3).unwrap();
    let part1 = StakingContract::calculate_rewards(rate, &s, 1).unwrap();
    let later = StakeInfo { last_claim_ts: 1, ..s };
    let part2 = StakingContract::calculate_rewards(rate, &later, 3).unwrap();
    assert_eq!(whole, 2);
    assert_eq!(part1 + part2, 1);
    assert!(part1 + part2 <= whole);
}

#[test]
fn penalty_rounds_toward_zero() {
    let (config, _) = StakingContract::initialize(&None, acct(1), acct(2), acct(3), 0, 100, 33).unwrap();
    let s = StakeInfo { amount: 10, start_ts: 0, last_claim_ts: 0 };
    let out = StakingContract::unstake(&Some(config), 10, Some(s), 99).unwrap();
    assert_eq!(out.penalty, Some(3));
    assert_eq!(out.returned, 7);
    assert_eq!(out.total_staked, 0);
}

#[test]
fn staking_arithmetic_failures_name_the_operation() {
    let (config, _) = StakingContract::initialize(&None, acct(1), acct(2), acct(3), 0, 100, 50).unwrap();
    let config = Some(config);
    let big = StakeInfo { amount: i128::MAX, start_ts: 0, last_claim_ts: 0 };
    let r = StakingContract::unstake(&config, i128::MAX, Some(big), 5);
    assert_eq!(r, Err(StakingError::MulOverflow));
    assert_eq!(r.unwrap_err().message(), "attempt to multiply with overflow");
    let r = StakingContract::stake(&config, i128::MAX, None, 1, 0);
    assert_eq!(r, Err(StakingError::AddOverflow));
    let s = StakeInfo { amount: 10, start_ts: 0, last_claim_ts: 0 };
    let r = StakingContract::unstake(&config, i128::MIN, Some(s), 500);
    assert_eq!(r, Err(StakingError::SubOverflow));
    assert_eq!(r.unwrap_err().message(), "attempt to subtract with overflow");
    let big_rate = StakeInfo { amount: i128::MAX, start_ts: 0, last_claim_ts: 0 };
    assert_eq!(StakingContract::calculate_rewards(2, &big_rate, 1), Err(StakingError::Overflow));
    assert_eq!(StakingError::Overflow.message(), "Overflow");
}

#[test]
fn total_staked_matches_sum_of_positions() {
    let (config, total) = StakingContract::initialize(&None, acct(1), acct(2), acct(3), SCALAR, 10, 20).unwrap();
    let config = Some(config);
    let alice = StakingContract::stake(&config, total, None, 300, 0).unwrap();
    let bob = StakingContract::stake(&config, alice.total_staked, None, 700, 1).unwrap();
    assert_eq!(bob.total_staked, alice.stake.amount + bob.stake.amount);
    let alice2 = StakingContract::stake(&config, bob.total_staked, Some(alice.stake), 50, 5).unwrap();
    assert_eq!(alice2.total_staked, alice2.stake.amount + bob.stake.amount);
    let bob_out = StakingContract::unstake(&config, alice2.total_staked, Some(bob.stake), 6).unwrap();
    assert_eq!(bob_out.total_staked, alice2.stake.amount);
}
