use defi_contracts::account::Account;
use defi_contracts::amm_pool::{AmmError, ConstantProductAMM, PoolState, PoolTokens};

fn acct(tag: u8) -> Account {
    Account::new(vec![0, 0, 0, 18, 0, 0, 0, 1, tag, tag, tag])
}

fn fresh_pool() -> (PoolTokens, PoolState) {
    ConstantProductAMM::initialize(&None, acct(1), acct(2)).unwrap()
}

#[test]
fn test_amm_flow() {
    let (tokens, pool) = fresh_pool();
    let token_a = tokens.token_a.clone();
    let tokens = Some(tokens);
    let mut user_lp: i128 = 0;

    // first deposit: lp = sqrt(1000 * 1000) = 1000
    let added = ConstantProductAMM::add_liquidity(&tokens, pool, user_lp, 1000, 1000).unwrap();
    assert_eq!(added.lp_minted, 1000);
    assert_eq!(added.pool.reserve_a, 1000);
    assert_eq!(added.pool.reserve_b, 1000);
    user_lp = added.lp_balance;

    // swap 100 of A with a minimum of 90 out
    let swapped = ConstantProductAMM::swap(&tokens, added.pool, &token_a, 100, 90).unwrap();
    assert_eq!(swapped.amount_out, 90);
    assert_eq!(swapped.pool.reserve_a, 1100);
    assert_eq!(swapped.pool.reserve_b, 910);

    // later deposit keeps the ratio: 100 of A with 82 of B, 90 shares
    let added2 = ConstantProductAMM::add_liquidity(&tokens, swapped.pool, user_lp, 100, 200).unwrap();
    assert_eq!(added2.lp_minted, 90);
    assert_eq!(added2.pool.reserve_a, 1200);
    assert_eq!(added2.pool.reserve_b, 910 + 82);
    user_lp = added2.lp_balance;

    let removed = ConstantProductAMM::remove_liquidity(&tokens, added2.pool, user_lp, 500).unwrap();
    assert!(removed.amount_a > 0);
    assert!(removed.amount_b > 0);
}

#[test]
fn test_swap_slippage() {
    let (tokens, pool) = fresh_pool();
    let token_a = tokens.token_a.clone();
    let tokens = Some(tokens);
    let added = ConstantProductAMM::add_liquidity(&tokens, pool, 0, 1000, 1000).unwrap();
    // expected out is 90, 95 is required
    let r = ConstantProductAMM::swap(&tokens, added.pool, &token_a, 100, 95);
    assert_eq!(r, Err(AmmError::SlippageLimitExceeded));
    assert_eq!(r.unwrap_err().message(), "Slippage limit exceeded");
}

#[test]
fn sqrt_is_floor_of_square_root() {
    assert_eq!(ConstantProductAMM::sqrt(0), 0);
    assert_eq!(ConstantProductAMM::sqrt(1), 1);
    assert_eq!(ConstantProductAMM::sqrt(3), 1);
    assert_eq!(ConstantProductAMM::sqrt(4), 2);
    assert_eq!(ConstantProductAMM::sqrt(15), 3);
    assert_eq!(ConstantProductAMM::sqrt(16), 4);
    assert_eq!(ConstantProductAMM::sqrt(17), 4);
    assert_eq!(ConstantProductAMM::sqrt(1_000_000), 1000);
    assert_eq!(ConstantProductAMM::sqrt(999_999), 999);
    assert_eq!(ConstantProductAMM::sqrt(i128::MAX), 13043817825332782212);
}

#[test]
fn initialize_orders_tokens_and_refuses_second_call() {
    let (tokens, pool) = ConstantProductAMM::initialize(&None, acct(9), acct(3)).unwrap();
    assert_eq!(tokens.token_a, acct(3));
    assert_eq!(tokens.token_b, acct(9));
    assert_eq!(pool, PoolState { reserve_a: 0, reserve_b: 0, lp_supply: 0 });
    let again = ConstantProductAMM::initialize(&Some(tokens), acct(1), acct(2));
    assert_eq!(again, Err(AmmError::AlreadyInitialized));
}

#[test]
fn operations_before_initialization_are_refused() {
    let pool = PoolState { reserve_a: 0, reserve_b: 0, lp_supply: 0 };
    assert_eq!(ConstantProductAMM::add_liquidity(&None, pool, 0, 10, 10), Err(AmmError::NotInitialized));
    assert_eq!(ConstantProductAMM::remove_liquidity(&None, pool, 5, 1), Err(AmmError::NotInitialized));
    assert_eq!(ConstantProductAMM::swap(&None, pool, &acct(1), 10, 0), Err(AmmError::NotInitialized));
    // the balance is checked before initialization
    assert_eq!(ConstantProductAMM::remove_liquidity(&None, pool, 0, 1), Err(AmmError::InsufficientLpBalance));
}

#[test]
fn swap_of_foreign_token_is_refused() {
    let (tokens, pool) = fresh_pool();
    let tokens = Some(tokens);
    let added = ConstantProductAMM::add_liquidity(&tokens, pool, 0, 1000, 1000).unwrap();
    let r = ConstantProductAMM::swap(&tokens, added.pool, &acct(7), 100, 0);
    assert_eq!(r, Err(AmmError::InvalidToken));
}

#[test]
fn swap_from_b_side_pays_out_token_a() {
    let (tokens, pool) = fresh_pool();
    let token_a = tokens.token_a.clone();
    let token_b = tokens.token_b.clone();
    let tokens = Some(tokens);
    let added = ConstantProductAMM::add_liquidity(&tokens, pool, 0, 2000, 1000).unwrap();
    let swapped = ConstantProductAMM::swap(&tokens, added.pool, &token_b, 100, 0).unwrap();
    // 2000 * 99700 / (1000 * 1000 + 99700) = 181.3 -> 181
    assert!(!swapped.a_in);
    assert_eq!(swapped.token_out, token_a);
    assert_eq!(swapped.amount_out, 181);
    assert_eq!(swapped.pool.reserve_a, 2000 - 181);
    assert_eq!(swapped.pool.reserve_b, 1100);
    let k_before = added.pool.reserve_a * added.pool.reserve_b;
    let k_after = swapped.pool.reserve_a * swapped.pool.reserve_b;
    assert!(k_after >= k_before);
}

#[test]
fn deposit_with_negative_product_is_refused() {
    let (tokens, pool) = fresh_pool();
    let r = ConstantProductAMM::add_liquidity(&Some(tokens), pool, 0, -4, 9);
    assert_eq!(r, Err(AmmError::NegativeSqrt));
}

#[test]
fn deposit_overflow_is_refused() {
    let (tokens, pool) = fresh_pool();
    let r = ConstantProductAMM::add_liquidity(&Some(tokens), pool, 0, i128::MAX, 2);
    assert_eq!(r, Err(AmmError::MulOverflow));
    assert_eq!(r.unwrap_err().message(), "attempt to multiply with overflow");
}

#[test]
fn arithmetic_failures_name_the_operation() {
    let (tokens, _) = fresh_pool();
    let tokens = Some(tokens);
    let pool = PoolState { reserve_a: i128::MAX - 5, reserve_b: 1000, lp_supply: 0 };
    let r = ConstantProductAMM::add_liquidity(&tokens, pool, 0, 10, 10);
    assert_eq!(r, Err(AmmError::AddOverflow));
    assert_eq!(r.unwrap_err().message(), "attempt to add with overflow");
    let pool = PoolState { reserve_a: 1, reserve_b: 1, lp_supply: -1 };
    let r = ConstantProductAMM::remove_liquidity(&tokens, pool, 0, i128::MIN);
    assert_eq!(r, Err(AmmError::DivOverflow));
    assert_eq!(r.unwrap_err().message(), "attempt to divide with overflow");
}

#[test]
fn deposit_on_empty_reserve_divides_by_zero() {
    let (tokens, _) = fresh_pool();
    let pool = PoolState { reserve_a: 0, reserve_b: 50, lp_supply: 10 };
    let r = ConstantProductAMM::add_liquidity(&Some(tokens), pool, 0, 5, 5);
    assert_eq!(r, Err(AmmError::DivisionByZero));
}

#[test]
fn deposit_limited_by_b_side() {
    let (tokens, _) = fresh_pool();
    let pool = PoolState { reserve_a: 1000, reserve_b: 500, lp_supply: 100 };
    // optimal B for 100 A is 50 > 20, so all 20 of B go in with 40 of A
    let r = ConstantProductAMM::add_liquidity(&Some(tokens), pool, 7, 100, 20).unwrap();
    assert_eq!(r.amount_a, 40);
    assert_eq!(r.amount_b, 20);
    assert_eq!(r.lp_minted, 4);
    assert_eq!(r.pool, PoolState { reserve_a: 1040, reserve_b: 520, lp_supply: 104 });
    assert_eq!(r.lp_balance, 11);
}

#[test]
fn withdrawal_beyond_balance_is_refused() {
    let (tokens, pool) = fresh_pool();
    let tokens = Some(tokens);
    let added = ConstantProductAMM::add_liquidity(&tokens, pool, 0, 1000, 1000).unwrap();
    let r = ConstantProductAMM::remove_liquidity(&tokens, added.pool, added.lp_balance, 1001);
    assert_eq!(r, Err(AmmError::InsufficientLpBalance));
}

#[test]
fn withdrawing_every_share_empties_the_pool() {
    let (tokens, pool) = fresh_pool();
    let tokens = Some(tokens);
    let added = ConstantProductAMM::add_liquidity(&tokens, pool, 0, 300, 1200).unwrap();
    assert_eq!(added.lp_minted, 600);
    let removed = ConstantProductAMM::remove_liquidity(&tokens, added.pool, added.lp_balance, 600).unwrap();
    assert_eq!((removed.amount_a, removed.amount_b), (300, 1200));
    assert_eq!(removed.pool, PoolState { reserve_a: 0, reserve_b: 0, lp_supply: 0 });
    assert_eq!(removed.lp_balance, 0);
}

#[test]
fn deposit_then_withdraw_returns_no_more_than_deposited() {
    let (tokens, _) = fresh_pool();
    let tokens = Some(tokens);
    let pool = PoolState { reserve_a: 1100, reserve_b: 910, lp_supply: 1000 };
    let added = ConstantProductAMM::add_liquidity(&tokens, pool, 0, 100, 200).unwrap();
    let removed = ConstantProductAMM::remove_liquidity(&tokens, added.pool, added.lp_balance, added.lp_minted).unwrap();
    assert!(removed.amount_a <= added.amount_a);
    assert!(removed.amount_b <= added.amount_b);
    assert_eq!(removed.lp_balance, 0);
}

#[test]
fn pool_info_reports_reserves_and_supply() {
    let pool = PoolState { reserve_a: 3, reserve_b: 4, lp_supply: 5 };
    assert_eq!(ConstantProductAMM::get_pool_info(&pool), (3, 4, 5));
}

#[test]
fn error_messages_match_the_contract() {
    assert_eq!(AmmError::AlreadyInitialized.message(), "Already initialized");
    assert_eq!(AmmError::NotInitialized.message(), "Not init");
    assert_eq!(AmmError::InsufficientLpBalance.message(), "Insufficient LP balance");
    assert_eq!(AmmError::InvalidToken.message(), "Invalid token");
    assert_eq!(AmmError::NegativeSqrt.message(), "Negative sqrt");
}

#[test]
fn account_order_and_equality() {
    let a = Account::new(vec![1, 2, 3]);
    let b = Account::new(vec![1, 2, 4]);
    let c = Account::new(vec![1, 2]);
    assert!(a.precedes(&b));
    assert!(!b.precedes(&a));
    assert!(c.precedes(&a));
    assert!(!a.precedes(&a));
    assert!(a.same_as(&a.duplicate()));
    assert!(!a.same_as(&c));
}

#[test]
fn supply_matches_sum_of_balances_and_reserves_match_holdings() {
    let (tokens, pool) = fresh_pool();
    let token_a = tokens.token_a.clone();
    let tokens = Some(tokens);
    let (mut held_a, mut held_b): (i128, i128) = (0, 0);
    let first = ConstantProductAMM::add_liquidity(&tokens, pool, 0, 400, 900).unwrap();
    held_a += first.amount_a;
    held_b += first.amount_b;
    let second = ConstantProductAMM::add_liquidity(&tokens, first.pool, 0, 100, 500).unwrap();
    held_a += second.amount_a;
    held_b += second.amount_b;
    let (alice, bob) = (first.lp_balance, second.lp_balance);
    assert_eq!(second.pool.lp_supply, alice + bob);
    let swapped = ConstantProductAMM::swap(&tokens, second.pool, &token_a, 50, 0).unwrap();
    held_a += 50;
    held_b -= swapped.amount_out;
    let removed = ConstantProductAMM::remove_liquidity(&tokens, swapped.pool, bob, bob / 2).unwrap();
    held_a -= removed.amount_a;
    held_b -= removed.amount_b;
    assert_eq!(removed.pool.lp_supply, alice + removed.lp_balance);
    assert_eq!((removed.pool.reserve_a, removed.pool.reserve_b), (held_a, held_b));
}
