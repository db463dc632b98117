use lending::{
    borrow, deposit_callback, initialize, provide_initial_liquidity, provide_liquidity,
    reclaim_liquidity, repay, LendingError, Token,
};

const POOL: u128 = 900;
const OWNER: u128 = 901;
const TOKEN_A: u128 = 1;
const TOKEN_B: u128 = 2;
const ALICE: u128 = 10;
const BOB: u128 = 11;

fn funded_state(fee: u128) -> lending::ContractState {
    let mut state = initialize(POOL, OWNER, fee, TOKEN_A, TOKEN_B);
    deposit_callback(&mut state, ALICE, true, Token::A, 1_000_000).unwrap();
    deposit_callback(&mut state, ALICE, true, Token::B, 1_000_000).unwrap();
    deposit_callback(&mut state, BOB, true, Token::A, 1_000_000).unwrap();
    deposit_callback(&mut state, BOB, true, Token::B, 1_000_000).unwrap();
    state
}

#[test]
fn initial_liquidity_scenario() {
    // Initial liquidity A=1000, B=1000 mints sqrt(1_000_000) = 1000 shares.
    let mut state = funded_state(0);
    provide_initial_liquidity(&mut state, ALICE, 1000, 1000).unwrap();
    assert_eq!(state.token_balances.get_amount_of(POOL, Token::A), 1000);
    assert_eq!(state.token_balances.get_amount_of(POOL, Token::B), 1000);
    assert_eq!(state.token_balances.get_amount_of(POOL, Token::Liquidity), 1000);
    assert_eq!(state.token_balances.get_amount_of(ALICE, Token::Liquidity), 1000);
    assert_eq!(state.token_balances.get_amount_of(ALICE, Token::A), 999_000);
    assert_eq!(state.token_balances.get_amount_of(ALICE, Token::B), 999_000);
}

#[test]
fn provide_liquidity_scenario() {
    // Providing 100 of A against reserves (1000, 1000, 1000 shares) takes an
    // equivalent B of 101 and mints 100 shares.
    let mut state = funded_state(0);
    provide_initial_liquidity(&mut state, ALICE, 1000, 1000).unwrap();
    provide_liquidity(&mut state, BOB, TOKEN_A, 100).unwrap();
    assert_eq!(state.token_balances.get_amount_of(BOB, Token::A), 999_900);
    assert_eq!(state.token_balances.get_amount_of(BOB, Token::B), 1_000_000 - 101);
    assert_eq!(state.token_balances.get_amount_of(BOB, Token::Liquidity), 100);
    assert_eq!(state.token_balances.get_amount_of(POOL, Token::A), 1100);
    assert_eq!(state.token_balances.get_amount_of(POOL, Token::B), 1101);
    assert_eq!(state.token_balances.get_amount_of(POOL, Token::Liquidity), 1100);
}

#[test]
fn provide_liquidity_requires_initialized_pool() {
    let mut state = funded_state(0);
    let result = provide_liquidity(&mut state, BOB, TOKEN_A, 100);
    assert_eq!(result, Err(LendingError::InsufficientLiquidity));
}

#[test]
fn zero_minted_liquidity_is_rejected() {
    let mut state = funded_state(0);
    assert_eq!(
        provide_initial_liquidity(&mut state, ALICE, 0, 1000),
        Err(LendingError::ZeroMintedLiquidity)
    );
    provide_initial_liquidity(&mut state, ALICE, 1000, 1000).unwrap();
    assert_eq!(
        provide_liquidity(&mut state, BOB, TOKEN_A, 0),
        Err(LendingError::ZeroMintedLiquidity)
    );
}

#[test]
fn double_initialization_is_rejected() {
    let mut state = funded_state(0);
    provide_initial_liquidity(&mut state, ALICE, 1000, 1000).unwrap();
    assert_eq!(
        provide_initial_liquidity(&mut state, BOB, 500, 500),
        Err(LendingError::AlreadyInitialized)
    );
}

#[test]
fn reclaim_partial_and_full() {
    let mut state = funded_state(0);
    provide_initial_liquidity(&mut state, ALICE, 1000, 2000).unwrap();
    let minted = state.token_balances.get_amount_of(ALICE, Token::Liquidity);
    assert_eq!(minted, 1414); // floor(sqrt(2_000_000))
    reclaim_liquidity(&mut state, ALICE, 707).unwrap();
    // Pro-rata, rounded down: floor(1000 * 707 / 1414), floor(2000 * 707 / 1414).
    assert_eq!(state.token_balances.get_amount_of(POOL, Token::A), 1000 - 500);
    assert_eq!(state.token_balances.get_amount_of(POOL, Token::B), 2000 - 1000);
    assert_eq!(state.token_balances.get_amount_of(ALICE, Token::Liquidity), 707);
    // Reclaiming the rest of the supply drains the reserves exactly.
    reclaim_liquidity(&mut state, ALICE, 707).unwrap();
    assert_eq!(state.token_balances.get_amount_of(POOL, Token::A), 0);
    assert_eq!(state.token_balances.get_amount_of(POOL, Token::B), 0);
    assert!(!state.token_balances.has_entry(POOL, Token::A));
    assert!(!state.token_balances.has_entry(POOL, Token::Liquidity));
    assert_eq!(state.token_balances.get_amount_of(ALICE, Token::A), 1_000_000);
    assert_eq!(state.token_balances.get_amount_of(ALICE, Token::B), 1_000_000);
}

#[test]
fn reclaim_more_than_held_fails() {
    let mut state = funded_state(0);
    provide_initial_liquidity(&mut state, ALICE, 1000, 1000).unwrap();
    assert_eq!(
        reclaim_liquidity(&mut state, ALICE, 1001),
        Err(LendingError::InsufficientBalance)
    );
}

#[test]
fn borrow_scenario() {
    // Borrowing 100 against 200 of collateral succeeds when the pool has
    // liquidity and the caller has no open position.
    let mut state = funded_state(0);
    provide_initial_liquidity(&mut state, ALICE, 1000, 1000).unwrap();
    borrow(&mut state, BOB, 200, 100, TOKEN_A).unwrap();
    assert_eq!(state.supplied_collateral.get(BOB), 200);
    assert_eq!(state.borrowed_liquidity.get(BOB), 100);
    assert_eq!(state.token_balances.get_amount_of(BOB, Token::A), 1_000_000 - 200);
    assert_eq!(state.token_balances.get_amount_of(BOB, Token::B), 1_000_000 + 100);
    assert_eq!(state.token_balances.get_amount_of(POOL, Token::A), 1200);
    assert_eq!(state.token_balances.get_amount_of(POOL, Token::B), 900);
}

#[test]
fn undercollateralized_borrow_fails() {
    let mut state = funded_state(0);
    provide_initial_liquidity(&mut state, ALICE, 1000, 1000).unwrap();
    let result = borrow(&mut state, BOB, 199, 100, TOKEN_A);
    assert_eq!(result, Err(LendingError::InsufficientCollateral));
    assert_eq!(state.supplied_collateral.get(BOB), 0);
    assert_eq!(state.token_balances.get_amount_of(BOB, Token::A), 1_000_000);
}

#[test]
fn borrow_requires_pool_liquidity() {
    let mut state = funded_state(0);
    assert_eq!(
        borrow(&mut state, BOB, 200, 100, TOKEN_A),
        Err(LendingError::InsufficientLiquidity)
    );
}

#[test]
fn borrow_before_repaying_is_rejected() {
    let mut state = funded_state(0);
    provide_initial_liquidity(&mut state, ALICE, 1000, 1000).unwrap();
    borrow(&mut state, BOB, 200, 100, TOKEN_A).unwrap();
    assert_eq!(
        borrow(&mut state, BOB, 400, 200, TOKEN_A),
        Err(LendingError::PositionAlreadyOpen)
    );
}

#[test]
fn repay_scenario() {
    // With fee=5 and supplied collateral 200, the borrower receives back 195
    // of the output token and the fee accumulator grows by 5.
    let mut state = funded_state(5);
    provide_initial_liquidity(&mut state, ALICE, 1000, 1000).unwrap();
    borrow(&mut state, BOB, 200, 100, TOKEN_A).unwrap();
    let bob_a_before = state.token_balances.get_amount_of(BOB, Token::A);
    let bob_b_before = state.token_balances.get_amount_of(BOB, Token::B);
    assert_eq!(state.collected_fees, 0);
    // Repaying in B hands the borrowed 100 of B back; the output token is A.
    repay(&mut state, BOB, TOKEN_B).unwrap();
    assert_eq!(state.collected_fees, 5);
    // The borrowed 100 of B went back; 195 of A came back.
    assert_eq!(state.token_balances.get_amount_of(BOB, Token::B), bob_b_before - 100);
    assert_eq!(state.token_balances.get_amount_of(BOB, Token::A), bob_a_before + 195);
    // The position is fully closed and pruned, whatever it held.
    assert_eq!(state.supplied_collateral.get(BOB), 0);
    assert_eq!(state.borrowed_liquidity.get(BOB), 0);
    assert!(!state.supplied_collateral.contains_key(BOB));
    assert!(!state.borrowed_liquidity.contains_key(BOB));
}

#[test]
fn repay_without_position_fails() {
    let mut state = funded_state(5);
    provide_initial_liquidity(&mut state, ALICE, 1000, 1000).unwrap();
    assert_eq!(repay(&mut state, BOB, TOKEN_A), Err(LendingError::NoOpenPosition));
}

#[test]
fn repay_with_fee_above_collateral_fails_cleanly() {
    // An open correctness question upstream: the collateral refund is a
    // checked subtraction, so a fee above the collateral fails loudly.
    let mut state = funded_state(300);
    provide_initial_liquidity(&mut state, ALICE, 1000, 1000).unwrap();
    borrow(&mut state, BOB, 200, 100, TOKEN_A).unwrap();
    assert_eq!(repay(&mut state, BOB, TOKEN_A), Err(LendingError::ArithmeticOverflow));
    // Nothing changed: the position is still open.
    assert_eq!(state.supplied_collateral.get(BOB), 200);
    assert_eq!(state.borrowed_liquidity.get(BOB), 100);
}

#[test]
fn borrow_and_repay_preserve_totals() {
    let mut state = funded_state(5);
    provide_initial_liquidity(&mut state, ALICE, 1000, 1000).unwrap();
    let accounts = [POOL, OWNER, ALICE, BOB];
    let total = |state: &lending::ContractState, token: Token| -> u128 {
        accounts
            .iter()
            .map(|a| state.token_balances.get_amount_of(*a, token))
            .sum()
    };
    let a_before = total(&state, Token::A);
    let b_before = total(&state, Token::B);
    let l_before = total(&state, Token::Liquidity);
    borrow(&mut state, BOB, 200, 100, TOKEN_A).unwrap();
    repay(&mut state, BOB, TOKEN_A).unwrap();
    assert_eq!(total(&state, Token::A), a_before);
    assert_eq!(total(&state, Token::B), b_before);
    assert_eq!(total(&state, Token::Liquidity), l_before);
}

#[test]
fn initialize_configures_the_state() {
    let state = initialize(POOL, OWNER, 7, TOKEN_A, TOKEN_B);
    assert_eq!(state.owner, OWNER);
    assert_eq!(state.fee, 7);
    assert_eq!(state.collected_fees, 0);
    assert_eq!(state.liquidity_pool_address, POOL);
    assert_eq!(state.token_balances.token_a_address, TOKEN_A);
    assert_eq!(state.token_balances.token_b_address, TOKEN_B);
    assert_eq!(state.token_balances.get_amount_of(POOL, Token::A), 0);
    assert!(matches!(
        LendingError::UnknownToken.as_str(),
        "unknown token"
    ));
}
