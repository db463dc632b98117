use lending::{deposit_callback, initialize, withdraw, LendingError, Token};

const POOL: u128 = 900;
const OWNER: u128 = 901;
const TOKEN_A: u128 = 1;
const TOKEN_B: u128 = 2;
const ALICE: u128 = 10;
const BOB: u128 = 11;

#[test]
fn credit_then_get_returns_amount() {
    let mut state = initialize(POOL, OWNER, 0, TOKEN_A, TOKEN_B);
    assert_eq!(deposit_callback(&mut state, ALICE, true, Token::A, 250), Ok(()));
    assert_eq!(state.token_balances.get_amount_of(ALICE, Token::A), 250);
    assert_eq!(state.token_balances.get_amount_of(ALICE, Token::B), 0);
    assert_eq!(state.token_balances.get_amount_of(BOB, Token::A), 0);
}

#[test]
fn withdraw_debits_exactly() {
    let mut state = initialize(POOL, OWNER, 0, TOKEN_A, TOKEN_B);
    deposit_callback(&mut state, ALICE, true, Token::A, 250).unwrap();
    let request = withdraw(&mut state, ALICE, TOKEN_A, 100, false).unwrap();
    assert_eq!(request.token_address, TOKEN_A);
    assert_eq!(request.to, ALICE);
    assert_eq!(request.amount, 100);
    assert!(!request.wait_for_callback);
    assert_eq!(state.token_balances.get_amount_of(ALICE, Token::A), 150);
}

#[test]
fn withdraw_of_more_than_balance_fails_without_underflow() {
    let mut state = initialize(POOL, OWNER, 0, TOKEN_A, TOKEN_B);
    deposit_callback(&mut state, ALICE, true, Token::A, 250).unwrap();
    let result = withdraw(&mut state, ALICE, TOKEN_A, 251, false);
    assert_eq!(result, Err(LendingError::InsufficientBalance));
    // The failed call changed nothing.
    assert_eq!(state.token_balances.get_amount_of(ALICE, Token::A), 250);
}

#[test]
fn balance_brought_to_zero_is_pruned() {
    let mut state = initialize(POOL, OWNER, 0, TOKEN_A, TOKEN_B);
    deposit_callback(&mut state, ALICE, true, Token::A, 250).unwrap();
    assert!(state.token_balances.has_entry(ALICE, Token::A));
    withdraw(&mut state, ALICE, TOKEN_A, 250, true).unwrap();
    assert_eq!(state.token_balances.get_amount_of(ALICE, Token::A), 0);
    assert!(!state.token_balances.has_entry(ALICE, Token::A));
}

#[test]
fn conservation_under_transfers() {
    let mut state = initialize(POOL, OWNER, 0, TOKEN_A, TOKEN_B);
    deposit_callback(&mut state, ALICE, true, Token::A, 300).unwrap();
    deposit_callback(&mut state, BOB, true, Token::A, 200).unwrap();
    let accounts = [POOL, OWNER, ALICE, BOB];
    let sum_before: u128 = accounts
        .iter()
        .map(|a| state.token_balances.get_amount_of(*a, Token::A))
        .sum();
    state
        .token_balances
        .move_tokens(ALICE, BOB, Token::A, 120)
        .unwrap();
    state
        .token_balances
        .move_tokens(BOB, POOL, Token::A, 50)
        .unwrap();
    let sum_after: u128 = accounts
        .iter()
        .map(|a| state.token_balances.get_amount_of(*a, Token::A))
        .sum();
    assert_eq!(sum_before, sum_after);
    assert_eq!(state.token_balances.get_amount_of(ALICE, Token::A), 180);
    assert_eq!(state.token_balances.get_amount_of(BOB, Token::A), 270);
    assert_eq!(state.token_balances.get_amount_of(POOL, Token::A), 50);
}

#[test]
fn move_of_more_than_balance_fails() {
    let mut state = initialize(POOL, OWNER, 0, TOKEN_A, TOKEN_B);
    deposit_callback(&mut state, ALICE, true, Token::A, 10).unwrap();
    let result = state.token_balances.move_tokens(ALICE, BOB, Token::A, 11);
    assert_eq!(result, Err(LendingError::InsufficientBalance));
    assert_eq!(state.token_balances.get_amount_of(ALICE, Token::A), 10);
    assert_eq!(state.token_balances.get_amount_of(BOB, Token::A), 0);
}

#[test]
fn failed_transfer_is_fatal_for_the_callback() {
    let mut state = initialize(POOL, OWNER, 0, TOKEN_A, TOKEN_B);
    let result = deposit_callback(&mut state, ALICE, false, Token::A, 250);
    assert_eq!(result, Err(LendingError::TransferFailed));
    assert_eq!(state.token_balances.get_amount_of(ALICE, Token::A), 0);
}

#[test]
fn credit_overflow_is_rejected() {
    let mut state = initialize(POOL, OWNER, 0, TOKEN_A, TOKEN_B);
    deposit_callback(&mut state, ALICE, true, Token::A, u128::MAX).unwrap();
    let result = deposit_callback(&mut state, ALICE, true, Token::A, 1);
    assert_eq!(result, Err(LendingError::ArithmeticOverflow));
    assert_eq!(state.token_balances.get_amount_of(ALICE, Token::A), u128::MAX);
}

#[test]
fn unknown_token_is_rejected() {
    let mut state = initialize(POOL, OWNER, 0, TOKEN_A, TOKEN_B);
    deposit_callback(&mut state, ALICE, true, Token::A, 10).unwrap();
    let result = withdraw(&mut state, ALICE, 77, 1, false);
    assert_eq!(result, Err(LendingError::UnknownToken));
    assert_eq!(
        state.token_balances.deduce_tokens_in_out(77),
        Err(LendingError::UnknownToken)
    );
}

#[test]
fn token_pair_resolution_is_deterministic() {
    let state = initialize(POOL, OWNER, 0, TOKEN_A, TOKEN_B);
    let pair_a = state.token_balances.deduce_tokens_in_out(TOKEN_A).unwrap();
    assert_eq!(pair_a.token_in, Token::A);
    assert_eq!(pair_a.token_out, Token::B);
    let pair_b = state.token_balances.deduce_tokens_in_out(TOKEN_B).unwrap();
    assert_eq!(pair_b.token_in, Token::B);
    assert_eq!(pair_b.token_out, Token::A);
}

#[test]
fn deposit_describes_the_transfer_in() {
    let state = initialize(POOL, OWNER, 0, TOKEN_A, TOKEN_B);
    let request = lending::deposit(&state, ALICE, TOKEN_B, 40).unwrap();
    assert_eq!(request.token_address, TOKEN_B);
    assert_eq!(request.from, ALICE);
    assert_eq!(request.to, POOL);
    assert_eq!(request.amount, 40);
    assert_eq!(request.token, Token::B);
    assert_eq!(
        lending::deposit(&state, ALICE, 77, 40),
        Err(LendingError::UnknownToken)
    );
}
