use lending::{
    calculate_equivalent_and_minted_tokens, calculate_reclaim_output, initial_liquidity_tokens,
    u128_sqrt,
};

#[test]
fn sqrt_exact_squares() {
    assert_eq!(u128_sqrt(0), 0);
    assert_eq!(u128_sqrt(1), 1);
    assert_eq!(u128_sqrt(4), 2);
    assert_eq!(u128_sqrt(1_000_000), 1000);
    assert_eq!(u128_sqrt(u128::MAX), (1u128 << 64) - 1);
}

#[test]
fn sqrt_rounds_down() {
    assert_eq!(u128_sqrt(2), 1);
    assert_eq!(u128_sqrt(3), 1);
    assert_eq!(u128_sqrt(8), 2);
    assert_eq!(u128_sqrt(999_999), 999);
    assert_eq!(u128_sqrt(1_000_001), 1000);
}

#[test]
fn initial_mint_is_sqrt_of_product() {
    assert_eq!(initial_liquidity_tokens(1000, 1000), 1000);
    assert_eq!(initial_liquidity_tokens(2, 8), 4);
    assert_eq!(initial_liquidity_tokens(0, 5), 0);
    assert_eq!(initial_liquidity_tokens(7, 0), 0);
    assert_eq!(initial_liquidity_tokens(2, 3), 2);
}

#[test]
fn equivalent_amount_carries_upward_bias() {
    // Providing 100 of A against reserves (1000, 1000) and 1000 shares:
    // equivalent B is floor(100 * 1000 / 1000) + 1 = 101, minted is 100.
    let (equivalent, minted) = calculate_equivalent_and_minted_tokens(100, 1000, 1000, 1000);
    assert_eq!(equivalent, 101);
    assert_eq!(minted, 100);
    // The bias holds for inputs that do not divide evenly as well.
    let (equivalent, minted) = calculate_equivalent_and_minted_tokens(7, 30, 100, 90);
    assert_eq!(equivalent, 7 * 100 / 30 + 1);
    assert_eq!(minted, 7 * 90 / 30);
    assert!(equivalent as u128 >= 7 * 100 / 30);
}

#[test]
fn equivalent_amount_of_zero_input_is_zero() {
    let (equivalent, minted) = calculate_equivalent_and_minted_tokens(0, 1000, 1000, 1000);
    assert_eq!(equivalent, 0);
    assert_eq!(minted, 0);
}

#[test]
fn reclaim_output_is_pro_rata() {
    assert_eq!(calculate_reclaim_output(500, 1000, 2000, 1000), (500, 1000));
    // Rounding is downward on both sides.
    assert_eq!(calculate_reclaim_output(1, 999, 5, 3), (333, 1));
    assert_eq!(calculate_reclaim_output(0, 1000, 1000, 1000), (0, 0));
}

#[test]
fn reclaim_full_supply_drains_reserves_exactly() {
    assert_eq!(calculate_reclaim_output(1000, 123, 456_789, 1000), (123, 456_789));
    assert_eq!(calculate_reclaim_output(3, 7, 11, 3), (7, 11));
}
