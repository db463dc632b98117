//! Accounting core of a combined automated-market-maker and
//! collateralized-lending ledger.
//!
//! The crate tracks per-account balances of two tradable tokens and a derived
//! liquidity-share token, enforces constant-product pricing for liquidity
//! provisioning and redemption, and enforces a fixed over-collateralization
//! ratio for borrowing against pooled liquidity. All arithmetic is unsigned
//! integer arithmetic; every precondition violation surfaces a named error and
//! leaves the state unchanged.

use vstd::prelude::*;

mod amm;
mod balance_map;
mod errors;
mod token_balances;

pub use amm::{
    calculate_equivalent_and_minted_tokens, calculate_reclaim_output, initial_liquidity_tokens,
    lemma_redeem_pro_rata, lemma_spec_sqrt, lemma_sqrt_unique, spec_sqrt, sqrt_upto, u128_sqrt,
};
pub use balance_map::BalanceMap;
pub use errors::LendingError;
pub use token_balances::{Token, TokenBalance, TokenBalances, TokensInOut};
pub use token_balances::{single_delta, spec_move_error, transfer_delta};

verus! {

/// An account or token-contract address, as handed in by the execution
/// environment.
pub type Address = u128;

/// An unsigned token amount.
pub type TokenAmount = u128;

/// The whole contract state: configuration, the token ledger, and the
/// per-borrower collateral positions. It is owned by one context and passed
/// by mutable borrow to every operation; each operation either completes its
/// whole effect or fails with a [`LendingError`] and changes nothing.
pub struct ContractState {
    /// The account that created the contract.
    pub owner: Address,
    /// The flat fee retained by the pool on each repay.
    pub fee: TokenAmount,
    /// Monotonically increasing accumulator of fees collected on repays.
    pub collected_fees: TokenAmount,
    /// The distinguished account whose ledger entries are the pool reserves.
    pub liquidity_pool_address: Address,
    /// Per-account balances of token A, token B, and liquidity shares.
    pub token_balances: TokenBalances,
    /// Collateral supplied by each borrower with an open position.
    pub supplied_collateral: BalanceMap,
    /// Liquidity borrowed by each borrower with an open position.
    pub borrowed_liquidity: BalanceMap,
}

impl ContractState {
    /// Invariant: the ledger and both position maps are well formed, so no
    /// zero entry is ever persisted anywhere.
    pub open spec fn wf(&self) -> bool {
        &&& self.token_balances.wf()
        &&& self.supplied_collateral.wf()
        &&& self.borrowed_liquidity.wf()
    }

    /// Balance of `account` for `token`.
    pub open spec fn bal(&self, account: Address, token: Token) -> TokenAmount {
        self.token_balances.spec_get(account, token)
    }

    /// Collateral currently supplied by `account`; zero means no open position.
    pub open spec fn coll(&self, account: Address) -> TokenAmount {
        self.supplied_collateral.spec_get(account)
    }

    /// Liquidity currently borrowed by `account`.
    pub open spec fn borr(&self, account: Address) -> TokenAmount {
        self.borrowed_liquidity.spec_get(account)
    }

    /// Whether the pool holds liquidity: both reserves are nonzero.
    pub open spec fn has_liquidity(&self) -> bool {
        &&& self.bal(self.liquidity_pool_address, Token::A) != 0
        &&& self.bal(self.liquidity_pool_address, Token::B) != 0
    }

    /// Whether both pool reserves are nonzero, read fresh from the ledger.
    pub fn contract_pools_have_liquidity(&self) -> (r: bool)
        requires
            self.wf(),
        ensures
            r == self.has_liquidity(),
    {
        let contract_token_balance = self.token_balances.get_balance_for(
            self.liquidity_pool_address,
        );
        contract_token_balance.a_tokens != 0 && contract_token_balance.b_tokens != 0
    }
}

/// Creates the contract state: the configured fee, the two token identities,
/// an empty ledger, and no open positions.
pub fn initialize(
    contract_address: Address,
    sender: Address,
    initial_fee_value: TokenAmount,
    token_a_address: Address,
    token_b_address: Address,
) -> (state: ContractState)
    requires
        token_a_address != token_b_address,
    ensures
        state.wf(),
        state.owner == sender,
        state.fee == initial_fee_value,
        state.collected_fees == 0,
        state.liquidity_pool_address == contract_address,
        state.token_balances.token_a_address == token_a_address,
        state.token_balances.token_b_address == token_b_address,
        forall|x: Address, t: Token| #[trigger] state.bal(x, t) == 0,
        forall|x: Address| #[trigger] state.coll(x) == 0,
        forall|x: Address| #[trigger] state.borr(x) == 0,
        forall|t: Token| #[trigger] state.token_balances.total(t) == 0,
        !state.has_liquidity(),
{
    let token_balances = TokenBalances::new(token_a_address, token_b_address);
    ContractState {
        owner: sender,
        fee: initial_fee_value,
        liquidity_pool_address: contract_address,
        token_balances,
        supplied_collateral: BalanceMap::new(),
        borrowed_liquidity: BalanceMap::new(),
        collected_fees: 0,
    }
}

/// The first failure a borrow runs into, if any, checked in this order:
/// the pool must have liquidity; the collateral must be at least twice the
/// borrowed amount; the token must be configured; the caller must have no
/// open position; and the two transfers (collateral in, borrowed out) must
/// neither exceed a balance nor overflow one.
pub open spec fn spec_borrow_error(
    pre: ContractState,
    sender: Address,
    collateral_amount: TokenAmount,
    borrowed_amount: TokenAmount,
    token_in: Address,
) -> Option<LendingError> {
    let pool = pre.liquidity_pool_address;
    if !pre.has_liquidity() {
        Some(LendingError::InsufficientLiquidity)
    } else if (collateral_amount as int) < 2 * borrowed_amount {
        Some(LendingError::InsufficientCollateral)
    } else {
        match pre.token_balances.spec_tokens_in_out(token_in) {
            None => Some(LendingError::UnknownToken),
            Some(pair) => {
                if pre.coll(sender) != 0 {
                    Some(LendingError::PositionAlreadyOpen)
                } else if pre.bal(sender, pair.token_in) < collateral_amount {
                    Some(LendingError::InsufficientBalance)
                } else if sender != pool && pre.bal(pool, pair.token_in) + collateral_amount
                    > u128::MAX {
                    Some(LendingError::ArithmeticOverflow)
                } else if pre.bal(pool, pair.token_out) < borrowed_amount {
                    Some(LendingError::InsufficientBalance)
                } else if sender != pool && pre.bal(sender, pair.token_out) + borrowed_amount
                    > u128::MAX {
                    Some(LendingError::ArithmeticOverflow)
                } else {
                    None
                }
            },
        }
    }
}

/// State change of a successful borrow: the position records the collateral
/// and borrowed amounts, the collateral moves from borrower to pool, the
/// borrowed amount moves from pool to borrower, and nothing else changes.
pub open spec fn spec_borrow_updates(
    pre: ContractState,
    post: ContractState,
    sender: Address,
    collateral_amount: TokenAmount,
    borrowed_amount: TokenAmount,
    pair: TokensInOut,
) -> bool {
    let pool = pre.liquidity_pool_address;
    &&& forall|x: Address, t: Token| #[trigger] post.bal(x, t) as int == pre.bal(x, t)
        + transfer_delta(x, t, sender, pool, pair.token_in, collateral_amount as int)
        + transfer_delta(x, t, pool, sender, pair.token_out, borrowed_amount as int)
    &&& forall|x: Address| #[trigger] post.coll(x) == (if x == sender {
        collateral_amount
    } else {
        pre.coll(x)
    })
    &&& forall|x: Address| #[trigger] post.borr(x) == (if x == sender {
        borrowed_amount
    } else {
        pre.borr(x)
    })
    &&& post.supplied_collateral.spec_has(sender) == (collateral_amount != 0)
    &&& post.borrowed_liquidity.spec_has(sender) == (borrowed_amount != 0)
    &&& post.owner == pre.owner
    &&& post.fee == pre.fee
    &&& post.collected_fees == pre.collected_fees
    &&& post.liquidity_pool_address == pre.liquidity_pool_address
    &&& post.token_balances.token_a_address == pre.token_balances.token_a_address
    &&& post.token_balances.token_b_address == pre.token_balances.token_b_address
}

/// Opens a borrow position: records the position, moves `collateral_amount`
/// of the input token from `sender` to the pool, and moves `borrowed_amount`
/// of the output token from the pool to `sender`.
///
/// A borrow never succeeds unless the collateral is at least twice the
/// borrowed amount, and it preserves the total supply of every token.
pub fn borrow(
    state: &mut ContractState,
    sender: Address,
    collateral_amount: TokenAmount,
    borrowed_amount: TokenAmount,
    token_in: Address,
) -> (r: Result<(), LendingError>)
    requires
        old(state).wf(),
    ensures
        final(state).wf(),
        (match spec_borrow_error(*old(state), sender, collateral_amount, borrowed_amount, token_in) {
            Some(e) => r == Err::<(), LendingError>(e) && *final(state) == *old(state),
            None => {
                &&& r == Ok::<(), LendingError>(())
                &&& collateral_amount >= 2 * borrowed_amount
                &&& final(state).coll(sender) == collateral_amount
                &&& final(state).borr(sender) == borrowed_amount
                &&& (old(state).token_balances.spec_tokens_in_out(token_in) matches Some(pair)
                    && spec_borrow_updates(
                    *old(state),
                    *final(state),
                    sender,
                    collateral_amount,
                    borrowed_amount,
                    pair,
                ))
            },
        }),
        forall|t: Token| #[trigger] final(state).token_balances.total(t) == old(
            state,
        ).token_balances.total(t),
{
    if !state.contract_pools_have_liquidity() {
        return Err(LendingError::InsufficientLiquidity);
    }
    let collateral_enough = match borrowed_amount.checked_mul(2) {
        Some(doubled) => collateral_amount >= doubled,
        None => false,
    };
    if !collateral_enough {
        return Err(LendingError::InsufficientCollateral);
    }
    let tokens = match state.token_balances.deduce_tokens_in_out(token_in) {
        Ok(pair) => pair,
        Err(e) => {
            return Err(e);
        },
    };
    let current_collateral = state.supplied_collateral.get(sender);
    if current_collateral != 0 {
        return Err(LendingError::PositionAlreadyOpen);
    }
    let pool = state.liquidity_pool_address;
    let sender_in = state.token_balances.get_amount_of(sender, tokens.token_in);
    if sender_in < collateral_amount {
        return Err(LendingError::InsufficientBalance);
    }
    if sender != pool {
        let pool_in = state.token_balances.get_amount_of(pool, tokens.token_in);
        if pool_in > u128::MAX - collateral_amount {
            return Err(LendingError::ArithmeticOverflow);
        }
    }
    let pool_out = state.token_balances.get_amount_of(pool, tokens.token_out);
    if pool_out < borrowed_amount {
        return Err(LendingError::InsufficientBalance);
    }
    if sender != pool {
        let sender_out = state.token_balances.get_amount_of(sender, tokens.token_out);
        if sender_out > u128::MAX - borrowed_amount {
            return Err(LendingError::ArithmeticOverflow);
        }
    }
    state.supplied_collateral.insert_balance(sender, collateral_amount);
    state.borrowed_liquidity.insert_balance(sender, borrowed_amount);
    match state.token_balances.move_tokens(sender, pool, tokens.token_in, collateral_amount) {
        Ok(()) => {},
        Err(e) => {
            return Err(e);
        },
    }
    match state.token_balances.move_tokens(pool, sender, tokens.token_out, borrowed_amount) {
        Ok(()) => {},
        Err(e) => {
            return Err(e);
        },
    }
    Ok(())
}

/// The first failure a repay runs into, if any, checked in this order: the
/// token must be configured; the caller must have an open position; the fee
/// accumulator must not overflow; the borrowed amount must move back from the
/// caller; the fee must not exceed the collateral (a checked subtraction,
/// never an underflow); and the refund must move from the pool to the caller.
pub open spec fn spec_repay_error(pre: ContractState, sender: Address, token_in: Address) -> Option<
    LendingError,
> {
    let pool = pre.liquidity_pool_address;
    match pre.token_balances.spec_tokens_in_out(token_in) {
        None => Some(LendingError::UnknownToken),
        Some(pair) => {
            let coll = pre.coll(sender);
            let borrowed = pre.borr(sender);
            if coll == 0 {
                Some(LendingError::NoOpenPosition)
            } else if pre.collected_fees + pre.fee > u128::MAX {
                Some(LendingError::ArithmeticOverflow)
            } else if pre.bal(sender, pair.token_in) < borrowed {
                Some(LendingError::InsufficientBalance)
            } else if sender != pool && pre.bal(pool, pair.token_in) + borrowed > u128::MAX {
                Some(LendingError::ArithmeticOverflow)
            } else if pre.fee > coll {
                Some(LendingError::ArithmeticOverflow)
            } else if pre.bal(pool, pair.token_out) < coll - pre.fee {
                Some(LendingError::InsufficientBalance)
            } else if sender != pool && pre.bal(sender, pair.token_out) + (coll - pre.fee)
                > u128::MAX {
                Some(LendingError::ArithmeticOverflow)
            } else {
                None
            }
        },
    }
}

/// State change of a successful repay: the position closes (both fields
/// pruned to zero), the fee accumulator grows by the configured fee, the
/// borrowed amount moves back to the pool, and the collateral minus the fee
/// moves back to the borrower.
pub open spec fn spec_repay_updates(
    pre: ContractState,
    post: ContractState,
    sender: Address,
    pair: TokensInOut,
) -> bool {
    let pool = pre.liquidity_pool_address;
    let coll = pre.coll(sender);
    let borrowed = pre.borr(sender);
    let refund = coll - pre.fee;
    &&& forall|x: Address, t: Token| #[trigger] post.bal(x, t) as int == pre.bal(x, t)
        + transfer_delta(x, t, sender, pool, pair.token_in, borrowed as int)
        + transfer_delta(x, t, pool, sender, pair.token_out, refund)
    &&& forall|x: Address| #[trigger] post.coll(x) == (if x == sender {
        0
    } else {
        pre.coll(x)
    })
    &&& forall|x: Address| #[trigger] post.borr(x) == (if x == sender {
        0
    } else {
        pre.borr(x)
    })
    &&& !post.supplied_collateral.spec_has(sender)
    &&& !post.borrowed_liquidity.spec_has(sender)
    &&& post.owner == pre.owner
    &&& post.fee == pre.fee
    &&& post.collected_fees == pre.collected_fees + pre.fee
    &&& post.liquidity_pool_address == pre.liquidity_pool_address
    &&& post.token_balances.token_a_address == pre.token_balances.token_a_address
    &&& post.token_balances.token_b_address == pre.token_balances.token_b_address
}

/// Closes the caller's borrow position: zeroes (and prunes) both position
/// fields, collects the fee, moves the borrowed amount back to the pool, and
/// returns the collateral minus the fee to the borrower.
///
/// On success the position always ends fully closed, whatever it held before;
/// partial repayment does not exist. The total supply of every token is
/// preserved.
pub fn repay(state: &mut ContractState, sender: Address, token_in: Address) -> (r: Result<
    (),
    LendingError,
>)
    requires
        old(state).wf(),
    ensures
        final(state).wf(),
        (match spec_repay_error(*old(state), sender, token_in) {
            Some(e) => r == Err::<(), LendingError>(e) && *final(state) == *old(state),
            None => {
                &&& r == Ok::<(), LendingError>(())
                &&& final(state).coll(sender) == 0
                &&& final(state).borr(sender) == 0
                &&& !final(state).supplied_collateral.spec_has(sender)
                &&& !final(state).borrowed_liquidity.spec_has(sender)
                &&& (old(state).token_balances.spec_tokens_in_out(token_in) matches Some(pair)
                    && spec_repay_updates(*old(state), *final(state), sender, pair))
            },
        }),
        forall|t: Token| #[trigger] final(state).token_balances.total(t) == old(
            state,
        ).token_balances.total(t),
{
    let tokens = match state.token_balances.deduce_tokens_in_out(token_in) {
        Ok(pair) => pair,
        Err(e) => {
            return Err(e);
        },
    };
    let current_collateral = state.supplied_collateral.get(sender);
    let current_borrowed = state.borrowed_liquidity.get(sender);
    if current_collateral == 0 {
        return Err(LendingError::NoOpenPosition);
    }
    if state.collected_fees > u128::MAX - state.fee {
        return Err(LendingError::ArithmeticOverflow);
    }
    let pool = state.liquidity_pool_address;
    let sender_in = state.token_balances.get_amount_of(sender, tokens.token_in);
    if sender_in < current_borrowed {
        return Err(LendingError::InsufficientBalance);
    }
    if sender != pool {
        let pool_in = state.token_balances.get_amount_of(pool, tokens.token_in);
        if pool_in > u128::MAX - current_borrowed {
            return Err(LendingError::ArithmeticOverflow);
        }
    }
    if state.fee > current_collateral {
        return Err(LendingError::ArithmeticOverflow);
    }
    let refund = current_collateral - state.fee;
    let pool_out = state.token_balances.get_amount_of(pool, tokens.token_out);
    if pool_out < refund {
        return Err(LendingError::InsufficientBalance);
    }
    if sender != pool {
        let sender_out = state.token_balances.get_amount_of(sender, tokens.token_out);
        if sender_out > u128::MAX - refund {
            return Err(LendingError::ArithmeticOverflow);
        }
    }
    state.supplied_collateral.insert_balance(sender, 0);
    state.borrowed_liquidity.insert_balance(sender, 0);
    state.collected_fees = state.collected_fees + state.fee;
    match state.token_balances.move_tokens(sender, pool, tokens.token_in, current_borrowed) {
        Ok(()) => {},
        Err(e) => {
            return Err(e);
        },
    }
    match state.token_balances.move_tokens(pool, sender, tokens.token_out, refund) {
        Ok(()) => {},
        Err(e) => {
            return Err(e);
        },
    }
    Ok(())
}

/// State change shared by both liquidity provisions: the two token amounts
/// move from the provider to the pool, and both the provider and the pool are
/// credited with the minted liquidity shares (the pool's balance tracks the
/// total share supply). Positions and configuration are untouched.
pub open spec fn spec_provide_updates(
    pre: ContractState,
    post: ContractState,
    user: Address,
    pair: TokensInOut,
    token_in_amount: TokenAmount,
    token_out_amount: TokenAmount,
    minted: TokenAmount,
) -> bool {
    let pool = pre.liquidity_pool_address;
    &&& forall|x: Address, t: Token| #[trigger] post.bal(x, t) as int == pre.bal(x, t)
        + transfer_delta(x, t, user, pool, pair.token_in, token_in_amount as int)
        + transfer_delta(x, t, user, pool, pair.token_out, token_out_amount as int)
        + single_delta(x, t, user, Token::Liquidity, minted as int)
        + single_delta(x, t, pool, Token::Liquidity, minted as int)
    &&& forall|x: Address| #[trigger] post.coll(x) == pre.coll(x)
    &&& forall|x: Address| #[trigger] post.borr(x) == pre.borr(x)
    &&& post.owner == pre.owner
    &&& post.fee == pre.fee
    &&& post.collected_fees == pre.collected_fees
    &&& post.liquidity_pool_address == pre.liquidity_pool_address
    &&& post.token_balances.token_a_address == pre.token_balances.token_a_address
    &&& post.token_balances.token_b_address == pre.token_balances.token_b_address
}

/// Moves the two provided amounts from `user` to the pool and credits both
/// `user` and the pool with the minted liquidity shares. The caller has
/// already validated every balance and overflow condition, so this cannot
/// fail.
fn provide_liquidity_internal(
    state: &mut ContractState,
    user: Address,
    tokens: TokensInOut,
    token_in_amount: TokenAmount,
    token_out_amount: TokenAmount,
    minted_liquidity_tokens: TokenAmount,
)
    requires
        old(state).wf(),
        tokens.token_in != tokens.token_out,
        tokens.token_in != Token::Liquidity,
        tokens.token_out != Token::Liquidity,
        old(state).bal(user, tokens.token_in) >= token_in_amount,
        user != old(state).liquidity_pool_address ==> old(state).bal(
            old(state).liquidity_pool_address,
            tokens.token_in,
        ) + token_in_amount <= u128::MAX,
        old(state).bal(user, tokens.token_out) >= token_out_amount,
        user != old(state).liquidity_pool_address ==> old(state).bal(
            old(state).liquidity_pool_address,
            tokens.token_out,
        ) + token_out_amount <= u128::MAX,
        old(state).bal(user, Token::Liquidity) + minted_liquidity_tokens <= u128::MAX,
        old(state).bal(old(state).liquidity_pool_address, Token::Liquidity) + (if user == old(
            state,
        ).liquidity_pool_address {
            minted_liquidity_tokens as int
        } else {
            0
        }) + minted_liquidity_tokens <= u128::MAX,
    ensures
        final(state).wf(),
        spec_provide_updates(
            *old(state),
            *final(state),
            user,
            tokens,
            token_in_amount,
            token_out_amount,
            minted_liquidity_tokens,
        ),
        forall|t: Token| #[trigger] final(state).token_balances.total(t) == old(
            state,
        ).token_balances.total(t) + (if t == Token::Liquidity {
            2 * minted_liquidity_tokens
        } else {
            0
        }),
{
    let pool = state.liquidity_pool_address;
    match state.token_balances.move_tokens(user, pool, tokens.token_in, token_in_amount) {
        Ok(()) => {},
        Err(_) => {
            return ;
        },
    }
    match state.token_balances.move_tokens(user, pool, tokens.token_out, token_out_amount) {
        Ok(()) => {},
        Err(_) => {
            return ;
        },
    }
    match state.token_balances.add_to_token_balance(
        user,
        Token::Liquidity,
        minted_liquidity_tokens,
    ) {
        Ok(()) => {},
        Err(_) => {
            return ;
        },
    }
    match state.token_balances.add_to_token_balance(
        pool,
        Token::Liquidity,
        minted_liquidity_tokens,
    ) {
        Ok(()) => {},
        Err(_) => {
            return ;
        },
    }
}

/// The first failure a provision against live reserves runs into, if any,
/// checked in this order: the token must be configured; the pool must have
/// liquidity (so both reserves are nonzero and the pricing divisions are
/// defined); the pricing products must not overflow; the minted share amount
/// must be nonzero; and the two moves and two share credits must neither
/// exceed a balance nor overflow one.
pub open spec fn spec_provide_liquidity_error(
    pre: ContractState,
    sender: Address,
    token_address: Address,
    amount: TokenAmount,
) -> Option<LendingError> {
    let pool = pre.liquidity_pool_address;
    match pre.token_balances.spec_tokens_in_out(token_address) {
        None => Some(LendingError::UnknownToken),
        Some(pair) => {
            if !pre.has_liquidity() {
                Some(LendingError::InsufficientLiquidity)
            } else {
                let in_pool = pre.bal(pool, pair.token_in) as int;
                let out_pool = pre.bal(pool, pair.token_out) as int;
                let liq_pool = pre.bal(pool, Token::Liquidity) as int;
                if amount > 0 && amount * out_pool > u128::MAX {
                    Some(LendingError::ArithmeticOverflow)
                } else if amount > 0 && amount * out_pool / in_pool + 1 > u128::MAX {
                    Some(LendingError::ArithmeticOverflow)
                } else if amount * liq_pool > u128::MAX {
                    Some(LendingError::ArithmeticOverflow)
                } else {
                    let out_equiv = if amount > 0 {
                        amount * out_pool / in_pool + 1
                    } else {
                        0
                    };
                    let minted = amount * liq_pool / in_pool;
                    if minted == 0 {
                        Some(LendingError::ZeroMintedLiquidity)
                    } else if pre.bal(sender, pair.token_in) < amount {
                        Some(LendingError::InsufficientBalance)
                    } else if sender != pool && in_pool + amount > u128::MAX {
                        Some(LendingError::ArithmeticOverflow)
                    } else if pre.bal(sender, pair.token_out) < out_equiv {
                        Some(LendingError::InsufficientBalance)
                    } else if sender != pool && out_pool + out_equiv > u128::MAX {
                        Some(LendingError::ArithmeticOverflow)
                    } else if pre.bal(sender, Token::Liquidity) + minted > u128::MAX {
                        Some(LendingError::ArithmeticOverflow)
                    } else if liq_pool + (if sender == pool {
                        minted
                    } else {
                        0
                    }) + minted > u128::MAX {
                        Some(LendingError::ArithmeticOverflow)
                    } else {
                        None
                    }
                }
            }
        },
    }
}

/// Provides `amount` of the requested token against live reserves. The
/// equivalent counter-token amount (rounded up, in the pool's favor) and the
/// minted shares (rounded down) are priced from a fresh reserve snapshot;
/// both amounts move from the provider to the pool and the provider receives
/// the minted shares.
#[verifier::rlimit(60)]
pub fn provide_liquidity(
    state: &mut ContractState,
    sender: Address,
    token_address: Address,
    amount: TokenAmount,
) -> (r: Result<(), LendingError>)
    requires
        old(state).wf(),
    ensures
        final(state).wf(),
        (match spec_provide_liquidity_error(*old(state), sender, token_address, amount) {
            Some(e) => r == Err::<(), LendingError>(e) && *final(state) == *old(state),
            None => {
                let pre = *old(state);
                let pool = pre.liquidity_pool_address;
                &&& r == Ok::<(), LendingError>(())
                &&& (pre.token_balances.spec_tokens_in_out(token_address) matches Some(pair) && {
                    let in_pool = pre.bal(pool, pair.token_in) as int;
                    let out_pool = pre.bal(pool, pair.token_out) as int;
                    let liq_pool = pre.bal(pool, Token::Liquidity) as int;
                    let out_equiv = if amount > 0 {
                        amount * out_pool / in_pool + 1
                    } else {
                        0
                    };
                    let minted = amount * liq_pool / in_pool;
                    &&& spec_provide_updates(
                        pre,
                        *final(state),
                        sender,
                        pair,
                        amount,
                        out_equiv as u128,
                        minted as u128,
                    )
                    &&& final(state).token_balances.total(Token::Liquidity)
                        == pre.token_balances.total(Token::Liquidity) + 2 * minted
                })
            },
        }),
        forall|t: Token| t != Token::Liquidity ==> #[trigger] final(state).token_balances.total(t)
            == old(state).token_balances.total(t),
{
    let tokens = match state.token_balances.deduce_tokens_in_out(token_address) {
        Ok(pair) => pair,
        Err(e) => {
            return Err(e);
        },
    };
    if !state.contract_pools_have_liquidity() {
        return Err(LendingError::InsufficientLiquidity);
    }
    let pool = state.liquidity_pool_address;
    let contract_token_balance = state.token_balances.get_balance_for(pool);
    let in_pool = contract_token_balance.get_amount_of(tokens.token_in);
    let out_pool = contract_token_balance.get_amount_of(tokens.token_out);
    let liq_pool = contract_token_balance.liquidity_tokens;
    if amount > 0 {
        let product = match amount.checked_mul(out_pool) {
            None => {
                return Err(LendingError::ArithmeticOverflow);
            },
            Some(p) => p,
        };
        if product / in_pool == u128::MAX {
            return Err(LendingError::ArithmeticOverflow);
        }
        proof {
            assert(amount * out_pool <= u128::MAX);
            assert(amount * out_pool / in_pool as int + 1 <= u128::MAX);
        }
    }
    match amount.checked_mul(liq_pool) {
        None => {
            return Err(LendingError::ArithmeticOverflow);
        },
        Some(_) => {},
    }
    proof {
        assert(amount * liq_pool <= u128::MAX);
        if amount == 0 {
            assert(amount * out_pool == 0) by (nonlinear_arith)
                requires
                    amount == 0,
            ;
        }
    }
    let (token_out_equivalent, minted_liquidity_tokens) = calculate_equivalent_and_minted_tokens(
        amount,
        in_pool,
        out_pool,
        liq_pool,
    );
    if minted_liquidity_tokens == 0 {
        return Err(LendingError::ZeroMintedLiquidity);
    }
    let sender_in = state.token_balances.get_amount_of(sender, tokens.token_in);
    if sender_in < amount {
        return Err(LendingError::InsufficientBalance);
    }
    if sender != pool && in_pool > u128::MAX - amount {
        return Err(LendingError::ArithmeticOverflow);
    }
    let sender_out = state.token_balances.get_amount_of(sender, tokens.token_out);
    if sender_out < token_out_equivalent {
        return Err(LendingError::InsufficientBalance);
    }
    if sender != pool && out_pool > u128::MAX - token_out_equivalent {
        return Err(LendingError::ArithmeticOverflow);
    }
    let sender_liq = state.token_balances.get_amount_of(sender, Token::Liquidity);
    if sender_liq > u128::MAX - minted_liquidity_tokens {
        return Err(LendingError::ArithmeticOverflow);
    }
    let pool_liq_mid = if sender == pool {
        sender_liq + minted_liquidity_tokens
    } else {
        liq_pool
    };
    if pool_liq_mid > u128::MAX - minted_liquidity_tokens {
        return Err(LendingError::ArithmeticOverflow);
    }
    provide_liquidity_internal(
        state,
        sender,
        tokens,
        amount,
        token_out_equivalent,
        minted_liquidity_tokens,
    );
    Ok(())
}

/// The first failure an initial provision runs into, if any, checked in this
/// order: the pool must be uninitialized; the product of the two amounts must
/// not overflow; its square root (the minted share amount) must be nonzero;
/// and the two moves and two share credits must neither exceed a balance nor
/// overflow one.
pub open spec fn spec_provide_initial_error(
    pre: ContractState,
    sender: Address,
    token_a_amount: TokenAmount,
    token_b_amount: TokenAmount,
) -> Option<LendingError> {
    let pool = pre.liquidity_pool_address;
    if pre.has_liquidity() {
        Some(LendingError::AlreadyInitialized)
    } else if token_a_amount * token_b_amount > u128::MAX {
        Some(LendingError::ArithmeticOverflow)
    } else if token_a_amount * token_b_amount == 0 {
        Some(LendingError::ZeroMintedLiquidity)
    } else {
        let minted = spec_sqrt(token_a_amount * token_b_amount);
        if pre.bal(sender, Token::A) < token_a_amount {
            Some(LendingError::InsufficientBalance)
        } else if sender != pool && pre.bal(pool, Token::A) + token_a_amount > u128::MAX {
            Some(LendingError::ArithmeticOverflow)
        } else if pre.bal(sender, Token::B) < token_b_amount {
            Some(LendingError::InsufficientBalance)
        } else if sender != pool && pre.bal(pool, Token::B) + token_b_amount > u128::MAX {
            Some(LendingError::ArithmeticOverflow)
        } else if pre.bal(sender, Token::Liquidity) + minted > u128::MAX {
            Some(LendingError::ArithmeticOverflow)
        } else if pre.bal(pool, Token::Liquidity) + (if sender == pool {
            minted
        } else {
            0
        }) + minted > u128::MAX {
            Some(LendingError::ArithmeticOverflow)
        } else {
            None
        }
    }
}

/// Provides the very first liquidity: both reserves must be empty. Mints the
/// floor of the square root of the product of the two amounts as initial
/// shares, moves both amounts from the provider to the pool, and credits the
/// provider and the pool with the minted shares.
pub fn provide_initial_liquidity(
    state: &mut ContractState,
    sender: Address,
    token_a_amount: TokenAmount,
    token_b_amount: TokenAmount,
) -> (r: Result<(), LendingError>)
    requires
        old(state).wf(),
    ensures
        final(state).wf(),
        (match spec_provide_initial_error(*old(state), sender, token_a_amount, token_b_amount) {
            Some(e) => r == Err::<(), LendingError>(e) && *final(state) == *old(state),
            None => {
                let minted = spec_sqrt(token_a_amount * token_b_amount);
                &&& r == Ok::<(), LendingError>(())
                &&& minted > 0
                &&& spec_provide_updates(
                    *old(state),
                    *final(state),
                    sender,
                    TokensInOut { token_in: Token::A, token_out: Token::B },
                    token_a_amount,
                    token_b_amount,
                    minted as u128,
                )
                &&& final(state).token_balances.total(Token::Liquidity) == old(
                    state,
                ).token_balances.total(Token::Liquidity) + 2 * minted
            },
        }),
        forall|t: Token| t != Token::Liquidity ==> #[trigger] final(state).token_balances.total(t)
            == old(state).token_balances.total(t),
{
    if state.contract_pools_have_liquidity() {
        return Err(LendingError::AlreadyInitialized);
    }
    if token_a_amount.checked_mul(token_b_amount).is_none() {
        return Err(LendingError::ArithmeticOverflow);
    }
    let minted_liquidity_tokens = initial_liquidity_tokens(token_a_amount, token_b_amount);
    if minted_liquidity_tokens == 0 {
        return Err(LendingError::ZeroMintedLiquidity);
    }
    let pool = state.liquidity_pool_address;
    let sender_a = state.token_balances.get_amount_of(sender, Token::A);
    if sender_a < token_a_amount {
        return Err(LendingError::InsufficientBalance);
    }
    if sender != pool {
        let pool_a = state.token_balances.get_amount_of(pool, Token::A);
        if pool_a > u128::MAX - token_a_amount {
            return Err(LendingError::ArithmeticOverflow);
        }
    }
    let sender_b = state.token_balances.get_amount_of(sender, Token::B);
    if sender_b < token_b_amount {
        return Err(LendingError::InsufficientBalance);
    }
    if sender != pool {
        let pool_b = state.token_balances.get_amount_of(pool, Token::B);
        if pool_b > u128::MAX - token_b_amount {
            return Err(LendingError::ArithmeticOverflow);
        }
    }
    let sender_liq = state.token_balances.get_amount_of(sender, Token::Liquidity);
    if sender_liq > u128::MAX - minted_liquidity_tokens {
        return Err(LendingError::ArithmeticOverflow);
    }
    let pool_liq = state.token_balances.get_amount_of(pool, Token::Liquidity);
    let pool_liq_mid = if sender == pool {
        sender_liq + minted_liquidity_tokens
    } else {
        pool_liq
    };
    if pool_liq_mid > u128::MAX - minted_liquidity_tokens {
        return Err(LendingError::ArithmeticOverflow);
    }
    provide_liquidity_internal(
        state,
        sender,
        TokensInOut { token_in: Token::A, token_out: Token::B },
        token_a_amount,
        token_b_amount,
        minted_liquidity_tokens,
    );
    Ok(())
}

/// The first failure a reclaim runs into, if any, checked in this order: the
/// caller must hold the shares; the share supply left after the caller's
/// debit must be nonzero (so the pro-rata divisions are defined); the pricing
/// products must not overflow; and the two payouts and the pool-side share
/// debit must neither exceed a balance nor overflow one.
pub open spec fn spec_reclaim_error(
    pre: ContractState,
    sender: Address,
    liquidity_token_amount: TokenAmount,
) -> Option<LendingError> {
    let pool = pre.liquidity_pool_address;
    if pre.bal(sender, Token::Liquidity) < liquidity_token_amount {
        Some(LendingError::InsufficientBalance)
    } else {
        let total_liq = pre.bal(pool, Token::Liquidity) - (if sender == pool {
            liquidity_token_amount as int
        } else {
            0
        });
        if total_liq == 0 {
            Some(LendingError::InsufficientLiquidity)
        } else {
            let a0 = pre.bal(pool, Token::A) as int;
            let b0 = pre.bal(pool, Token::B) as int;
            if a0 * liquidity_token_amount > u128::MAX {
                Some(LendingError::ArithmeticOverflow)
            } else if b0 * liquidity_token_amount > u128::MAX {
                Some(LendingError::ArithmeticOverflow)
            } else {
                let out_a = a0 * liquidity_token_amount / total_liq;
                let out_b = b0 * liquidity_token_amount / total_liq;
                if a0 < out_a {
                    Some(LendingError::InsufficientBalance)
                } else if sender != pool && pre.bal(sender, Token::A) + out_a > u128::MAX {
                    Some(LendingError::ArithmeticOverflow)
                } else if b0 < out_b {
                    Some(LendingError::InsufficientBalance)
                } else if sender != pool && pre.bal(sender, Token::B) + out_b > u128::MAX {
                    Some(LendingError::ArithmeticOverflow)
                } else if total_liq < liquidity_token_amount {
                    Some(LendingError::InsufficientBalance)
                } else {
                    None
                }
            }
        }
    }
}

/// State change of a successful reclaim: the caller's shares and the pool's
/// matching supply entry both shrink by the reclaimed amount, and the two
/// pro-rata outputs move from the pool to the caller.
pub open spec fn spec_reclaim_updates(
    pre: ContractState,
    post: ContractState,
    sender: Address,
    liquidity_token_amount: TokenAmount,
    out_a: int,
    out_b: int,
) -> bool {
    let pool = pre.liquidity_pool_address;
    &&& forall|x: Address, t: Token| #[trigger] post.bal(x, t) as int == pre.bal(x, t) - single_delta(
        x,
        t,
        sender,
        Token::Liquidity,
        liquidity_token_amount as int,
    ) + transfer_delta(x, t, pool, sender, Token::A, out_a) + transfer_delta(
        x,
        t,
        pool,
        sender,
        Token::B,
        out_b,
    ) - single_delta(x, t, pool, Token::Liquidity, liquidity_token_amount as int)
    &&& forall|x: Address| #[trigger] post.coll(x) == pre.coll(x)
    &&& forall|x: Address| #[trigger] post.borr(x) == pre.borr(x)
    &&& post.owner == pre.owner
    &&& post.fee == pre.fee
    &&& post.collected_fees == pre.collected_fees
    &&& post.liquidity_pool_address == pre.liquidity_pool_address
    &&& post.token_balances.token_a_address == pre.token_balances.token_a_address
    &&& post.token_balances.token_b_address == pre.token_balances.token_b_address
}

/// Redeems `liquidity_token_amount` shares pro rata: debits the caller's
/// shares, pays out each reserve's `floor(reserve * shares / supply)` (where
/// the supply is read after the caller's debit), and debits the pool's share
/// supply entry by the same amount.
pub fn reclaim_liquidity(
    state: &mut ContractState,
    sender: Address,
    liquidity_token_amount: TokenAmount,
) -> (r: Result<(), LendingError>)
    requires
        old(state).wf(),
    ensures
        final(state).wf(),
        (match spec_reclaim_error(*old(state), sender, liquidity_token_amount) {
            Some(e) => r == Err::<(), LendingError>(e) && *final(state) == *old(state),
            None => {
                let pre = *old(state);
                let pool = pre.liquidity_pool_address;
                let total_liq = pre.bal(pool, Token::Liquidity) - (if sender == pool {
                    liquidity_token_amount as int
                } else {
                    0
                });
                let out_a = pre.bal(pool, Token::A) * liquidity_token_amount / total_liq;
                let out_b = pre.bal(pool, Token::B) * liquidity_token_amount / total_liq;
                &&& r == Ok::<(), LendingError>(())
                &&& spec_reclaim_updates(
                    pre,
                    *final(state),
                    sender,
                    liquidity_token_amount,
                    out_a,
                    out_b,
                )
                &&& final(state).token_balances.total(Token::Liquidity) == old(
                    state,
                ).token_balances.total(Token::Liquidity) - 2 * liquidity_token_amount
            },
        }),
        forall|t: Token| t != Token::Liquidity ==> #[trigger] final(state).token_balances.total(t)
            == old(state).token_balances.total(t),
{
    let sender_liq = state.token_balances.get_amount_of(sender, Token::Liquidity);
    if sender_liq < liquidity_token_amount {
        return Err(LendingError::InsufficientBalance);
    }
    let pool = state.liquidity_pool_address;
    let pool_liq = state.token_balances.get_amount_of(pool, Token::Liquidity);
    let total_liq = if sender == pool {
        pool_liq - liquidity_token_amount
    } else {
        pool_liq
    };
    if total_liq == 0 {
        return Err(LendingError::InsufficientLiquidity);
    }
    let a0 = state.token_balances.get_amount_of(pool, Token::A);
    let b0 = state.token_balances.get_amount_of(pool, Token::B);
    if a0.checked_mul(liquidity_token_amount).is_none() {
        return Err(LendingError::ArithmeticOverflow);
    }
    if b0.checked_mul(liquidity_token_amount).is_none() {
        return Err(LendingError::ArithmeticOverflow);
    }
    let (a_output, b_output) = calculate_reclaim_output(
        liquidity_token_amount,
        a0,
        b0,
        total_liq,
    );
    if a0 < a_output {
        return Err(LendingError::InsufficientBalance);
    }
    if sender != pool {
        let sender_a = state.token_balances.get_amount_of(sender, Token::A);
        if sender_a > u128::MAX - a_output {
            return Err(LendingError::ArithmeticOverflow);
        }
    }
    if b0 < b_output {
        return Err(LendingError::InsufficientBalance);
    }
    if sender != pool {
        let sender_b = state.token_balances.get_amount_of(sender, Token::B);
        if sender_b > u128::MAX - b_output {
            return Err(LendingError::ArithmeticOverflow);
        }
    }
    if total_liq < liquidity_token_amount {
        return Err(LendingError::InsufficientBalance);
    }
    match state.token_balances.deduct_from_token_balance(
        sender,
        Token::Liquidity,
        liquidity_token_amount,
    ) {
        Ok(()) => {},
        Err(e) => {
            return Err(e);
        },
    }
    match state.token_balances.move_tokens(pool, sender, Token::A, a_output) {
        Ok(()) => {},
        Err(e) => {
            return Err(e);
        },
    }
    match state.token_balances.move_tokens(pool, sender, Token::B, b_output) {
        Ok(()) => {},
        Err(e) => {
            return Err(e);
        },
    }
    match state.token_balances.deduct_from_token_balance(
        pool,
        Token::Liquidity,
        liquidity_token_amount,
    ) {
        Ok(()) => {},
        Err(e) => {
            return Err(e);
        },
    }
    Ok(())
}

/// The asynchronous transfer-in that a deposit asks the environment to
/// perform: pull `amount` from `from` at the token contract `token_address`
/// into `to`, then report back through the deposit callback carrying `token`
/// and `amount`.
#[derive(Clone, Copy, PartialEq, Eq, Structural, Debug)]
pub struct DepositRequest {
    /// The token contract to ask for the transfer.
    pub token_address: Address,
    /// The depositor whose tokens are pulled.
    pub from: Address,
    /// The pool address receiving the tokens.
    pub to: Address,
    /// The amount to transfer.
    pub amount: TokenAmount,
    /// The resolved ledger token to credit in the callback.
    pub token: Token,
}

/// The asynchronous transfer-out that a withdrawal asks the environment to
/// perform: send `amount` from the pool's holdings at the token contract
/// `token_address` to `to`.
#[derive(Clone, Copy, PartialEq, Eq, Structural, Debug)]
pub struct WithdrawRequest {
    /// The token contract to ask for the transfer.
    pub token_address: Address,
    /// The account receiving the tokens.
    pub to: Address,
    /// The amount to transfer.
    pub amount: TokenAmount,
    /// Whether the caller's continuation waits for the confirmation callback.
    pub wait_for_callback: bool,
}

/// Starts a deposit: validates the token and describes the transfer-in that
/// the environment must perform. The ledger is not touched here; the credit
/// happens in [`deposit_callback`] once the transfer is confirmed.
pub fn deposit(
    state: &ContractState,
    sender: Address,
    token_address: Address,
    amount: TokenAmount,
) -> (r: Result<DepositRequest, LendingError>)
    ensures
        (match state.token_balances.spec_tokens_in_out(token_address) {
            None => r == Err::<DepositRequest, LendingError>(LendingError::UnknownToken),
            Some(pair) => r == Ok::<DepositRequest, LendingError>(
                DepositRequest {
                    token_address,
                    from: sender,
                    to: state.liquidity_pool_address,
                    amount,
                    token: pair.token_in,
                },
            ),
        }),
{
    let tokens = match state.token_balances.deduce_tokens_in_out(token_address) {
        Ok(pair) => pair,
        Err(e) => {
            return Err(e);
        },
    };
    Ok(
        DepositRequest {
            token_address,
            from: sender,
            to: state.liquidity_pool_address,
            amount,
            token: tokens.token_in,
        },
    )
}

/// Completes a deposit once the environment reports the transfer's outcome:
/// a failed transfer is fatal for the callback and changes nothing, a
/// confirmed one credits the depositor. Fails with an overflow error, and
/// changes nothing, if the credited balance would not fit.
pub fn deposit_callback(
    state: &mut ContractState,
    sender: Address,
    callback_success: bool,
    token: Token,
    amount: TokenAmount,
) -> (r: Result<(), LendingError>)
    requires
        old(state).wf(),
    ensures
        final(state).wf(),
        (if !callback_success {
            r == Err::<(), LendingError>(LendingError::TransferFailed) && *final(state) == *old(
                state,
            )
        } else if old(state).bal(sender, token) + amount > u128::MAX {
            r == Err::<(), LendingError>(LendingError::ArithmeticOverflow) && *final(state)
                == *old(state)
        } else {
            &&& r == Ok::<(), LendingError>(())
            &&& forall|x: Address, t: Token| #[trigger] final(state).bal(x, t) as int == old(
                state,
            ).bal(x, t) + single_delta(x, t, sender, token, amount as int)
            &&& forall|x: Address| #[trigger] final(state).coll(x) == old(state).coll(x)
            &&& forall|x: Address| #[trigger] final(state).borr(x) == old(state).borr(x)
            &&& final(state).owner == old(state).owner
            &&& final(state).fee == old(state).fee
            &&& final(state).collected_fees == old(state).collected_fees
            &&& final(state).liquidity_pool_address == old(state).liquidity_pool_address
            &&& final(state).token_balances.token_a_address == old(
                state,
            ).token_balances.token_a_address
            &&& final(state).token_balances.token_b_address == old(
                state,
            ).token_balances.token_b_address
        }),
        forall|t: Token| #[trigger] final(state).token_balances.total(t) == old(
            state,
        ).token_balances.total(t) + (if callback_success && t == token && old(state).bal(
            sender,
            token,
        ) + amount <= u128::MAX {
            amount as int
        } else {
            0
        }),
{
    if !callback_success {
        return Err(LendingError::TransferFailed);
    }
    match state.token_balances.add_to_token_balance(sender, token, amount) {
        Ok(()) => Ok(()),
        Err(e) => Err(e),
    }
}

/// Starts a withdrawal: debits the caller immediately (a pessimistic debit,
/// so delayed or lost confirmations cannot enable a double spend) and
/// describes the transfer-out that the environment must perform. Fails, and
/// changes nothing, on an unknown token or an insufficient balance.
pub fn withdraw(
    state: &mut ContractState,
    sender: Address,
    token_address: Address,
    amount: TokenAmount,
    wait_for_callback: bool,
) -> (r: Result<WithdrawRequest, LendingError>)
    requires
        old(state).wf(),
    ensures
        final(state).wf(),
        (match old(state).token_balances.spec_tokens_in_out(token_address) {
            None => r == Err::<WithdrawRequest, LendingError>(LendingError::UnknownToken)
                && *final(state) == *old(state),
            Some(pair) => {
                if old(state).bal(sender, pair.token_in) < amount {
                    r == Err::<WithdrawRequest, LendingError>(LendingError::InsufficientBalance)
                        && *final(state) == *old(state)
                } else {
                    &&& r == Ok::<WithdrawRequest, LendingError>(
                        WithdrawRequest { token_address, to: sender, amount, wait_for_callback },
                    )
                    &&& forall|x: Address, t: Token| #[trigger] final(state).bal(x, t) as int
                        == old(state).bal(x, t) - single_delta(
                        x,
                        t,
                        sender,
                        pair.token_in,
                        amount as int,
                    )
                    &&& forall|x: Address| #[trigger] final(state).coll(x) == old(state).coll(x)
                    &&& forall|x: Address| #[trigger] final(state).borr(x) == old(state).borr(x)
                    &&& final(state).owner == old(state).owner
                    &&& final(state).fee == old(state).fee
                    &&& final(state).collected_fees == old(state).collected_fees
                    &&& final(state).liquidity_pool_address == old(state).liquidity_pool_address
                    &&& final(state).token_balances.token_a_address == old(
                        state,
                    ).token_balances.token_a_address
                    &&& final(state).token_balances.token_b_address == old(
                        state,
                    ).token_balances.token_b_address
                }
            },
        }),
        forall|t: Token| #[trigger] final(state).token_balances.total(t) == old(
            state,
        ).token_balances.total(t) - (match old(state).token_balances.spec_tokens_in_out(
            token_address,
        ) {
            Some(pair) => if t == pair.token_in && old(state).bal(sender, pair.token_in)
                >= amount {
                amount as int
            } else {
                0
            },
            None => 0,
        }),
{
    let tokens = match state.token_balances.deduce_tokens_in_out(token_address) {
        Ok(pair) => pair,
        Err(e) => {
            return Err(e);
        },
    };
    match state.token_balances.deduct_from_token_balance(sender, tokens.token_in, amount) {
        Ok(()) => {},
        Err(e) => {
            return Err(e);
        },
    }
    Ok(WithdrawRequest { token_address, to: sender, amount, wait_for_callback })
}

} // verus!
