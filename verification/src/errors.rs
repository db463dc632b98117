//! The failure taxonomy. Every precondition violation aborts the whole call
//! with one of these values and no partial state change.

use vstd::prelude::*;

verus! {

/// A named failure condition. Each operation returns the first of these whose
/// condition holds, checked in the operation's documented order, and performs
/// no ledger mutation when it fails.
#[derive(Clone, Copy, PartialEq, Eq, Structural, Debug)]
pub enum LendingError {
    /// An account balance is smaller than the amount to be moved or debited.
    InsufficientBalance,
    /// The pool has no liquidity yet: one of its two reserves is zero.
    InsufficientLiquidity,
    /// The collateral supplied for a borrow is below twice the borrowed amount.
    InsufficientCollateral,
    /// The caller already has an open borrow position.
    PositionAlreadyOpen,
    /// The caller has no open borrow position to repay.
    NoOpenPosition,
    /// A liquidity provision would mint zero shares.
    ZeroMintedLiquidity,
    /// Initial liquidity was offered while the pool already holds reserves.
    AlreadyInitialized,
    /// The given token address is neither of the two configured tokens.
    UnknownToken,
    /// A checked computation would overflow or underflow the amount type.
    ArithmeticOverflow,
    /// The asynchronous token transfer reported failure to its callback.
    TransferFailed,
}

impl LendingError {
    /// A short name for display by unverified callers.
    pub fn as_str(&self) -> (r: &'static str) {
        match self {
            LendingError::InsufficientBalance => "insufficient balance",
            LendingError::InsufficientLiquidity => "insufficient liquidity",
            LendingError::InsufficientCollateral => "insufficient collateral",
            LendingError::PositionAlreadyOpen => "position already open",
            LendingError::NoOpenPosition => "no open position",
            LendingError::ZeroMintedLiquidity => "zero minted liquidity",
            LendingError::AlreadyInitialized => "already initialized",
            LendingError::UnknownToken => "unknown token",
            LendingError::ArithmeticOverflow => "arithmetic overflow",
            LendingError::TransferFailed => "transfer failed",
        }
    }
}

} // verus!
