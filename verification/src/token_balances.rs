//! The pool ledger: per-account balances of the two tradable tokens and the
//! liquidity-share token, with conservation and zero-pruning guarantees.

use vstd::prelude::*;

use crate::balance_map::BalanceMap;
use crate::errors::LendingError;
use crate::{Address, TokenAmount};

verus! {

/// One of the three token kinds tracked by the ledger.
#[derive(Clone, Copy, PartialEq, Eq, Structural, Debug)]
pub enum Token {
    /// The first configured tradable token.
    A,
    /// The second configured tradable token.
    B,
    /// The derived liquidity-share token.
    Liquidity,
}

/// The (input, output) token pair deduced from a requested token address.
#[derive(Clone, Copy, PartialEq, Eq, Structural, Debug)]
pub struct TokensInOut {
    /// The token handed in by the caller.
    pub token_in: Token,
    /// The opposite configured token, handed out by the pool.
    pub token_out: Token,
}

/// A snapshot of one account's balances of all three tokens.
#[derive(Clone, Copy, PartialEq, Eq, Structural, Debug)]
pub struct TokenBalance {
    /// Balance of token A.
    pub a_tokens: TokenAmount,
    /// Balance of token B.
    pub b_tokens: TokenAmount,
    /// Balance of liquidity shares.
    pub liquidity_tokens: TokenAmount,
}

impl TokenBalance {
    /// The balance of the given token kind in this snapshot.
    pub open spec fn spec_amount_of(&self, token: Token) -> TokenAmount {
        match token {
            Token::A => self.a_tokens,
            Token::B => self.b_tokens,
            Token::Liquidity => self.liquidity_tokens,
        }
    }

    /// The balance of the given token kind in this snapshot.
    pub fn get_amount_of(&self, token: Token) -> (r: TokenAmount)
        ensures
            r == self.spec_amount_of(token),
    {
        match token {
            Token::A => self.a_tokens,
            Token::B => self.b_tokens,
            Token::Liquidity => self.liquidity_tokens,
        }
    }
}

/// `amount` if `(x, t)` is the account and token credited, else zero.
pub open spec fn single_delta(
    x: Address,
    t: Token,
    account: Address,
    token: Token,
    amount: int,
) -> int {
    if x == account && t == token {
        amount
    } else {
        0
    }
}

/// Net change of `(x, t)`'s balance under a transfer of `amount` of `token`
/// from `from` to `to`. When `from == to` the deltas cancel.
pub open spec fn transfer_delta(
    x: Address,
    t: Token,
    from: Address,
    to: Address,
    token: Token,
    amount: int,
) -> int {
    single_delta(x, t, to, token, amount) - single_delta(x, t, from, token, amount)
}

/// The ledger: the two configured token addresses and a zero-pruned balance
/// map per token kind.
pub struct TokenBalances {
    /// Address of the contract implementing token A.
    pub token_a_address: Address,
    /// Address of the contract implementing token B.
    pub token_b_address: Address,
    /// Per-account balances of token A.
    pub a_balances: BalanceMap,
    /// Per-account balances of token B.
    pub b_balances: BalanceMap,
    /// Per-account balances of liquidity shares.
    pub liquidity_balances: BalanceMap,
}

/// The first error that a transfer of `amount` of `token` from `from` to `to`
/// runs into on ledger `pre`, if any: the sender must hold the amount, and the
/// receiver's balance must not overflow.
pub open spec fn spec_move_error(
    pre: TokenBalances,
    from: Address,
    to: Address,
    token: Token,
    amount: TokenAmount,
) -> Option<LendingError> {
    if pre.spec_get(from, token) < amount {
        Some(LendingError::InsufficientBalance)
    } else if from != to && pre.spec_get(to, token) + amount > u128::MAX {
        Some(LendingError::ArithmeticOverflow)
    } else {
        None
    }
}

impl TokenBalances {
    /// Balance of `account` for `token`; zero when no entry is stored.
    pub open spec fn spec_get(&self, account: Address, token: Token) -> TokenAmount {
        match token {
            Token::A => self.a_balances.spec_get(account),
            Token::B => self.b_balances.spec_get(account),
            Token::Liquidity => self.liquidity_balances.spec_get(account),
        }
    }

    /// Whether an entry for `(account, token)` is actually stored.
    pub open spec fn spec_has(&self, account: Address, token: Token) -> bool {
        match token {
            Token::A => self.a_balances.spec_has(account),
            Token::B => self.b_balances.spec_has(account),
            Token::Liquidity => self.liquidity_balances.spec_has(account),
        }
    }

    /// Sum of all account balances of `token`, as a mathematical integer.
    pub open spec fn total(&self, token: Token) -> int {
        match token {
            Token::A => self.a_balances.total(),
            Token::B => self.b_balances.total(),
            Token::Liquidity => self.liquidity_balances.total(),
        }
    }

    /// Invariant: each per-token map is well formed (distinct keys, no
    /// persisted zero entry).
    pub open spec fn wf(&self) -> bool {
        &&& self.a_balances.wf()
        &&& self.b_balances.wf()
        &&& self.liquidity_balances.wf()
    }

    /// The (input, output) pair for a requested token address: the other
    /// configured token is always the output; an unconfigured address
    /// resolves to nothing.
    pub open spec fn spec_tokens_in_out(&self, token_address: Address) -> Option<TokensInOut> {
        if token_address == self.token_a_address {
            Some(TokensInOut { token_in: Token::A, token_out: Token::B })
        } else if token_address == self.token_b_address {
            Some(TokensInOut { token_in: Token::B, token_out: Token::A })
        } else {
            None
        }
    }

    /// In a well-formed ledger a zero balance is the same thing as absence:
    /// once a balance reaches zero, no residual entry exists.
    pub proof fn lemma_zero_iff_absent(&self, account: Address, token: Token)
        requires
            self.wf(),
        ensures
            self.spec_get(account, token) == 0 <==> !self.spec_has(account, token),
    {
        match token {
            Token::A => self.a_balances.lemma_zero_iff_absent(account),
            Token::B => self.b_balances.lemma_zero_iff_absent(account),
            Token::Liquidity => self.liquidity_balances.lemma_zero_iff_absent(account),
        }
    }

    /// An empty ledger configured with the two token addresses.
    pub fn new(token_a_address: Address, token_b_address: Address) -> (tb: TokenBalances)
        ensures
            tb.wf(),
            tb.token_a_address == token_a_address,
            tb.token_b_address == token_b_address,
            forall|x: Address, t: Token| #[trigger] tb.spec_get(x, t) == 0,
            forall|x: Address, t: Token| !(#[trigger] tb.spec_has(x, t)),
            forall|t: Token| #[trigger] tb.total(t) == 0,
    {
        TokenBalances {
            token_a_address,
            token_b_address,
            a_balances: BalanceMap::new(),
            b_balances: BalanceMap::new(),
            liquidity_balances: BalanceMap::new(),
        }
    }

    /// Balance of `account` for `token`, zero when absent.
    pub fn get_amount_of(&self, account: Address, token: Token) -> (r: TokenAmount)
        requires
            self.wf(),
        ensures
            r == self.spec_get(account, token),
    {
        match token {
            Token::A => self.a_balances.get(account),
            Token::B => self.b_balances.get(account),
            Token::Liquidity => self.liquidity_balances.get(account),
        }
    }

    /// Whether an entry for `(account, token)` is stored.
    pub fn has_entry(&self, account: Address, token: Token) -> (r: bool)
        requires
            self.wf(),
        ensures
            r == self.spec_has(account, token),
    {
        match token {
            Token::A => self.a_balances.contains_key(account),
            Token::B => self.b_balances.contains_key(account),
            Token::Liquidity => self.liquidity_balances.contains_key(account),
        }
    }

    /// Snapshot of one account's balances of all three tokens, read fresh.
    pub fn get_balance_for(&self, account: Address) -> (b: TokenBalance)
        requires
            self.wf(),
        ensures
            b.a_tokens == self.spec_get(account, Token::A),
            b.b_tokens == self.spec_get(account, Token::B),
            b.liquidity_tokens == self.spec_get(account, Token::Liquidity),
            forall|t: Token| #[trigger] b.spec_amount_of(t) == self.spec_get(account, t),
    {
        TokenBalance {
            a_tokens: self.a_balances.get(account),
            b_tokens: self.b_balances.get(account),
            liquidity_tokens: self.liquidity_balances.get(account),
        }
    }

    /// Resolves the (input, output) token pair for a requested token address.
    pub fn deduce_tokens_in_out(&self, token_address: Address) -> (r: Result<
        TokensInOut,
        LendingError,
    >)
        ensures
            (match self.spec_tokens_in_out(token_address) {
                Some(pair) => r == Ok::<TokensInOut, LendingError>(pair),
                None => r == Err::<TokensInOut, LendingError>(LendingError::UnknownToken),
            }),
    {
        if token_address == self.token_a_address {
            Ok(TokensInOut { token_in: Token::A, token_out: Token::B })
        } else if token_address == self.token_b_address {
            Ok(TokensInOut { token_in: Token::B, token_out: Token::A })
        } else {
            Err(LendingError::UnknownToken)
        }
    }

    /// Stores `amount` for `(account, token)`, pruning the entry when the
    /// amount is zero. This is the single mutation entrypoint of the ledger.
    pub fn insert_balance(&mut self, account: Address, token: Token, amount: TokenAmount)
        requires
            old(self).wf(),
        ensures
            final(self).wf(),
            final(self).token_a_address == old(self).token_a_address,
            final(self).token_b_address == old(self).token_b_address,
            forall|x: Address, t: Token| #[trigger] final(self).spec_get(x, t) == (if x == account
                && t == token {
                amount
            } else {
                old(self).spec_get(x, t)
            }),
            forall|x: Address, t: Token| #[trigger] final(self).spec_has(x, t) == (if x == account
                && t == token {
                amount != 0
            } else {
                old(self).spec_has(x, t)
            }),
            forall|t: Token| #[trigger] final(self).total(t) == old(self).total(t) + (if t == token {
                amount - old(self).spec_get(account, token)
            } else {
                0
            }),
    {
        match token {
            Token::A => self.a_balances.insert_balance(account, amount),
            Token::B => self.b_balances.insert_balance(account, amount),
            Token::Liquidity => self.liquidity_balances.insert_balance(account, amount),
        }
    }

    /// Pure transfer: decreases `from`'s balance of `token` by `amount` and
    /// increases `to`'s by the same amount. Fails, mutating nothing, when the
    /// sender's balance is insufficient or the receiver's would overflow; the
    /// total supply of every token is preserved in every case.
    pub fn move_tokens(&mut self, from: Address, to: Address, token: Token, amount: TokenAmount)
        -> (r: Result<(), LendingError>)
        requires
            old(self).wf(),
        ensures
            final(self).wf(),
            final(self).token_a_address == old(self).token_a_address,
            final(self).token_b_address == old(self).token_b_address,
            (match spec_move_error(*old(self), from, to, token, amount) {
                Some(e) => r == Err::<(), LendingError>(e) && *final(self) == *old(self),
                None => r == Ok::<(), LendingError>(()) && forall|x: Address, t: Token|
                    #[trigger] final(self).spec_get(x, t) as int == old(self).spec_get(x, t)
                        + transfer_delta(x, t, from, to, token, amount as int),
            }),
            forall|t: Token| #[trigger] final(self).total(t) == old(self).total(t),
    {
        let bal_from = self.get_amount_of(from, token);
        if bal_from < amount {
            return Err(LendingError::InsufficientBalance);
        }
        if from == to {
            return Ok(());
        }
        let bal_to = self.get_amount_of(to, token);
        if bal_to > u128::MAX - amount {
            return Err(LendingError::ArithmeticOverflow);
        }
        self.insert_balance(from, token, bal_from - amount);
        self.insert_balance(to, token, bal_to + amount);
        Ok(())
    }

    /// Single-sided credit, used when tokens enter the system from outside.
    /// Fails, mutating nothing, when the balance would overflow.
    pub fn add_to_token_balance(&mut self, account: Address, token: Token, amount: TokenAmount)
        -> (r: Result<(), LendingError>)
        requires
            old(self).wf(),
        ensures
            final(self).wf(),
            final(self).token_a_address == old(self).token_a_address,
            final(self).token_b_address == old(self).token_b_address,
            (if old(self).spec_get(account, token) + amount > u128::MAX {
                r == Err::<(), LendingError>(LendingError::ArithmeticOverflow) && *final(self)
                    == *old(self)
            } else {
                r == Ok::<(), LendingError>(()) && (forall|x: Address, t: Token|
                    #[trigger] final(self).spec_get(x, t) as int == old(self).spec_get(x, t)
                        + single_delta(x, t, account, token, amount as int))
            }),
            forall|t: Token| #[trigger] final(self).total(t) == old(self).total(t) + (if t == token
                && old(self).spec_get(account, token) + amount <= u128::MAX {
                amount as int
            } else {
                0
            }),
    {
        let bal = self.get_amount_of(account, token);
        if bal > u128::MAX - amount {
            return Err(LendingError::ArithmeticOverflow);
        }
        self.insert_balance(account, token, bal + amount);
        Ok(())
    }

    /// Single-sided debit, used when tokens leave the system. Fails, mutating
    /// nothing, when the balance is insufficient; it never underflows.
    pub fn deduct_from_token_balance(&mut self, account: Address, token: Token, amount: TokenAmount)
        -> (r: Result<(), LendingError>)
        requires
            old(self).wf(),
        ensures
            final(self).wf(),
            final(self).token_a_address == old(self).token_a_address,
            final(self).token_b_address == old(self).token_b_address,
            (if old(self).spec_get(account, token) < amount {
                r == Err::<(), LendingError>(LendingError::InsufficientBalance) && *final(self)
                    == *old(self)
            } else {
                r == Ok::<(), LendingError>(()) && (forall|x: Address, t: Token|
                    #[trigger] final(self).spec_get(x, t) as int == old(self).spec_get(x, t)
                        - single_delta(x, t, account, token, amount as int))
            }),
            forall|t: Token| #[trigger] final(self).total(t) == old(self).total(t) - (if t == token
                && old(self).spec_get(account, token) >= amount {
                amount as int
            } else {
                0
            }),
    {
        let bal = self.get_amount_of(account, token);
        if bal < amount {
            return Err(LendingError::InsufficientBalance);
        }
        self.insert_balance(account, token, bal - amount);
        Ok(())
    }
}

} // verus!
