//! Reasons for which the pool engine rejects an operation.

use vstd::prelude::*;

verus! {

/// Why an operation was rejected. A rejected operation leaves the pool untouched.
#[derive(Clone, Copy, Debug, PartialEq, Eq, Structural)]
pub enum AMMErrors {
    /// An amount given by the caller is zero.
    InvalidAmount,
    /// The fee rate is not below 10000 basis points.
    InvalidFee,
    /// A pool already lives in the slot.
    AlreadyInitialized,
    /// The swap would take the whole output reserve, or a reserve is empty.
    InsufficientLiquidity,
    /// More claim units are to be redeemed than are outstanding.
    InsufficientClaim,
    /// A balance or the claim supply would no longer fit in 64 bits.
    Overflow,
}

impl AMMErrors {
    /// The text that `message` gives for each error.
    pub open spec fn message_text(self) -> Seq<char> {
        match self {
            AMMErrors::InvalidAmount => "invalid amount"@,
            AMMErrors::InvalidFee => "invalid fee rate"@,
            AMMErrors::AlreadyInitialized => "pool already initialized"@,
            AMMErrors::InsufficientLiquidity => "insufficient liquidity"@,
            AMMErrors::InsufficientClaim => "insufficient claim balance"@,
            AMMErrors::Overflow => "arithmetic overflow"@,
        }
    }

    /// A short text that names the error.
    pub fn message(&self) -> (r: &'static str)
        ensures
            r@ == self.message_text(),
    {
        match self {
            AMMErrors::InvalidAmount => "invalid amount",
            AMMErrors::InvalidFee => "invalid fee rate",
            AMMErrors::AlreadyInitialized => "pool already initialized",
            AMMErrors::InsufficientLiquidity => "insufficient liquidity",
            AMMErrors::InsufficientClaim => "insufficient claim balance",
            AMMErrors::Overflow => "arithmetic overflow",
        }
    }
}

} // verus!
