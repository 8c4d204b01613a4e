//! The pool record, its mathematical model and its invariant.

use vstd::prelude::*;
use anchor_lang::prelude::Pubkey;
use crate::errors::AMMErrors;

verus! {

/// `anchor_lang::prelude::Pubkey`, the 32-byte address that names an asset type.
/// The engine stores such addresses and hands them back; it never looks inside one, and
/// nothing is claimed of what one holds.
#[verifier::external_type_specification]
#[verifier::external_body]
pub struct ExPubkey(Pubkey);

/// Denominator of the fee rate: fees are given in parts per 10000.
pub const BASIS_POINTS: u16 = 10000;

/// The fee rate of a pool that names none: 30 basis points, which is 0.3%.
pub const DEFAULT_FEE_BASIS_POINTS: u16 = 30;

/// Mathematical model of a pool: the record with its balances as natural numbers.
pub struct PoolState {
    /// The asset type held in reserve A.
    pub token_a_mint: Pubkey,
    /// The asset type held in reserve B.
    pub token_b_mint: Pubkey,
    /// The swap fee in basis points.
    pub fees_percentage: nat,
    /// The control handle that authorises transfers out of the reserves.
    pub bump: u8,
    /// The balance of asset A that the pool holds.
    pub reserve_a: nat,
    /// The balance of asset B that the pool holds.
    pub reserve_b: nat,
    /// The claim units outstanding.
    pub claim_supply: nat,
}

impl PoolState {
    /// No claim unit exists against an empty reserve.
    pub open spec fn claims_are_backed(self) -> bool {
        self.claim_supply > 0 ==> self.reserve_a > 0 && self.reserve_b > 0
    }

    /// The pool holds nothing exactly when no claim unit is outstanding.
    pub open spec fn empty_iff_unclaimed(self) -> bool {
        self.claim_supply == 0 <==> self.reserve_a == 0 && self.reserve_b == 0
    }

    /// The fee rate is a proper fraction and the three balances fit in 64 bits.
    pub open spec fn in_range(self) -> bool {
        &&& self.fees_percentage < BASIS_POINTS
        &&& self.reserve_a <= u64::MAX
        &&& self.reserve_b <= u64::MAX
        &&& self.claim_supply <= u64::MAX
    }

    /// The invariant of a pool. It holds of a new pool and after every operation.
    pub open spec fn wf(self) -> bool {
        &&& self.in_range()
        &&& self.claims_are_backed()
        &&& self.empty_iff_unclaimed()
    }

    /// The model of a pool right after its creation.
    pub open spec fn empty(
        token_a_mint: Pubkey,
        token_b_mint: Pubkey,
        fees_percentage: u16,
        bump: u8,
    ) -> PoolState {
        PoolState {
            token_a_mint,
            token_b_mint,
            fees_percentage: fees_percentage as nat,
            bump,
            reserve_a: 0,
            reserve_b: 0,
            claim_supply: 0,
        }
    }
}

/// A liquidity pool for one pair of assets. Its fields are private: every pool that exists
/// satisfies `PoolState::wf`.
#[derive(Clone, Copy, Debug)]
pub struct Pool {
    pub(crate) token_a_mint: Pubkey,
    pub(crate) token_b_mint: Pubkey,
    pub(crate) fees_percentage: u16,
    pub(crate) bump: u8,
    pub(crate) reserve_a: u64,
    pub(crate) reserve_b: u64,
    pub(crate) claim_supply: u64,
}

impl View for Pool {
    type V = PoolState;

    open(crate) spec fn view(&self) -> PoolState {
        PoolState {
            token_a_mint: self.token_a_mint,
            token_b_mint: self.token_b_mint,
            fees_percentage: self.fees_percentage as nat,
            bump: self.bump,
            reserve_a: self.reserve_a as nat,
            reserve_b: self.reserve_b as nat,
            claim_supply: self.claim_supply as nat,
        }
    }
}

impl Pool {
    #[verifier::type_invariant]
    pub(crate) open(crate) spec fn inv(self) -> bool {
        self@.wf()
    }

    /// Rebuilds a pool from stored values. Answers `None` exactly when the values break the
    /// invariant.
    pub fn from_parts(
        token_a_mint: Pubkey,
        token_b_mint: Pubkey,
        fees_percentage: u16,
        bump: u8,
        reserve_a: u64,
        reserve_b: u64,
        claim_supply: u64,
    ) -> (r: Option<Pool>)
        ensures
            ({
                let s = PoolState {
                    token_a_mint,
                    token_b_mint,
                    fees_percentage: fees_percentage as nat,
                    bump,
                    reserve_a: reserve_a as nat,
                    reserve_b: reserve_b as nat,
                    claim_supply: claim_supply as nat,
                };
                match r {
                    Some(pool) => s.wf() && pool@ == s,
                    None => !s.wf(),
                }
            }),
    {
        if fees_percentage >= BASIS_POINTS {
            return None;
        }
        let seeded: bool = claim_supply > 0 && reserve_a > 0 && reserve_b > 0;
        let empty: bool = claim_supply == 0 && reserve_a == 0 && reserve_b == 0;
        if seeded || empty {
            Some(
                Pool {
                    token_a_mint,
                    token_b_mint,
                    fees_percentage,
                    bump,
                    reserve_a,
                    reserve_b,
                    claim_supply,
                },
            )
        } else {
            None
        }
    }

    /// The asset type held in reserve A.
    pub fn token_a_mint(&self) -> (r: Pubkey)
        ensures
            r == self@.token_a_mint,
    {
        self.token_a_mint
    }

    /// The asset type held in reserve B.
    pub fn token_b_mint(&self) -> (r: Pubkey)
        ensures
            r == self@.token_b_mint,
    {
        self.token_b_mint
    }

    /// The swap fee in basis points.
    pub fn fees_percentage(&self) -> (r: u16)
        ensures
            r == self@.fees_percentage,
            r < BASIS_POINTS,
    {
        proof {
            use_type_invariant(self);
        }
        self.fees_percentage
    }

    /// The control handle that authorises transfers out of the reserves.
    pub fn bump(&self) -> (r: u8)
        ensures
            r == self@.bump,
    {
        self.bump
    }

    /// The balance of asset A that the pool holds.
    pub fn reserve_a(&self) -> (r: u64)
        ensures
            r == self@.reserve_a,
            self@.wf(),
    {
        proof {
            use_type_invariant(self);
        }
        self.reserve_a
    }

    /// The balance of asset B that the pool holds.
    pub fn reserve_b(&self) -> (r: u64)
        ensures
            r == self@.reserve_b,
            self@.wf(),
    {
        proof {
            use_type_invariant(self);
        }
        self.reserve_b
    }

    /// The claim units outstanding.
    pub fn claim_supply(&self) -> (r: u64)
        ensures
            r == self@.claim_supply,
            self@.wf(),
    {
        proof {
            use_type_invariant(self);
        }
        self.claim_supply
    }
}

/// What `initialize` answers for a slot and a fee rate: an occupied slot comes first,
/// then a fee rate of 10000 basis points or more.
pub open spec fn initialize_outcome(slot: Option<Pool>, fees_percentage: u16) -> Result<
    (),
    AMMErrors,
> {
    if slot is Some {
        Err(AMMErrors::AlreadyInitialized)
    } else if fees_percentage >= BASIS_POINTS {
        Err(AMMErrors::InvalidFee)
    } else {
        Ok(())
    }
}

/// Creates the pool for a pair of assets in `slot`, the place that the host keeps for this
/// pair and owner. The new pool holds nothing and has no claim unit outstanding.
pub fn initialize(
    slot: &mut Option<Pool>,
    token_a_mint: Pubkey,
    token_b_mint: Pubkey,
    fees_percentage: u16,
    bump: u8,
) -> (r: Result<(), AMMErrors>)
    ensures
        r == initialize_outcome(*old(slot), fees_percentage),
        r is Ok ==> (*final(slot) matches Some(pool) && pool@ == PoolState::empty(
            token_a_mint,
            token_b_mint,
            fees_percentage,
            bump,
        ) && pool@.wf()),
        r is Err ==> *final(slot) == *old(slot),
{
    if slot.is_some() {
        return Err(AMMErrors::AlreadyInitialized);
    }
    if fees_percentage >= BASIS_POINTS {
        return Err(AMMErrors::InvalidFee);
    }
    *slot = Some(
        Pool {
            token_a_mint,
            token_b_mint,
            fees_percentage,
            bump,
            reserve_a: 0,
            reserve_b: 0,
            claim_supply: 0,
        },
    );
    Ok(())
}

} // verus!
