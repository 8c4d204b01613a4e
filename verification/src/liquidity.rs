//! Providing liquidity for claim units and redeeming claim units for liquidity.

use vstd::prelude::*;
use crate::errors::AMMErrors;
use crate::pool::{Pool, PoolState};
use crate::sqrt::{floor_sqrt, lemma_floor_sqrt_of_product, IntegerSqrt};

verus! {

/// The proportional part `floor(amount * numerator / denominator)`, rounded down so that a
/// fraction of a unit stays with the pool.
pub open spec fn share(amount: nat, numerator: nat, denominator: nat) -> nat {
    amount * numerator / denominator
}

/// The claim units minted for a deposit. Into an empty pool: the geometric mean
/// `floor(sqrt(amount_a * amount_b))`. Into a seeded pool: the smaller of the two parts of the
/// claim supply that the amounts are of their reserves.
pub open spec fn claim_for_deposit(s: PoolState, amount_a: nat, amount_b: nat) -> nat {
    if s.claim_supply == 0 {
        floor_sqrt(amount_a * amount_b)
    } else {
        let from_a = share(amount_a, s.claim_supply, s.reserve_a);
        let from_b = share(amount_b, s.claim_supply, s.reserve_b);
        if from_a <= from_b {
            from_a
        } else {
            from_b
        }
    }
}

/// The reason for which a deposit is rejected, if it is: a zero amount first, then a reserve
/// or a claim supply that would leave 64 bits.
pub open spec fn deposit_error(s: PoolState, amount_a: nat, amount_b: nat) -> Option<AMMErrors> {
    if amount_a == 0 || amount_b == 0 {
        Some(AMMErrors::InvalidAmount)
    } else if s.reserve_a + amount_a > u64::MAX || s.reserve_b + amount_b > u64::MAX
        || s.claim_supply + claim_for_deposit(s, amount_a, amount_b) > u64::MAX {
        Some(AMMErrors::Overflow)
    } else {
        None
    }
}

/// The pool after an accepted deposit: both amounts are taken in whole, and the claim supply
/// grows by what is minted.
pub open spec fn after_deposit(s: PoolState, amount_a: nat, amount_b: nat) -> PoolState {
    PoolState {
        reserve_a: s.reserve_a + amount_a,
        reserve_b: s.reserve_b + amount_b,
        claim_supply: s.claim_supply + claim_for_deposit(s, amount_a, amount_b),
        ..s
    }
}

/// The reason for which a withdrawal is rejected, if it is: a zero claim first, then a claim
/// above the outstanding supply.
pub open spec fn withdraw_error(s: PoolState, claim: nat) -> Option<AMMErrors> {
    if claim == 0 {
        Some(AMMErrors::InvalidAmount)
    } else if claim > s.claim_supply {
        Some(AMMErrors::InsufficientClaim)
    } else {
        None
    }
}

/// What `claim` units redeem of asset A: `floor(claim * reserve_a / claim_supply)`.
pub open spec fn redeemable_a(s: PoolState, claim: nat) -> nat {
    share(claim, s.reserve_a, s.claim_supply)
}

/// What `claim` units redeem of asset B: `floor(claim * reserve_b / claim_supply)`.
pub open spec fn redeemable_b(s: PoolState, claim: nat) -> nat {
    share(claim, s.reserve_b, s.claim_supply)
}

/// The pool after an accepted withdrawal: the claim units are burnt and both reserves shrink
/// by what the units redeem.
pub open spec fn after_withdraw(s: PoolState, claim: nat) -> PoolState {
    PoolState {
        reserve_a: (s.reserve_a - redeemable_a(s, claim)) as nat,
        reserve_b: (s.reserve_b - redeemable_b(s, claim)) as nat,
        claim_supply: (s.claim_supply - claim) as nat,
        ..s
    }
}

/// A part of a whole never exceeds the whole, is the whole where all of it is asked for, and
/// is a proper part of a positive whole where less is asked for.
pub proof fn lemma_share_of_whole(part: nat, whole: nat, total: nat)
    requires
        0 < total,
        part <= total,
    ensures
        share(part, whole, total) <= whole,
        share(part, whole, total) * total <= part * whole,
        part == total ==> share(part, whole, total) == whole,
        part < total && whole > 0 ==> share(part, whole, total) < whole,
{
    let p = part * whole;
    let q = p / total;
    assert(q * total <= p && q >= 0) by (nonlinear_arith)
        requires
            total > 0,
            p >= 0,
            q == p / total,
    ;
    assert(q <= whole) by (nonlinear_arith)
        requires
            q * total <= part * whole,
            part <= total,
            total > 0,
            q >= 0,
    ;
    if part == total {
        assert(total * whole / total == whole) by (nonlinear_arith)
            requires
                total > 0,
        ;
    }
    if part < total && whole > 0 {
        assert(q < whole) by (nonlinear_arith)
            requires
                q * total <= part * whole,
                part < total,
                whole > 0,
                q >= 0,
        ;
    }
}

/// An accepted deposit leaves a well-formed pool well formed.
pub proof fn lemma_deposit_preserves_wf(s: PoolState, amount_a: nat, amount_b: nat)
    requires
        s.wf(),
        deposit_error(s, amount_a, amount_b) is None,
    ensures
        after_deposit(s, amount_a, amount_b).wf(),
        s.claim_supply == 0 ==> claim_for_deposit(s, amount_a, amount_b) > 0,
{
    if s.claim_supply == 0 {
        lemma_floor_sqrt_of_product(amount_a, amount_b);
    }
}

/// Two positive amounts are always accepted by an empty pool, and earn at least one claim
/// unit.
pub proof fn lemma_first_deposit_is_accepted(s: PoolState, amount_a: nat, amount_b: nat)
    requires
        s.wf(),
        s.claim_supply == 0,
        0 < amount_a <= u64::MAX,
        0 < amount_b <= u64::MAX,
    ensures
        deposit_error(s, amount_a, amount_b) is None,
        1 <= claim_for_deposit(s, amount_a, amount_b) <= u64::MAX,
{
    lemma_floor_sqrt_of_product(amount_a, amount_b);
}

/// An accepted withdrawal leaves a well-formed pool well formed and pays out no more than
/// the reserves hold.
pub proof fn lemma_withdraw_preserves_wf(s: PoolState, claim: nat)
    requires
        s.wf(),
        withdraw_error(s, claim) is None,
    ensures
        after_withdraw(s, claim).wf(),
        redeemable_a(s, claim) <= s.reserve_a,
        redeemable_b(s, claim) <= s.reserve_b,
{
    lemma_share_of_whole(claim, s.reserve_a, s.claim_supply);
    lemma_share_of_whole(claim, s.reserve_b, s.claim_supply);
}

/// Redeeming the whole claim supply pays out both reserves to the last unit and leaves
/// the pool empty.
pub proof fn lemma_full_withdrawal_empties_pool(s: PoolState)
    requires
        s.wf(),
        s.claim_supply > 0,
    ensures
        withdraw_error(s, s.claim_supply) is None,
        redeemable_a(s, s.claim_supply) == s.reserve_a,
        redeemable_b(s, s.claim_supply) == s.reserve_b,
        after_withdraw(s, s.claim_supply).reserve_a == 0,
        after_withdraw(s, s.claim_supply).reserve_b == 0,
        after_withdraw(s, s.claim_supply).claim_supply == 0,
{
    lemma_share_of_whole(s.claim_supply, s.reserve_a, s.claim_supply);
    lemma_share_of_whole(s.claim_supply, s.reserve_b, s.claim_supply);
}

/// Takes `amount_a` of asset A and `amount_b` of asset B into the pool and returns the
/// number of claim units to mint for them.
pub fn deposite(pool: &mut Pool, amount_a: u64, amount_b: u64) -> (r: Result<u64, AMMErrors>)
    ensures
        old(pool)@.wf(),
        final(pool)@.wf(),
        match r {
            Ok(minted) => {
                &&& deposit_error(old(pool)@, amount_a as nat, amount_b as nat) is None
                &&& minted == claim_for_deposit(old(pool)@, amount_a as nat, amount_b as nat)
                &&& final(pool)@ == after_deposit(old(pool)@, amount_a as nat, amount_b as nat)
            },
            Err(e) => {
                &&& deposit_error(old(pool)@, amount_a as nat, amount_b as nat) == Some(e)
                &&& *final(pool) == *old(pool)
            },
        },
{
    proof {
        use_type_invariant(&*pool);
    }
    if amount_a == 0 || amount_b == 0 {
        return Err(AMMErrors::InvalidAmount);
    }
    let supply: u64 = pool.claim_supply;
    let lp_amount: u128 = if supply == 0 {
        assert(amount_a * amount_b <= u128::MAX) by (nonlinear_arith)
            requires
                amount_a <= u64::MAX,
                amount_b <= u64::MAX,
        ;
        (amount_a as u128 * amount_b as u128).integer_sqrt()
    } else {
        assert(amount_a * supply <= u128::MAX && amount_b * supply <= u128::MAX)
            by (nonlinear_arith)
            requires
                amount_a <= u64::MAX,
                amount_b <= u64::MAX,
                supply <= u64::MAX,
        ;
        let lp_from_a: u128 = amount_a as u128 * supply as u128 / pool.reserve_a as u128;
        let lp_from_b: u128 = amount_b as u128 * supply as u128 / pool.reserve_b as u128;
        if lp_from_a <= lp_from_b {
            lp_from_a
        } else {
            lp_from_b
        }
    };
    let new_reserve_a: u64 = match pool.reserve_a.checked_add(amount_a) {
        Some(sum) => sum,
        None => {
            return Err(AMMErrors::Overflow);
        },
    };
    let new_reserve_b: u64 = match pool.reserve_b.checked_add(amount_b) {
        Some(sum) => sum,
        None => {
            return Err(AMMErrors::Overflow);
        },
    };
    if lp_amount > (u64::MAX - supply) as u128 {
        return Err(AMMErrors::Overflow);
    }
    let minted: u64 = lp_amount as u64;
    proof {
        lemma_deposit_preserves_wf(pool@, amount_a as nat, amount_b as nat);
    }
    *pool = Pool {
        reserve_a: new_reserve_a,
        reserve_b: new_reserve_b,
        claim_supply: supply + minted,
        ..*pool
    };
    Ok(minted)
}

/// Redeems `amount` claim units and returns what they are worth of asset A and of asset B.
pub fn remove_liquidity(pool: &mut Pool, amount: u64) -> (r: Result<(u64, u64), AMMErrors>)
    ensures
        old(pool)@.wf(),
        final(pool)@.wf(),
        match r {
            Ok((amount_a, amount_b)) => {
                &&& withdraw_error(old(pool)@, amount as nat) is None
                &&& amount_a == redeemable_a(old(pool)@, amount as nat)
                &&& amount_b == redeemable_b(old(pool)@, amount as nat)
                &&& final(pool)@ == after_withdraw(old(pool)@, amount as nat)
                &&& amount == old(pool)@.claim_supply ==> {
                    &&& amount_a == old(pool)@.reserve_a
                    &&& amount_b == old(pool)@.reserve_b
                    &&& final(pool)@.reserve_a == 0
                    &&& final(pool)@.reserve_b == 0
                }
            },
            Err(e) => {
                &&& withdraw_error(old(pool)@, amount as nat) == Some(e)
                &&& *final(pool) == *old(pool)
            },
        },
{
    proof {
        use_type_invariant(&*pool);
    }
    if amount == 0 {
        return Err(AMMErrors::InvalidAmount);
    }
    let supply: u64 = pool.claim_supply;
    if amount > supply {
        return Err(AMMErrors::InsufficientClaim);
    }
    assert(amount * pool.reserve_a <= u128::MAX && amount * pool.reserve_b <= u128::MAX)
        by (nonlinear_arith)
        requires
            amount <= u64::MAX,
            pool.reserve_a <= u64::MAX,
            pool.reserve_b <= u64::MAX,
    ;
    proof {
        lemma_withdraw_preserves_wf(pool@, amount as nat);
        if amount == supply {
            lemma_full_withdrawal_empties_pool(pool@);
        }
    }
    let amount_a: u64 = (amount as u128 * pool.reserve_a as u128 / supply as u128) as u64;
    let amount_b: u64 = (amount as u128 * pool.reserve_b as u128 / supply as u128) as u64;
    *pool = Pool {
        reserve_a: pool.reserve_a - amount_a,
        reserve_b: pool.reserve_b - amount_b,
        claim_supply: supply - amount,
        ..*pool
    };
    Ok((amount_a, amount_b))
}

} // verus!
