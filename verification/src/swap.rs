//! Swapping one asset for the other along the constant-product curve.

use vstd::prelude::*;
use crate::errors::AMMErrors;
use crate::pool::{Pool, PoolState, BASIS_POINTS};

verus! {

/// What is left of `amount_in` once the fee is taken: `floor(amount_in * (10000 - fee) / 10000)`.
pub open spec fn net_input(amount_in: nat, fees_percentage: nat) -> nat {
    amount_in * ((BASIS_POINTS - fees_percentage) as nat) / (BASIS_POINTS as nat)
}

/// The constant-product price: `floor(net * reserve_out / (reserve_in + net))`.
pub open spec fn curve_output(amount_in_net: nat, reserve_in: nat, reserve_out: nat) -> nat {
    amount_in_net * reserve_out / (reserve_in + amount_in_net)
}

impl PoolState {
    /// The reserve of the asset that the caller sells.
    pub open spec fn reserve_in(self, is_a_to_b: bool) -> nat {
        if is_a_to_b {
            self.reserve_a
        } else {
            self.reserve_b
        }
    }

    /// The reserve of the asset that the caller buys.
    pub open spec fn reserve_out(self, is_a_to_b: bool) -> nat {
        if is_a_to_b {
            self.reserve_b
        } else {
            self.reserve_a
        }
    }

    /// The constant-product quantity `reserve_a * reserve_b`.
    pub open spec fn product(self) -> nat {
        self.reserve_a * self.reserve_b
    }
}

/// The amount of the bought asset that a swap of `amount_in` pays out.
pub open spec fn swap_amount_out(s: PoolState, amount_in: nat, is_a_to_b: bool) -> nat {
    curve_output(
        net_input(amount_in, s.fees_percentage),
        s.reserve_in(is_a_to_b),
        s.reserve_out(is_a_to_b),
    )
}

/// The pool cannot serve the swap: the curve has no price (nothing on the input side and
/// nothing coming in after the fee), or the price would take the whole output reserve.
pub open spec fn swap_drains(s: PoolState, amount_in: nat, is_a_to_b: bool) -> bool {
    ||| s.reserve_in(is_a_to_b) + net_input(amount_in, s.fees_percentage) == 0
    ||| swap_amount_out(s, amount_in, is_a_to_b) >= s.reserve_out(is_a_to_b)
}

/// The reason for which a swap is rejected, if it is: a zero amount first, then a pool that
/// cannot serve it, then an input reserve that would leave 64 bits.
pub open spec fn swap_error(s: PoolState, amount_in: nat, is_a_to_b: bool) -> Option<AMMErrors> {
    if amount_in == 0 {
        Some(AMMErrors::InvalidAmount)
    } else if swap_drains(s, amount_in, is_a_to_b) {
        Some(AMMErrors::InsufficientLiquidity)
    } else if s.reserve_in(is_a_to_b) + amount_in > u64::MAX {
        Some(AMMErrors::Overflow)
    } else {
        None
    }
}

/// The pool after an accepted swap: the input reserve grows by the whole `amount_in`, fee
/// included, and the output reserve shrinks by what is paid out.
pub open spec fn after_swap(s: PoolState, amount_in: nat, is_a_to_b: bool) -> PoolState {
    let out = swap_amount_out(s, amount_in, is_a_to_b);
    if is_a_to_b {
        PoolState { reserve_a: s.reserve_a + amount_in, reserve_b: (s.reserve_b - out) as nat, ..s }
    } else {
        PoolState { reserve_a: (s.reserve_a - out) as nat, reserve_b: s.reserve_b + amount_in, ..s }
    }
}

/// The fee never adds to the input: the net amount is at most the gross amount.
pub proof fn lemma_net_input_bounded(amount_in: nat, fees_percentage: nat)
    requires
        fees_percentage < BASIS_POINTS,
    ensures
        net_input(amount_in, fees_percentage) <= amount_in,
        fees_percentage == 0 ==> net_input(amount_in, fees_percentage) == amount_in,
{
    let f = BASIS_POINTS - fees_percentage;
    assert(amount_in * f / 10000 <= amount_in) by (nonlinear_arith)
        requires
            0 < f <= 10000,
    ;
    assert(amount_in * 10000 / 10000 == amount_in) by (nonlinear_arith);
}

/// Along the curve the output times the new (net) input side never exceeds what the net
/// input is worth, and with something on the input side the output stays below the reserve.
pub proof fn lemma_curve_output_bounded(amount_in_net: nat, reserve_in: nat, reserve_out: nat)
    requires
        reserve_in + amount_in_net > 0,
    ensures
        curve_output(amount_in_net, reserve_in, reserve_out) * (reserve_in + amount_in_net)
            <= amount_in_net * reserve_out,
        curve_output(amount_in_net, reserve_in, reserve_out) <= reserve_out,
        reserve_in > 0 && reserve_out > 0 ==> curve_output(amount_in_net, reserve_in, reserve_out)
            < reserve_out,
{
    let d = (reserve_in + amount_in_net) as int;
    let p = (amount_in_net * reserve_out) as int;
    let out = p / d;
    assert(out * d <= p && out >= 0) by (nonlinear_arith)
        requires
            d > 0,
            p >= 0,
            out == p / d,
    ;
    assert(out <= reserve_out) by (nonlinear_arith)
        requires
            out * d <= amount_in_net * reserve_out,
            d >= amount_in_net,
            d > 0,
            out >= 0,
    ;
    if reserve_in > 0 && reserve_out > 0 {
        assert(out < reserve_out) by (nonlinear_arith)
            requires
                out * d <= amount_in_net * reserve_out,
                d > amount_in_net,
                reserve_out > 0,
                out >= 0,
        ;
    }
}

/// A well-formed pool cannot serve a swap exactly when it is empty.
pub proof fn lemma_swap_drains_iff_empty(s: PoolState, amount_in: nat, is_a_to_b: bool)
    requires
        s.wf(),
    ensures
        swap_drains(s, amount_in, is_a_to_b) <==> s.claim_supply == 0,
{
    let net = net_input(amount_in, s.fees_percentage);
    let r_in = s.reserve_in(is_a_to_b);
    let r_out = s.reserve_out(is_a_to_b);
    if s.claim_supply > 0 {
        lemma_curve_output_bounded(net, r_in, r_out);
    } else if net > 0 {
        lemma_curve_output_bounded(net, r_in, r_out);
    }
}

/// The constant-product quantity does not shrink across an accepted swap.
pub proof fn lemma_swap_product_non_decreasing(s: PoolState, amount_in: nat, is_a_to_b: bool)
    requires
        s.wf(),
        swap_error(s, amount_in, is_a_to_b) is None,
    ensures
        after_swap(s, amount_in, is_a_to_b).product() >= s.product(),
{
    let net = net_input(amount_in, s.fees_percentage);
    let r_in = s.reserve_in(is_a_to_b);
    let r_out = s.reserve_out(is_a_to_b);
    let out = swap_amount_out(s, amount_in, is_a_to_b);
    lemma_net_input_bounded(amount_in, s.fees_percentage);
    lemma_curve_output_bounded(net, r_in, r_out);
    assert((r_in + amount_in) * (r_out - out) >= r_in * r_out) by (nonlinear_arith)
        requires
            out * (r_in + net) <= net * r_out,
            net <= amount_in,
            out < r_out,
    ;
    assert((r_out - out) * (r_in + amount_in) == (r_in + amount_in) * (r_out - out))
        by (nonlinear_arith);
    assert(r_out * r_in == r_in * r_out) by (nonlinear_arith);
}

/// An accepted swap leaves a well-formed pool well formed.
pub proof fn lemma_swap_preserves_wf(s: PoolState, amount_in: nat, is_a_to_b: bool)
    requires
        s.wf(),
        swap_error(s, amount_in, is_a_to_b) is None,
    ensures
        after_swap(s, amount_in, is_a_to_b).wf(),
{
    lemma_swap_drains_iff_empty(s, amount_in, is_a_to_b);
}

/// Sells `amount` of one asset to the pool for the other: asset A for asset B where
/// `is_a_to_b` holds, asset B for asset A where it does not. Returns the amount paid out.
pub fn swap(pool: &mut Pool, amount: u64, is_a_to_b: bool) -> (r: Result<u64, AMMErrors>)
    ensures
        old(pool)@.wf(),
        final(pool)@.wf(),
        match r {
            Ok(amount_out) => {
                &&& swap_error(old(pool)@, amount as nat, is_a_to_b) is None
                &&& amount_out == swap_amount_out(old(pool)@, amount as nat, is_a_to_b)
                &&& final(pool)@ == after_swap(old(pool)@, amount as nat, is_a_to_b)
                &&& final(pool)@.product() >= old(pool)@.product()
            },
            Err(e) => {
                &&& swap_error(old(pool)@, amount as nat, is_a_to_b) == Some(e)
                &&& *final(pool) == *old(pool)
            },
        },
{
    proof {
        use_type_invariant(&*pool);
    }
    if amount == 0 {
        return Err(AMMErrors::InvalidAmount);
    }
    let (reserve_in, reserve_out) = if is_a_to_b {
        (pool.reserve_a, pool.reserve_b)
    } else {
        (pool.reserve_b, pool.reserve_a)
    };
    let fee_numerator: u128 = (BASIS_POINTS - pool.fees_percentage) as u128;
    assert(amount * fee_numerator <= u128::MAX) by (nonlinear_arith)
        requires
            amount <= u64::MAX,
            fee_numerator <= 10000,
    ;
    let amount_in_after_fee: u128 = (amount as u128 * fee_numerator) / (BASIS_POINTS as u128);
    proof {
        lemma_net_input_bounded(amount as nat, pool@.fees_percentage);
    }
    let new_in_side: u128 = reserve_in as u128 + amount_in_after_fee;
    if new_in_side == 0 {
        return Err(AMMErrors::InsufficientLiquidity);
    }
    assert(amount_in_after_fee * reserve_out <= u128::MAX) by (nonlinear_arith)
        requires
            amount_in_after_fee <= u64::MAX,
            reserve_out <= u64::MAX,
    ;
    let amount_out: u128 = (amount_in_after_fee * reserve_out as u128) / new_in_side;
    if amount_out >= reserve_out as u128 {
        return Err(AMMErrors::InsufficientLiquidity);
    }
    let new_reserve_in: u64 = match reserve_in.checked_add(amount) {
        Some(sum) => sum,
        None => {
            return Err(AMMErrors::Overflow);
        },
    };
    let amount_out: u64 = amount_out as u64;
    let new_reserve_out: u64 = reserve_out - amount_out;
    proof {
        lemma_swap_preserves_wf(pool@, amount as nat, is_a_to_b);
        lemma_swap_product_non_decreasing(pool@, amount as nat, is_a_to_b);
    }
    if is_a_to_b {
        *pool = Pool { reserve_a: new_reserve_in, reserve_b: new_reserve_out, ..*pool };
    } else {
        *pool = Pool { reserve_a: new_reserve_out, reserve_b: new_reserve_in, ..*pool };
    }
    Ok(amount_out)
}

} // verus!
