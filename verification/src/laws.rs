//! What holds of the engine across several operations: a deposit redeemed at once, and the
//! worth of a holding while others provide and withdraw.

use vstd::prelude::*;
use crate::liquidity::{
    after_deposit, after_withdraw, claim_for_deposit, deposit_error, lemma_deposit_preserves_wf,
    lemma_share_of_whole, lemma_withdraw_preserves_wf, redeemable_a, redeemable_b, share,
    withdraw_error,
};
use crate::pool::PoolState;

verus! {

/// The deposit earns claim units without a rounding loss: it is the first into an empty
/// pool, or each amount is to its reserve exactly as the minted units are to the supply.
pub open spec fn deposit_is_exact(s: PoolState, amount_a: nat, amount_b: nat) -> bool {
    let minted = claim_for_deposit(s, amount_a, amount_b);
    s.claim_supply == 0 || (minted * s.reserve_a == amount_a * s.claim_supply && minted
        * s.reserve_b == amount_b * s.claim_supply)
}

/// A move of a liquidity provider.
pub enum LiquidityOp {
    Provide { amount_a: nat, amount_b: nat },
    Withdraw { claim: nat },
}

/// The pool after `op`: changed as the operation says where it is accepted, unchanged where
/// it is rejected.
pub open spec fn apply_op(s: PoolState, op: LiquidityOp) -> PoolState {
    match op {
        LiquidityOp::Provide { amount_a, amount_b } => {
            if deposit_error(s, amount_a, amount_b) is None {
                after_deposit(s, amount_a, amount_b)
            } else {
                s
            }
        },
        LiquidityOp::Withdraw { claim } => {
            if withdraw_error(s, claim) is None {
                after_withdraw(s, claim)
            } else {
                s
            }
        },
    }
}

/// The pool after the moves of `ops`, made in order.
pub open spec fn apply_ops(s: PoolState, ops: Seq<LiquidityOp>) -> PoolState
    decreases ops.len(),
{
    if ops.len() == 0 {
        s
    } else {
        apply_ops(apply_op(s, ops[0]), ops.skip(1))
    }
}

/// `op` is a move of somebody other than a holder of `held` claim units: where it is an
/// accepted withdrawal, it burns none of the holder's units.
pub open spec fn spares_holding(s: PoolState, held: nat, op: LiquidityOp) -> bool {
    op matches LiquidityOp::Withdraw { claim } ==> (withdraw_error(s, claim) is None ==> claim
        + held <= s.claim_supply)
}

/// Every move of `ops`, made in order from `s`, spares the holding.
pub open spec fn all_spare_holding(s: PoolState, held: nat, ops: Seq<LiquidityOp>) -> bool
    decreases ops.len(),
{
    if ops.len() == 0 {
        true
    } else {
        spares_holding(s, held, ops[0]) && all_spare_holding(
            apply_op(s, ops[0]),
            held,
            ops.skip(1),
        )
    }
}

/// Units that are worth at least as much each are worth at least as much together, also
/// after rounding down: if `reserve / supply <= reserve2 / supply2` then `held` units
/// redeem no less at the second rate than at the first.
pub proof fn lemma_share_grows_with_rate(
    held: nat,
    reserve: nat,
    supply: nat,
    reserve2: nat,
    supply2: nat,
)
    requires
        supply > 0,
        supply2 > 0,
        reserve * supply2 <= reserve2 * supply,
    ensures
        share(held, reserve, supply) <= share(held, reserve2, supply2),
{
    let q = share(held, reserve, supply);
    assert(q * supply <= held * reserve && q >= 0) by (nonlinear_arith)
        requires
            supply > 0,
            q == (held * reserve) / supply,
    ;
    assert((q * supply) * supply2 <= (held * reserve) * supply2) by (nonlinear_arith)
        requires
            q * supply <= held * reserve,
            supply2 > 0,
    ;
    assert(held * (reserve * supply2) <= held * (reserve2 * supply)) by (nonlinear_arith)
        requires
            reserve * supply2 <= reserve2 * supply,
    ;
    assert((q * supply) * supply2 == (q * supply2) * supply) by (nonlinear_arith);
    assert((held * reserve) * supply2 == held * (reserve * supply2)) by (nonlinear_arith);
    assert(held * (reserve2 * supply) == (held * reserve2) * supply) by (nonlinear_arith);
    assert(q * supply2 <= held * reserve2) by (nonlinear_arith)
        requires
            (q * supply2) * supply <= (held * reserve2) * supply,
            supply > 0,
    ;
    assert(q <= (held * reserve2) / supply2) by (nonlinear_arith)
        requires
            q * supply2 <= held * reserve2,
            supply2 > 0,
    ;
}

/// The units minted for a deposit into a seeded pool are worth no more of either reserve
/// than the deposit adds to it.
pub proof fn lemma_minted_within_deposit(s: PoolState, amount_a: nat, amount_b: nat)
    requires
        s.wf(),
        s.claim_supply > 0,
    ensures
        claim_for_deposit(s, amount_a, amount_b) * s.reserve_a <= amount_a * s.claim_supply,
        claim_for_deposit(s, amount_a, amount_b) * s.reserve_b <= amount_b * s.claim_supply,
{
    let m = claim_for_deposit(s, amount_a, amount_b);
    let from_a = share(amount_a, s.claim_supply, s.reserve_a);
    let from_b = share(amount_b, s.claim_supply, s.reserve_b);
    assert(from_a * s.reserve_a <= amount_a * s.claim_supply) by (nonlinear_arith)
        requires
            s.reserve_a > 0,
            from_a == (amount_a * s.claim_supply) / s.reserve_a,
    ;
    assert(from_b * s.reserve_b <= amount_b * s.claim_supply) by (nonlinear_arith)
        requires
            s.reserve_b > 0,
            from_b == (amount_b * s.claim_supply) / s.reserve_b,
    ;
    assert(m * s.reserve_a <= from_a * s.reserve_a) by (nonlinear_arith)
        requires
            m <= from_a,
    ;
    assert(m * s.reserve_b <= from_b * s.reserve_b) by (nonlinear_arith)
        requires
            m <= from_b,
    ;
}

/// What `minted` units redeem of a reserve right after the deposit that earned them, where
/// `minted * reserve <= amount * supply`: never more than the amount, and the amount itself
/// exactly when the two products are equal.
proof fn lemma_redeem_after_deposit(minted: nat, amount: nat, reserve: nat, supply: nat)
    requires
        minted > 0,
        minted * reserve <= amount * supply,
    ensures
        share(minted, reserve + amount, supply + minted) <= amount,
        share(minted, reserve + amount, supply + minted) == amount <==> minted * reserve
            == amount * supply,
{
    let n = minted * (reserve + amount);
    let d = supply + minted;
    let q = n / d;
    assert(n == minted * reserve + minted * amount) by (nonlinear_arith)
        requires
            n == minted * (reserve + amount),
    ;
    assert(amount * d == amount * supply + minted * amount) by (nonlinear_arith)
        requires
            d == supply + minted,
    ;
    assert(q <= amount) by (nonlinear_arith)
        requires
            q == n / d,
            d > 0,
            n <= amount * d,
    ;
    if minted * reserve == amount * supply {
        assert(amount * d / d == amount) by (nonlinear_arith)
            requires
                d > 0,
        ;
    }
    if q == amount {
        assert(q * d <= n) by (nonlinear_arith)
            requires
                q == n / d,
                d > 0,
                n >= 0,
        ;
    }
}

/// A deposit redeemed at once never returns more than was put in, and returns exactly what
/// was put in if and only if the deposit was exact.
pub proof fn lemma_round_trip_never_gains(s: PoolState, amount_a: nat, amount_b: nat)
    requires
        s.wf(),
        deposit_error(s, amount_a, amount_b) is None,
        claim_for_deposit(s, amount_a, amount_b) > 0,
    ensures
        ({
            let minted = claim_for_deposit(s, amount_a, amount_b);
            let seeded = after_deposit(s, amount_a, amount_b);
            &&& withdraw_error(seeded, minted) is None
            &&& redeemable_a(seeded, minted) <= amount_a
            &&& redeemable_b(seeded, minted) <= amount_b
            &&& (redeemable_a(seeded, minted) == amount_a && redeemable_b(seeded, minted)
                == amount_b) <==> deposit_is_exact(s, amount_a, amount_b)
        }),
{
    let minted = claim_for_deposit(s, amount_a, amount_b);
    if s.claim_supply == 0 {
        assert(minted * s.reserve_a == amount_a * s.claim_supply) by (nonlinear_arith)
            requires
                s.reserve_a == 0,
                s.claim_supply == 0,
        ;
        assert(minted * s.reserve_b == amount_b * s.claim_supply) by (nonlinear_arith)
            requires
                s.reserve_b == 0,
                s.claim_supply == 0,
        ;
    } else {
        lemma_minted_within_deposit(s, amount_a, amount_b);
    }
    lemma_redeem_after_deposit(minted, amount_a, s.reserve_a, s.claim_supply);
    lemma_redeem_after_deposit(minted, amount_b, s.reserve_b, s.claim_supply);
}

/// Round trip: an exact deposit followed at once by the withdrawal of all the units it
/// minted returns both amounts to the unit and leaves the pool exactly as it was.
pub proof fn lemma_round_trip_exact(s: PoolState, amount_a: nat, amount_b: nat)
    requires
        s.wf(),
        deposit_error(s, amount_a, amount_b) is None,
        deposit_is_exact(s, amount_a, amount_b),
    ensures
        ({
            let minted = claim_for_deposit(s, amount_a, amount_b);
            let seeded = after_deposit(s, amount_a, amount_b);
            &&& minted > 0
            &&& withdraw_error(seeded, minted) is None
            &&& redeemable_a(seeded, minted) == amount_a
            &&& redeemable_b(seeded, minted) == amount_b
            &&& after_withdraw(seeded, minted) == s
        }),
{
    let minted = claim_for_deposit(s, amount_a, amount_b);
    lemma_deposit_preserves_wf(s, amount_a, amount_b);
    if s.claim_supply > 0 && minted == 0 {
        assert(amount_a * s.claim_supply > 0) by (nonlinear_arith)
            requires
                amount_a > 0,
                s.claim_supply > 0,
        ;
        assert(minted * s.reserve_a == 0) by (nonlinear_arith)
            requires
                minted == 0,
        ;
    }
    lemma_round_trip_never_gains(s, amount_a, amount_b);
}

/// One move of somebody else does not lower what a holding redeems of either asset.
pub proof fn lemma_holding_keeps_value_step(s: PoolState, held: nat, op: LiquidityOp)
    requires
        s.wf(),
        0 < held <= s.claim_supply,
        spares_holding(s, held, op),
    ensures
        apply_op(s, op).wf(),
        held <= apply_op(s, op).claim_supply,
        redeemable_a(s, held) <= redeemable_a(apply_op(s, op), held),
        redeemable_b(s, held) <= redeemable_b(apply_op(s, op), held),
{
    let t = apply_op(s, op);
    match op {
        LiquidityOp::Provide { amount_a, amount_b } => {
            if deposit_error(s, amount_a, amount_b) is None {
                let m = claim_for_deposit(s, amount_a, amount_b);
                lemma_deposit_preserves_wf(s, amount_a, amount_b);
                lemma_minted_within_deposit(s, amount_a, amount_b);
                assert(s.reserve_a * (s.claim_supply + m) <= (s.reserve_a + amount_a)
                    * s.claim_supply) by (nonlinear_arith)
                    requires
                        m * s.reserve_a <= amount_a * s.claim_supply,
                ;
                assert(s.reserve_b * (s.claim_supply + m) <= (s.reserve_b + amount_b)
                    * s.claim_supply) by (nonlinear_arith)
                    requires
                        m * s.reserve_b <= amount_b * s.claim_supply,
                ;
            }
        },
        LiquidityOp::Withdraw { claim } => {
            if withdraw_error(s, claim) is None {
                lemma_withdraw_preserves_wf(s, claim);
                lemma_share_of_whole(claim, s.reserve_a, s.claim_supply);
                lemma_share_of_whole(claim, s.reserve_b, s.claim_supply);
                let out_a = redeemable_a(s, claim);
                let out_b = redeemable_b(s, claim);
                assert(s.reserve_a * (s.claim_supply - claim) <= (s.reserve_a - out_a)
                    * s.claim_supply) by (nonlinear_arith)
                    requires
                        out_a * s.claim_supply <= claim * s.reserve_a,
                ;
                assert(s.reserve_b * (s.claim_supply - claim) <= (s.reserve_b - out_b)
                    * s.claim_supply) by (nonlinear_arith)
                    requires
                        out_b * s.claim_supply <= claim * s.reserve_b,
                ;
            }
        },
    }
    lemma_share_grows_with_rate(held, s.reserve_a, s.claim_supply, t.reserve_a, t.claim_supply);
    lemma_share_grows_with_rate(held, s.reserve_b, s.claim_supply, t.reserve_b, t.claim_supply);
}

/// While others provide and withdraw, with no swap in between, what a holding redeems of
/// either asset never goes down.
pub proof fn lemma_holding_keeps_value(s: PoolState, held: nat, ops: Seq<LiquidityOp>)
    requires
        s.wf(),
        0 < held <= s.claim_supply,
        all_spare_holding(s, held, ops),
    ensures
        apply_ops(s, ops).wf(),
        held <= apply_ops(s, ops).claim_supply,
        redeemable_a(s, held) <= redeemable_a(apply_ops(s, ops), held),
        redeemable_b(s, held) <= redeemable_b(apply_ops(s, ops), held),
    decreases ops.len(),
{
    if ops.len() > 0 {
        lemma_holding_keeps_value_step(s, held, ops[0]);
        lemma_holding_keeps_value(apply_op(s, ops[0]), held, ops.skip(1));
    }
}

/// A participant who made an exact deposit can, after any moves of others with no swap in
/// between, still redeem at least what was deposited of either asset.
pub proof fn lemma_deposit_keeps_value(
    s: PoolState,
    amount_a: nat,
    amount_b: nat,
    ops: Seq<LiquidityOp>,
)
    requires
        s.wf(),
        deposit_error(s, amount_a, amount_b) is None,
        deposit_is_exact(s, amount_a, amount_b),
        all_spare_holding(
            after_deposit(s, amount_a, amount_b),
            claim_for_deposit(s, amount_a, amount_b),
            ops,
        ),
    ensures
        ({
            let minted = claim_for_deposit(s, amount_a, amount_b);
            let later = apply_ops(after_deposit(s, amount_a, amount_b), ops);
            &&& later.wf()
            &&& 0 < minted <= later.claim_supply
            &&& amount_a <= redeemable_a(later, minted)
            &&& amount_b <= redeemable_b(later, minted)
        }),
{
    lemma_deposit_preserves_wf(s, amount_a, amount_b);
    lemma_round_trip_exact(s, amount_a, amount_b);
    lemma_holding_keeps_value(
        after_deposit(s, amount_a, amount_b),
        claim_for_deposit(s, amount_a, amount_b),
        ops,
    );
}

} // verus!
