use amm_engine::{deposite, initialize, remove_liquidity, AMMErrors, Pool};
use anchor_lang::prelude::Pubkey;

fn new_pool() -> Pool {
    let mut slot: Option<Pool> = None;
    initialize(
        &mut slot,
        Pubkey::new_from_array([1u8; 32]),
        Pubkey::new_from_array([2u8; 32]),
        30,
        255,
    )
    .expect("an empty slot takes a pool");
    slot.expect("the slot holds the new pool")
}

fn pool_with(reserve_a: u64, reserve_b: u64, claim_supply: u64) -> Pool {
    Pool::from_parts(
        Pubkey::new_from_array([1u8; 32]),
        Pubkey::new_from_array([2u8; 32]),
        30,
        255,
        reserve_a,
        reserve_b,
        claim_supply,
    )
    .expect("a valid pool")
}

fn balances(pool: &Pool) -> (u64, u64, u64) {
    (pool.reserve_a(), pool.reserve_b(), pool.claim_supply())
}

#[test]
fn first_provision_mints_the_geometric_mean() {
    let mut pool = new_pool();
    assert_eq!(deposite(&mut pool, 100, 400), Ok(200));
    assert_eq!(balances(&pool), (100, 400, 200));
}

#[test]
fn first_provision_rounds_the_geometric_mean_down() {
    let mut pool = new_pool();
    assert_eq!(deposite(&mut pool, 2, 3), Ok(2));
    assert_eq!(balances(&pool), (2, 3, 2));
    let mut pool = new_pool();
    assert_eq!(deposite(&mut pool, 1, 1), Ok(1));
    let mut pool = new_pool();
    assert_eq!(deposite(&mut pool, 1, 3), Ok(1));
    assert_eq!(balances(&pool), (1, 3, 1));
}

#[test]
fn first_provision_of_the_largest_amounts() {
    let mut pool = new_pool();
    assert_eq!(deposite(&mut pool, u64::MAX, u64::MAX), Ok(u64::MAX));
    assert_eq!(balances(&pool), (u64::MAX, u64::MAX, u64::MAX));
    let mut pool = new_pool();
    assert_eq!(deposite(&mut pool, u64::MAX, 1), Ok(4_294_967_295));
}

#[test]
fn seeded_provision_mints_in_proportion() {
    let mut pool = pool_with(1000, 1000, 1000);
    assert_eq!(deposite(&mut pool, 500, 500), Ok(500));
    assert_eq!(balances(&pool), (1500, 1500, 1500));
}

#[test]
fn seeded_provision_after_a_first_provision() {
    let mut pool = new_pool();
    assert_eq!(deposite(&mut pool, 1000, 1000), Ok(1000));
    assert_eq!(deposite(&mut pool, 500, 500), Ok(500));
    assert_eq!(balances(&pool), (1500, 1500, 1500));
}

#[test]
fn lopsided_provision_is_credited_for_the_limiting_asset_only() {
    let mut pool = pool_with(1000, 1000, 1000);
    assert_eq!(deposite(&mut pool, 500, 100), Ok(100));
    assert_eq!(balances(&pool), (1500, 1100, 1100));
    let mut pool = pool_with(1000, 1000, 1000);
    assert_eq!(deposite(&mut pool, 100, 500), Ok(100));
    assert_eq!(balances(&pool), (1100, 1500, 1100));
}

#[test]
fn lopsided_provision_donates_the_excess_to_the_pool() {
    let mut pool = pool_with(1000, 1000, 1000);
    assert_eq!(deposite(&mut pool, 500, 100), Ok(100));
    assert_eq!(remove_liquidity(&mut pool, 100), Ok((136, 100)));
    assert_eq!(balances(&pool), (1364, 1000, 1000));
}

#[test]
fn seeded_provision_rounds_down() {
    let mut pool = pool_with(1000, 2000, 1414);
    assert_eq!(deposite(&mut pool, 7, 3), Ok(2));
    assert_eq!(balances(&pool), (1007, 2003, 1416));
}

#[test]
fn seeded_provision_may_mint_nothing() {
    let mut pool = pool_with(1000, 1000, 10);
    assert_eq!(deposite(&mut pool, 5, 5), Ok(0));
    assert_eq!(balances(&pool), (1005, 1005, 10));
}

#[test]
fn provision_of_nothing_is_rejected() {
    let mut pool = pool_with(1000, 1000, 1000);
    assert_eq!(deposite(&mut pool, 0, 5), Err(AMMErrors::InvalidAmount));
    assert_eq!(deposite(&mut pool, 5, 0), Err(AMMErrors::InvalidAmount));
    assert_eq!(deposite(&mut pool, 0, 0), Err(AMMErrors::InvalidAmount));
    assert_eq!(balances(&pool), (1000, 1000, 1000));
    let mut pool = new_pool();
    assert_eq!(deposite(&mut pool, 0, 400), Err(AMMErrors::InvalidAmount));
    assert_eq!(balances(&pool), (0, 0, 0));
}

#[test]
fn provision_that_overflows_a_reserve_is_rejected() {
    let mut pool = pool_with(u64::MAX - 5, 10, 10);
    assert_eq!(deposite(&mut pool, 6, 1), Err(AMMErrors::Overflow));
    assert_eq!(balances(&pool), (u64::MAX - 5, 10, 10));
    assert_eq!(deposite(&mut pool, 5, 1), Ok(0));
    assert_eq!(balances(&pool), (u64::MAX, 11, 10));
    let mut pool = pool_with(10, u64::MAX, 10);
    assert_eq!(deposite(&mut pool, 1, 1), Err(AMMErrors::Overflow));
    assert_eq!(balances(&pool), (10, u64::MAX, 10));
}

#[test]
fn provision_that_overflows_the_claim_supply_is_rejected() {
    let mut pool = pool_with(1, 1, 1u64 << 63);
    assert_eq!(deposite(&mut pool, 4, 4), Err(AMMErrors::Overflow));
    assert_eq!(balances(&pool), (1, 1, 1u64 << 63));
    assert_eq!(deposite(&mut pool, 1, 1), Err(AMMErrors::Overflow));
    let mut pool = pool_with(2, 2, 1u64 << 63);
    assert_eq!(deposite(&mut pool, 1, 1), Ok(1u64 << 62));
    assert_eq!(balances(&pool), (3, 3, (1u64 << 63) + (1u64 << 62)));
}

#[test]
fn a_zero_amount_is_reported_before_an_overflow() {
    let mut pool = pool_with(u64::MAX, 10, 10);
    assert_eq!(deposite(&mut pool, 1, 0), Err(AMMErrors::InvalidAmount));
}

#[test]
fn withdrawal_pays_out_in_proportion() {
    let mut pool = pool_with(100, 400, 200);
    assert_eq!(remove_liquidity(&mut pool, 50), Ok((25, 100)));
    assert_eq!(balances(&pool), (75, 300, 150));
}

#[test]
fn withdrawal_rounds_down_in_favour_of_the_pool() {
    let mut pool = pool_with(1000, 2000, 1414);
    assert_eq!(remove_liquidity(&mut pool, 1), Ok((0, 1)));
    assert_eq!(balances(&pool), (1000, 1999, 1413));
    let mut pool = pool_with(1000, 2000, 1414);
    assert_eq!(remove_liquidity(&mut pool, 1413), Ok((999, 1998)));
    assert_eq!(balances(&pool), (1, 2, 1));
}

#[test]
fn withdrawal_of_the_whole_supply_empties_the_pool() {
    let mut pool = pool_with(1000, 2000, 1414);
    assert_eq!(remove_liquidity(&mut pool, 1414), Ok((1000, 2000)));
    assert_eq!(balances(&pool), (0, 0, 0));
    let mut pool = pool_with(u64::MAX, 1, 7);
    assert_eq!(remove_liquidity(&mut pool, 7), Ok((u64::MAX, 1)));
    assert_eq!(balances(&pool), (0, 0, 0));
    let mut pool = pool_with(u64::MAX, u64::MAX, u64::MAX);
    assert_eq!(remove_liquidity(&mut pool, u64::MAX), Ok((u64::MAX, u64::MAX)));
    assert_eq!(balances(&pool), (0, 0, 0));
}

#[test]
fn an_emptied_pool_can_be_seeded_again() {
    let mut pool = pool_with(1000, 2000, 1414);
    assert_eq!(remove_liquidity(&mut pool, 1414), Ok((1000, 2000)));
    assert_eq!(deposite(&mut pool, 9, 4), Ok(6));
    assert_eq!(balances(&pool), (9, 4, 6));
}

#[test]
fn withdrawal_of_nothing_is_rejected() {
    let mut pool = pool_with(100, 400, 200);
    assert_eq!(remove_liquidity(&mut pool, 0), Err(AMMErrors::InvalidAmount));
    assert_eq!(balances(&pool), (100, 400, 200));
    let mut pool = new_pool();
    assert_eq!(remove_liquidity(&mut pool, 0), Err(AMMErrors::InvalidAmount));
}

#[test]
fn withdrawal_above_the_supply_is_rejected() {
    let mut pool = pool_with(100, 400, 200);
    assert_eq!(remove_liquidity(&mut pool, 201), Err(AMMErrors::InsufficientClaim));
    assert_eq!(remove_liquidity(&mut pool, u64::MAX), Err(AMMErrors::InsufficientClaim));
    assert_eq!(balances(&pool), (100, 400, 200));
}

#[test]
fn withdrawal_from_an_empty_pool_is_rejected() {
    let mut pool = new_pool();
    assert_eq!(remove_liquidity(&mut pool, 1), Err(AMMErrors::InsufficientClaim));
    assert_eq!(balances(&pool), (0, 0, 0));
}

#[test]
fn round_trip_of_a_first_provision_returns_the_deposit() {
    let mut pool = new_pool();
    let minted = deposite(&mut pool, 100, 400).expect("accepted");
    assert_eq!(remove_liquidity(&mut pool, minted), Ok((100, 400)));
    assert_eq!(balances(&pool), (0, 0, 0));
    let mut pool = new_pool();
    let minted = deposite(&mut pool, 7, 1_000_003).expect("accepted");
    assert_eq!(minted, 2645);
    assert_eq!(remove_liquidity(&mut pool, minted), Ok((7, 1_000_003)));
}

#[test]
fn round_trip_of_an_exact_provision_returns_the_deposit() {
    let mut pool = pool_with(1500, 3000, 100);
    let minted = deposite(&mut pool, 30, 60).expect("accepted");
    assert_eq!(minted, 2);
    assert_eq!(remove_liquidity(&mut pool, minted), Ok((30, 60)));
    assert_eq!(balances(&pool), (1500, 3000, 100));
}

#[test]
fn round_trip_of_an_inexact_provision_returns_less() {
    let mut pool = pool_with(3, 3, 2);
    let minted = deposite(&mut pool, 2, 2).expect("accepted");
    assert_eq!(minted, 1);
    assert_eq!(remove_liquidity(&mut pool, minted), Ok((1, 1)));
    assert_eq!(balances(&pool), (4, 4, 2));
    let mut pool = pool_with(1500, 3000, 100);
    let minted = deposite(&mut pool, 31, 61).expect("accepted");
    assert_eq!(minted, 2);
    assert_eq!(remove_liquidity(&mut pool, minted), Ok((30, 60)));
    assert_eq!(balances(&pool), (1501, 3001, 100));
}

#[test]
fn a_holding_keeps_its_worth_while_others_provide_and_withdraw() {
    let mut pool = new_pool();
    let held = deposite(&mut pool, 1000, 4000).expect("accepted");
    assert_eq!(held, 2000);
    let worth = |pool: &Pool| {
        let mut copy = *pool;
        remove_liquidity(&mut copy, held).expect("the holding can be redeemed")
    };
    assert_eq!(worth(&pool), (1000, 4000));
    assert_eq!(deposite(&mut pool, 333, 1000), Ok(500));
    assert_eq!(worth(&pool), (1066, 4000));
    assert_eq!(remove_liquidity(&mut pool, 50), Ok((26, 100)));
    assert_eq!(worth(&pool), (1066, 4000));
    assert_eq!(deposite(&mut pool, 10, 7), Ok(3));
    assert_eq!(worth(&pool), (1073, 4000));
    assert_eq!(remove_liquidity(&mut pool, 453), Ok((243, 906)));
    assert_eq!(balances(&pool), (1074, 4001, 2000));
    assert_eq!(worth(&pool), (1074, 4001));
}
