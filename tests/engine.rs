use uniswap_v3::allowance::{spend_allowance, AllowanceError};
use uniswap_v3::error::LiquidityHelperError;
use uniswap_v3::factory::{Factory, FactoryError};
use uniswap_v3::oracle;
use uniswap_v3::pool::{Pool, PoolError};
use uniswap_v3::position::AccountId;
use uniswap_v3::swap_math::{_compute_swap_step, get_amount0_delta, get_amount1_delta};
use uniswap_v3::tick::{add_delta, cross, Globals, TickInfo, Ticks};
use uniswap_v3::tick_bitmap::{next_initialized_tick_within_oneword, tick_bitmap, TickBitmap};
use uniswap_v3::tick_math::{
    get_sqrt_ratio_at_tick, get_tick_at_sqrt_ratio, max_sqrt_ratio_value, MAX_TICK, MIN_SQRT_RATIO, MIN_TICK,
};
use uniswap_v3::wide::{mul_div, Uint256};

const Q96: u128 = 1u128 << 96;

fn price(v: u128) -> Uint256 {
    Uint256::from_u128(v)
}

fn account(n: u128) -> AccountId {
    AccountId { hi: 0, lo: n }
}

fn tick_price(t: i32) -> Uint256 {
    get_sqrt_ratio_at_tick(t).unwrap()
}

/// Pays a swap's input in full and releases the pool.
fn settle(pool: &mut Pool, d0: i128, d1: i128) {
    let paid = if d0 > 0 { d0 as u128 } else if d1 > 0 { d1 as u128 } else { 0 };
    pool.complete_swap(paid, 0, paid).unwrap();
}

fn scenario_pool() -> Pool {
    let mut pool = Pool::new(account(9), account(1), account(2), 3000, 60).unwrap();
    pool.initialize_price(price(Q96), 1000).unwrap();
    pool
}

#[test]
fn sqrt_ratio_at_tick_zero_is_one() {
    assert_eq!(tick_price(0), price(Q96));
}

#[test]
fn sqrt_ratio_at_bounds() {
    assert_eq!(tick_price(MIN_TICK), price(MIN_SQRT_RATIO));
    assert_eq!(tick_price(MAX_TICK), max_sqrt_ratio_value());
    assert_eq!(
        max_sqrt_ratio_value(),
        Uint256 { hi: 4294805859, lo: 318775800626314356294205765087544249638 }
    );
    assert!(tick_price(MAX_TICK - 1).lt(&max_sqrt_ratio_value()));
}

#[test]
fn sqrt_ratio_known_ticks() {
    assert_eq!(tick_price(60), price(79466191966197645195421774833));
    assert_eq!(tick_price(-60), price(78990846045029531151608375686));
    assert_eq!(tick_price(600), price(81640896826356156310682304526));
    assert_eq!(tick_price(-600), price(76886731765546235930195592750));
}

#[test]
fn sqrt_ratio_out_of_range() {
    assert_eq!(get_sqrt_ratio_at_tick(MAX_TICK + 1), Err(LiquidityHelperError::TickOutOfRange));
    assert_eq!(get_sqrt_ratio_at_tick(MIN_TICK - 1), Err(LiquidityHelperError::TickOutOfRange));
}

#[test]
fn tick_at_sqrt_ratio_values() {
    assert_eq!(get_tick_at_sqrt_ratio(&price(Q96)), Ok(0));
    assert_eq!(get_tick_at_sqrt_ratio(&price(Q96 + 1)), Ok(0));
    assert_eq!(get_tick_at_sqrt_ratio(&price(Q96 - 1)), Ok(-1));
    assert_eq!(get_tick_at_sqrt_ratio(&price(MIN_SQRT_RATIO)), Ok(MIN_TICK));
    assert_eq!(
        get_tick_at_sqrt_ratio(&price(MIN_SQRT_RATIO - 1)),
        Err(LiquidityHelperError::SqrtRatioOutOfRange)
    );
    assert_eq!(get_tick_at_sqrt_ratio(&max_sqrt_ratio_value()), Ok(MAX_TICK));
    assert_eq!(
        get_tick_at_sqrt_ratio(&max_sqrt_ratio_value().checked_add(&price(1)).unwrap()),
        Err(LiquidityHelperError::SqrtRatioOutOfRange)
    );
    let below_max = max_sqrt_ratio_value().sub(&price(1));
    assert_eq!(get_tick_at_sqrt_ratio(&below_max), Ok(MAX_TICK - 1));
}

#[test]
fn tick_round_trip() {
    let mut ticks = vec![MIN_TICK, MIN_TICK + 1, -600, -61, -60, -1, 0, 1, 59, 60, 600, MAX_TICK - 1, MAX_TICK];
    let mut t = MIN_TICK;
    while t <= MAX_TICK {
        ticks.push(t);
        t += 9973;
    }
    for t in ticks {
        assert_eq!(get_tick_at_sqrt_ratio(&tick_price(t)), Ok(t), "tick {}", t);
    }
}

#[test]
fn sqrt_ratio_strictly_increasing() {
    let mut t = MIN_TICK;
    while t < MAX_TICK {
        assert!(tick_price(t).lt(&tick_price(t + 1)), "tick {}", t);
        t += 7919;
    }
    assert!(tick_price(MAX_TICK - 1).lt(&tick_price(MAX_TICK)));
}

#[test]
fn mul_div_values() {
    assert_eq!(mul_div(3, 4, 5), Ok(2));
    assert_eq!(mul_div(u128::MAX, u128::MAX, u128::MAX), Ok(u128::MAX));
    assert_eq!(mul_div(1u128 << 127, 6, 4), Ok(3u128 << 126));
    assert_eq!(mul_div(u128::MAX, 2, 1), Err(LiquidityHelperError::DivisionOverflow));
    assert_eq!(mul_div(1, 1, 0), Err(LiquidityHelperError::DivisionOverflow));
}

#[test]
fn add_delta_values() {
    assert_eq!(add_delta(5, -3), Ok(2));
    assert_eq!(add_delta(5, 3), Ok(8));
    assert_eq!(add_delta(0, -1), Err(LiquidityHelperError::LiquidityOverflow));
    assert_eq!(add_delta(u128::MAX, 1), Err(LiquidityHelperError::LiquidityOverflow));
}

#[test]
fn amount_deltas() {
    let l = 1_000_000u128;
    assert_eq!(get_amount0_delta(&price(Q96), &tick_price(600), l, true), price(29554));
    assert_eq!(get_amount0_delta(&price(Q96), &tick_price(600), l, false), price(29553));
    assert_eq!(get_amount1_delta(&tick_price(-600), &price(Q96), l, true), price(29554));
    assert_eq!(get_amount1_delta(&tick_price(-600), &price(Q96), l, false), price(29553));
    assert_eq!(get_amount1_delta(&price(Q96), &price(Q96), l, true), price(0));
}

#[test]
fn swap_step_exact_input_stops_short() {
    let r = _compute_swap_step(&price(Q96), &tick_price(-60), 1_000_000_000_000_000_000, 1_000_000_000_000_000, 3000);
    assert_eq!(
        r,
        Some((price(79149250711305166342700278159), 997_000_000_000_000, 996_006_981_039_903, 3_000_000_000_000))
    );
}

#[test]
fn swap_step_exact_input_reaches_target() {
    let r = _compute_swap_step(&price(Q96), &tick_price(-60), 1_000_000_000_000_000_000, 1_000_000_000_000_000_000, 3000);
    assert_eq!(
        r,
        Some((tick_price(-60), 3_004_354_062_741_926, 2_995_354_955_910_780, 9_040_182_736_436))
    );
}

#[test]
fn swap_step_exact_output() {
    let r = _compute_swap_step(&price(Q96), &tick_price(60), 1_000_000_000_000_000_000, -1_000_000_000_000_000, 3000);
    assert_eq!(
        r,
        Some((price(79307469984248586179723674011), 1_001_001_001_001_002, 1_000_000_000_000_000, 3_012_039_120_365))
    );
}

#[test]
fn bitmap_search() {
    let mut bitmap = TickBitmap::new();
    bitmap.flip(3);
    bitmap.flip(-10);
    assert_eq!(next_initialized_tick_within_oneword(&bitmap, 300, 60, true), (180, true));
    assert_eq!(next_initialized_tick_within_oneword(&bitmap, 0, 60, false), (180, true));
    assert_eq!(next_initialized_tick_within_oneword(&bitmap, -1, 60, true), (-600, true));
    assert_eq!(next_initialized_tick_within_oneword(&bitmap, 0, 60, true), (0, false));
    assert_eq!(next_initialized_tick_within_oneword(&bitmap, 180, 60, false), (255 * 60, false));
    bitmap.flip(3);
    assert_eq!(next_initialized_tick_within_oneword(&bitmap, 300, 60, true), (0, false));
    assert_eq!(tick_bitmap(-1), Ok((-1, 255)));
    assert_eq!(tick_bitmap(MAX_TICK + 1), Err(LiquidityHelperError::TickOutOfRange));
}

#[test]
fn cross_flips_outside_values() {
    let mut ticks = Ticks::new();
    let info = TickInfo {
        liquidity_gross: 10,
        liquidity_net: -4,
        fee_growth_outside_0x128: price(5),
        fee_growth_outside_1x128: price(7),
        tick_cumulative_outside: 3,
        seconds_per_liquidity_outside_x128: price(11),
        seconds_outside: 2,
        initialized: true,
    };
    ticks.set(60, info);
    let g = Globals {
        fee_growth_global_0x128: price(20),
        fee_growth_global_1x128: price(3),
        seconds_per_liquidity_cumulative_x128: price(100),
        tick_cumulative: 50,
        time: 40,
    };
    assert_eq!(cross(&mut ticks, 60, &g), -4);
    let after = ticks.get(60);
    assert_eq!(after.fee_growth_outside_0x128, price(15));
    assert_eq!(after.fee_growth_outside_1x128, price(3).wrapping_sub(&price(7)));
    assert_eq!(after.tick_cumulative_outside, 47);
    assert_eq!(after.seconds_per_liquidity_outside_x128, price(89));
    assert_eq!(after.seconds_outside, 38);
    assert_eq!(cross(&mut ticks, 120, &g), 0);
}

#[test]
fn oracle_write_and_observe() {
    let (mut obs, card, next) = oracle::initialize(100);
    assert_eq!((card, next), (1, 1));
    let (index, card) = oracle::write(&mut obs, 0, 110, 5, 1 << 64, card, next);
    assert_eq!((index, card), (0, 1));
    assert_eq!(obs[0].tick_cumulative, 50);
    assert_eq!(obs[0].seconds_per_liquidity_cumulative_x128, price(10u128 << 64));
    let (tc, _) = oracle::observe_single(&obs, 120, 0, 5, 0, 1 << 64, 1).unwrap();
    assert_eq!(tc, 100);
    let (same, c2) = oracle::write(&mut obs, 0, 110, 9, 1, 1, 1);
    assert_eq!((same, c2), (0, 1));
    assert_eq!(obs[0].tick_cumulative, 50);
}

#[test]
fn oracle_interpolates_between_observations() {
    let (mut obs, _, _) = oracle::initialize(100);
    let grown = oracle::grow(&mut obs, 1, 4);
    assert_eq!(grown, 4);
    let (i1, c1) = oracle::write(&mut obs, 0, 110, 10, 1, 1, 4);
    assert_eq!((i1, c1), (1, 4));
    let (i2, c2) = oracle::write(&mut obs, i1, 130, 20, 1, c1, 4);
    assert_eq!((i2, c2), (2, 4));
    // tick cumulative: 0 at 100, 100 at 110, 500 at 130
    let (tc, _) = oracle::observe_single(&obs, 130, 10, 30, i2, 1, c2).unwrap();
    assert_eq!(tc, 300);
    let (tc0, _) = oracle::observe_single(&obs, 130, 30, 30, i2, 1, c2).unwrap();
    assert_eq!(tc0, 0);
    assert_eq!(
        oracle::observe_single(&obs, 130, 31, 30, i2, 1, c2),
        Err(LiquidityHelperError::ObservationTooOld)
    );
}

#[test]
fn scenario_mint_then_swap() {
    let mut pool = scenario_pool();
    assert_eq!(pool.get_slot_0().tick, 0);
    let (a0, a1) = pool.mint(account(7), -600, 600, 1_000_000, 1000).unwrap();
    assert_eq!((a0, a1), (29554, 29554));
    assert!(a0 > 0 && a1 > 0);
    pool.complete_mint(0, 0, a0, a1).unwrap();
    let lower = pool.get_tick(-600);
    let upper = pool.get_tick(600);
    assert_eq!(lower.liquidity_gross, 1_000_000);
    assert_eq!(upper.liquidity_gross, 1_000_000);
    assert_eq!(lower.liquidity_net, 1_000_000);
    assert_eq!(upper.liquidity_net, -1_000_000);
    assert_eq!(pool.get_liquidity(), 1_000_000);

    let before = pool.get_slot_0().sqrt_price_x96;
    let (d0, d1) = pool.swap(account(8), true, 1000, price(MIN_SQRT_RATIO + 1), 1010).unwrap();
    settle(&mut pool, d0, d1);
    let after = pool.get_slot_0();
    assert!(after.sqrt_price_x96.lt(&before));
    assert_eq!(after.sqrt_price_x96, price(79149250711305166342700278159));
    assert_eq!(after.tick, -20);
    assert_eq!((d0, d1), (1000, -996));
    assert!(-d1 > 0 && -d1 < 1000);
    // the price stayed above tick -600: that tick was not crossed
    assert!(pool.get_tick(-600).initialized);
    assert_eq!(pool.get_tick(-600).fee_growth_outside_0x128, price(0));
    assert_eq!(pool.get_fee_growth_global_0x128(), Uint256 { hi: 0, lo: 1020847100762815390390123822295304 });
}

#[test]
fn swap_crossing_a_tick_moves_liquidity() {
    let mut pool = scenario_pool();
    let (a0, a1) = pool.mint(account(7), -120, 120, 1_000_000_000, 1000).unwrap();
    pool.complete_mint(0, 0, a0, a1).unwrap();
    let (b0, b1) = pool.mint(account(7), -600, 600, 1_000_000_000, 1000).unwrap();
    pool.complete_mint(0, 0, b0, b1).unwrap();
    assert_eq!(pool.get_liquidity(), 2_000_000_000);
    let (d0, d1) = pool.swap(account(8), true, 20_000_000, price(MIN_SQRT_RATIO + 1), 1010).unwrap();
    settle(&mut pool, d0, d1);
    assert_eq!(d0, 20_000_000);
    assert!(d1 < 0);
    let slot = pool.get_slot_0();
    assert!(slot.tick < -120);
    assert_eq!(pool.get_liquidity(), 1_000_000_000);
    assert_ne!(pool.get_tick(-120).fee_growth_outside_0x128, price(0));
}

#[test]
fn swap_stops_at_limit() {
    let mut pool = scenario_pool();
    let (a0, a1) = pool.mint(account(7), -600, 600, 1_000_000, 1000).unwrap();
    pool.complete_mint(0, 0, a0, a1).unwrap();
    let limit = tick_price(-30);
    let (d0, d1) = pool.swap(account(8), true, 1_000_000, limit, 1010).unwrap();
    settle(&mut pool, d0, d1);
    assert_eq!(pool.get_slot_0().sqrt_price_x96, limit);
    assert!(d0 > 0 && d0 < 1_000_000);
    assert!(d1 < 0);
    let limit_up = tick_price(30);
    let (e0, e1) = pool.swap(account(8), false, -1_000_000, limit_up, 1020).unwrap();
    settle(&mut pool, e0, e1);
    assert_eq!(pool.get_slot_0().sqrt_price_x96, limit_up);
    assert!(e0 < 0 && e0 > -1_000_000);
    assert!(e1 > 0);
}

#[test]
fn swap_errors() {
    let mut pool = scenario_pool();
    assert_eq!(pool.swap(account(8), true, 0, price(MIN_SQRT_RATIO + 1), 1), Err(PoolError::AmountSpecifiedIsZero));
    assert_eq!(pool.swap(account(8), true, 10, price(Q96), 1), Err(PoolError::SqrtPriceLimitX96IsInvalid));
    assert_eq!(pool.swap(account(8), true, 10, price(MIN_SQRT_RATIO), 1), Err(PoolError::SqrtPriceLimitX96IsInvalid));
    assert_eq!(pool.swap(account(8), false, 10, max_sqrt_ratio_value(), 1), Err(PoolError::SqrtPriceLimitX96IsInvalid));
    pool.mint(account(7), -600, 600, 1_000, 1).unwrap();
    assert_eq!(pool.swap(account(8), true, 10, price(MIN_SQRT_RATIO + 1), 1), Err(PoolError::PoolIsLocked));
}

#[test]
fn swap_without_liquidity_moves_to_limit() {
    let mut pool = scenario_pool();
    let limit = tick_price(-6000);
    let (d0, d1) = pool.swap(account(8), true, 1000, limit, 1010).unwrap();
    settle(&mut pool, d0, d1);
    assert_eq!((d0, d1), (0, 0));
    assert_eq!(pool.get_slot_0().sqrt_price_x96, limit);
    assert_eq!(pool.get_slot_0().tick, -6000);
}

#[test]
fn mint_errors() {
    let mut pool = scenario_pool();
    assert_eq!(pool.mint(account(7), -600, 600, 0, 1), Err(PoolError::ZeroAmmount));
    assert_eq!(pool.mint(account(7), 600, -600, 10, 1), Err(PoolError::TickError));
    assert_eq!(pool.mint(account(7), -610, 600, 10, 1), Err(PoolError::TickError));
    assert_eq!(pool.mint(account(7), -887280, 600, 10, 1), Err(PoolError::TickError));
    let mut fresh = Pool::new(account(9), account(1), account(2), 3000, 60).unwrap();
    assert_eq!(fresh.mint(account(7), -600, 600, 10, 1), Err(PoolError::PoolIsLocked));
    assert_eq!(Pool::new(account(9), account(1), account(2), 1_000_000, 60).err(), Some(PoolError::InvalidFee));
    assert_eq!(Pool::new(account(9), account(1), account(2), 3000, 0).err(), Some(PoolError::InvalidTickSpacing));
}

#[test]
fn complete_mint_checks_payment() {
    let mut pool = scenario_pool();
    let (a0, a1) = pool.mint(account(7), -600, 600, 1_000_000, 1).unwrap();
    assert!(!pool.get_slot_0().unlocked);
    // nothing is written before the payment is in
    assert_eq!(pool.get_position(account(7), -600, 600), None);
    assert_eq!(pool.get_tick(-600), TickInfo::empty());
    assert_eq!(pool.complete_mint(100, 100, 100 + a0 - 1, 100 + a1), Err(PoolError::M0));
    assert!(pool.get_slot_0().unlocked);
    assert_eq!(pool.get_position(account(7), -600, 600), None);
    assert_eq!(pool.get_liquidity(), 0);
    assert_eq!(pool.complete_mint(100, 100, 100 + a0, 100 + a1), Err(PoolError::NoPendingMint));
    pool.mint(account(7), -600, 600, 1_000_000, 1).unwrap();
    assert_eq!(pool.complete_mint(100, 100, 100 + a0, 100 + a1 - 1), Err(PoolError::M1));
    pool.mint(account(7), -600, 600, 1_000_000, 1).unwrap();
    assert_eq!(pool.complete_mint(u128::MAX, 0, u128::MAX, a1), Err(PoolError::AddOverflowBalance0));
    pool.mint(account(7), -600, 600, 1_000_000, 1).unwrap();
    assert_eq!(pool.complete_mint(100, 100, 100 + a0, 100 + a1), Ok((a0, a1)));
    assert_eq!(pool.get_position(account(7), -600, 600).unwrap().liquidity, 1_000_000);
    assert_eq!(pool.get_liquidity(), 1_000_000);
}

#[test]
fn mint_zero_amount_comes_before_lock() {
    let mut pool = scenario_pool();
    pool.mint(account(7), -600, 600, 10, 1).unwrap();
    assert_eq!(pool.mint(account(7), -600, 600, 0, 1), Err(PoolError::ZeroAmmount));
    assert_eq!(pool.mint(account(7), -600, 600, 5, 1), Err(PoolError::PoolIsLocked));
}

#[test]
fn mint_then_burn_restores_ticks() {
    let mut pool = scenario_pool();
    let owner = account(7);
    let (m0, m1) = pool.mint(owner, -600, 600, 500, 1).unwrap();
    pool.complete_mint(0, 0, m0, m1).unwrap();
    let lower_before = pool.get_tick(-600);
    let upper_before = pool.get_tick(600);
    let (n0, n1) = pool.mint(account(8), -600, 600, 1_000_000, 2).unwrap();
    pool.complete_mint(0, 0, n0, n1).unwrap();
    assert_eq!(pool.get_tick(-600).liquidity_gross, 1_000_500);
    pool.burn(account(8), -600, 600, 1_000_000, 3).unwrap();
    assert_eq!(pool.get_tick(-600), lower_before);
    assert_eq!(pool.get_tick(600), upper_before);
    assert_eq!(pool.get_liquidity(), 500);
}

#[test]
fn mint_then_burn_restores_liquidity() {
    let mut pool = scenario_pool();
    let owner = account(7);
    let (m0, m1) = pool.mint(owner, -600, 600, 1_000_000, 1).unwrap();
    pool.complete_mint(0, 0, m0, m1).unwrap();
    assert_eq!(pool.get_position(owner, -600, 600).unwrap().liquidity, 1_000_000);
    let (b0, b1) = pool.burn(owner, -600, 600, 1_000_000, 2).unwrap();
    assert_eq!((b0, b1), (29553, 29553));
    assert!(b0 <= m0 && b1 <= m1);
    let p = pool.get_position(owner, -600, 600).unwrap();
    assert_eq!(p.liquidity, 0);
    assert_eq!((p.tokens_owed_0, p.tokens_owed_1), (b0, b1));
    assert_eq!(pool.get_tick(-600), TickInfo::empty());
    assert_eq!(pool.get_tick(600), TickInfo::empty());
    assert_eq!(pool.get_liquidity(), 0);
}

#[test]
fn burn_of_dust_fails() {
    let mut pool = scenario_pool();
    let owner = account(7);
    let (m0, m1) = pool.mint(owner, 600, 1200, 1, 1).unwrap();
    pool.complete_mint(0, 0, m0, m1).unwrap();
    assert_eq!(pool.burn(owner, 600, 1200, 1, 2), Err(PoolError::BurningInsuficientBalance));
    assert_eq!(pool.get_position(owner, 600, 1200).unwrap().liquidity, 1);
    assert_eq!(pool.burn(owner, 600, 1200, 2, 2).err(), Some(PoolError::BurningInsuficientBalance));
}

#[test]
fn collect_pays_all_owed_and_keeps_record() {
    let mut pool = scenario_pool();
    let owner = account(7);
    let (m0, m1) = pool.mint(owner, -600, 600, 1_000_000, 1).unwrap();
    pool.complete_mint(0, 0, m0, m1).unwrap();
    let (s0, s1) = pool.swap(account(8), true, 1000, price(MIN_SQRT_RATIO + 1), 2).unwrap();
    settle(&mut pool, s0, s1);
    let (b0, b1) = pool.burn(owner, -600, 600, 1_000_000, 3).unwrap();
    let p = pool.get_position(owner, -600, 600).unwrap();
    assert_eq!(p.tokens_owed_0, b0 + 2);
    assert_eq!(p.tokens_owed_1, b1);
    let (c0, c1) = pool.collect(owner, -600, 600, u128::MAX, u128::MAX).unwrap();
    assert_eq!((c0, c1), (p.tokens_owed_0, p.tokens_owed_1));
    let q = pool.get_position(owner, -600, 600).unwrap();
    assert_eq!((q.tokens_owed_0, q.tokens_owed_1), (0, 0));
    assert_eq!(pool.collect(owner, -600, 600, 5, 5), Ok((0, 0)));
    assert_eq!(pool.collect(account(99), -600, 600, 5, 5), Ok((0, 0)));
}

#[test]
fn collect_partial() {
    let mut pool = scenario_pool();
    let owner = account(7);
    let (m0, m1) = pool.mint(owner, -600, 600, 1_000_000, 1).unwrap();
    pool.complete_mint(0, 0, m0, m1).unwrap();
    pool.burn(owner, -600, 600, 1_000_000, 3).unwrap();
    assert_eq!(pool.collect(owner, -600, 600, 10, 20), Ok((10, 20)));
    let q = pool.get_position(owner, -600, 600).unwrap();
    assert_eq!((q.tokens_owed_0, q.tokens_owed_1), (29553 - 10, 29553 - 20));
}

#[test]
fn protocol_fee_collection_leaves_one_unit() {
    let mut pool = scenario_pool();
    assert_eq!(pool.set_fee_protocol(3, 0), Err(PoolError::InvalidFeeProtocol));
    assert_eq!(pool.set_fee_protocol(11, 4), Err(PoolError::InvalidFeeProtocol));
    pool.set_fee_protocol(4, 4).unwrap();
    assert_eq!(pool.get_slot_0().fee_protocol, 4 + 16 * 4);
    let (m0, m1) = pool.mint(account(7), -600, 600, 1_000_000_000, 1).unwrap();
    pool.complete_mint(0, 0, m0, m1).unwrap();
    let (s0, s1) = pool.swap(account(8), true, 1_000_000, price(MIN_SQRT_RATIO + 1), 2).unwrap();
    settle(&mut pool, s0, s1);
    let (f0, f1) = pool.protocol_fees().unwrap();
    assert_eq!((f0, f1), (750, 0));
    assert_eq!(pool.collect_protocol(account(9), account(9), 100, 100), Ok((100, 0)));
    assert_eq!(pool.collect_protocol(account(9), account(9), u128::MAX, u128::MAX), Ok((649, 0)));
    assert_eq!(pool.protocol_fees(), Ok((1, 0)));
}

#[test]
fn factory_rules() {
    let owner = account(1);
    let mut f = Factory::new(owner);
    assert_eq!(f.enable_fee_amount(account(2), 3000, 60), Err(FactoryError::NotOwner));
    assert_eq!(f.enable_fee_amount(owner, 1_000_000, 60), Err(FactoryError::FeeTooBig));
    assert_eq!(f.enable_fee_amount(owner, 3000, 0), Err(FactoryError::TickSpacingOutOfBonds));
    assert_eq!(f.enable_fee_amount(owner, 3000, 16384), Err(FactoryError::TickSpacingOutOfBonds));
    assert_eq!(f.enable_fee_amount(owner, 3000, 60), Ok(()));
    assert_eq!(f.enable_fee_amount(owner, 3000, 10), Err(FactoryError::NonZeroTickSpacing));
    assert_eq!(f.get_fee_amount_tick_spacing(3000), Some(60));
    assert_eq!(f.get_fee_amount_tick_spacing(500), None);
    let a = account(5);
    let b = account(3);
    assert_eq!(f.create_pool(a, a, 3000, account(77)), Err(FactoryError::IdenticalAddresses));
    assert_eq!(f.create_pool(a, AccountId::zero(), 3000, account(77)), Err(FactoryError::ZeroAddress));
    assert_eq!(f.create_pool(a, b, 500, account(77)), Err(FactoryError::NoTickSpacing));
    assert_eq!(f.check_create_pool(a, b, 3000), Ok((b, a, 60)));
    assert_eq!(f.create_pool(a, b, 3000, account(77)), Ok(account(77)));
    assert_eq!(f.get_pool(a, b, 3000), Some(account(77)));
    assert_eq!(f.get_pool(b, a, 3000), Some(account(77)));
    assert_eq!(f.get_pool(a, b, 500), None);
    assert_eq!(f.set_owner(account(2), account(2)), Err(FactoryError::NotOwner));
    assert_eq!(f.set_owner(owner, account(2)), Ok(()));
    assert_eq!(f.owner, account(2));
}

#[test]
fn pool_initialization() {
    let mut pool = Pool::new(account(9), account(1), account(2), 500, 10).unwrap();
    assert_eq!(pool.get_max_liquidity_per_tick(), u128::MAX / (2 * (887272 / 10) + 1));
    assert_eq!(pool.initialize(account(3), account(4), 3000), Ok(()));
    assert_eq!(pool.get_token_0(), account(3));
    assert_eq!(pool.get_fee(), 3000);
    assert_eq!(
        pool.initialize_price(price(MIN_SQRT_RATIO - 1), 1),
        Err(PoolError::Helper(LiquidityHelperError::SqrtRatioOutOfRange))
    );
    assert_eq!(pool.initialize_price(tick_price(-12345), 1), Ok(()));
    assert_eq!(pool.get_slot_0().tick, -12345);
    assert_eq!(pool.initialize_price(price(Q96), 1), Err(PoolError::AlreadyInitialized));
    assert_eq!(pool.initialize(account(3), account(4), 3000), Err(PoolError::AlreadyInitialized));
}

#[test]
fn allowance_rule() {
    assert_eq!(spend_allowance(u128::MAX, 5), Ok(None));
    assert_eq!(spend_allowance(10, 4), Ok(Some(6)));
    assert_eq!(spend_allowance(10, 10), Ok(Some(0)));
    assert_eq!(spend_allowance(3, 4), Err(AllowanceError::InsufficientAllowance));
}

#[test]
fn swap_holds_lock_until_paid() {
    let mut pool = scenario_pool();
    let (m0, m1) = pool.mint(account(7), -600, 600, 1_000_000, 1).unwrap();
    pool.complete_mint(0, 0, m0, m1).unwrap();
    let (d0, _) = pool.swap(account(8), true, 1000, price(MIN_SQRT_RATIO + 1), 2).unwrap();
    assert!(!pool.get_slot_0().unlocked);
    assert_eq!(pool.collect(account(7), -600, 600, 1, 1), Err(PoolError::PoolIsLocked));
    assert_eq!(pool.complete_swap(d0 as u128, 50, 50 + d0 as u128 - 1), Err(PoolError::InsufficientInputAmount));
    assert!(pool.get_slot_0().unlocked);
    assert_eq!(pool.complete_swap(d0 as u128, 50, 50 + d0 as u128), Ok(()));
}
