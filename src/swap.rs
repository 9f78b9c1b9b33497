//! A swap: the walk from tick to tick, each step trading within a range of
//! constant liquidity, and the commit of its result.
use vstd::prelude::*;
use crate::error::LiquidityHelperError;
use crate::oracle::observe_single;
use crate::pool::{check_payment, Pool, PoolError, Slot};
use crate::position::AccountId;
use crate::tick::{Globals, TickInfo, Ticks};
use crate::tick_math::{
    is_valid_tick, lemma_sqrt_ratio_bounds, lemma_sqrt_ratio_strictly_increasing, max_sqrt_ratio, sqrt_ratio,
    sqrt_ratio_at_valid_tick, MAX_TICK, MIN_SQRT_RATIO, MIN_TICK,
};
use crate::wide::{b128, wrap256, Uint256};

verus! {

/// Values a swap reads once.
#[derive(Clone, Copy, Debug, PartialEq, Eq, Structural)]
pub struct SwapCache {
    /// Protocol fee denominator for the input token.
    pub fee_protocol: u8,
    /// Liquidity in range when the swap began.
    pub liquidity_start: u128,
    pub block_timestamp: u32,
    /// Oracle accumulators as of now, computed at the first tick crossed.
    pub tick_cumulative: i64,
    pub seconds_per_liquidity_cumulative_x128: Uint256,
    pub computed_latest_observations: bool,
}

/// Where a swap stands between two steps.
#[derive(Clone, Copy, Debug, PartialEq, Eq, Structural)]
pub struct SwapState {
    /// Amount still to be swapped in (exact input) or out (exact output).
    pub amount_specified_remaining: i128,
    /// Amount swapped out (exact input, negative) or in (exact output).
    pub amount_calculated: i128,
    pub sqrt_price_x96: Uint256,
    pub tick: i32,
    /// Fee growth of the input token.
    pub fee_growth_global_x128: Uint256,
    /// Input token paid as protocol fee.
    pub protocol_fee: u128,
    /// Liquidity in range.
    pub liquidity: u128,
}

/// One step of a swap.
#[derive(Clone, Copy, Debug, PartialEq, Eq, Structural)]
pub struct StepComputations {
    pub sqrt_price_start_x96: Uint256,
    pub tick_next: i32,
    pub initialized: bool,
    pub sqrt_price_next_x96: Uint256,
    pub amount_in: u128,
    pub amount_out: u128,
    pub fee_amount: u128,
}

/// The price limit of a swap is on the side it moves to and inside the bounds.
pub open spec fn limit_ok(zero_for_one: bool, price: nat, limit: nat) -> bool {
    if zero_for_one {
        MIN_SQRT_RATIO < limit < price
    } else {
        price < limit < max_sqrt_ratio()
    }
}

impl Pool {
    /// The price of a swap in progress lies between the start and the limit
    /// and its tick matches it.
    pub open spec fn swap_price_ok(&self, st: SwapState, zfo: bool, limit: nat) -> bool {
        let p = st.sqrt_price_x96@;
        let start = self.slot_0.sqrt_price_x96@;
        let t = st.tick as int;
        &&& if zfo { limit <= p <= start } else { start <= p <= limit }
        &&& MIN_SQRT_RATIO <= p < max_sqrt_ratio()
        &&& is_valid_tick(t)
        &&& sqrt_ratio(t) <= p
        &&& t < MAX_TICK ==> p <= sqrt_ratio(t + 1)
    }

    /// A swap in progress is consistent: its price lies between the start and
    /// the limit, its tick matches its price, and its amounts have the signs
    /// and bounds the kind of swap gives them.
    pub open spec fn swap_state_ok(&self, st: SwapState, zfo: bool, amount: int, limit: nat) -> bool {
        &&& self.swap_price_ok(st, zfo, limit)
        &&& st.liquidity == self.ticks.net_below(st.tick as int)
        &&& if amount > 0 {
            0 <= st.amount_specified_remaining <= amount && st.amount_calculated <= 0
        } else {
            amount <= st.amount_specified_remaining <= 0 && st.amount_calculated >= 0
        }
    }

    /// Between the tick a search of the bitmap starts from and the tick it
    /// ends at, no tick carries liquidity; where the search found nothing,
    /// the tick it ends at carries none either.
    proof fn lemma_search_gap(&self, tick: int, zfo: bool, found: (i32, bool), tn: int)
        requires
            self.wf(),
            is_valid_tick(tick),
            crate::tick_bitmap::next_props(&self.tick_bitmap, tick, self.tick_spacing as int, zfo, found),
            zfo ==> found.0 <= tick,
            !zfo ==> found.0 > tick && tick < MAX_TICK,
            tn == if found.0 < MIN_TICK {
                MIN_TICK as int
            } else if found.0 > MAX_TICK {
                MAX_TICK as int
            } else {
                found.0 as int
            },
        ensures
            zfo ==> forall|u: int| tn < u <= tick ==> #[trigger] self.ticks.info(u).liquidity_gross == 0,
            !zfo ==> forall|u: int| tick < u < tn ==> #[trigger] self.ticks.info(u).liquidity_gross == 0,
            !found.1 ==> self.ticks.info(tn).liquidity_gross == 0,
    {
        let sp = self.tick_spacing as int;
        let c = crate::tick_bitmap::compress(tick, sp);
        let nc = crate::tick_bitmap::compress(found.0 as int, sp);
        vstd::arithmetic::div_mod::lemma_fundamental_div_mod(found.0 as int, sp);
        vstd::arithmetic::div_mod::lemma_fundamental_div_mod(tick, sp);
        assert(found.0 == nc * sp);
        assert(c * sp <= tick < c * sp + sp);
        assert forall|u: int| (zfo && tn < u <= tick) || (!zfo && tick < u < tn) || (!found.1 && u == tn) implies #[trigger] self.ticks.info(u).liquidity_gross == 0 by {
            if self.ticks.info(u).liquidity_gross > 0 {
                let cu = crate::tick_bitmap::compress(u, sp);
                assert(u == cu * sp);
                assert(self.tick_bitmap.is_set(cu));
                if zfo {
                    assert(cu <= c) by (nonlinear_arith)
                        requires
                            u == cu * sp,
                            u <= tick,
                            tick < c * sp + sp,
                            sp > 0,
                    ;
                    if u == found.0 {
                        assert(cu == nc) by (nonlinear_arith)
                            requires
                                cu * sp == nc * sp,
                                sp > 0,
                        ;
                    } else {
                        assert(u > found.0);
                        assert(cu > nc) by (nonlinear_arith)
                            requires
                                cu * sp > nc * sp,
                                sp > 0,
                        ;
                    }
                } else {
                    assert(cu > c) by (nonlinear_arith)
                        requires
                            u == cu * sp,
                            u > tick,
                            c * sp <= tick,
                            sp > 0,
                    ;
                    if u == found.0 {
                        assert(cu == nc) by (nonlinear_arith)
                            requires
                                cu * sp == nc * sp,
                                sp > 0,
                        ;
                    } else {
                        assert(u < found.0);
                        assert(cu < nc) by (nonlinear_arith)
                            requires
                                cu * sp < nc * sp,
                                sp > 0,
                        ;
                    }
                }
            }
        }
        if zfo {
            assert forall|u: int| tn < u <= tick implies #[trigger] self.ticks.info(u).liquidity_gross == 0 by {
                assert((zfo && tn < u <= tick) || (!zfo && tick < u < tn) || (!found.1 && u == tn));
            }
        } else {
            assert forall|u: int| tick < u < tn implies #[trigger] self.ticks.info(u).liquidity_gross == 0 by {
                assert((zfo && tn < u <= tick) || (!zfo && tick < u < tn) || (!found.1 && u == tn));
            }
        }
        if !found.1 {
            assert((zfo && tn < tn <= tick) || (!zfo && tick < tn < tn) || (!found.1 && tn == tn));
        }
    }

    /// The next tick a step heads for, its price, and the price the step
    /// targets: that tick's price, or the limit where the limit comes first.
    fn step_target(&self, st: &SwapState, zfo: bool, limit: &Uint256) -> (r: (i32, bool, Uint256, Uint256))
        requires
            self.wf(),
            self.is_initialized(),
            limit_ok(zfo, self.slot_0.sqrt_price_x96@, limit@),
            self.swap_price_ok(*st, zfo, limit@),
            st.sqrt_price_x96@ != limit@,
        ensures
            is_valid_tick(r.0 as int),
            zfo || st.tick < MAX_TICK ==> r.2@ == sqrt_ratio(r.0 as int),
            !zfo && st.tick == MAX_TICK ==> r.0 == MAX_TICK && !r.1 && r.2 == *limit,
            zfo ==> r.0 <= st.tick && r.2@ <= st.sqrt_price_x96@ && limit@ <= r.3@ <= st.sqrt_price_x96@,
            !zfo ==> st.tick < MAX_TICK ==> r.0 > st.tick,
            !zfo ==> st.sqrt_price_x96@ <= r.2@ && st.sqrt_price_x96@ <= r.3@ <= limit@,
            r.3@ == r.2@ || r.3@ == limit@,
            r.3@ == st.sqrt_price_x96@ ==> r.2@ == st.sqrt_price_x96@,
            crate::swap_math::is_price(r.3@),
            crate::swap_math::is_price(st.sqrt_price_x96@),
            (r.0, r.1, r.2@, r.3@) == self.step_target_spec(*st, zfo, *limit),
            zfo ==> forall|u: int| r.0 < u <= st.tick ==> #[trigger] self.ticks.info(u).liquidity_gross == 0,
            !zfo ==> forall|u: int| st.tick < u < r.0 ==> #[trigger] self.ticks.info(u).liquidity_gross == 0,
            !r.1 ==> self.ticks.info(r.0 as int).liquidity_gross == 0,
            st.tick < MAX_TICK,
    {
        let price = st.sqrt_price_x96;
        let tick = st.tick;
        let (found_tick, initialized) = crate::tick_bitmap::next_initialized_tick_within_oneword(
            &self.tick_bitmap,
            tick,
            self.tick_spacing,
            zfo,
        );
        let tick_next: i32 = if found_tick < MIN_TICK {
            MIN_TICK
        } else if found_tick > MAX_TICK {
            MAX_TICK
        } else {
            found_tick
        };
        let price_next = sqrt_ratio_at_valid_tick(tick_next);
        proof {
            lemma_sqrt_ratio_bounds(tick_next as int);
            lemma_sqrt_ratio_bounds(tick as int);
            if zfo {
                if tick_next < tick {
                    lemma_sqrt_ratio_strictly_increasing(tick_next as int, tick as int);
                }
            } else if tick < MAX_TICK {
                if tick + 1 < tick_next {
                    lemma_sqrt_ratio_strictly_increasing(tick + 1, tick_next as int);
                }
            }
            assert(max_sqrt_ratio() < crate::swap_math::price_cap());
            lemma_sqrt_ratio_bounds(MAX_TICK as int);
            assert(tick < MAX_TICK);
            self.lemma_search_gap(tick as int, zfo, (found_tick, initialized), tick_next as int);
        }
        if !zfo && tick == MAX_TICK {
            return (MAX_TICK, false, *limit, *limit);
        }
        let target = if zfo {
            if price_next.lt(limit) { *limit } else { price_next }
        } else {
            if limit.lt(&price_next) { *limit } else { price_next }
        };
        (tick_next, initialized, price_next, target)
    }

    #[verifier::rlimit(100)]
    fn swap_step(
        &self,
        st: &SwapState,
        cache: &mut SwapCache,
        crossings: &mut Vec<(i32, Globals)>,
        zfo: bool,
        amount: i128,
        limit: &Uint256,
    ) -> (r: Result<SwapState, PoolError>)
        requires
            self.wf(),
            self.is_initialized(),
            amount != 0,
            limit_ok(zfo, self.slot_0.sqrt_price_x96@, limit@),
            self.swap_state_ok(*st, zfo, amount as int, limit@),
            st.amount_specified_remaining != 0,
            st.sqrt_price_x96@ != limit@,
        ensures
            final(cache).fee_protocol == old(cache).fee_protocol,
            final(cache).liquidity_start == old(cache).liquidity_start,
            final(cache).block_timestamp == old(cache).block_timestamp,
            r matches Err(e) ==> e is Helper,
            r matches Ok(n) ==> {
                &&& zfo ==> n.tick <= st.tick
                &&& !zfo ==> n.tick >= st.tick
                &&& final(crossings)@ == old(crossings)@ || {
                    &&& final(crossings)@ == old(crossings)@.push(final(crossings)@.last())
                    &&& zfo ==> n.tick < final(crossings)@.last().0 <= st.tick
                    &&& !zfo ==> st.tick < final(crossings)@.last().0 <= n.tick
                }
            },
            r.is_ok() <==> self.step_spec(*st, zfo, amount as int, *limit, old(cache).fee_protocol).is_some(),
            r matches Ok(n) ==> self.step_spec(*st, zfo, amount as int, *limit, old(cache).fee_protocol) == Some(n),
            r matches Ok(n) ==> {
                let from = st.sqrt_price_x96@;
                let to = n.sqrt_price_x96@;
                let rem0 = if amount > 0 { st.amount_specified_remaining as int } else { -st.amount_specified_remaining };
                let rem1 = if amount > 0 { n.amount_specified_remaining as int } else { -n.amount_specified_remaining };
                &&& self.swap_state_ok(n, zfo, amount as int, limit@)
                &&& if zfo {
                    to < from || (to == from && (n.tick < st.tick || (n.tick == st.tick && rem1 < rem0)))
                } else {
                    to > from || (to == from && (n.tick > st.tick || (n.tick == st.tick && rem1 < rem0)))
                }
            },
    {
        let price = st.sqrt_price_x96;
        let rem = st.amount_specified_remaining;
        let exact_in = amount > 0;
        let (tick_next, initialized, price_next, target) = self.step_target(st, zfo, limit);
        let step = crate::swap_math::_compute_swap_step(&price, &target, st.liquidity, rem, self.fee);
        proof {
            crate::swap_math::lemma_step_within(price@, target@, st.liquidity as nat, rem as int, self.fee as nat);
        }
        let (new_price, amount_in, amount_out, fee_amount) = match step {
            Some(v) => v,
            None => {
                return Err(PoolError::Helper(LiquidityHelperError::DivisionOverflow));
            },
        };
        proof {
            Uint256::lemma_from_nat(new_price);
        }
        let step = StepComputations {
            sqrt_price_start_x96: price,
            tick_next,
            initialized,
            sqrt_price_next_x96: price_next,
            amount_in,
            amount_out,
            fee_amount,
        };
        let (remaining, calculated) = match step_amounts(
            rem,
            st.amount_calculated,
            exact_in,
            step.amount_in,
            step.amount_out,
            step.fee_amount,
        ) {
            Ok(v) => v,
            Err(e) => {
                return Err(e);
            },
        };
        let (fee_growth, protocol_fee) = step_fees(
            &st.fee_growth_global_x128,
            st.protocol_fee,
            st.liquidity,
            step.fee_amount,
            cache.fee_protocol,
        );
        let mut liquidity = st.liquidity;
        let mut new_tick = st.tick;
        if new_price.equals(&step.sqrt_price_next_x96) {
            if step.initialized {
                liquidity = match self.step_cross(cache, crossings, step.tick_next, zfo, &fee_growth, st.liquidity) {
                    Ok(v) => v,
                    Err(e) => {
                        return Err(e);
                    },
                };
            }
            proof {
                lemma_sqrt_ratio_bounds(MIN_TICK as int);
                lemma_sqrt_ratio_bounds(tick_next as int);
            }
            new_tick = if zfo { step.tick_next - 1 } else { step.tick_next };
            proof {
                lemma_sqrt_ratio_bounds(new_tick as int);
                if new_tick < MAX_TICK {
                    lemma_sqrt_ratio_strictly_increasing(new_tick as int, new_tick + 1);
                }
            }
        } else if !new_price.equals(&step.sqrt_price_start_x96) {
            new_tick = crate::tick_math::tick_at_valid_sqrt_ratio(&new_price);
        }
        proof {
            let reached = new_price@;
            assert(if zfo { limit@ <= reached <= self.slot_0.sqrt_price_x96@ } else { self.slot_0.sqrt_price_x96@ <= reached <= limit@ });
            assert(MIN_SQRT_RATIO <= reached < max_sqrt_ratio());
            assert(is_valid_tick(new_tick as int));
            assert(sqrt_ratio(new_tick as int) <= reached);
            assert(new_tick < MAX_TICK ==> reached <= sqrt_ratio(new_tick + 1));
            assert(if amount > 0 {
                0 <= remaining <= amount && calculated <= 0
            } else {
                amount <= remaining <= 0 && calculated >= 0
            });
            let t0 = st.tick as int;
            let tn = tick_next as int;
            let np = new_price@;
            if np == price_next@ {
                self.ticks.lemma_net_below_step(tn);
                self.ticks.lemma_info_kept(tn);
                if zfo {
                    self.ticks.lemma_net_below_gap(tn, t0);
                } else {
                    self.ticks.lemma_net_below_gap(t0, tn - 1);
                }
            } else if np != price@ {
                lemma_sqrt_ratio_bounds(new_tick as int);
                lemma_sqrt_ratio_bounds(t0);
                lemma_sqrt_ratio_bounds(tn);
                if zfo {
                    assert(price_next@ <= target@);
                    if new_tick < tn {
                        if new_tick + 1 < tn {
                            lemma_sqrt_ratio_strictly_increasing(new_tick + 1, tn);
                        }
                    }
                    assert(tn <= new_tick);
                    if new_tick > t0 {
                        if t0 + 1 < new_tick {
                            lemma_sqrt_ratio_strictly_increasing(t0 + 1, new_tick as int);
                        }
                    }
                    assert(new_tick <= t0);
                    self.ticks.lemma_net_below_gap(new_tick as int, t0);
                } else {
                    assert(target@ <= price_next@);
                    if new_tick < t0 {
                        if new_tick + 1 < t0 {
                            lemma_sqrt_ratio_strictly_increasing(new_tick + 1, t0);
                        }
                    }
                    assert(t0 <= new_tick);
                    if new_tick >= tn {
                        if tn < new_tick {
                            lemma_sqrt_ratio_strictly_increasing(tn, new_tick as int);
                        }
                    }
                    assert(new_tick < tn);
                    self.ticks.lemma_net_below_gap(t0, new_tick as int);
                }
            }
            if new_price@ == price@ && new_price@ != price_next@ {
                assert(target@ != price@);
                assert(new_tick == st.tick);
                if exact_in {
                    assert(remaining == 0);
                }
            }
        }
        Ok(
            SwapState {
                amount_specified_remaining: remaining,
                amount_calculated: calculated,
                sqrt_price_x96: new_price,
                tick: new_tick,
                fee_growth_global_x128: fee_growth,
                protocol_fee,
                liquidity,
            },
        )
    }

    /// Crosses initialized tick `tick_next` in a swap: records the crossing
    /// and applies its net liquidity, negated when the price falls.
    fn step_cross(
        &self,
        cache: &mut SwapCache,
        crossings: &mut Vec<(i32, Globals)>,
        tick_next: i32,
        zfo: bool,
        fee_growth: &Uint256,
        liquidity: u128,
    ) -> (r: Result<u128, PoolError>)
        requires
            self.wf(),
            self.is_initialized(),
        ensures
            final(cache).fee_protocol == old(cache).fee_protocol,
            final(cache).liquidity_start == old(cache).liquidity_start,
            final(cache).block_timestamp == old(cache).block_timestamp,
            r matches Err(e) ==> e is Helper,
            final(crossings)@ == old(crossings)@.push((tick_next, final(crossings)@.last().1)),
            r.is_ok() <==> cross_ok(self.ticks.info(tick_next as int).liquidity_net as int, liquidity as int, zfo),
            r.is_ok() ==> r.unwrap() == liquidity + signed_net(self.ticks.info(tick_next as int).liquidity_net as int, zfo),
    {
        if !cache.computed_latest_observations {
            let (tc, spl) = observe_single(
                &self.observations,
                cache.block_timestamp,
                0,
                self.slot_0.tick,
                self.slot_0.observation_index,
                cache.liquidity_start,
                self.slot_0.observation_cardinality,
            ).unwrap();
            cache.tick_cumulative = tc;
            cache.seconds_per_liquidity_cumulative_x128 = spl;
            cache.computed_latest_observations = true;
        }
        let g = Globals {
            fee_growth_global_0x128: if zfo { *fee_growth } else { self.fee_growth_global_0x128 },
            fee_growth_global_1x128: if zfo { self.fee_growth_global_1x128 } else { *fee_growth },
            seconds_per_liquidity_cumulative_x128: cache.seconds_per_liquidity_cumulative_x128,
            tick_cumulative: cache.tick_cumulative,
            time: cache.block_timestamp,
        };
        let net = self.ticks.get(tick_next).liquidity_net;
        crossings.push((tick_next, g));
        let signed_net = if zfo {
            if net == i128::MIN {
                return Err(PoolError::Helper(LiquidityHelperError::LiquidityOverflow));
            }
            -net
        } else {
            net
        };
        match crate::tick::add_delta(liquidity, signed_net) {
            Ok(v) => Ok(v),
            Err(e) => Err(PoolError::Helper(e)),
        }
    }
}

/// The remaining and calculated amounts after a step that took `amount_in`
/// plus `fee_amount` in and gave `amount_out` out.
fn step_amounts(rem: i128, calculated: i128, exact_in: bool, amount_in: u128, amount_out: u128, fee_amount: u128) -> (r: Result<(i128, i128), PoolError>)
    requires
        exact_in ==> rem > 0 && amount_in + fee_amount <= rem,
        !exact_in ==> rem < 0 && amount_out <= -rem,
    ensures
        r matches Err(e) ==> e is Helper,
        r.is_ok() <==> amounts_ok(exact_in, calculated as int, amount_in as int, amount_out as int, fee_amount as int),
        r matches Ok((remaining, calc)) ==> {
            &&& exact_in ==> remaining == rem - amount_in - fee_amount && calc == calculated - amount_out
            &&& !exact_in ==> remaining == rem + amount_out && calc == calculated + amount_in + fee_amount
        },
{
    if exact_in {
        if amount_out > i128::MAX as u128 {
            return Err(PoolError::Helper(LiquidityHelperError::LiquidityOverflow));
        }
        let c = match calculated.checked_sub(amount_out as i128) {
            Some(v) => v,
            None => {
                return Err(PoolError::Helper(LiquidityHelperError::LiquidityOverflow));
            },
        };
        Ok((rem - ((amount_in + fee_amount) as i128), c))
    } else {
        let m: u128 = ((-(rem + 1)) as u128) + 1;
        let left: u128 = m - amount_out;
        let remaining: i128 = if left == 0x8000_0000_0000_0000_0000_0000_0000_0000 {
            i128::MIN
        } else {
            -(left as i128)
        };
        if amount_in > i128::MAX as u128 || fee_amount > i128::MAX as u128 - amount_in {
            return Err(PoolError::Helper(LiquidityHelperError::LiquidityOverflow));
        }
        let c = match calculated.checked_add((amount_in + fee_amount) as i128) {
            Some(v) => v,
            None => {
                return Err(PoolError::Helper(LiquidityHelperError::LiquidityOverflow));
            },
        };
        Ok((remaining, c))
    }
}

/// Fee growth and protocol fee after a step whose fee was `fee_amount`: the
/// protocol takes `fee_amount / fee_protocol` where set, and the rest grows
/// the fee per unit of liquidity where there is liquidity.
fn step_fees(fee_growth: &Uint256, protocol_fee: u128, liquidity: u128, fee_amount: u128, fee_protocol: u8) -> (r: (Uint256, u128))
    ensures
        r == fees_after(*fee_growth, protocol_fee, liquidity, fee_amount, fee_protocol),
{
    let mut fee = fee_amount;
    let mut pf = protocol_fee;
    if fee_protocol > 0 {
        let delta = fee / (fee_protocol as u128);
        fee = fee - delta;
        pf = crate::position::wrapping_add_128(pf, delta);
    }
    let mut growth_total = *fee_growth;
    if liquidity > 0 {
        proof {
            assert(fee as nat * b128() / liquidity as nat <= fee as nat * b128()) by {
                vstd::arithmetic::div_mod::lemma_div_is_ordered_by_denominator((fee as nat * b128()) as int, 1, liquidity as int);
            }
            assert(fee as nat * b128() < crate::wide::b256()) by (nonlinear_arith)
                requires
                    fee < b128(),
            ;
        }
        let growth = crate::wide::mul_div_256(&Uint256::from_u128(fee), &Uint256 { hi: 1, lo: 0 }, &Uint256::from_u128(liquidity)).unwrap();
        growth_total = growth_total.wrapping_add(&growth);
        proof {
            Uint256::lemma_from_nat(growth_total);
        }
    }
    (growth_total, pf)
}

/// Net liquidity applied when a tick is crossed: negated when the price falls.
pub open spec fn signed_net(net: int, zfo: bool) -> int {
    if zfo {
        -net
    } else {
        net
    }
}

/// Crossing a tick with net liquidity `net` keeps the liquidity in range.
pub open spec fn cross_ok(net: int, liquidity: int, zfo: bool) -> bool {
    &&& !(zfo && net == i128::MIN)
    &&& 0 <= liquidity + signed_net(net, zfo) <= u128::MAX
}

/// The amounts of a step fit the running totals.
pub open spec fn amounts_ok(exact_in: bool, calculated: int, amount_in: int, amount_out: int, fee_amount: int) -> bool {
    if exact_in {
        amount_out <= i128::MAX && calculated - amount_out >= i128::MIN
    } else {
        amount_in + fee_amount <= i128::MAX && calculated + amount_in + fee_amount <= i128::MAX
    }
}

/// Fee growth and protocol fee after a step whose fee was `f`: the protocol
/// takes `f / fp` where `fp` is set, and the rest grows the fee per unit of
/// liquidity `l` where there is liquidity.
pub open spec fn fees_after(fg: Uint256, pf: u128, l: u128, f: u128, fp: u8) -> (Uint256, u128) {
    let delta: nat = if fp > 0 { (f as nat / fp as nat) } else { 0 };
    let rest: nat = (f - delta) as nat;
    (
        if l > 0 {
            Uint256::from_nat(wrap256((fg@ + rest * b128() / l as nat) as int))
        } else {
            fg
        },
        ((pf + delta) % (b128() as int)) as u128,
    )
}

impl Pool {
    /// The tick a swap step heads for, whether it is initialized, its price
    /// and the price the step targets.
    pub open spec fn step_target_spec(&self, st: SwapState, zfo: bool, limit: Uint256) -> (i32, bool, nat, nat) {
        if !zfo && st.tick == MAX_TICK {
            (MAX_TICK, false, limit@, limit@)
        } else {
            let found = crate::tick_bitmap::next_in_word(&self.tick_bitmap, st.tick as int, self.tick_spacing as int, zfo);
            let tn = if found.0 < MIN_TICK {
                MIN_TICK
            } else if found.0 > MAX_TICK {
                MAX_TICK
            } else {
                found.0
            };
            let pn = sqrt_ratio(tn as int);
            let target = if zfo {
                if pn < limit@ { limit@ } else { pn }
            } else {
                if limit@ < pn { limit@ } else { pn }
            };
            (tn, found.1, pn, target)
        }
    }

    /// One step of a swap from `st`: trade within the current range towards
    /// the next initialized tick or the limit, take the fees, cross the tick
    /// where it is reached. `None` where an amount or the liquidity would
    /// leave its range.
    pub open spec fn step_spec(&self, st: SwapState, zfo: bool, amount: int, limit: Uint256, fp: u8) -> Option<SwapState> {
        let t = self.step_target_spec(st, zfo, limit);
        let tn = t.0;
        let pn = t.2;
        let target = t.3;
        let c = st.sqrt_price_x96@;
        let l = st.liquidity as nat;
        let rem = st.amount_specified_remaining as int;
        let fee = self.fee as nat;
        let np = crate::swap_math::step_next(c, target, l, rem, fee);
        let ain = crate::swap_math::step_amount_in(c, target, l, rem, fee) as int;
        let aout = crate::swap_math::step_amount_out(c, target, l, rem, fee) as int;
        let f = crate::swap_math::step_fee(c, target, l, rem, fee);
        let calc = st.amount_calculated as int;
        let net = self.ticks.info(tn as int).liquidity_net as int;
        let crossing = np == pn && t.1;
        if !crate::swap_math::step_fits(c, target, l, rem, fee) || !amounts_ok(amount > 0, calc, ain, aout, f) || (crossing
            && !cross_ok(net, l as int, zfo)) {
            None
        } else {
            let fees = fees_after(st.fee_growth_global_x128, st.protocol_fee, st.liquidity, f as u128, fp);
            Some(
                SwapState {
                    amount_specified_remaining: (if amount > 0 { rem - ain - f } else { rem + aout }) as i128,
                    amount_calculated: (if amount > 0 { calc - aout } else { calc + ain + f }) as i128,
                    sqrt_price_x96: Uint256::from_nat(np),
                    tick: if np == pn {
                        if zfo { (tn - 1) as i32 } else { tn }
                    } else if np != c {
                        crate::tick_math::tick_of(np) as i32
                    } else {
                        st.tick
                    },
                    fee_growth_global_x128: fees.0,
                    protocol_fee: fees.1,
                    liquidity: if crossing { (l + signed_net(net, zfo)) as u128 } else { st.liquidity },
                },
            )
        }
    }

    /// The state a swap starts from.
    pub open spec fn swap_start(&self, zfo: bool, amount: i128) -> SwapState {
        SwapState {
            amount_specified_remaining: amount,
            amount_calculated: 0,
            sqrt_price_x96: self.slot_0.sqrt_price_x96,
            tick: self.slot_0.tick,
            fee_growth_global_x128: if zfo { self.fee_growth_global_0x128 } else { self.fee_growth_global_1x128 },
            protocol_fee: 0,
            liquidity: self.liquidity,
        }
    }

    /// The protocol fee denominator of a swap's input token.
    pub open spec fn fee_protocol_for(&self, zfo: bool) -> u8 {
        if zfo {
            self.slot_0.fee_protocol % 16
        } else {
            self.slot_0.fee_protocol / 16
        }
    }

    /// The state after at most `n` steps from `st`, stopping early where the
    /// amount is used up or the limit reached; `None` where a step fails.
    pub open spec fn swap_walk(&self, st: SwapState, zfo: bool, amount: int, limit: Uint256, fp: u8, n: nat) -> Option<SwapState>
        decreases n,
    {
        if n == 0 || st.amount_specified_remaining == 0 || st.sqrt_price_x96@ == limit@ {
            Some(st)
        } else {
            match self.step_spec(st, zfo, amount, limit, fp) {
                None => None,
                Some(next) => self.swap_walk(next, zfo, amount, limit, fp, (n - 1) as nat),
            }
        }
    }

    proof fn lemma_walk_extend(&self, s: SwapState, zfo: bool, amount: int, limit: Uint256, fp: u8, k: nat, t: SwapState)
        requires
            self.swap_walk(s, zfo, amount, limit, fp, k) == Some(t),
            t.amount_specified_remaining != 0,
            t.sqrt_price_x96@ != limit@,
        ensures
            self.swap_walk(s, zfo, amount, limit, fp, k + 1) == self.step_spec(t, zfo, amount, limit, fp),
        decreases k,
    {
        if k > 0 {
            let next = self.step_spec(s, zfo, amount, limit, fp).unwrap();
            self.lemma_walk_extend(next, zfo, amount, limit, fp, (k - 1) as nat, t);
            assert((k + 1 - 1) as nat == ((k - 1) as nat) + 1);
        } else {
            assert(self.swap_walk(self.step_spec(t, zfo, amount, limit, fp).unwrap(), zfo, amount, limit, fp, 0)
                == Some(self.step_spec(t, zfo, amount, limit, fp).unwrap()));
        }
    }
}

/// A swap stops where its amount is used up or its price reached the limit.
pub open spec fn swap_done(st: SwapState, limit: Uint256) -> bool {
    st.amount_specified_remaining == 0 || st.sqrt_price_x96@ == limit@
}

/// `new` is `old` after a swap whose walk ended in `st` and that returned
/// `a0` and `a1`: the pool takes the final price, tick and liquidity, the
/// input token's fee growth and protocol fee, and the token deltas follow
/// from the amount used and the amount calculated.
pub open spec fn swap_result(old: Pool, new: Pool, zfo: bool, amount: i128, st: SwapState, a0: i128, a1: i128) -> bool {
    let used = amount - st.amount_specified_remaining;
    &&& new.slot_0.sqrt_price_x96 == st.sqrt_price_x96
    &&& new.slot_0.tick == st.tick
    &&& new.liquidity == st.liquidity
    &&& zfo ==> new.fee_growth_global_0x128 == st.fee_growth_global_x128 && new.fee0 == if st.protocol_fee > 0 {
        ((old.fee0 + st.protocol_fee) % (b128() as int)) as u128
    } else {
        old.fee0
    }
    &&& !zfo ==> new.fee_growth_global_1x128 == st.fee_growth_global_x128 && new.fee1 == if st.protocol_fee > 0 {
        ((old.fee1 + st.protocol_fee) % (b128() as int)) as u128
    } else {
        old.fee1
    }
    &&& (a0 as int, a1 as int) == if zfo == (amount > 0) {
        (used, st.amount_calculated as int)
    } else {
        (st.amount_calculated as int, used)
    }
}

impl Pool {
    /// A swap's walk stops in one state only: once stopped, further steps
    /// change nothing, and no walk of another length stops elsewhere.
    pub proof fn lemma_swap_walk_determined(&self, st: SwapState, zfo: bool, amount: int, limit: Uint256, fp: u8, k1: nat, k2: nat)
        requires
            self.swap_walk(st, zfo, amount, limit, fp, k1) is Some,
            swap_done(self.swap_walk(st, zfo, amount, limit, fp, k1).unwrap(), limit),
        ensures
            self.swap_walk(st, zfo, amount, limit, fp, k2) is Some,
            swap_done(self.swap_walk(st, zfo, amount, limit, fp, k2).unwrap(), limit) ==> self.swap_walk(
                st,
                zfo,
                amount,
                limit,
                fp,
                k2,
            ) == self.swap_walk(st, zfo, amount, limit, fp, k1),
        decreases k1,
    {
        if !swap_done(st, limit) && k1 > 0 && k2 > 0 {
            let next = self.step_spec(st, zfo, amount, limit, fp).unwrap();
            self.lemma_swap_walk_determined(next, zfo, amount, limit, fp, (k1 - 1) as nat, (k2 - 1) as nat);
        }
    }
}

/// The crossings recorded name each tick once.
pub open spec fn distinct_ticks(c: Seq<(i32, Globals)>) -> bool {
    forall|i: int, j: int| 0 <= i < j < c.len() ==> c[i].0 != c[j].0
}

/// A tick's record is unchanged, or is its old record crossed once.
pub open spec fn crossed_or_same(new: TickInfo, old: TickInfo) -> bool {
    new == old || exists|g: Globals| new == #[trigger] crate::tick::crossed_info(old, g)
}

/// Two records of a tick agree on its liquidity and initialized flag.
pub open spec fn same_liquidity(a: TickInfo, b: TickInfo) -> bool {
    a.liquidity_gross == b.liquidity_gross && a.liquidity_net == b.liquidity_net && a.initialized == b.initialized
}

/// Applies recorded tick crossings.
fn apply_crossings(ticks: &mut Ticks, crossings: &Vec<(i32, Globals)>)
    requires
        old(ticks).wf(),
        distinct_ticks(crossings@),
    ensures
        forall|t: int| #[trigger] crossed_or_same(final(ticks).info(t), old(ticks).info(t)),
        final(ticks).wf(),
        final(ticks).total_net() == old(ticks).total_net(),
        forall|t: int| #[trigger] same_liquidity(final(ticks).info(t), old(ticks).info(t)),
        forall|t: int| #[trigger] final(ticks).net_below(t) == old(ticks).net_below(t),
{
    let mut i: usize = 0;
    while i < crossings.len()
        invariant
            ticks.wf(),
            ticks.total_net() == old(ticks).total_net(),
            forall|t: int| #[trigger] same_liquidity(ticks.info(t), old(ticks).info(t)),
            forall|t: int| #[trigger] ticks.net_below(t) == old(ticks).net_below(t),
            forall|t: int| #[trigger] crossed_or_same(ticks.info(t), old(ticks).info(t)),
            forall|t: int|
                #![trigger ticks.info(t)]
                (exists|j: int| i <= j < crossings@.len() && crossings@[j].0 == t) ==> ticks.info(t) == old(ticks).info(t),
            distinct_ticks(crossings@),
            i <= crossings@.len(),
        decreases crossings@.len() - i,
    {
        let (t, g) = crossings[i];
        let ghost before = *ticks;
        crate::tick::cross(ticks, t, &g);
        proof {
            assert forall|u: int| #[trigger] same_liquidity(ticks.info(u), old(ticks).info(u)) by {
                assert(same_liquidity(before.info(u), old(ticks).info(u)));
            }
            assert forall|u: int| #[trigger] ticks.net_below(u) == old(ticks).net_below(u) by {
                assert(before.net_below(u) == old(ticks).net_below(u));
            }
            assert(before.info(t as int) == old(ticks).info(t as int));
            assert forall|u: int| #[trigger] crossed_or_same(ticks.info(u), old(ticks).info(u)) by {
                if u == t {
                    if before.info(u).liquidity_gross > 0 {
                        assert(ticks.info(u) == crate::tick::crossed_info(old(ticks).info(u), g));
                    }
                } else {
                    assert(crossed_or_same(before.info(u), old(ticks).info(u)));
                }
            }
            assert forall|u: int| (exists|j: int| i + 1 <= j < crossings@.len() && crossings@[j].0 == u) implies #[trigger] ticks.info(u)
                == old(ticks).info(u) by {
                let j = choose|j: int| i + 1 <= j < crossings@.len() && crossings@[j].0 == u;
                assert(crossings@[i as int].0 != crossings@[j].0);
                assert(before.info(u) == old(ticks).info(u));
            }
        }
        i = i + 1;
    }
}

impl Pool {
    /// Walks a swap tick by tick without changing the pool; gives the final
    /// state, the cache and the ticks crossed.
    fn compute_swap(&self, zfo: bool, amount: i128, limit: &Uint256, time: u32) -> (r: Result<
        (SwapState, SwapCache, Vec<(i32, Globals)>),
        PoolError,
    >)
        requires
            self.wf(),
            self.is_initialized(),
            amount != 0,
            limit_ok(zfo, self.slot_0.sqrt_price_x96@, limit@),
        ensures
            r matches Ok((st, cache, c)) ==> {
                &&& distinct_ticks(c@)
                &&& self.swap_state_ok(st, zfo, amount as int, limit@)
                &&& swap_done(st, *limit)
                &&& cache.liquidity_start == self.liquidity
                &&& exists|k: nat|
                    #[trigger] self.swap_walk(self.swap_start(zfo, amount), zfo, amount as int, *limit, self.fee_protocol_for(zfo), k)
                        == Some(st)
            },
            r is Err ==> exists|k: nat|
                #[trigger] self.swap_walk(self.swap_start(zfo, amount), zfo, amount as int, *limit, self.fee_protocol_for(zfo), k)
                    is None,
            r matches Err(e) ==> e is Helper,
    {
        let slot = self.slot_0;
        let mut cache = SwapCache {
            fee_protocol: if zfo { slot.fee_protocol % 16 } else { slot.fee_protocol / 16 },
            liquidity_start: self.liquidity,
            block_timestamp: time,
            tick_cumulative: 0,
            seconds_per_liquidity_cumulative_x128: Uint256::zero(),
            computed_latest_observations: false,
        };
        let mut state = SwapState {
            amount_specified_remaining: amount,
            amount_calculated: 0,
            sqrt_price_x96: slot.sqrt_price_x96,
            tick: slot.tick,
            fee_growth_global_x128: if zfo { self.fee_growth_global_0x128 } else { self.fee_growth_global_1x128 },
            protocol_fee: 0,
            liquidity: self.liquidity,
        };
        let mut crossings: Vec<(i32, Globals)> = Vec::new();
        let ghost start = state;
        let ghost fp = cache.fee_protocol;
        let ghost mut k: nat = 0;
        while state.amount_specified_remaining != 0 && !state.sqrt_price_x96.equals(limit)
            invariant
                start == self.swap_start(zfo, amount),
                distinct_ticks(crossings@),
                forall|j: int|
                    0 <= j < crossings@.len() ==> if zfo {
                        #[trigger] crossings@[j].0 > state.tick
                    } else {
                        crossings@[j].0 <= state.tick
                    },
                fp == self.fee_protocol_for(zfo),
                cache.fee_protocol == fp,
                self.swap_walk(start, zfo, amount as int, *limit, fp, k) == Some(state),
                self.wf(),
                self.is_initialized(),
                amount != 0,
                limit_ok(zfo, self.slot_0.sqrt_price_x96@, limit@),
                self.swap_state_ok(state, zfo, amount as int, limit@),
                cache.liquidity_start == self.liquidity,
                cache.block_timestamp == time,
            decreases
                if zfo { state.sqrt_price_x96@ as int } else { max_sqrt_ratio() - state.sqrt_price_x96@ },
                if zfo { state.tick - MIN_TICK } else { MAX_TICK - state.tick },
                if amount > 0 { state.amount_specified_remaining as int } else { -state.amount_specified_remaining },
        {
            let ghost before = state;
            let ghost before_crossings = crossings@;
            proof {
                self.lemma_walk_extend(start, zfo, amount as int, *limit, fp, k, before);
            }
            state = match self.swap_step(&state, &mut cache, &mut crossings, zfo, amount, limit) {
                Ok(n) => n,
                Err(e) => {
                    proof {
                        assert(self.swap_walk(start, zfo, amount as int, *limit, fp, k + 1) is None);
                    }
                    return Err(e);
                },
            };
            proof {
                k = k + 1;
                if crossings@ != before_crossings {
                    assert forall|a: int, b: int| 0 <= a < b < crossings@.len() implies crossings@[a].0 != crossings@[b].0 by {
                        if b < before_crossings.len() {
                            assert(before_crossings[a].0 != before_crossings[b].0);
                        } else {
                            assert(crossings@[a] == before_crossings[a]);
                        }
                    }
                    assert forall|j: int| 0 <= j < crossings@.len() implies if zfo {
                        #[trigger] crossings@[j].0 > state.tick
                    } else {
                        crossings@[j].0 <= state.tick
                    } by {
                        if j < before_crossings.len() {
                            assert(crossings@[j] == before_crossings[j]);
                        }
                    }
                } else {
                    assert forall|j: int| 0 <= j < crossings@.len() implies if zfo {
                        #[trigger] crossings@[j].0 > state.tick
                    } else {
                        crossings@[j].0 <= state.tick
                    } by {
                        assert(crossings@[j] == before_crossings[j]);
                    }
                }
            }
        }
        proof {
            assert(self.swap_walk(start, zfo, amount as int, *limit, fp, k) == Some(state));
        }
        Ok((state, cache, crossings))
    }

    /// Swaps `amount_specified` (an exact input where positive, an exact
    /// output where negative) of token0 for token1 (`zero_for_one`) or back,
    /// at time `time`, walking the price towards `sqrt_price_limit_x96` and
    /// stopping there at the latest. Returns the pool's token deltas: what it
    /// receives is positive, what it pays out negative. The pool stays locked
    /// until `complete_swap` checks that the input was paid. On any error
    /// nothing changes.
    pub fn swap(
        &mut self,
        recipient: AccountId,
        zero_for_one: bool,
        amount_specified: i128,
        sqrt_price_limit_x96: Uint256,
        time: u32,
    ) -> (r: Result<(i128, i128), PoolError>)
        requires
            old(self).wf(),
        ensures
            final(self).wf(),
            r is Err ==> *final(self) == *old(self),
            amount_specified == 0 ==> r == Err::<(i128, i128), PoolError>(PoolError::AmountSpecifiedIsZero),
            amount_specified != 0 && !old(self).slot_0.unlocked ==> r == Err::<(i128, i128), PoolError>(
                PoolError::PoolIsLocked,
            ),
            amount_specified != 0 && old(self).slot_0.unlocked && !limit_ok(
                zero_for_one,
                old(self).slot_0.sqrt_price_x96@,
                sqrt_price_limit_x96@,
            ) ==> r == Err::<(i128, i128), PoolError>(PoolError::SqrtPriceLimitX96IsInvalid),
            r matches Ok((a0, a1)) ==> {
                let price_before = old(self).slot_0.sqrt_price_x96@;
                let price_after = final(self).slot_0.sqrt_price_x96@;
                let limit = sqrt_price_limit_x96@;
                &&& limit_ok(zero_for_one, price_before, limit)
                &&& zero_for_one ==> limit <= price_after <= price_before
                &&& !zero_for_one ==> price_before <= price_after <= limit
                &&& !final(self).slot_0.unlocked
                &&& amount_specified > 0 && zero_for_one ==> 0 <= a0 <= amount_specified && a1 <= 0
                &&& amount_specified > 0 && !zero_for_one ==> 0 <= a1 <= amount_specified && a0 <= 0
                &&& amount_specified < 0 && zero_for_one ==> amount_specified <= a1 <= 0 && a0 >= 0
                &&& amount_specified < 0 && !zero_for_one ==> amount_specified <= a0 <= 0 && a1 >= 0
                &&& price_after != limit ==> (if zero_for_one == (amount_specified > 0) {
                    a0 == amount_specified
                } else {
                    a1 == amount_specified
                })
                &&& final(self).positions == old(self).positions
                &&& final(self).ticks.total_net() == 0
                &&& final(self).tick_bitmap == old(self).tick_bitmap
                &&& final(self).token_0 == old(self).token_0 && final(self).token_1 == old(self).token_1
                &&& final(self).fee == old(self).fee && final(self).tick_spacing == old(self).tick_spacing
                &&& final(self).max_liquidity_per_tick == old(self).max_liquidity_per_tick
                &&& forall|t: int| #[trigger] same_liquidity(final(self).ticks.info(t), old(self).ticks.info(t))
                &&& forall|t: int| #[trigger] crossed_or_same(final(self).ticks.info(t), old(self).ticks.info(t))
                &&& zero_for_one ==> final(self).fee_growth_global_1x128 == old(self).fee_growth_global_1x128
                    && final(self).fee1 == old(self).fee1
                &&& !zero_for_one ==> final(self).fee_growth_global_0x128 == old(self).fee_growth_global_0x128
                    && final(self).fee0 == old(self).fee0
                &&& exists|k: nat|
                    #![trigger old(self).swap_walk(old(self).swap_start(zero_for_one, amount_specified), zero_for_one, amount_specified as int, sqrt_price_limit_x96, old(self).fee_protocol_for(zero_for_one), k)]
                    {
                        let w = old(self).swap_walk(
                            old(self).swap_start(zero_for_one, amount_specified),
                            zero_for_one,
                            amount_specified as int,
                            sqrt_price_limit_x96,
                            old(self).fee_protocol_for(zero_for_one),
                            k,
                        );
                        &&& w is Some
                        &&& swap_done(w.unwrap(), sqrt_price_limit_x96)
                        &&& swap_result(*old(self), *final(self), zero_for_one, amount_specified, w.unwrap(), a0, a1)
                    }
            },
            amount_specified != 0 && old(self).slot_0.unlocked && limit_ok(
                zero_for_one,
                old(self).slot_0.sqrt_price_x96@,
                sqrt_price_limit_x96@,
            ) ==> (r matches Err(e) ==> e is Helper),
            r is Err && amount_specified != 0 && old(self).slot_0.unlocked && limit_ok(
                zero_for_one,
                old(self).slot_0.sqrt_price_x96@,
                sqrt_price_limit_x96@,
            ) ==> exists|k: nat|
                #[trigger] old(self).swap_walk(
                    old(self).swap_start(zero_for_one, amount_specified),
                    zero_for_one,
                    amount_specified as int,
                    sqrt_price_limit_x96,
                    old(self).fee_protocol_for(zero_for_one),
                    k,
                ) is None,
    {
        if amount_specified == 0 {
            return Err(PoolError::AmountSpecifiedIsZero);
        }
        let slot = self.slot_0;
        if !slot.unlocked {
            return Err(PoolError::PoolIsLocked);
        }
        let min = Uint256::from_u128(MIN_SQRT_RATIO);
        let max = crate::tick_math::max_sqrt_ratio_value();
        let limit = sqrt_price_limit_x96;
        let limit_valid = if zero_for_one {
            limit.lt(&slot.sqrt_price_x96) && min.lt(&limit)
        } else {
            slot.sqrt_price_x96.lt(&limit) && limit.lt(&max)
        };
        if !limit_valid {
            return Err(PoolError::SqrtPriceLimitX96IsInvalid);
        }
        let exact_in = amount_specified > 0;
        let (state, cache, crossings) = match self.compute_swap(zero_for_one, amount_specified, &limit, time) {
            Ok(v) => v,
            Err(e) => {
                return Err(e);
            },
        };
        apply_crossings(&mut self.ticks, &crossings);
        proof {
            let sp = self.tick_spacing as int;
            assert forall|t: int| #[trigger] self.ticks.info(t).liquidity_gross > 0 implies is_valid_tick(t) && t
                == crate::tick_bitmap::compress(t, sp) * sp && self.ticks.info(t).liquidity_gross
                <= self.max_liquidity_per_tick by {
                assert(same_liquidity(self.ticks.info(t), old(self).ticks.info(t)));
            }
            assert forall|c: int| #[trigger] self.tick_bitmap.is_set(c) <==> self.ticks.info(c * sp).liquidity_gross > 0 by {
                assert(same_liquidity(self.ticks.info(c * sp), old(self).ticks.info(c * sp)));
            }
        }
        if state.tick != slot.tick {
            let (index, cardinality) = crate::oracle::write(
                &mut self.observations,
                slot.observation_index,
                time,
                slot.tick,
                cache.liquidity_start,
                slot.observation_cardinality,
                slot.observation_cardinality_next,
            );
            self.slot_0.sqrt_price_x96 = state.sqrt_price_x96;
            self.slot_0.tick = state.tick;
            self.slot_0.observation_index = index;
            self.slot_0.observation_cardinality = cardinality;
        } else {
            self.slot_0.sqrt_price_x96 = state.sqrt_price_x96;
        }
        if cache.liquidity_start != state.liquidity {
            self.liquidity = state.liquidity;
        }
        if zero_for_one {
            self.fee_growth_global_0x128 = state.fee_growth_global_x128;
            if state.protocol_fee > 0 {
                self.fee0 = crate::position::wrapping_add_128(self.fee0, state.protocol_fee);
            }
        } else {
            self.fee_growth_global_1x128 = state.fee_growth_global_x128;
            if state.protocol_fee > 0 {
                self.fee1 = crate::position::wrapping_add_128(self.fee1, state.protocol_fee);
            }
        }
        self.slot_0.unlocked = false;
        let used: i128 = amount_specified - state.amount_specified_remaining;
        if zero_for_one == exact_in {
            Ok((used, state.amount_calculated))
        } else {
            Ok((state.amount_calculated, used))
        }
    }
}

impl Pool {
    /// Ends a swap: checks, from the pool's balance of the input token taken
    /// before and after the payer's callback, that `amount_in` was paid in,
    /// and releases the lock whatever the outcome.
    pub fn complete_swap(&mut self, amount_in: u128, balance_before: u128, balance_after: u128) -> (r: Result<(), PoolError>)
        requires
            old(self).wf(),
            old(self).is_initialized(),
        ensures
            final(self).wf(),
            *final(self) == (Pool { slot_0: Slot { unlocked: true, ..old(self).slot_0 }, pending_mint: None, ..*old(self) }),
            r.is_ok() <==> amount_in == 0 || balance_before + amount_in <= balance_after,
    {
        self.slot_0.unlocked = true;
        self.pending_mint = None;
        check_payment(
            amount_in,
            balance_before,
            balance_after,
            PoolError::InsufficientInputAmount,
            PoolError::InsufficientInputAmount,
        )
    }
}

} // verus!
