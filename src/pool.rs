//! The pool: its state, and the operations that provide liquidity, collect
//! fees and swap.
use vstd::prelude::*;
use crate::error::LiquidityHelperError;
use crate::oracle::{buffer_ok, latest, observe_single, Observation};
use crate::position::{
    position_updated, update_position, AccountId, Balance, PositionInfo, PositionKey, Positions,
};
use crate::swap_math::{amount0_delta, amount1_delta, get_amount0_delta, get_amount1_delta, FEE_UNITS};
use crate::tick::{get_fee_growth_inside, growth_inside, update, updated_info, Globals, TickInfo, Ticks};
use crate::tick_bitmap::{compress, compress_tick, TickBitmap};
use crate::tick_math::{
    get_tick_at_sqrt_ratio, is_tick_of, is_valid_tick, lemma_sqrt_ratio_bounds,
    lemma_sqrt_ratio_strictly_increasing, max_sqrt_ratio, sqrt_ratio, sqrt_ratio_at_valid_tick,
    MAX_TICK, MIN_SQRT_RATIO, MIN_TICK,
};
use crate::wide::{b128, Uint256};

verus! {

/// Failures of the pool's operations.
#[derive(Clone, Copy, Debug, PartialEq, Eq, Structural)]
pub enum PoolError {
    ZeroAmmount,
    TickError,
    AddOverflowBalance0,
    AddOverflowBalance1,
    M0,
    M1,
    ModifyPosition,
    BurningInsuficientBalance,
    CheckedNeg0,
    CheckedNeg1,
    AmountSpecifiedIsZero,
    PoolIsLocked,
    SqrtPriceLimitX96IsInvalid,
    AlreadyInitialized,
    InvalidFee,
    InvalidTickSpacing,
    InvalidFeeProtocol,
    /// A swap's input was not paid in.
    InsufficientInputAmount,
    /// `complete_mint` without a mint waiting for payment.
    NoPendingMint,
    Helper(LiquidityHelperError),
}

/// The pool's current price, tick, oracle position, protocol fee and lock.
#[derive(Clone, Copy, Debug, PartialEq, Eq, Structural)]
pub struct Slot {
    /// Current price, Q64.96.
    pub sqrt_price_x96: Uint256,
    /// Current tick.
    pub tick: i32,
    /// Index of the latest observation.
    pub observation_index: u16,
    /// Observations in use.
    pub observation_cardinality: u16,
    /// Observations the buffer grows to at the next wrap.
    pub observation_cardinality_next: u16,
    /// Protocol fee denominators: token0 in the low four bits, token1 in the
    /// high four; zero for none.
    pub fee_protocol: u8,
    /// Whether the pool accepts an operation.
    pub unlocked: bool,
}

/// Largest liquidity one tick may carry for `spacing`: `u128::MAX` shared
/// among the usable ticks.
pub open spec fn max_liquidity_for(spacing: int) -> int {
    (u128::MAX as int) / (2 * (MAX_TICK as int / spacing) + 1)
}

pub fn tick_spacing_to_max_liquidity_per_tick(spacing: i32) -> (r: u128)
    requires
        0 < spacing,
    ensures
        r == max_liquidity_for(spacing as int),
{
    let n: u128 = 2 * ((MAX_TICK / spacing) as u128) + 1;
    u128::MAX / n
}

/// A concentrated-liquidity pool between two tokens.
#[derive(Clone, Debug)]
pub struct Pool {
    pub factory: AccountId,
    pub token_0: AccountId,
    pub token_1: AccountId,
    /// Swap fee in millionths.
    pub fee: u32,
    pub tick_spacing: i32,
    pub max_liquidity_per_tick: u128,
    pub slot_0: Slot,
    /// Fees earned per unit of liquidity over the pool's life, Q128.128,
    /// modulo 2^256.
    pub fee_growth_global_0x128: Uint256,
    pub fee_growth_global_1x128: Uint256,
    /// Liquidity in range at the current price.
    pub liquidity: u128,
    pub ticks: Ticks,
    pub tick_bitmap: TickBitmap,
    pub positions: Positions,
    /// Protocol fees owed in token0 and token1.
    pub fee0: Balance,
    pub fee1: Balance,
    pub observations: Vec<Observation>,
    /// A mint waiting for its payment; the pool is locked meanwhile.
    pub pending_mint: Option<PendingMint>,
}

/// A mint whose liquidity is added once the payment of its amounts is in.
#[derive(Clone, Copy, Debug, PartialEq, Eq, Structural)]
pub struct PendingMint {
    pub recipient: AccountId,
    pub tick_lower: i32,
    pub tick_upper: i32,
    pub amount: u128,
    pub time: u32,
    pub amount0: u128,
    pub amount1: u128,
}

impl PendingMint {
    pub open spec fn key(self) -> PositionKey {
        PositionKey { owner: self.recipient, tick_lower: self.tick_lower, tick_upper: self.tick_upper }
    }
}

/// How a tick record is kept: as it is where it has gross liquidity, else
/// dropped, so that it reads as the empty record.
pub open spec fn stored(x: TickInfo) -> TickInfo {
    if x.liquidity_gross > 0 {
        x
    } else {
        TickInfo::empty_spec()
    }
}

impl Pool {
    /// A price has been set.
    pub open spec fn is_initialized(&self) -> bool {
        self.slot_0.sqrt_price_x96@ != 0
    }

    /// The price, tick and oracle agree.
    pub open spec fn price_ok(&self) -> bool {
        let p = self.slot_0.sqrt_price_x96@;
        let t = self.slot_0.tick as int;
        &&& MIN_SQRT_RATIO <= p < max_sqrt_ratio()
        &&& is_valid_tick(t)
        &&& sqrt_ratio(t) <= p
        &&& t < MAX_TICK ==> p <= sqrt_ratio(t + 1)
        &&& buffer_ok(self.observations@, self.slot_0.observation_index as int, self.slot_0.observation_cardinality as int)
        &&& self.slot_0.observation_cardinality <= self.slot_0.observation_cardinality_next
        &&& self.slot_0.observation_cardinality_next as int <= self.observations@.len()
    }

    /// The pool's invariant: the stores are well formed; the net liquidity
    /// of all ticks sums to zero; every tick with liquidity is a valid tick on
    /// the spacing, within the per-tick cap, and is exactly one whose bitmap
    /// bit is set; the liquidity in range is the net liquidity of the ticks at
    /// or below the current tick; an initialized pool has a consistent price
    /// while an uninitialized one has no ticks and refuses work; and a pending
    /// mint can be completed.
    pub open spec fn wf(&self) -> bool {
        &&& self.wf_except_liquidity()
        &&& self.liquidity == self.ticks.net_below(self.slot_0.tick as int)
    }

    /// The pool's invariant but for the tie of the liquidity in range to the
    /// ticks.
    pub open spec fn wf_except_liquidity(&self) -> bool {
        let sp = self.tick_spacing as int;
        &&& self.ticks.wf()
        &&& self.tick_bitmap.wf()
        &&& self.positions.wf()
        &&& self.ticks.total_net() == 0
        &&& 0 < self.tick_spacing < 16384
        &&& self.fee < FEE_UNITS
        &&& forall|t: int|
            #[trigger] self.ticks.info(t).liquidity_gross > 0 ==> is_valid_tick(t) && t == compress(t, sp) * sp
                && self.ticks.info(t).liquidity_gross <= self.max_liquidity_per_tick
        &&& forall|c: int| #[trigger] self.tick_bitmap.is_set(c) <==> self.ticks.info(c * sp).liquidity_gross > 0
        &&& self.is_initialized() ==> self.price_ok()
        &&& !self.is_initialized() ==> !self.slot_0.unlocked && self.ticks.entries@.len() == 0
        &&& self.pending_mint matches Some(m) ==> {
            &&& !self.slot_0.unlocked
            &&& self.is_initialized()
            &&& 0 < m.amount <= i128::MAX
            &&& self.modify_ok(m.key(), m.amount as int)
            &&& (m.amount0 as nat, m.amount1 as nat) == range_amounts(
                self.slot_0.sqrt_price_x96@,
                self.slot_0.tick as int,
                m.tick_lower as int,
                m.tick_upper as int,
                m.amount as int,
            )
        }
    }

    /// A pool between `token_0` and `token_1` with swap fee `fee` (millionths)
    /// and tick spacing `tick_spacing`, without a price yet.
    pub fn new(factory: AccountId, token_0: AccountId, token_1: AccountId, fee: u32, tick_spacing: i32) -> (r: Result<Pool, PoolError>)
        ensures
            r.is_ok() <==> fee < FEE_UNITS && 0 < tick_spacing < 16384,
            r matches Ok(p) ==> {
                &&& p.wf()
                &&& !p.is_initialized()
                &&& p.token_0 == token_0 && p.token_1 == token_1 && p.fee == fee && p.tick_spacing == tick_spacing
                &&& p.max_liquidity_per_tick == max_liquidity_for(tick_spacing as int)
                &&& p.liquidity == 0
            },
            fee >= FEE_UNITS ==> r == Err::<Pool, PoolError>(PoolError::InvalidFee),
            fee < FEE_UNITS && !(0 < tick_spacing < 16384) ==> r == Err::<Pool, PoolError>(PoolError::InvalidTickSpacing),
    {
        if fee >= FEE_UNITS {
            return Err(PoolError::InvalidFee);
        }
        if tick_spacing <= 0 || tick_spacing >= 16384 {
            return Err(PoolError::InvalidTickSpacing);
        }
        Ok(
            Pool {
                factory,
                token_0,
                token_1,
                fee,
                tick_spacing,
                max_liquidity_per_tick: tick_spacing_to_max_liquidity_per_tick(tick_spacing),
                slot_0: Slot {
                    sqrt_price_x96: Uint256::zero(),
                    tick: 0,
                    observation_index: 0,
                    observation_cardinality: 0,
                    observation_cardinality_next: 0,
                    fee_protocol: 0,
                    unlocked: false,
                },
                fee_growth_global_0x128: Uint256::zero(),
                fee_growth_global_1x128: Uint256::zero(),
                liquidity: 0,
                ticks: Ticks::new(),
                tick_bitmap: TickBitmap::new(),
                positions: Positions::new(),
                fee0: 0,
                fee1: 0,
                observations: Vec::new(),
                pending_mint: None,
            },
        )
    }

    /// Sets the tokens and the fee of a pool that has no price yet.
    pub fn initialize(&mut self, token_0: AccountId, token_1: AccountId, fee: u32) -> (r: Result<(), PoolError>)
        requires
            old(self).wf(),
        ensures
            final(self).wf(),
            r.is_ok() <==> !old(self).is_initialized() && fee < FEE_UNITS,
            r.is_ok() ==> *final(self) == (Pool { token_0, token_1, fee, ..*old(self) }),
            r.is_err() ==> *final(self) == *old(self),
    {
        if !self.slot_0.sqrt_price_x96.is_zero() {
            return Err(PoolError::AlreadyInitialized);
        }
        if fee >= FEE_UNITS {
            return Err(PoolError::InvalidFee);
        }
        self.token_0 = token_0;
        self.token_1 = token_1;
        self.fee = fee;
        Ok(())
    }

    /// Gives a pool without a price its first price, at time `time`: the tick
    /// follows from the price, the oracle starts with one observation and the
    /// pool opens.
    pub fn initialize_price(&mut self, sqrt_price_x96: Uint256, time: u32) -> (r: Result<(), PoolError>)
        requires
            old(self).wf(),
        ensures
            final(self).wf(),
            r.is_ok() <==> !old(self).is_initialized() && MIN_SQRT_RATIO <= sqrt_price_x96@ < max_sqrt_ratio(),
            r.is_ok() ==> {
                &&& final(self).slot_0.sqrt_price_x96 == sqrt_price_x96
                &&& is_tick_of(final(self).slot_0.tick as int, sqrt_price_x96@)
                &&& final(self).slot_0.unlocked
                &&& final(self).ticks == old(self).ticks
                &&& final(self).positions == old(self).positions
                &&& final(self).liquidity == old(self).liquidity
            },
            !old(self).is_initialized() && !(MIN_SQRT_RATIO <= sqrt_price_x96@ < max_sqrt_ratio()) ==> r
                == Err::<(), PoolError>(PoolError::Helper(LiquidityHelperError::SqrtRatioOutOfRange)),
            r.is_err() ==> *final(self) == *old(self),
    {
        if !self.slot_0.sqrt_price_x96.is_zero() {
            return Err(PoolError::AlreadyInitialized);
        }
        if crate::tick_math::max_sqrt_ratio_value().le(&sqrt_price_x96) {
            return Err(PoolError::Helper(LiquidityHelperError::SqrtRatioOutOfRange));
        }
        let tick = match get_tick_at_sqrt_ratio(&sqrt_price_x96) {
            Ok(t) => t,
            Err(e) => {
                return Err(PoolError::Helper(e));
            },
        };
        let (obs, cardinality, cardinality_next) = crate::oracle::initialize(time);
        self.observations = obs;
        self.slot_0 = Slot {
            sqrt_price_x96,
            tick,
            observation_index: 0,
            observation_cardinality: cardinality,
            observation_cardinality_next: cardinality_next,
            fee_protocol: 0,
            unlocked: true,
        };
        Ok(())
    }
}

/// Token amounts for `delta` liquidity on `[lower, upper]` at price `price`
/// and tick `tick`: token0 only below the range, token1 only above it, both
/// inside it. Rounded up when liquidity is added, down when it is removed.
pub open spec fn range_amounts(price: nat, tick: int, lower: int, upper: int, delta: int) -> (nat, nat) {
    let l = (if delta >= 0 { delta } else { -delta }) as nat;
    let up = delta > 0;
    if delta == 0 {
        (0, 0)
    } else if tick < lower {
        (amount0_delta(sqrt_ratio(lower), sqrt_ratio(upper), l, up), 0)
    } else if tick < upper {
        (amount0_delta(price, sqrt_ratio(upper), l, up), amount1_delta(sqrt_ratio(lower), price, l, up))
    } else {
        (0, amount1_delta(sqrt_ratio(lower), sqrt_ratio(upper), l, up))
    }
}

impl Pool {
    /// `[lower, upper]` is a usable range: ordered, within the tick bounds and
    /// on the spacing.
    pub open spec fn ticks_ok(&self, lower: int, upper: int) -> bool {
        &&& MIN_TICK <= lower < upper <= MAX_TICK
        &&& lower == compress(lower, self.tick_spacing as int) * self.tick_spacing
        &&& upper == compress(upper, self.tick_spacing as int) * self.tick_spacing
    }

    /// The accumulators that a tick taking liquidity for the first time
    /// records, at time `time`.
    pub open spec fn globals_at(&self, time: u32) -> Globals {
        let o = latest(self.observations@, time, self.slot_0.tick, self.slot_0.observation_index as int, self.liquidity);
        Globals {
            fee_growth_global_0x128: self.fee_growth_global_0x128,
            fee_growth_global_1x128: self.fee_growth_global_1x128,
            seconds_per_liquidity_cumulative_x128: o.seconds_per_liquidity_cumulative_x128,
            tick_cumulative: o.tick_cumulative,
            time,
        }
    }

    /// The record of a bound of a range after `delta` liquidity.
    pub open spec fn bound_after(&self, tick: int, delta: int, time: u32, upper: bool) -> TickInfo {
        if delta == 0 {
            self.ticks.info(tick)
        } else {
            updated_info(self.ticks.info(tick), tick, self.slot_0.tick as int, delta, self.globals_at(time), upper)
        }
    }

    /// The position of `key` after `delta` liquidity at time `time`.
    pub open spec fn position_after(&self, key: PositionKey, delta: int, time: u32) -> PositionInfo {
        let lo = self.bound_after(key.tick_lower as int, delta, time, false);
        let hi = self.bound_after(key.tick_upper as int, delta, time, true);
        let t = self.slot_0.tick as int;
        let inside0 = growth_inside(
            self.fee_growth_global_0x128@,
            lo.fee_growth_outside_0x128@,
            hi.fee_growth_outside_0x128@,
            key.tick_lower as int,
            key.tick_upper as int,
            t,
        );
        let inside1 = growth_inside(
            self.fee_growth_global_1x128@,
            lo.fee_growth_outside_1x128@,
            hi.fee_growth_outside_1x128@,
            key.tick_lower as int,
            key.tick_upper as int,
            t,
        );
        position_updated(self.positions.info(key), delta, Uint256::from_nat(inside0), Uint256::from_nat(inside1))
    }

    fn check_ticks(&self, lower: i32, upper: i32) -> (r: bool)
        requires
            0 < self.tick_spacing < 16384,
        ensures
            r == self.ticks_ok(lower as int, upper as int),
    {
        if !(MIN_TICK <= lower && lower < upper && upper <= MAX_TICK) {
            return false;
        }
        let cl = compress_tick(lower, self.tick_spacing);
        let cu = compress_tick(upper, self.tick_spacing);
        proof {
            assert(-887272 * 16384 <= cl * self.tick_spacing <= 887272 * 16384) by (nonlinear_arith)
                requires
                    -887272 <= cl <= 887272,
                    0 < self.tick_spacing < 16384,
            ;
            assert(-887272 * 16384 <= cu * self.tick_spacing <= 887272 * 16384) by (nonlinear_arith)
                requires
                    -887272 <= cu <= 887272,
                    0 < self.tick_spacing < 16384,
            ;
        }
        (cl as i64) * (self.tick_spacing as i64) == lower as i64 && (cu as i64) * (self.tick_spacing as i64)
            == upper as i64
    }

    /// The token amounts of `delta` liquidity on a usable range, where they
    /// fit in 128 bits.
    fn amounts_for(&self, lower: i32, upper: i32, delta: i128) -> (r: Result<(u128, u128), PoolError>)
        requires
            self.wf(),
            self.is_initialized(),
            self.ticks_ok(lower as int, upper as int),
        ensures
            r.is_ok() <==> range_amounts(self.slot_0.sqrt_price_x96@, self.slot_0.tick as int, lower as int, upper as int, delta as int).0 < b128()
                && range_amounts(self.slot_0.sqrt_price_x96@, self.slot_0.tick as int, lower as int, upper as int, delta as int).1 < b128(),
            r matches Ok((a0, a1)) ==> (a0 as nat, a1 as nat) == range_amounts(
                self.slot_0.sqrt_price_x96@,
                self.slot_0.tick as int,
                lower as int,
                upper as int,
                delta as int,
            ),
            r is Err ==> r == Err::<(u128, u128), PoolError>(PoolError::Helper(LiquidityHelperError::LiquidityOverflow)),
    {
        if delta == 0 {
            return Ok((0, 0));
        }
        let l: u128 = if delta > 0 { delta as u128 } else { ((-(delta + 1)) as u128) + 1 };
        let up = delta > 0;
        let price = self.slot_0.sqrt_price_x96;
        let tick = self.slot_0.tick;
        let sl = sqrt_ratio_at_valid_tick(lower);
        let su = sqrt_ratio_at_valid_tick(upper);
        proof {
            lemma_sqrt_ratio_bounds(lower as int);
            lemma_sqrt_ratio_bounds(upper as int);
            lemma_sqrt_ratio_strictly_increasing(lower as int, upper as int);
            assert(max_sqrt_ratio() < crate::swap_math::price_cap());
        }
        let (a0, a1) = if tick < lower {
            (get_amount0_delta(&sl, &su, l, up), Uint256::zero())
        } else if tick < upper {
            proof {
                if lower < tick {
                    lemma_sqrt_ratio_strictly_increasing(lower as int, tick as int);
                }
                if tick + 1 < upper {
                    lemma_sqrt_ratio_strictly_increasing(tick + 1, upper as int);
                }
            }
            (get_amount0_delta(&price, &su, l, up), get_amount1_delta(&sl, &price, l, up))
        } else {
            (Uint256::zero(), get_amount1_delta(&sl, &su, l, up))
        };
        match (a0.to_u128(), a1.to_u128()) {
            (Some(x), Some(y)) => Ok((x, y)),
            _ => Err(PoolError::Helper(LiquidityHelperError::LiquidityOverflow)),
        }
    }
}

impl Pool {
    /// A bound of a range can take `delta` liquidity: its gross liquidity
    /// stays within `[0, max_liquidity_per_tick]`, its net liquidity within
    /// `i128`, and a bound left unreferenced carries no net liquidity.
    pub open spec fn bound_update_ok(&self, tick: int, delta: int, upper: bool) -> bool {
        let info = self.ticks.info(tick);
        let gross = info.liquidity_gross + delta;
        let net = if upper { info.liquidity_net - delta } else { info.liquidity_net + delta };
        &&& 0 <= gross <= self.max_liquidity_per_tick
        &&& i128::MIN <= net <= i128::MAX
        &&& gross == 0 ==> net == 0
    }

    /// A change of `delta` liquidity to the position `key` succeeds: the
    /// range is usable, both bounds take the change, the position's liquidity
    /// stays within `u128` (and a position without liquidity takes no zero
    /// change), the token amounts fit in 128 bits, and so does the liquidity
    /// in range where the range holds the current tick.
    pub open spec fn modify_ok(&self, key: PositionKey, delta: int) -> bool {
        let lo = key.tick_lower as int;
        let hi = key.tick_upper as int;
        let t = self.slot_0.tick as int;
        let amounts = range_amounts(self.slot_0.sqrt_price_x96@, t, lo, hi, delta);
        let p = self.positions.info(key);
        &&& self.ticks_ok(lo, hi)
        &&& delta != 0 ==> self.bound_update_ok(lo, delta, false) && self.bound_update_ok(hi, delta, true)
        &&& delta != 0 || p.liquidity > 0
        &&& 0 <= p.liquidity + delta <= u128::MAX
        &&& amounts.0 < b128() && amounts.1 < b128()
        &&& delta != 0 && lo <= t < hi ==> 0 <= self.liquidity + delta <= u128::MAX
    }
}

/// What a change of a position's liquidity will write.
struct ModifyPlan {
    lower_info: TickInfo,
    upper_info: TickInfo,
    flipped_lower: bool,
    flipped_upper: bool,
    position: PositionInfo,
    amount0: u128,
    amount1: u128,
    liquidity: u128,
    in_range: bool,
}

impl Pool {
    #[verifier::rlimit(60)]
    fn plan_modify(&self, key: &PositionKey, delta: i128, time: u32) -> (r: Result<ModifyPlan, PoolError>)
        requires
            self.wf(),
            self.is_initialized(),
            self.ticks_ok(key.tick_lower as int, key.tick_upper as int),
        ensures
            r.is_ok() <==> self.modify_ok(*key, delta as int),
            r != Err::<ModifyPlan, PoolError>(PoolError::TickError),
            delta != 0 && (self.ticks.info(key.tick_lower as int).liquidity_gross + delta > self.max_liquidity_per_tick
                || self.ticks.info(key.tick_upper as int).liquidity_gross + delta > self.max_liquidity_per_tick) ==> r
                == Err::<ModifyPlan, PoolError>(PoolError::Helper(LiquidityHelperError::LiquidityOverflow)),
            r matches Ok(p) ==> {
                let lo = key.tick_lower as int;
                let hi = key.tick_upper as int;
                &&& p.lower_info == self.bound_after(lo, delta as int, time, false)
                &&& p.upper_info == self.bound_after(hi, delta as int, time, true)
                &&& p.lower_info.liquidity_gross > 0 ==> p.lower_info.initialized
                &&& p.upper_info.liquidity_gross > 0 ==> p.upper_info.initialized
                &&& p.lower_info.liquidity_gross == 0 ==> p.lower_info.liquidity_net == 0
                &&& p.upper_info.liquidity_gross == 0 ==> p.upper_info.liquidity_net == 0
                &&& p.lower_info.liquidity_net + p.upper_info.liquidity_net == self.ticks.info(lo).liquidity_net
                    + self.ticks.info(hi).liquidity_net
                &&& delta == 0 ==> p.lower_info == self.ticks.info(lo) && p.upper_info == self.ticks.info(hi)
                &&& p.lower_info.liquidity_gross <= self.max_liquidity_per_tick
                &&& p.upper_info.liquidity_gross <= self.max_liquidity_per_tick
                &&& p.lower_info.liquidity_net == self.ticks.info(lo).liquidity_net + delta
                &&& p.upper_info.liquidity_net == self.ticks.info(hi).liquidity_net - delta
                &&& p.flipped_lower == (delta != 0 && ((self.ticks.info(lo).liquidity_gross == 0) != (p.lower_info.liquidity_gross == 0)))
                &&& p.flipped_upper == (delta != 0 && ((self.ticks.info(hi).liquidity_gross == 0) != (p.upper_info.liquidity_gross == 0)))
                &&& p.position == self.position_after(*key, delta as int, time)
                &&& 0 <= self.positions.info(*key).liquidity + delta <= u128::MAX
                &&& (p.amount0 as nat, p.amount1 as nat) == range_amounts(
                    self.slot_0.sqrt_price_x96@,
                    self.slot_0.tick as int,
                    lo,
                    hi,
                    delta as int,
                )
                &&& p.in_range == (delta != 0 && lo <= self.slot_0.tick < hi)
                &&& p.liquidity == if p.in_range { self.liquidity + delta } else { self.liquidity as int }
            },
    {
        let slot = self.slot_0;
        let tick_lower = key.tick_lower;
        let tick_upper = key.tick_upper;
        let position = match self.positions.get(key) {
            Some(p) => p,
            None => PositionInfo::empty(),
        };
        let fg0 = self.fee_growth_global_0x128;
        let fg1 = self.fee_growth_global_1x128;
        let mut lo_info = self.ticks.get(tick_lower);
        let mut up_info = self.ticks.get(tick_upper);
        let mut flipped_lower = false;
        let mut flipped_upper = false;
        if delta != 0 {
            let (tc, spl) = observe_single(
                &self.observations,
                time,
                0,
                slot.tick,
                slot.observation_index,
                self.liquidity,
                slot.observation_cardinality,
            ).unwrap();
            let g = Globals {
                fee_growth_global_0x128: fg0,
                fee_growth_global_1x128: fg1,
                seconds_per_liquidity_cumulative_x128: spl,
                tick_cumulative: tc,
                time,
            };
            match update(&lo_info, tick_lower, slot.tick, delta, &g, false, self.max_liquidity_per_tick) {
                Ok((n, f)) => {
                    lo_info = n;
                    flipped_lower = f;
                },
                Err(e) => {
                    return Err(PoolError::Helper(e));
                },
            }
            match update(&up_info, tick_upper, slot.tick, delta, &g, true, self.max_liquidity_per_tick) {
                Ok((n, f)) => {
                    up_info = n;
                    flipped_upper = f;
                },
                Err(e) => {
                    return Err(PoolError::Helper(e));
                },
            }
            if (lo_info.liquidity_gross == 0 && lo_info.liquidity_net != 0) || (up_info.liquidity_gross == 0
                && up_info.liquidity_net != 0) {
                return Err(PoolError::Helper(LiquidityHelperError::UnbalancedTick));
            }
        }
        let (inside0, inside1) = get_fee_growth_inside(&lo_info, &up_info, tick_lower, tick_upper, slot.tick, &fg0, &fg1);
        proof {
            Uint256::lemma_from_nat(inside0);
            Uint256::lemma_from_nat(inside1);
        }
        let new_position = match update_position(&position, delta, &inside0, &inside1) {
            Ok(p) => p,
            Err(e) => {
                return Err(PoolError::Helper(e));
            },
        };
        let (a0, a1) = match self.amounts_for(tick_lower, tick_upper, delta) {
            Ok(a) => a,
            Err(e) => {
                return Err(e);
            },
        };
        let in_range = delta != 0 && tick_lower <= slot.tick && slot.tick < tick_upper;
        let mut new_liquidity = self.liquidity;
        if in_range {
            new_liquidity = match crate::tick::add_delta(self.liquidity, delta) {
                Ok(v) => v,
                Err(e) => {
                    return Err(PoolError::Helper(e));
                },
            };
        }
        Ok(
            ModifyPlan {
                lower_info: lo_info,
                upper_info: up_info,
                flipped_lower,
                flipped_upper,
                position: new_position,
                amount0: a0,
                amount1: a1,
                liquidity: new_liquidity,
                in_range,
            },
        )
    }

    /// The tick records and bitmap of a pool after `plan` for `key` is written.
    pub open spec fn ticks_written(&self, new: &Pool, key: PositionKey, lower: TickInfo, upper: TickInfo) -> bool {
        let lo = key.tick_lower as int;
        let hi = key.tick_upper as int;
        &&& new.ticks.info(lo) == stored(lower)
        &&& new.ticks.info(hi) == stored(upper)
        &&& forall|u: int| u != lo && u != hi ==> #[trigger] new.ticks.info(u) == self.ticks.info(u)
    }

    #[verifier::rlimit(60)]
    fn commit_ticks(&mut self, key: &PositionKey, plan: &ModifyPlan, delta: i128)
        requires
            old(self).wf(),
            old(self).is_initialized(),
            old(self).pending_mint is None,
            old(self).ticks_ok(key.tick_lower as int, key.tick_upper as int),
            plan.lower_info.liquidity_gross > 0 ==> plan.lower_info.initialized,
            plan.upper_info.liquidity_gross > 0 ==> plan.upper_info.initialized,
            plan.lower_info.liquidity_gross == 0 ==> plan.lower_info.liquidity_net == 0,
            plan.upper_info.liquidity_gross == 0 ==> plan.upper_info.liquidity_net == 0,
            plan.lower_info.liquidity_gross <= old(self).max_liquidity_per_tick,
            plan.upper_info.liquidity_gross <= old(self).max_liquidity_per_tick,
            plan.lower_info.liquidity_net + plan.upper_info.liquidity_net == old(self).ticks.info(key.tick_lower as int).liquidity_net
                + old(self).ticks.info(key.tick_upper as int).liquidity_net,
            plan.flipped_lower == (delta != 0 && ((old(self).ticks.info(key.tick_lower as int).liquidity_gross == 0) != (
            plan.lower_info.liquidity_gross == 0))),
            plan.flipped_upper == (delta != 0 && ((old(self).ticks.info(key.tick_upper as int).liquidity_gross == 0) != (
            plan.upper_info.liquidity_gross == 0))),
            delta == 0 ==> plan.lower_info == old(self).ticks.info(key.tick_lower as int) && plan.upper_info == old(
                self,
            ).ticks.info(key.tick_upper as int),
            plan.lower_info.liquidity_net == old(self).ticks.info(key.tick_lower as int).liquidity_net + delta,
            plan.upper_info.liquidity_net == old(self).ticks.info(key.tick_upper as int).liquidity_net - delta,
            plan.in_range == (delta != 0 && key.tick_lower <= old(self).slot_0.tick < key.tick_upper),
            plan.liquidity == if plan.in_range { old(self).liquidity + delta } else { old(self).liquidity as int },
        ensures
            *final(self) == (Pool { ticks: final(self).ticks, tick_bitmap: final(self).tick_bitmap, ..*old(self) }),
            old(self).ticks_written(final(self), *key, plan.lower_info, plan.upper_info),
            final(self).wf_except_liquidity(),
            forall|u: int| #[trigger] final(self).ticks.net_below(u) == old(self).ticks.net_below(u) + if key.tick_lower <= u
                < key.tick_upper {
                delta as int
            } else {
                0
            },
    {
        let tick_lower = key.tick_lower;
        let tick_upper = key.tick_upper;
        let sp = self.tick_spacing;
        let ghost lo = tick_lower as int;
        let ghost hi = tick_upper as int;
        proof {
            old(self).ticks.lemma_info_kept(lo);
            old(self).ticks.lemma_info_kept(hi);
        }
        if delta != 0 {
            let cl = compress_tick(tick_lower, sp);
            let cu = compress_tick(tick_upper, sp);
            if plan.flipped_lower {
                self.tick_bitmap.flip(cl);
            }
            if plan.flipped_upper {
                self.tick_bitmap.flip(cu);
            }
            let lo_store = if plan.lower_info.liquidity_gross > 0 { plan.lower_info } else { TickInfo::empty() };
            let up_store = if plan.upper_info.liquidity_gross > 0 { plan.upper_info } else { TickInfo::empty() };
            self.ticks.set(tick_lower, lo_store);
            self.ticks.set(tick_upper, up_store);
            proof {
                let s2 = sp as int;
                assert(cl != cu);
                assert(old(self).tick_bitmap.is_set(cl as int) <==> old(self).ticks.info(cl * s2).liquidity_gross > 0);
                assert(old(self).tick_bitmap.is_set(cu as int) <==> old(self).ticks.info(cu * s2).liquidity_gross > 0);
                assert forall|c: int| #[trigger] self.tick_bitmap.is_set(c) <==> self.ticks.info(c * s2).liquidity_gross > 0 by {
                    crate::tick_bitmap::lemma_compress_multiple(c, s2);
                    crate::tick_bitmap::lemma_compress_multiple(cl as int, s2);
                    crate::tick_bitmap::lemma_compress_multiple(cu as int, s2);
                    if c * s2 == lo {
                        assert(c == cl);
                    } else if c * s2 == hi {
                        assert(c == cu);
                    } else {
                        assert(c != cl && c != cu);
                        assert(old(self).tick_bitmap.is_set(c) <==> old(self).ticks.info(c * s2).liquidity_gross > 0);
                    }
                }
                assert forall|t: int| #[trigger] self.ticks.info(t).liquidity_gross > 0 implies is_valid_tick(t) && t
                    == compress(t, s2) * s2 && self.ticks.info(t).liquidity_gross <= self.max_liquidity_per_tick by {
                    if t != lo && t != hi {
                        assert(old(self).ticks.info(t).liquidity_gross > 0);
                    }
                }
            }
        }
    }

    fn commit_modify(&mut self, key: &PositionKey, plan: &ModifyPlan, delta: i128, time: u32)
        requires
            old(self).wf(),
            old(self).is_initialized(),
            old(self).pending_mint is None,
            old(self).ticks_ok(key.tick_lower as int, key.tick_upper as int),
            plan.lower_info.liquidity_gross > 0 ==> plan.lower_info.initialized,
            plan.upper_info.liquidity_gross > 0 ==> plan.upper_info.initialized,
            plan.lower_info.liquidity_gross == 0 ==> plan.lower_info.liquidity_net == 0,
            plan.upper_info.liquidity_gross == 0 ==> plan.upper_info.liquidity_net == 0,
            plan.lower_info.liquidity_gross <= old(self).max_liquidity_per_tick,
            plan.upper_info.liquidity_gross <= old(self).max_liquidity_per_tick,
            plan.lower_info.liquidity_net + plan.upper_info.liquidity_net == old(self).ticks.info(key.tick_lower as int).liquidity_net
                + old(self).ticks.info(key.tick_upper as int).liquidity_net,
            plan.flipped_lower == (delta != 0 && ((old(self).ticks.info(key.tick_lower as int).liquidity_gross == 0) != (
            plan.lower_info.liquidity_gross == 0))),
            plan.flipped_upper == (delta != 0 && ((old(self).ticks.info(key.tick_upper as int).liquidity_gross == 0) != (
            plan.upper_info.liquidity_gross == 0))),
            delta == 0 ==> plan.lower_info == old(self).ticks.info(key.tick_lower as int) && plan.upper_info == old(
                self,
            ).ticks.info(key.tick_upper as int),
            plan.lower_info.liquidity_net == old(self).ticks.info(key.tick_lower as int).liquidity_net + delta,
            plan.upper_info.liquidity_net == old(self).ticks.info(key.tick_upper as int).liquidity_net - delta,
            plan.in_range == (delta != 0 && key.tick_lower <= old(self).slot_0.tick < key.tick_upper),
            plan.liquidity == if plan.in_range { old(self).liquidity + delta } else { old(self).liquidity as int },
        ensures
            final(self).wf(),
            final(self).is_initialized(),
            old(self).ticks_written(final(self), *key, plan.lower_info, plan.upper_info),
            final(self).positions.info(*key) == plan.position,
            forall|k: PositionKey| k != *key ==> final(self).positions.info(k) == old(self).positions.info(k),
            final(self).liquidity == if plan.in_range { plan.liquidity } else { old(self).liquidity },
            final(self).slot_0.sqrt_price_x96 == old(self).slot_0.sqrt_price_x96,
            final(self).slot_0.tick == old(self).slot_0.tick,
            final(self).slot_0.unlocked == old(self).slot_0.unlocked,
            final(self).slot_0.fee_protocol == old(self).slot_0.fee_protocol,
            final(self).fee_growth_global_0x128 == old(self).fee_growth_global_0x128,
            final(self).fee_growth_global_1x128 == old(self).fee_growth_global_1x128,
            final(self).fee0 == old(self).fee0 && final(self).fee1 == old(self).fee1,
            final(self).tick_spacing == old(self).tick_spacing,
            final(self).fee == old(self).fee,
            final(self).max_liquidity_per_tick == old(self).max_liquidity_per_tick,
            final(self).token_0 == old(self).token_0 && final(self).token_1 == old(self).token_1,
            final(self).pending_mint == old(self).pending_mint,
    {
        self.commit_ticks(key, plan, delta);
        self.positions.set(key, plan.position);
        if plan.in_range {
            let slot = self.slot_0;
            let (index, cardinality) = crate::oracle::write(
                &mut self.observations,
                slot.observation_index,
                time,
                slot.tick,
                self.liquidity,
                slot.observation_cardinality,
                slot.observation_cardinality_next,
            );
            self.slot_0.observation_index = index;
            self.slot_0.observation_cardinality = cardinality;
            self.liquidity = plan.liquidity;
        }
    }

    /// Adds `delta` liquidity (removes, where negative) to the position of
    /// `owner` on `[tick_lower, tick_upper]` at time `time`: both bounds take
    /// the change (and their bitmap bits flip where they start or stop being
    /// referenced, a bound left unreferenced is dropped), the position is
    /// credited the fees earned since its last update, the liquidity in range
    /// follows where the range holds the current tick, and the token amounts
    /// the change is worth are returned. On any error nothing changes.
    pub fn _modify_position(
        &mut self,
        owner: AccountId,
        tick_lower: i32,
        tick_upper: i32,
        delta: i128,
        time: u32,
    ) -> (r: Result<(PositionInfo, Balance, Balance), PoolError>)
        requires
            old(self).wf(),
            old(self).is_initialized(),
            old(self).pending_mint is None,
        ensures
            final(self).wf(),
            final(self).is_initialized(),
            final(self).pending_mint is None,
            r is Err ==> *final(self) == *old(self),
            r == Err::<(PositionInfo, Balance, Balance), PoolError>(PoolError::TickError) <==> !old(self).ticks_ok(
                tick_lower as int,
                tick_upper as int,
            ),
            old(self).ticks_ok(tick_lower as int, tick_upper as int) && delta != 0 && (old(self).ticks.info(
                tick_lower as int,
            ).liquidity_gross + delta > old(self).max_liquidity_per_tick || old(self).ticks.info(
                tick_upper as int,
            ).liquidity_gross + delta > old(self).max_liquidity_per_tick) ==> r == Err::<(PositionInfo, Balance, Balance), PoolError>(
                PoolError::Helper(LiquidityHelperError::LiquidityOverflow),
            ),
            r.is_ok() <==> old(self).modify_ok(PositionKey { owner, tick_lower, tick_upper }, delta as int),
            !old(self).ticks_ok(tick_lower as int, tick_upper as int) ==> r == Err::<(PositionInfo, Balance, Balance), PoolError>(
                PoolError::TickError,
            ),
            r matches Ok((p, a0, a1)) ==> {
                let key = PositionKey { owner, tick_lower, tick_upper };
                &&& old(self).ticks_ok(tick_lower as int, tick_upper as int)
                &&& p == old(self).position_after(key, delta as int, time)
                &&& 0 <= old(self).positions.info(key).liquidity + delta <= u128::MAX
                &&& p.liquidity == old(self).positions.info(key).liquidity + delta
                &&& final(self).positions.info(key) == p
                &&& forall|k: PositionKey| k != key ==> final(self).positions.info(k) == old(self).positions.info(k)
                &&& old(self).ticks_written(
                    final(self),
                    key,
                    old(self).bound_after(tick_lower as int, delta as int, time, false),
                    old(self).bound_after(tick_upper as int, delta as int, time, true),
                )
                &&& (a0 as nat, a1 as nat) == range_amounts(
                    old(self).slot_0.sqrt_price_x96@,
                    old(self).slot_0.tick as int,
                    tick_lower as int,
                    tick_upper as int,
                    delta as int,
                )
                &&& final(self).liquidity == if delta != 0 && tick_lower <= old(self).slot_0.tick < tick_upper {
                    old(self).liquidity + delta
                } else {
                    old(self).liquidity as int
                }
                &&& final(self).slot_0.sqrt_price_x96 == old(self).slot_0.sqrt_price_x96
                &&& final(self).slot_0.tick == old(self).slot_0.tick
                &&& final(self).slot_0.unlocked == old(self).slot_0.unlocked
                &&& final(self).slot_0.fee_protocol == old(self).slot_0.fee_protocol
                &&& final(self).fee_growth_global_0x128 == old(self).fee_growth_global_0x128
                &&& final(self).fee_growth_global_1x128 == old(self).fee_growth_global_1x128
                &&& final(self).fee0 == old(self).fee0 && final(self).fee1 == old(self).fee1
                &&& final(self).tick_spacing == old(self).tick_spacing
                &&& final(self).fee == old(self).fee
                &&& final(self).max_liquidity_per_tick == old(self).max_liquidity_per_tick
                &&& final(self).token_0 == old(self).token_0 && final(self).token_1 == old(self).token_1
            },
    {
        if !self.check_ticks(tick_lower, tick_upper) {
            return Err(PoolError::TickError);
        }
        let key = PositionKey { owner, tick_lower, tick_upper };
        let plan = match self.plan_modify(&key, delta, time) {
            Ok(p) => p,
            Err(e) => {
                return Err(e);
            },
        };
        self.commit_modify(&key, &plan, delta, time);
        Ok((plan.position, plan.amount0, plan.amount1))
    }
}

/// `new` is `old` after the mint of `amount` liquidity for `recipient` on
/// `[tick_lower, tick_upper]` at time `time`, which asked for `a0` and `a1`,
/// was paid and committed.
pub open spec fn minted(
    old: Pool,
    new: Pool,
    recipient: AccountId,
    tick_lower: i32,
    tick_upper: i32,
    amount: u128,
    time: u32,
    a0: u128,
    a1: u128,
) -> bool {
    let key = PositionKey { owner: recipient, tick_lower, tick_upper };
    &&& 0 < amount <= i128::MAX
    &&& old.ticks_ok(tick_lower as int, tick_upper as int)
    &&& old.modify_ok(key, amount as int)
    &&& old.ticks_written(
        &new,
        key,
        old.bound_after(tick_lower as int, amount as int, time, false),
        old.bound_after(tick_upper as int, amount as int, time, true),
    )
    &&& new.positions.info(key) == old.position_after(key, amount as int, time)
    &&& new.positions.info(key).liquidity == old.positions.info(key).liquidity + amount
    &&& forall|k: PositionKey| k != key ==> new.positions.info(k) == old.positions.info(k)
    &&& (a0 as nat, a1 as nat) == range_amounts(
        old.slot_0.sqrt_price_x96@,
        old.slot_0.tick as int,
        tick_lower as int,
        tick_upper as int,
        amount as int,
    )
    &&& new.liquidity == if tick_lower <= old.slot_0.tick < tick_upper {
        old.liquidity + amount
    } else {
        old.liquidity as int
    }
    &&& new.slot_0.unlocked
    &&& new.pending_mint is None
    &&& new.slot_0.sqrt_price_x96 == old.slot_0.sqrt_price_x96
    &&& new.slot_0.tick == old.slot_0.tick
    &&& new.fee_growth_global_0x128 == old.fee_growth_global_0x128
    &&& new.fee_growth_global_1x128 == old.fee_growth_global_1x128
}

/// `new` is `old` after a burn of `amount` liquidity of `owner` on
/// `[tick_lower, tick_upper]` at time `time` that returned `a0` and `a1`.
pub open spec fn burned(
    old: Pool,
    new: Pool,
    owner: AccountId,
    tick_lower: i32,
    tick_upper: i32,
    amount: u128,
    time: u32,
    a0: u128,
    a1: u128,
) -> bool {
    let key = PositionKey { owner, tick_lower, tick_upper };
    let p = old.position_after(key, -amount, time);
    &&& amount <= i128::MAX
    &&& old.ticks_ok(tick_lower as int, tick_upper as int)
    &&& old.modify_ok(key, -amount)
    &&& old.ticks_written(
        &new,
        key,
        old.bound_after(tick_lower as int, -amount, time, false),
        old.bound_after(tick_upper as int, -amount, time, true),
    )
    &&& (a0 as nat, a1 as nat) == range_amounts(
        old.slot_0.sqrt_price_x96@,
        old.slot_0.tick as int,
        tick_lower as int,
        tick_upper as int,
        -amount,
    )
    &&& new.positions.info(key) == (PositionInfo {
        tokens_owed_0: ((p.tokens_owed_0 + a0) % (b128() as int)) as u128,
        tokens_owed_1: ((p.tokens_owed_1 + a1) % (b128() as int)) as u128,
        ..p
    })
    &&& new.positions.info(key).liquidity == old.positions.info(key).liquidity - amount
    &&& new.liquidity == if amount > 0 && tick_lower <= old.slot_0.tick < tick_upper {
        old.liquidity - amount
    } else {
        old.liquidity as int
    }
    &&& forall|k: PositionKey| k != key ==> new.positions.info(k) == old.positions.info(k)
    &&& new.slot_0.sqrt_price_x96 == old.slot_0.sqrt_price_x96
    &&& new.slot_0.tick == old.slot_0.tick
    &&& new.slot_0.unlocked == old.slot_0.unlocked
    &&& new.fee_growth_global_0x128 == old.fee_growth_global_0x128
    &&& new.fee_growth_global_1x128 == old.fee_growth_global_1x128
}

/// The payment for one token is in: nothing was owed, or the balance grew by
/// at least the amount owed. Fails where the expected balance overflows or
/// the payment falls short.
pub fn check_payment(owed: u128, balance_before: u128, balance_after: u128, overflow: PoolError, short: PoolError) -> (r: Result<(), PoolError>)
    ensures
        owed == 0 ==> r.is_ok(),
        owed > 0 && balance_before + owed > u128::MAX ==> r == Err::<(), PoolError>(overflow),
        owed > 0 && balance_before + owed <= u128::MAX ==> (r.is_ok() <==> balance_before + owed <= balance_after),
        owed > 0 && balance_before + owed <= u128::MAX && balance_before + owed > balance_after ==> r == Err::<(), PoolError>(short),
{
    if owed == 0 {
        return Ok(());
    }
    match balance_before.checked_add(owed) {
        None => Err(overflow),
        Some(expected) => {
            if expected > balance_after {
                Err(short)
            } else {
                Ok(())
            }
        },
    }
}

impl Pool {
    /// Starts a mint of `amount` liquidity for `recipient` on
    /// `[tick_lower, tick_upper]` at time `time`: checks that it can be done,
    /// returns the token amounts to be paid in and locks the pool until
    /// `complete_mint`, writing nothing else. On any error nothing changes.
    pub fn mint(
        &mut self,
        recipient: AccountId,
        tick_lower: i32,
        tick_upper: i32,
        amount: u128,
        time: u32,
    ) -> (r: Result<(u128, u128), PoolError>)
        requires
            old(self).wf(),
        ensures
            final(self).wf(),
            r is Err ==> *final(self) == *old(self),
            amount == 0 ==> r == Err::<(u128, u128), PoolError>(PoolError::ZeroAmmount),
            amount != 0 && !old(self).slot_0.unlocked ==> r == Err::<(u128, u128), PoolError>(PoolError::PoolIsLocked),
            old(self).slot_0.unlocked && 0 < amount <= i128::MAX && !old(self).ticks_ok(tick_lower as int, tick_upper as int) ==> r
                == Err::<(u128, u128), PoolError>(PoolError::TickError),
            r.is_ok() <==> old(self).slot_0.unlocked && 0 < amount <= i128::MAX && old(self).modify_ok(
                PositionKey { owner: recipient, tick_lower, tick_upper },
                amount as int,
            ),
            r matches Ok((a0, a1)) ==> {
                &&& (a0 as nat, a1 as nat) == range_amounts(
                    old(self).slot_0.sqrt_price_x96@,
                    old(self).slot_0.tick as int,
                    tick_lower as int,
                    tick_upper as int,
                    amount as int,
                )
                &&& *final(self) == (Pool {
                    slot_0: Slot { unlocked: false, ..old(self).slot_0 },
                    pending_mint: Some(
                        PendingMint { recipient, tick_lower, tick_upper, amount, time, amount0: a0, amount1: a1 },
                    ),
                    ..*old(self)
                })
            },
    {
        if amount == 0 {
            return Err(PoolError::ZeroAmmount);
        }
        if !self.slot_0.unlocked {
            return Err(PoolError::PoolIsLocked);
        }
        if amount > i128::MAX as u128 {
            return Err(PoolError::Helper(LiquidityHelperError::LiquidityOverflow));
        }
        if !self.check_ticks(tick_lower, tick_upper) {
            return Err(PoolError::TickError);
        }
        let key = PositionKey { owner: recipient, tick_lower, tick_upper };
        let plan = match self.plan_modify(&key, amount as i128, time) {
            Ok(p) => p,
            Err(e) => {
                return Err(e);
            },
        };
        self.slot_0.unlocked = false;
        self.pending_mint = Some(
            PendingMint { recipient, tick_lower, tick_upper, amount, time, amount0: plan.amount0, amount1: plan.amount1 },
        );
        Ok((plan.amount0, plan.amount1))
    }

    /// Ends the pending mint: checks, from the pool's balances taken before
    /// and after the payer's callback, that its amounts were paid in, and only
    /// then adds its liquidity (as `_modify_position` does). The lock is
    /// released and the mint is no longer pending, whatever the outcome; an
    /// unpaid mint leaves nothing behind.
    pub fn complete_mint(
        &mut self,
        balance0_before: u128,
        balance1_before: u128,
        balance0_after: u128,
        balance1_after: u128,
    ) -> (r: Result<(u128, u128), PoolError>)
        requires
            old(self).wf(),
        ensures
            final(self).wf(),
            old(self).pending_mint is None ==> r == Err::<(u128, u128), PoolError>(PoolError::NoPendingMint),
            old(self).pending_mint is None ==> *final(self) == *old(self),
            old(self).pending_mint matches Some(m) ==> {
                &&& r.is_ok() <==> (m.amount0 == 0 || balance0_before + m.amount0 <= balance0_after) && (m.amount1 == 0
                    || balance1_before + m.amount1 <= balance1_after)
                &&& r matches Ok((a0, a1)) ==> a0 == m.amount0 && a1 == m.amount1 && minted(
                    *old(self),
                    *final(self),
                    m.recipient,
                    m.tick_lower,
                    m.tick_upper,
                    m.amount,
                    m.time,
                    a0,
                    a1,
                )
                &&& r is Err ==> *final(self) == (Pool {
                    slot_0: Slot { unlocked: true, ..old(self).slot_0 },
                    pending_mint: None,
                    ..*old(self)
                })
            },
    {
        let m = match self.pending_mint {
            None => {
                return Err(PoolError::NoPendingMint);
            },
            Some(m) => m,
        };
        self.pending_mint = None;
        self.slot_0.unlocked = true;
        match check_payment(m.amount0, balance0_before, balance0_after, PoolError::AddOverflowBalance0, PoolError::M0) {
            Ok(()) => {},
            Err(e) => {
                return Err(e);
            },
        }
        match check_payment(m.amount1, balance1_before, balance1_after, PoolError::AddOverflowBalance1, PoolError::M1) {
            Ok(()) => {},
            Err(e) => {
                return Err(e);
            },
        }
        match self._modify_position(m.recipient, m.tick_lower, m.tick_upper, m.amount as i128, m.time) {
            Ok((_, a0, a1)) => Ok((a0, a1)),
            Err(e) => Err(e),
        }
    }

    /// Removes `amount` liquidity from the position of `owner` on
    /// `[tick_lower, tick_upper]` at time `time`: the tokens it was worth
    /// (rounded down) are added to what the position is owed, and returned.
    /// Fails where liquidity is to be removed but is worth no token. On any
    /// error nothing changes.
    pub fn burn(
        &mut self,
        owner: AccountId,
        tick_lower: i32,
        tick_upper: i32,
        amount: u128,
        time: u32,
    ) -> (r: Result<(Balance, Balance), PoolError>)
        requires
            old(self).wf(),
        ensures
            final(self).wf(),
            r is Err ==> *final(self) == *old(self),
            !old(self).slot_0.unlocked ==> r == Err::<(Balance, Balance), PoolError>(PoolError::PoolIsLocked),
            old(self).slot_0.unlocked && amount <= i128::MAX && !old(self).ticks_ok(tick_lower as int, tick_upper as int) ==> r
                == Err::<(Balance, Balance), PoolError>(PoolError::TickError),
            old(self).slot_0.unlocked && 0 < amount <= i128::MAX && old(self).ticks_ok(tick_lower as int, tick_upper as int)
                && range_amounts(
                old(self).slot_0.sqrt_price_x96@,
                old(self).slot_0.tick as int,
                tick_lower as int,
                tick_upper as int,
                -amount,
            ) == (0nat, 0nat) ==> r == Err::<(Balance, Balance), PoolError>(PoolError::BurningInsuficientBalance),
            r.is_ok() <==> old(self).slot_0.unlocked && amount <= i128::MAX && old(self).modify_ok(
                PositionKey { owner, tick_lower, tick_upper },
                -amount,
            ) && !(amount > 0 && range_amounts(
                old(self).slot_0.sqrt_price_x96@,
                old(self).slot_0.tick as int,
                tick_lower as int,
                tick_upper as int,
                -amount,
            ) == (0nat, 0nat)),
            r matches Ok((a0, a1)) ==> burned(*old(self), *final(self), owner, tick_lower, tick_upper, amount, time, a0, a1),
    {
        if !self.slot_0.unlocked {
            return Err(PoolError::PoolIsLocked);
        }
        if amount > i128::MAX as u128 {
            return Err(PoolError::Helper(LiquidityHelperError::LiquidityOverflow));
        }
        let delta: i128 = -(amount as i128);
        if !self.check_ticks(tick_lower, tick_upper) {
            return Err(PoolError::TickError);
        }
        let (a0, a1) = match self.amounts_for(tick_lower, tick_upper, delta) {
            Ok(v) => v,
            Err(e) => {
                return Err(e);
            },
        };
        if amount > 0 && a0 == 0 && a1 == 0 {
            return Err(PoolError::BurningInsuficientBalance);
        }
        let (p, _, _) = match self._modify_position(owner, tick_lower, tick_upper, delta, time) {
            Ok(v) => v,
            Err(e) => {
                return Err(e);
            },
        };
        let key = PositionKey { owner, tick_lower, tick_upper };
        self.credit_owed(&key, &p, a0, a1);
        Ok((a0, a1))
    }

    fn credit_owed(&mut self, key: &PositionKey, p: &PositionInfo, a0: u128, a1: u128)
        requires
            old(self).wf(),
            old(self).pending_mint is None,
        ensures
            final(self).wf(),
            final(self).ticks == old(self).ticks,
            final(self).tick_bitmap == old(self).tick_bitmap,
            final(self).pending_mint is None,
            final(self).positions.info(*key) == (PositionInfo {
                tokens_owed_0: ((p.tokens_owed_0 + a0) % (b128() as int)) as u128,
                tokens_owed_1: ((p.tokens_owed_1 + a1) % (b128() as int)) as u128,
                ..*p
            }),
            forall|k: PositionKey| k != *key ==> final(self).positions.info(k) == old(self).positions.info(k),
            final(self).slot_0 == old(self).slot_0,
            final(self).liquidity == old(self).liquidity,
            final(self).fee_growth_global_0x128 == old(self).fee_growth_global_0x128,
            final(self).fee_growth_global_1x128 == old(self).fee_growth_global_1x128,
    {
        let owed = PositionInfo {
            tokens_owed_0: crate::position::wrapping_add_128(p.tokens_owed_0, a0),
            tokens_owed_1: crate::position::wrapping_add_128(p.tokens_owed_1, a1),
            ..*p
        };
        self.positions.set(key, owed);
    }

    /// Pays out of what the position of `owner` on `[tick_lower, tick_upper]`
    /// is owed at most the amounts requested, and returns what is paid. The
    /// position's record stays, even when emptied.
    pub fn collect(
        &mut self,
        owner: AccountId,
        tick_lower: i32,
        tick_upper: i32,
        amount0_requested: Balance,
        amount1_requested: Balance,
    ) -> (r: Result<(Balance, Balance), PoolError>)
        requires
            old(self).wf(),
        ensures
            final(self).wf(),
            r is Err ==> *final(self) == *old(self),
            r.is_ok() <==> old(self).slot_0.unlocked,
            r is Err ==> r == Err::<(Balance, Balance), PoolError>(PoolError::PoolIsLocked),
            r matches Ok((a0, a1)) ==> {
                let key = PositionKey { owner, tick_lower, tick_upper };
                let p = old(self).positions.info(key);
                &&& a0 == if amount0_requested > p.tokens_owed_0 { p.tokens_owed_0 } else { amount0_requested }
                &&& a1 == if amount1_requested > p.tokens_owed_1 { p.tokens_owed_1 } else { amount1_requested }
                &&& final(self).positions.info(key) == (PositionInfo {
                    tokens_owed_0: (p.tokens_owed_0 - a0) as u128,
                    tokens_owed_1: (p.tokens_owed_1 - a1) as u128,
                    ..p
                })
                &&& final(self).positions.has(key) == old(self).positions.has(key)
                &&& amount0_requested >= p.tokens_owed_0 && amount1_requested >= p.tokens_owed_1 ==> {
                    &&& a0 == p.tokens_owed_0 && a1 == p.tokens_owed_1
                    &&& final(self).positions.info(key).tokens_owed_0 == 0
                    &&& final(self).positions.info(key).tokens_owed_1 == 0
                }
                &&& forall|k: PositionKey| k != key ==> final(self).positions.info(k) == old(self).positions.info(k)
                &&& final(self).slot_0 == old(self).slot_0
                &&& final(self).liquidity == old(self).liquidity
                &&& final(self).ticks == old(self).ticks
                &&& final(self).tick_bitmap == old(self).tick_bitmap
            },
    {
        if !self.slot_0.unlocked {
            return Err(PoolError::PoolIsLocked);
        }
        let key = PositionKey { owner, tick_lower, tick_upper };
        match self.positions.get(&key) {
            None => Ok((0, 0)),
            Some(p) => {
                let a0 = if amount0_requested > p.tokens_owed_0 { p.tokens_owed_0 } else { amount0_requested };
                let a1 = if amount1_requested > p.tokens_owed_1 { p.tokens_owed_1 } else { amount1_requested };
                let np = PositionInfo { tokens_owed_0: p.tokens_owed_0 - a0, tokens_owed_1: p.tokens_owed_1 - a1, ..p };
                self.positions.set(&key, np);
                Ok((a0, a1))
            },
        }
    }
}

/// Minting `amount` liquidity on a range (committed by `complete_mint`) and
/// then burning `amount` on the same range leaves the position's liquidity,
/// the in-range liquidity and the records of both bound ticks where they were
/// before the mint, and the tokens the burn credits to the position's owed
/// balances (beyond the fees credited by the two updates) never exceed what
/// the mint asked to be paid in.
pub proof fn lemma_mint_burn_symmetry(
    before: Pool,
    between: Pool,
    after: Pool,
    owner: AccountId,
    tick_lower: i32,
    tick_upper: i32,
    amount: u128,
    t1: u32,
    t2: u32,
    m0: u128,
    m1: u128,
    b0: u128,
    b1: u128,
)
    requires
        before.wf(),
        before.is_initialized(),
        minted(before, between, owner, tick_lower, tick_upper, amount, t1, m0, m1),
        burned(between, after, owner, tick_lower, tick_upper, amount, t2, b0, b1),
    ensures
        after.ticks.info(tick_lower as int) == before.ticks.info(tick_lower as int),
        after.ticks.info(tick_upper as int) == before.ticks.info(tick_upper as int),
        after.liquidity == before.liquidity,
        after.positions.info(PositionKey { owner, tick_lower, tick_upper }).liquidity == before.positions.info(
            PositionKey { owner, tick_lower, tick_upper },
        ).liquidity,
        b0 <= m0,
        b1 <= m1,
{
    let lo = tick_lower as int;
    let hi = tick_upper as int;
    let t = before.slot_0.tick as int;
    let price = before.slot_0.sqrt_price_x96@;
    before.ticks.lemma_info_kept(lo);
    before.ticks.lemma_info_kept(hi);
    lemma_sqrt_ratio_bounds(lo);
    lemma_sqrt_ratio_bounds(hi);
    lemma_sqrt_ratio_strictly_increasing(lo, hi);
    if t < lo {
        crate::swap_math::lemma_round_down_le_up(sqrt_ratio(lo), sqrt_ratio(hi), amount as nat);
    } else if t < hi {
        if lo < t {
            lemma_sqrt_ratio_strictly_increasing(lo, t);
        }
        if t + 1 < hi {
            lemma_sqrt_ratio_strictly_increasing(t + 1, hi);
        }
        crate::swap_math::lemma_round_down_le_up(price, sqrt_ratio(hi), amount as nat);
        crate::swap_math::lemma_round_down_le_up(sqrt_ratio(lo), price, amount as nat);
    } else {
        crate::swap_math::lemma_round_down_le_up(sqrt_ratio(lo), sqrt_ratio(hi), amount as nat);
    }
}

/// In every state the pool can be in, the net liquidity of all ticks kept
/// sums to zero, and every tick kept is initialized.
pub proof fn lemma_liquidity_net_balanced(p: Pool)
    requires
        p.wf(),
    ensures
        p.ticks.total_net() == 0,
        forall|i: int| 0 <= i < p.ticks.entries@.len() ==> #[trigger] p.ticks.entries@[i].1.initialized
            && p.ticks.entries@[i].1.liquidity_gross > 0,
{
    assert forall|i: int| 0 <= i < p.ticks.entries@.len() implies #[trigger] p.ticks.entries@[i].1.initialized
        && p.ticks.entries@[i].1.liquidity_gross > 0 by {
        assert(p.ticks.entries@[i].1.liquidity_gross > 0);
    }
}

/// What `collect_protocol` pays out of an accrued protocol fee `accrued`
/// when `requested` is asked for: at most the request, and one unit less
/// where that would empty the balance.
pub open spec fn protocol_payout(requested: u128, accrued: u128) -> u128 {
    let a = if requested > accrued { accrued } else { requested };
    if a > 0 && a == accrued {
        (a - 1) as u128
    } else {
        a
    }
}

fn protocol_payout_exec(requested: u128, accrued: u128) -> (r: u128)
    ensures
        r == protocol_payout(requested, accrued),
        r <= accrued,
        accrued > 0 ==> r < accrued,
{
    let a = if requested > accrued { accrued } else { requested };
    if a > 0 && a == accrued {
        a - 1
    } else {
        a
    }
}

/// A protocol fee denominator is off (zero) or between 4 and 10.
pub open spec fn fee_protocol_ok(f: u8) -> bool {
    f == 0 || (4 <= f <= 10)
}

impl Pool {
    /// Pays out of the accrued protocol fees at most the amounts requested,
    /// leaving at least one unit of a non-empty balance behind, and returns
    /// what is paid.
    pub fn collect_protocol(
        &mut self,
        sender: AccountId,
        recipient: AccountId,
        amount0_requested: Balance,
        amount1_requested: Balance,
    ) -> (r: Result<(Balance, Balance), PoolError>)
        requires
            old(self).wf(),
        ensures
            final(self).wf(),
            r.is_ok() <==> old(self).slot_0.unlocked,
            r is Err ==> *final(self) == *old(self) && r == Err::<(Balance, Balance), PoolError>(PoolError::PoolIsLocked),
            r matches Ok((a0, a1)) ==> {
                &&& a0 == protocol_payout(amount0_requested, old(self).fee0)
                &&& a1 == protocol_payout(amount1_requested, old(self).fee1)
                &&& *final(self) == (Pool { fee0: (old(self).fee0 - a0) as u128, fee1: (old(self).fee1 - a1) as u128, ..*old(self) })
            },
    {
        if !self.slot_0.unlocked {
            return Err(PoolError::PoolIsLocked);
        }
        let a0 = protocol_payout_exec(amount0_requested, self.fee0);
        let a1 = protocol_payout_exec(amount1_requested, self.fee1);
        self.fee0 = self.fee0 - a0;
        self.fee1 = self.fee1 - a1;
        Ok((a0, a1))
    }

    /// The protocol fees accrued in token0 and token1.
    pub fn protocol_fees(&self) -> (r: Result<(Balance, Balance), PoolError>)
        ensures
            r == Ok::<(Balance, Balance), PoolError>((self.fee0, self.fee1)),
    {
        Ok((self.fee0, self.fee1))
    }

    /// Sets the protocol fee denominators of both tokens; each must be off
    /// (zero) or between 4 and 10.
    pub fn set_fee_protocol(&mut self, fee_protocol0: u8, fee_protocol1: u8) -> (r: Result<(), PoolError>)
        requires
            old(self).wf(),
        ensures
            final(self).wf(),
            r.is_ok() <==> old(self).slot_0.unlocked && fee_protocol_ok(fee_protocol0) && fee_protocol_ok(fee_protocol1),
            r is Err ==> *final(self) == *old(self),
            !old(self).slot_0.unlocked ==> r == Err::<(), PoolError>(PoolError::PoolIsLocked),
            r.is_ok() ==> *final(self) == (Pool {
                slot_0: Slot { fee_protocol: (fee_protocol0 + 16 * fee_protocol1) as u8, ..old(self).slot_0 },
                ..*old(self)
            }),
    {
        if !self.slot_0.unlocked {
            return Err(PoolError::PoolIsLocked);
        }
        let ok0 = fee_protocol0 == 0 || (fee_protocol0 >= 4 && fee_protocol0 <= 10);
        let ok1 = fee_protocol1 == 0 || (fee_protocol1 >= 4 && fee_protocol1 <= 10);
        if !ok0 || !ok1 {
            return Err(PoolError::InvalidFeeProtocol);
        }
        self.slot_0.fee_protocol = fee_protocol0 + 16 * fee_protocol1;
        Ok(())
    }

    /// Raises the number of observations the oracle keeps, taking effect when
    /// the buffer next wraps.
    pub fn increase_observation_cardinality_next(&mut self, next: u16) -> (r: Result<(), PoolError>)
        requires
            old(self).wf(),
        ensures
            final(self).wf(),
            r.is_ok() <==> old(self).slot_0.unlocked,
            r is Err ==> *final(self) == *old(self),
            r.is_ok() ==> final(self).slot_0.observation_cardinality_next == if next
                <= old(self).slot_0.observation_cardinality_next {
                old(self).slot_0.observation_cardinality_next
            } else {
                next
            },
    {
        if !self.slot_0.unlocked {
            return Err(PoolError::PoolIsLocked);
        }
        let current = self.slot_0.observation_cardinality_next;
        let grown = crate::oracle::grow(&mut self.observations, current, next);
        self.slot_0.observation_cardinality_next = grown;
        Ok(())
    }

    pub fn get_token_0(&self) -> (r: AccountId)
        ensures
            r == self.token_0,
    {
        self.token_0
    }

    pub fn get_token_1(&self) -> (r: AccountId)
        ensures
            r == self.token_1,
    {
        self.token_1
    }

    pub fn get_fee(&self) -> (r: u32)
        ensures
            r == self.fee,
    {
        self.fee
    }

    pub fn get_tick_spacing(&self) -> (r: i32)
        ensures
            r == self.tick_spacing,
    {
        self.tick_spacing
    }

    pub fn get_max_liquidity_per_tick(&self) -> (r: u128)
        ensures
            r == self.max_liquidity_per_tick,
    {
        self.max_liquidity_per_tick
    }

    pub fn get_slot_0(&self) -> (r: Slot)
        ensures
            r == self.slot_0,
    {
        self.slot_0
    }

    pub fn get_fee_growth_global_0x128(&self) -> (r: Uint256)
        ensures
            r == self.fee_growth_global_0x128,
    {
        self.fee_growth_global_0x128
    }

    pub fn get_fee_growth_global_1x128(&self) -> (r: Uint256)
        ensures
            r == self.fee_growth_global_1x128,
    {
        self.fee_growth_global_1x128
    }

    pub fn get_liquidity(&self) -> (r: u128)
        ensures
            r == self.liquidity,
    {
        self.liquidity
    }

    /// The record of tick `tick` (the empty record where none is kept).
    pub fn get_tick(&self, tick: i32) -> (r: TickInfo)
        requires
            self.wf(),
        ensures
            r == self.ticks.info(tick as int),
    {
        self.ticks.get(tick)
    }

    /// The bitmap word at position `entry`, where one is kept.
    pub fn get_tick_bitmap(&self, entry: i32) -> (r: Option<crate::tick_bitmap::BitmapWord>)
        requires
            self.wf(),
        ensures
            r == crate::tick_bitmap::word_at(self.tick_bitmap.words@, entry as int),
    {
        self.tick_bitmap.word_at_exec(entry)
    }

    /// The position of `owner` on `[tick_lower, tick_upper]`, where one is kept.
    pub fn get_position(&self, owner: AccountId, tick_lower: i32, tick_upper: i32) -> (r: Option<PositionInfo>)
        requires
            self.wf(),
        ensures
            r == crate::position::position_lookup(self.positions.entries@, PositionKey { owner, tick_lower, tick_upper }),
    {
        self.positions.get(&PositionKey { owner, tick_lower, tick_upper })
    }

    /// Whether `[tick_lower, tick_upper]` is a usable range for this pool.
    pub fn _check_ticks(&self, tick_lower: i32, tick_upper: i32) -> (r: bool)
        requires
            self.wf(),
        ensures
            r == self.ticks_ok(tick_lower as int, tick_upper as int),
    {
        self.check_ticks(tick_lower, tick_upper)
    }
}

} // verus!
