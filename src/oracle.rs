//! The price oracle: a ring buffer of observations of the cumulative tick and
//! cumulative seconds per unit of liquidity, with interpolated lookups.
use vstd::prelude::*;
use crate::error::LiquidityHelperError;
use crate::wide::{b128, mul_div_256, wrap256, Uint256};

verus! {

/// One entry of the ring buffer.
#[derive(Clone, Copy, Debug, PartialEq, Eq, Structural)]
pub struct Observation {
    /// When the observation was taken.
    pub block_timestamp: u32,
    /// Sum of the tick over every second since the pool was initialized.
    pub tick_cumulative: i64,
    /// Sum of `2^128 / max(1, liquidity)` over every second since then.
    pub seconds_per_liquidity_cumulative_x128: Uint256,
    pub initialized: bool,
}

/// `last` carried forward to `time` at tick `tick` and liquidity `liquidity`.
pub open spec fn transform(last: Observation, time: u32, tick: i32, liquidity: u128) -> Observation {
    let delta = time.wrapping_sub(last.block_timestamp);
    let l = if liquidity > 0 { liquidity as nat } else { 1nat };
    Observation {
        block_timestamp: time,
        tick_cumulative: last.tick_cumulative.wrapping_add((tick as i64 * delta as i64) as i64),
        seconds_per_liquidity_cumulative_x128: Uint256::from_nat(
            wrap256((last.seconds_per_liquidity_cumulative_x128@ + delta as nat * b128() / l) as int),
        ),
        initialized: true,
    }
}

fn transform_exec(last: &Observation, time: u32, tick: i32, liquidity: u128) -> (r: Observation)
    ensures
        r == transform(*last, time, tick, liquidity),
{
    let delta = time.wrapping_sub(last.block_timestamp);
    proof {
        assert(i64::MIN <= tick as i64 * delta as i64 <= i64::MAX) by (nonlinear_arith)
            requires
                i32::MIN <= tick <= i32::MAX,
                0 <= delta <= u32::MAX,
        ;
    }
    let product: i64 = tick as i64 * delta as i64;
    let l: u128 = if liquidity > 0 { liquidity } else { 1 };
    proof {
        assert(delta as nat * b128() / l as nat <= delta as nat * b128()) by {
            assert(delta as nat * b128() * 1 == delta as nat * b128());
            vstd::arithmetic::div_mod::lemma_div_is_ordered_by_denominator((delta as nat * b128()) as int, 1, l as int);
        }
        assert(delta as nat * b128() < crate::wide::b256()) by (nonlinear_arith)
            requires
                delta <= u32::MAX,
        ;
    }
    let grow = mul_div_256(&Uint256::from_u128(delta as u128), &Uint256 { hi: 1, lo: 0 }, &Uint256::from_u128(l)).unwrap();
    let spl = last.seconds_per_liquidity_cumulative_x128.wrapping_add(&grow);
    proof {
        Uint256::lemma_from_nat(spl);
    }
    Observation {
        block_timestamp: time,
        tick_cumulative: last.tick_cumulative.wrapping_add(product),
        seconds_per_liquidity_cumulative_x128: spl,
        initialized: true,
    }
}

/// A ring buffer of observations is usable with `index` and `cardinality`.
pub open spec fn buffer_ok(obs: Seq<Observation>, index: int, cardinality: int) -> bool {
    0 <= index < cardinality <= obs.len() && cardinality <= u16::MAX
}

/// A buffer holding one observation, taken at `time`.
pub fn initialize(time: u32) -> (r: (Vec<Observation>, u16, u16))
    ensures
        r.0@ == seq![Observation { block_timestamp: time, tick_cumulative: 0, seconds_per_liquidity_cumulative_x128: Uint256 { hi: 0, lo: 0 }, initialized: true }],
        r.1 == 1,
        r.2 == 1,
{
    let mut v = Vec::new();
    v.push(
        Observation {
            block_timestamp: time,
            tick_cumulative: 0,
            seconds_per_liquidity_cumulative_x128: Uint256::zero(),
            initialized: true,
        },
    );
    (v, 1, 1)
}

/// Makes room for `next` observations; slots added are marked as taken at
/// time 1, so that they count as written but uninitialized.
pub fn grow(obs: &mut Vec<Observation>, current: u16, next: u16) -> (r: u16)
    requires
        0 < current as int <= old(obs)@.len(),
    ensures
        r == if next <= current { current } else { next },
        final(obs)@.len() >= r,
        forall|i: int| 0 <= i < current ==> final(obs)@[i] == old(obs)@[i],
{
    if next <= current {
        return current;
    }
    let mut i: usize = obs.len();
    while i < next as usize
        invariant
            obs@.len() == i || (i < obs@.len()),
            forall|j: int| 0 <= j < current ==> obs@[j] == old(obs)@[j],
            current as int <= old(obs)@.len(),
            i >= old(obs)@.len(),
            obs@.len() >= i,
        decreases next as int - i,
    {
        obs.push(
            Observation {
                block_timestamp: 1,
                tick_cumulative: 0,
                seconds_per_liquidity_cumulative_x128: Uint256::zero(),
                initialized: false,
            },
        );
        i = i + 1;
    }
    next
}

/// Records an observation at `time`, unless one was taken at that time
/// already; returns the new index and cardinality. The cardinality grows to
/// `cardinality_next` when the buffer's last slot is the one written after.
pub fn write(
    obs: &mut Vec<Observation>,
    index: u16,
    time: u32,
    tick: i32,
    liquidity: u128,
    cardinality: u16,
    cardinality_next: u16,
) -> (r: (u16, u16))
    requires
        buffer_ok(old(obs)@, index as int, cardinality as int),
        cardinality_next as int <= old(obs)@.len(),
    ensures
        final(obs)@.len() == old(obs)@.len(),
        old(obs)@[index as int].block_timestamp == time ==> r == (index, cardinality) && final(obs)@ == old(obs)@,
        old(obs)@[index as int].block_timestamp != time ==> {
            let c = if cardinality_next > cardinality && index == cardinality - 1 {
                cardinality_next
            } else {
                cardinality
            };
            &&& r.1 == c
            &&& r.0 == (index + 1) % (c as int)
            &&& final(obs)@ == old(obs)@.update(r.0 as int, transform(old(obs)@[index as int], time, tick, liquidity))
        },
        buffer_ok(final(obs)@, r.0 as int, r.1 as int),
{
    let last = obs[index as usize];
    if last.block_timestamp == time {
        return (index, cardinality);
    }
    let c: u16 = if cardinality_next > cardinality && index == cardinality - 1 {
        cardinality_next
    } else {
        cardinality
    };
    let next_index: u16 = ((index as u32 + 1) % (c as u32)) as u16;
    let o = transform_exec(&last, time, tick, liquidity);
    obs.set(next_index as usize, o);
    (next_index, c)
}

/// `a <= b` for timestamps at or before `time`, where either may have
/// wrapped around 2^32 once.
pub open spec fn ts_lte(time: u32, a: u32, b: u32) -> bool {
    let aa = if a <= time { a as int + 0x1_0000_0000 } else { a as int };
    let bb = if b <= time { b as int + 0x1_0000_0000 } else { b as int };
    if a <= time && b <= time {
        a <= b
    } else {
        aa <= bb
    }
}

fn lte(time: u32, a: u32, b: u32) -> (r: bool)
    ensures
        r == ts_lte(time, a, b),
{
    if a <= time && b <= time {
        return a <= b;
    }
    let aa: u64 = if a > time { a as u64 } else { a as u64 + 0x1_0000_0000 };
    let bb: u64 = if b > time { b as u64 } else { b as u64 + 0x1_0000_0000 };
    aa <= bb
}

/// `x / d` rounded towards zero.
pub open spec fn trunc_div(x: int, d: int) -> int {
    if x >= 0 {
        x / d
    } else {
        -((-x) / d)
    }
}

/// The values at `target` between two observations `b` and `a` that surround
/// it, interpolated linearly.
pub open spec fn interpolate(b: Observation, a: Observation, target: u32) -> (i64, Uint256) {
    if target == b.block_timestamp {
        (b.tick_cumulative, b.seconds_per_liquidity_cumulative_x128)
    } else if target == a.block_timestamp {
        (a.tick_cumulative, a.seconds_per_liquidity_cumulative_x128)
    } else {
        let span = a.block_timestamp.wrapping_sub(b.block_timestamp);
        let part = target.wrapping_sub(b.block_timestamp);
        let tick_rate = trunc_div(a.tick_cumulative.wrapping_sub(b.tick_cumulative) as int, span as int) as i64;
        let spl_diff = wrap256(a.seconds_per_liquidity_cumulative_x128@ - b.seconds_per_liquidity_cumulative_x128@);
        (
            b.tick_cumulative.wrapping_add(tick_rate.wrapping_mul(part as i64)),
            Uint256::from_nat(
                wrap256((b.seconds_per_liquidity_cumulative_x128@ + spl_diff * part as nat / span as nat) as int),
            ),
        )
    }
}

fn interpolate_exec(b: &Observation, a: &Observation, target: u32) -> (r: Option<(i64, Uint256)>)
    ensures
        r.is_some() ==> r.unwrap() == interpolate(*b, *a, target),
        r.is_none() <==> target != b.block_timestamp && target != a.block_timestamp && {
            let span = a.block_timestamp.wrapping_sub(b.block_timestamp);
            let part = target.wrapping_sub(b.block_timestamp);
            let spl_diff = wrap256(a.seconds_per_liquidity_cumulative_x128@ - b.seconds_per_liquidity_cumulative_x128@);
            span == 0 || spl_diff * part as nat / span as nat >= crate::wide::b256()
        },
{
    if target == b.block_timestamp {
        return Some((b.tick_cumulative, b.seconds_per_liquidity_cumulative_x128));
    }
    if target == a.block_timestamp {
        return Some((a.tick_cumulative, a.seconds_per_liquidity_cumulative_x128));
    }
    let span = a.block_timestamp.wrapping_sub(b.block_timestamp);
    if span == 0 {
        return None;
    }
    let part = target.wrapping_sub(b.block_timestamp);
    let diff = a.tick_cumulative.wrapping_sub(b.tick_cumulative);
    let tick_rate: i64 = if diff >= 0 {
        diff / (span as i64)
    } else {
        (-((-(diff as i128)) / (span as i128))) as i64
    };
    let spl_diff = a.seconds_per_liquidity_cumulative_x128.wrapping_sub(&b.seconds_per_liquidity_cumulative_x128);
    let grown = match mul_div_256(&spl_diff, &Uint256::from_u128(part as u128), &Uint256::from_u128(span as u128)) {
        Some(g) => g,
        None => {
            return None;
        },
    };
    let spl = b.seconds_per_liquidity_cumulative_x128.wrapping_add(&grown);
    proof {
        Uint256::lemma_from_nat(spl);
    }
    Some((b.tick_cumulative.wrapping_add(tick_rate.wrapping_mul(part as i64)), spl))
}

/// `b` and `a` surround `target`: `b` at or before it, `a` at or after it.
pub open spec fn surrounds(time: u32, b: Observation, a: Observation, target: u32) -> bool {
    ts_lte(time, b.block_timestamp, target) && ts_lte(time, target, a.block_timestamp)
}

/// The latest observation, carried forward to `time` where it is older.
pub open spec fn latest(obs: Seq<Observation>, time: u32, tick: i32, index: int, liquidity: u128) -> Observation {
    if obs[index].block_timestamp == time {
        obs[index]
    } else {
        transform(obs[index], time, tick, liquidity)
    }
}

/// Two consecutive observations of the buffer.
pub open spec fn consecutive(obs: Seq<Observation>, cardinality: int, b: Observation, a: Observation) -> bool {
    exists|k: int| 0 <= k < cardinality && #[trigger] obs[k] == b && obs[(k + 1) % cardinality] == a
}

/// Where the oldest observation of the buffer is: the slot after the latest
/// where the buffer has wrapped, else the first slot.
pub open spec fn oldest_slot(obs: Seq<Observation>, index: int, cardinality: int) -> int {
    let k = (index + 1) % cardinality;
    if obs[k].initialized {
        k
    } else {
        0
    }
}

/// Slot `i` steps after slot `start` in ring order.
pub open spec fn ring_slot(start: int, i: int, cardinality: int) -> int {
    (start + i) % cardinality
}

proof fn lemma_ring_next(start: int, i: int, card: int)
    requires
        card > 0,
        start >= 0,
        i >= 0,
    ensures
        ring_slot(start, i + 1, card) == (ring_slot(start, i, card) + 1) % card,
        0 <= ring_slot(start, i, card) < card,
{
    vstd::arithmetic::div_mod::lemma_fundamental_div_mod(start + i, card);
    let q = (start + i) / card;
    let k = (start + i) % card;
    assert(start + i + 1 == card * q + (k + 1));
    vstd::arithmetic::div_mod::lemma_mod_multiples_vanish(q, k + 1, card);
    vstd::arithmetic::div_mod::lemma_mod_bound(start + i, card);
}

proof fn lemma_ring_reaches(start: int, target: int, card: int)
    requires
        0 <= start < card,
        0 <= target < card,
    ensures
        0 <= (target - start + card) % card < card,
        ring_slot(start, (target - start + card) % card, card) == target,
{
    let d = target - start + card;
    vstd::arithmetic::div_mod::lemma_fundamental_div_mod(d, card);
    vstd::arithmetic::div_mod::lemma_mod_bound(d, card);
    let i = d % card;
    if d >= card {
        vstd::arithmetic::div_mod::lemma_mod_multiples_vanish(1, target - start, card);
        vstd::arithmetic::div_mod::lemma_small_mod((target - start) as nat, card as nat);
        assert(i == target - start);
        vstd::arithmetic::div_mod::lemma_small_mod(target as nat, card as nat);
    } else {
        vstd::arithmetic::div_mod::lemma_small_mod(d as nat, card as nat);
        assert(i == d);
        assert(start + i == target + card);
        vstd::arithmetic::div_mod::lemma_mod_multiples_vanish(1, target, card);
        vstd::arithmetic::div_mod::lemma_small_mod(target as nat, card as nat);
    }
}

/// Walks the ring from the oldest observation (at or before `target`)
/// towards the latest (after `target`) and gives the first two consecutive
/// observations that surround `target`.
fn ring_search(obs: &Vec<Observation>, time: u32, target: u32, index: u16, cardinality: u16, start: u16) -> (r: (
    Observation,
    Observation,
))
    requires
        buffer_ok(obs@, index as int, cardinality as int),
        start < cardinality,
        ts_lte(time, obs@[start as int].block_timestamp, target),
        !ts_lte(time, obs@[index as int].block_timestamp, target),
    ensures
        ts_lte(time, r.0.block_timestamp, target),
        !ts_lte(time, r.1.block_timestamp, target),
        consecutive(obs@, cardinality as int, r.0, r.1),
{
    let card = cardinality as u32;
    let ghost reach = (index as int - start as int + card as int) % (card as int);
    proof {
        lemma_ring_reaches(start as int, index as int, card as int);
        vstd::arithmetic::div_mod::lemma_small_mod(start as nat, card as nat);
    }
    let mut i: u32 = 0;
    let mut pos: u32 = start as u32;
    while i < card
        invariant
            buffer_ok(obs@, index as int, cardinality as int),
            card == cardinality,
            start < card,
            i <= card,
            0 <= reach < card,
            ring_slot(start as int, reach, card as int) == index,
            pos as int == ring_slot(start as int, i as int, card as int),
            pos < card,
            forall|j: int| 0 <= j <= i && j < card ==> ts_lte(
                time,
                #[trigger] obs@[ring_slot(start as int, j, card as int)].block_timestamp,
                target,
            ),
            i <= reach,
            !ts_lte(time, obs@[index as int].block_timestamp, target),
        decreases card - i,
    {
        proof {
            lemma_ring_next(start as int, i as int, card as int);
            assert(ts_lte(time, obs@[ring_slot(start as int, i as int, card as int)].block_timestamp, target));
            assert(i as int != reach);
        }
        let next: u32 = (pos + 1) % card;
        if !lte(time, obs[next as usize].block_timestamp, target) {
            proof {
                assert(ts_lte(time, obs@[ring_slot(start as int, i as int, card as int)].block_timestamp, target));
                assert(obs@[pos as int] == obs[pos as int]);
            }
            return (obs[pos as usize], obs[next as usize]);
        }
        i = i + 1;
        pos = next;
    }
    proof {
        assert(ts_lte(time, obs@[ring_slot(start as int, reach, card as int)].block_timestamp, target));
    }
    (obs[pos as usize], obs[pos as usize])
}

/// The observations at or around `target`: the latest one (carried forward
/// to `target`) where `target` is not before it, else two consecutive
/// observations of the buffer; fails where `target` is before the oldest.
fn get_surrounding_observations(
    obs: &Vec<Observation>,
    time: u32,
    target: u32,
    tick: i32,
    index: u16,
    liquidity: u128,
    cardinality: u16,
) -> (r: Result<(Observation, Observation), LiquidityHelperError>)
    requires
        buffer_ok(obs@, index as int, cardinality as int),
    ensures
        ts_lte(time, obs@[index as int].block_timestamp, target) ==> r == Ok::<(Observation, Observation), LiquidityHelperError>((
            obs@[index as int],
            if obs@[index as int].block_timestamp == target {
                obs@[index as int]
            } else {
                transform(obs@[index as int], target, tick, liquidity)
            },
        )),
        !ts_lte(time, obs@[index as int].block_timestamp, target) ==> {
            &&& r.is_ok() <==> ts_lte(
                time,
                obs@[oldest_slot(obs@, index as int, cardinality as int)].block_timestamp,
                target,
            )
            &&& r matches Ok((b, a)) ==> ts_lte(time, b.block_timestamp, target) && !ts_lte(time, a.block_timestamp, target)
                && consecutive(obs@, cardinality as int, b, a)
        },
        r is Err ==> r == Err::<(Observation, Observation), LiquidityHelperError>(LiquidityHelperError::ObservationTooOld),
{
    let b = obs[index as usize];
    if lte(time, b.block_timestamp, target) {
        if b.block_timestamp == target {
            return Ok((b, b));
        } else {
            return Ok((b, transform_exec(&b, target, tick, liquidity)));
        }
    }
    let mut start: u16 = ((index as u32 + 1) % (cardinality as u32)) as u16;
    if !obs[start as usize].initialized {
        start = 0;
    }
    if !lte(time, obs[start as usize].block_timestamp, target) {
        return Err(LiquidityHelperError::ObservationTooOld);
    }
    Ok(ring_search(obs, time, target, index, cardinality, start))
}

/// `time`-relative position of a timestamp at or before `time`, where
/// timestamps after `time` are taken to be from before the last wrap.
pub open spec fn ts_rank(time: u32, x: u32) -> int {
    if x <= time {
        x as int + 0x1_0000_0000
    } else {
        x as int
    }
}

proof fn lemma_interpolation_fits(time: u32, b: Observation, a: Observation, target: u32)
    requires
        ts_lte(time, b.block_timestamp, target),
        !ts_lte(time, a.block_timestamp, target),
        target != b.block_timestamp,
    ensures
        target != a.block_timestamp,
        a.block_timestamp.wrapping_sub(b.block_timestamp) != 0,
        ({
            let span = a.block_timestamp.wrapping_sub(b.block_timestamp);
            let part = target.wrapping_sub(b.block_timestamp);
            let spl_diff = wrap256(a.seconds_per_liquidity_cumulative_x128@ - b.seconds_per_liquidity_cumulative_x128@);
            spl_diff * (part as nat) / (span as nat) < crate::wide::b256()
        }),
{
    let span = a.block_timestamp.wrapping_sub(b.block_timestamp);
    let part = target.wrapping_sub(b.block_timestamp);
    let spl_diff = wrap256(a.seconds_per_liquidity_cumulative_x128@ - b.seconds_per_liquidity_cumulative_x128@);
    assert(ts_rank(time, b.block_timestamp) < ts_rank(time, target) < ts_rank(time, a.block_timestamp));
    assert(span as int == ts_rank(time, a.block_timestamp) - ts_rank(time, b.block_timestamp));
    assert(part as int == ts_rank(time, target) - ts_rank(time, b.block_timestamp));
    assert(part < span);
    vstd::arithmetic::div_mod::lemma_mod_bound(a.seconds_per_liquidity_cumulative_x128@ as int
        - b.seconds_per_liquidity_cumulative_x128@ as int, crate::wide::b256() as int);
    assert(spl_diff * part as nat <= spl_diff * span as nat) by (nonlinear_arith)
        requires
            part < span,
    ;
    vstd::arithmetic::div_mod::lemma_div_is_ordered((spl_diff * part as nat) as int, (spl_diff * span as nat) as int, span as int);
    vstd::arithmetic::div_mod::lemma_div_multiples_vanish(spl_diff as int, span as int);
    assert(spl_diff * span as nat == span as nat * spl_diff) by (nonlinear_arith);
}

/// The cumulative tick and cumulative seconds per unit of liquidity as of
/// `seconds_ago` seconds before `time`: exact for the latest observation
/// carried forward, else interpolated between the observations around it.
pub fn observe_single(
    obs: &Vec<Observation>,
    time: u32,
    seconds_ago: u32,
    tick: i32,
    index: u16,
    liquidity: u128,
    cardinality: u16,
) -> (r: Result<(i64, Uint256), LiquidityHelperError>)
    requires
        buffer_ok(obs@, index as int, cardinality as int),
    ensures
        seconds_ago == 0 ==> r == Ok::<(i64, Uint256), LiquidityHelperError>((
            latest(obs@, time, tick, index as int, liquidity).tick_cumulative,
            latest(obs@, time, tick, index as int, liquidity).seconds_per_liquidity_cumulative_x128,
        )),
        seconds_ago != 0 ==> (r.is_ok() <==> (ts_lte(time, obs@[index as int].block_timestamp, time.wrapping_sub(seconds_ago))
            || ts_lte(
            time,
            obs@[oldest_slot(obs@, index as int, cardinality as int)].block_timestamp,
            time.wrapping_sub(seconds_ago),
        ))),
        r is Err ==> r == Err::<(i64, Uint256), LiquidityHelperError>(LiquidityHelperError::ObservationTooOld),
        seconds_ago != 0 ==> (r matches Ok(v) ==> {
            let target = time.wrapping_sub(seconds_ago);
            exists|b: Observation, a: Observation|
                #![trigger interpolate(b, a, target)]
                surrounds(time, b, a, target) && v == interpolate(b, a, target) && (consecutive(
                    obs@,
                    cardinality as int,
                    b,
                    a,
                ) || b == obs@[index as int])
        }),
{
    if seconds_ago == 0 {
        let mut last = obs[index as usize];
        if last.block_timestamp != time {
            last = transform_exec(&last, time, tick, liquidity);
        }
        return Ok((last.tick_cumulative, last.seconds_per_liquidity_cumulative_x128));
    }
    let target = time.wrapping_sub(seconds_ago);
    let (b, a) = match get_surrounding_observations(obs, time, target, tick, index, liquidity, cardinality) {
        Ok(p) => p,
        Err(e) => {
            return Err(e);
        },
    };
    proof {
        if !ts_lte(time, obs@[index as int].block_timestamp, target) && target != b.block_timestamp {
            lemma_interpolation_fits(time, b, a, target);
        }
    }
    match interpolate_exec(&b, &a, target) {
        Some(v) => {
            proof {
                assert(surrounds(time, b, a, target));
                assert(v == interpolate(b, a, target));
                assert(target == time.wrapping_sub(seconds_ago));
                assert(consecutive(obs@, cardinality as int, b, a) || b == obs@[index as int]);
                assert(exists|b2: Observation, a2: Observation|
                    #![trigger interpolate(b2, a2, target)]
                    surrounds(time, b2, a2, target) && v == interpolate(b2, a2, target) && (consecutive(
                        obs@,
                        cardinality as int,
                        b2,
                        a2,
                    ) || b2 == obs@[index as int]));
            }
            Ok(v)
        },
        None => Err(LiquidityHelperError::DivisionOverflow),
    }
}

} // verus!
