//! Token amounts between two prices, the price reached with a given amount,
//! and one step of a swap within a range of constant liquidity.
use vstd::prelude::*;
use crate::wide::{b128, b256, div_up, mul_div_256, mul_div_rounding_up, Uint256};

verus! {

/// 2^96: one in Q64.96.
#[verifier::inline]
pub open spec fn q96() -> nat {
    79228162514264337593543950336nat
}

/// Fee denominator: fees are in millionths.
pub const FEE_UNITS: u32 = 1_000_000;

/// 2^161, above every price.
#[verifier::inline]
pub open spec fn price_cap() -> nat {
    2923003274661805836407369665432566039311865085952nat
}

/// 2^224, above every amount between two prices.
#[verifier::inline]
pub open spec fn amount_cap() -> nat {
    26959946667150639794667015087019630673637144422540572481103610249216nat
}

/// A price the math accepts: positive and below `price_cap()`.
pub open spec fn is_price(p: nat) -> bool {
    0 < p < price_cap()
}

/// Token0 between prices `sa <= sb` for liquidity `l`:
/// `l * 2^96 * (sb - sa) / sb / sa`, rounded up or down at each division.
pub open spec fn amount0_delta(sa: nat, sb: nat, l: nat, up: bool) -> nat {
    let n = l * q96() * (sb - sa) as nat;
    if up {
        div_up(div_up(n, sb), sa)
    } else {
        n / sb / sa
    }
}

/// Token1 between prices `sa <= sb` for liquidity `l`: `l * (sb - sa) / 2^96`.
pub open spec fn amount1_delta(sa: nat, sb: nat, l: nat, up: bool) -> nat {
    let n = l * (sb - sa) as nat;
    if up {
        div_up(n, q96())
    } else {
        n / q96()
    }
}

/// The price after `a` of token0 is added to (or taken from) the pool at
/// price `p`, rounded up. Where `l * 2^96 + a * p` does not fit in 256 bits the
/// sum is formed from `l * 2^96 / p + a` instead.
pub open spec fn next_price_from_amount0(p: nat, l: nat, a: nat, add: bool) -> nat {
    let n = l * q96();
    if a == 0 {
        p
    } else if add {
        if a * p < b256() && n + a * p < b256() {
            div_up(n * p, n + a * p)
        } else {
            div_up(n, n / p + a)
        }
    } else {
        div_up(n * p, (n - a * p) as nat)
    }
}

/// The price after `a` of token1 is added to (or taken from) the pool at
/// price `p`, rounded down.
pub open spec fn next_price_from_amount1(p: nat, l: nat, a: nat, add: bool) -> nat {
    if add {
        p + a * q96() / l
    } else {
        (p - div_up(a * q96(), l)) as nat
    }
}

proof fn lemma_lt_div_up(y: nat, x: nat, d: nat)
    requires
        d > 0,
        y < div_up(x, d),
    ensures
        y * d < x,
{
    vstd::arithmetic::div_mod::lemma_fundamental_div_mod((x + d - 1) as int, d as int);
    let q = (x + d - 1) as int / d as int;
    let r = (x + d - 1) as int % d as int;
    assert(y * d < x) by (nonlinear_arith)
        requires
            x + d - 1 == d * q + r,
            0 <= r < d,
            y < q,
    ;
}

proof fn lemma_div_up_le(x: nat, d: nat, y: nat)
    requires
        d > 0,
        x <= y * d,
    ensures
        div_up(x, d) <= y,
{
    vstd::arithmetic::div_mod::lemma_fundamental_div_mod((x + d - 1) as int, d as int);
    let q = (x + d - 1) as int / d as int;
    let r = (x + d - 1) as int % d as int;
    assert(q <= y) by (nonlinear_arith)
        requires
            x + d - 1 == d * q + r,
            0 <= r < d,
            x <= y * d,
    ;
}

proof fn lemma_le_div(x: nat, d: nat, y: nat)
    requires
        d > 0,
        y * d <= x,
    ensures
        y <= x / d,
        y <= div_up(x, d),
{
    vstd::arithmetic::div_mod::lemma_fundamental_div_mod(x as int, d as int);
    vstd::arithmetic::div_mod::lemma_fundamental_div_mod((x + d - 1) as int, d as int);
    let q = x as int / d as int;
    let r = x as int % d as int;
    let q2 = (x + d - 1) as int / d as int;
    let r2 = (x + d - 1) as int % d as int;
    assert(y <= q && y <= q2) by (nonlinear_arith)
        requires
            x == d * q + r,
            0 <= r < d,
            x + d - 1 == d * q2 + r2,
            0 <= r2 < d,
            y * d <= x,
    ;
}

proof fn lemma_gt_div_up(x: nat, d: nat, y: nat)
    requires
        d > 0,
        y * d < x,
    ensures
        y < div_up(x, d),
{
    vstd::arithmetic::div_mod::lemma_fundamental_div_mod((x + d - 1) as int, d as int);
    let q = (x + d - 1) as int / d as int;
    let r = (x + d - 1) as int % d as int;
    assert(y < q) by (nonlinear_arith)
        requires
            x + d - 1 == d * q + r,
            0 <= r < d,
            y * d < x,
    ;
}

proof fn lemma_lt_div(x: nat, d: nat, y: nat)
    requires
        d > 0,
        y < x / d,
    ensures
        (y + 1) * d <= x,
{
    vstd::arithmetic::div_mod::lemma_fundamental_div_mod(x as int, d as int);
    let q = x as int / d as int;
    let r = x as int % d as int;
    assert((y + 1) * d <= x) by (nonlinear_arith)
        requires
            x == d * q + r,
            0 <= r < d,
            y < q,
    ;
}

proof fn lemma_le_floor(z: nat, x: nat, d: nat)
    requires
        d > 0,
        z <= x / d,
    ensures
        z * d <= x,
{
    vstd::arithmetic::div_mod::lemma_fundamental_div_mod(x as int, d as int);
    let q = x as int / d as int;
    let r = x as int % d as int;
    assert(z * d <= x) by (nonlinear_arith)
        requires
            x == d * q + r,
            0 <= r < d,
            z <= q,
    ;
}

proof fn lemma_div_lt(x: nat, d: nat, y: nat)
    requires
        d > 0,
        x < y * d,
    ensures
        x / d < y,
{
    vstd::arithmetic::div_mod::lemma_fundamental_div_mod(x as int, d as int);
    let q = x as int / d as int;
    let r = x as int % d as int;
    assert(q < y) by (nonlinear_arith)
        requires
            x == d * q + r,
            0 <= r < d,
            x < y * d,
    ;
}

/// `n * k / m <= n` and likewise rounded up, for `k <= m`.
proof fn lemma_scaled_le(n: nat, k: nat, m: nat)
    requires
        0 < m,
        k <= m,
    ensures
        n * k / m <= n,
        div_up(n * k, m) <= n,
{
    assert(n * k <= n * m) by (nonlinear_arith)
        requires
            k <= m,
    ;
    lemma_div_up_le(n * k, m, n);
    assert(n * k / m <= div_up(n * k, m)) by {
        vstd::arithmetic::div_mod::lemma_fundamental_div_mod((n * k) as int, m as int);
        lemma_le_div(n * k, m, n * k / m);
    }
}

proof fn lemma_amount0_bound(sa: nat, sb: nat, l: nat, up: bool)
    requires
        0 < sa <= sb,
        l < b128(),
    ensures
        amount0_delta(sa, sb, l, up) <= l * q96(),
        div_up(l * q96() * (sb - sa) as nat, sb) <= l * q96(),
        l * q96() * (sb - sa) as nat / sb <= l * q96(),
        l * q96() < b256(),
        l * q96() < amount_cap(),
{
    let n = l * q96();
    let d = (sb - sa) as nat;
    lemma_scaled_le(n, d, sb);
    let x = div_up(n * d, sb);
    let y = n * d / sb;
    lemma_scaled_le(x, 1, sa);
    lemma_scaled_le(y, 1, sa);
    assert(x * 1 == x && y * 1 == y);
    assert(l * q96() < amount_cap()) by (nonlinear_arith)
        requires
            l < b128(),
    ;
}

proof fn lemma_amount1_bound(sa: nat, sb: nat, l: nat, up: bool)
    requires
        sa <= sb < price_cap(),
        l < b128(),
    ensures
        amount1_delta(sa, sb, l, up) < amount_cap(),
        l * (sb - sa) as nat / q96() < amount_cap(),
        div_up(l * (sb - sa) as nat, q96()) < amount_cap(),
{
    let n = l * (sb - sa) as nat;
    assert(n < b128() * price_cap()) by (nonlinear_arith)
        requires
            n == l * (sb - sa) as nat,
            l < b128(),
            sb < price_cap(),
            sa <= sb,
    ;
    lemma_div_up_le(n, q96(), b128() * price_cap() / q96());
    assert(n / q96() <= div_up(n, q96())) by {
        lemma_le_div(n, q96(), n / q96());
        vstd::arithmetic::div_mod::lemma_fundamental_div_mod(n as int, q96() as int);
    }
}

fn q96_value() -> (r: Uint256)
    ensures
        r@ == q96(),
{
    Uint256 { hi: 0, lo: 79228162514264337593543950336 }
}

fn one_value() -> (r: Uint256)
    ensures
        r@ == 1,
{
    Uint256 { hi: 0, lo: 1 }
}

/// `l * 2^96`.
fn liquidity_q96(l: u128) -> (r: Uint256)
    ensures
        r@ == l * q96(),
{
    proof {
        lemma_amount0_bound(1, 1, l as nat, true);
        assert(l * q96() / 1 == l * q96());
    }
    mul_div_256(&Uint256::from_u128(l), &q96_value(), &one_value()).unwrap()
}

/// Token0 between two prices, `sa <= sb`.
pub fn get_amount0_delta(sa: &Uint256, sb: &Uint256, l: u128, up: bool) -> (r: Uint256)
    requires
        0 < sa@ <= sb@,
    ensures
        r@ == amount0_delta(sa@, sb@, l as nat, up),
        r@ <= l * q96(),
        r@ < amount_cap(),
{
    proof {
        lemma_amount0_bound(sa@, sb@, l as nat, up);
    }
    let n1 = liquidity_q96(l);
    let n2 = sb.sub(sa);
    let one = one_value();
    if up {
        let x = mul_div_rounding_up(&n1, &n2, sb).unwrap();
        proof {
            assert(x@ * 1 == x@);
            lemma_scaled_le(x@, 1, sa@);
        }
        mul_div_rounding_up(&x, &one, sa).unwrap()
    } else {
        let x = mul_div_256(&n1, &n2, sb).unwrap();
        proof {
            assert(x@ * 1 == x@);
            lemma_scaled_le(x@, 1, sa@);
        }
        mul_div_256(&x, &one, sa).unwrap()
    }
}

/// Token1 between two prices, `sa <= sb`.
pub fn get_amount1_delta(sa: &Uint256, sb: &Uint256, l: u128, up: bool) -> (r: Uint256)
    requires
        sa@ <= sb@ < price_cap(),
    ensures
        r@ == amount1_delta(sa@, sb@, l as nat, up),
        r@ < amount_cap(),
{
    proof {
        lemma_amount1_bound(sa@, sb@, l as nat, up);
    }
    let n2 = sb.sub(sa);
    let lw = Uint256::from_u128(l);
    if up {
        mul_div_rounding_up(&lw, &n2, &q96_value()).unwrap()
    } else {
        mul_div_256(&lw, &n2, &q96_value()).unwrap()
    }
}

/// The price after token0 is added or taken; where it is taken, the amount
/// must be below what the liquidity holds and the result must fit.
pub fn get_next_sqrt_price_from_amount0_rounding_up(p: &Uint256, l: u128, a: u128, add: bool) -> (r: Uint256)
    requires
        is_price(p@),
        !add ==> a * p@ < l * q96(),
        !add ==> next_price_from_amount0(p@, l as nat, a as nat, add) < b256(),
    ensures
        r@ == next_price_from_amount0(p@, l as nat, a as nat, add),
{
    if a == 0 {
        return *p;
    }
    proof {
        lemma_amount0_bound(1, 1, l as nat, true);
    }
    let n1 = liquidity_q96(l);
    let aw = Uint256::from_u128(a);
    let one = one_value();
    proof {
        assert(a * p@ / 1 == a * p@);
    }
    let product = mul_div_256(&aw, p, &one);
    if add {
        if let Some(pr) = product {
            if let Some(den) = n1.checked_add(&pr) {
                proof {
                    assert(a * p@ > 0) by (nonlinear_arith)
                        requires
                            a >= 1,
                            p@ > 0,
                    ;
                    assert(n1@ * p@ <= p@ * den@) by (nonlinear_arith)
                        requires
                            den@ == n1@ + a * p@,
                    ;
                    lemma_div_up_le(n1@ * p@, den@, p@);
                }
                return mul_div_rounding_up(&n1, p, &den).unwrap();
            }
        }
        proof {
            assert(n1@ * 1 == n1@);
            lemma_scaled_le(n1@, 1, p@);
        }
        let t = mul_div_256(&n1, &one, p).unwrap();
        let den = t.checked_add(&aw).unwrap();
        proof {
            lemma_scaled_le(n1@, 1, den@);
        }
        mul_div_rounding_up(&n1, &one, &den).unwrap()
    } else {
        let pr = product.unwrap();
        let den = n1.sub(&pr);
        mul_div_rounding_up(&n1, p, &den).unwrap()
    }
}

/// The price after token1 is added or taken; where it is taken, the amount
/// must not move the price below zero.
pub fn get_next_sqrt_price_from_amount1_rounding_down(p: &Uint256, l: u128, a: u128, add: bool) -> (r: Uint256)
    requires
        l > 0,
        add ==> next_price_from_amount1(p@, l as nat, a as nat, add) < b256(),
        !add ==> div_up(a as nat * q96(), l as nat) <= p@,
    ensures
        r@ == next_price_from_amount1(p@, l as nat, a as nat, add),
{
    let aw = Uint256::from_u128(a);
    let lw = Uint256::from_u128(l);
    proof {
        lemma_amount0_bound(1, 1, a as nat, true);
        assert(a * q96() * 1 == a * q96());
        lemma_scaled_le(a as nat * q96(), 1, l as nat);
    }
    if add {
        let q = mul_div_256(&aw, &q96_value(), &lw).unwrap();
        p.checked_add(&q).unwrap()
    } else {
        let q = mul_div_rounding_up(&aw, &q96_value(), &lw).unwrap();
        p.sub(&q)
    }
}

proof fn lemma_input0_within(c: nat, t: nat, l: nat, a: nat)
    requires
        0 < t <= c,
        a >= 1,
        a < amount0_delta(t, c, l, true),
    ensures
        t < next_price_from_amount0(c, l, a, true) <= c,
{
    let n = l * q96();
    let d = (c - t) as nat;
    let x = div_up(n * d, c);
    lemma_lt_div_up(a, x, t);
    lemma_lt_div_up(a * t, n * d, c);
    if a * c < b256() && n + a * c < b256() {
        assert(a * c > 0) by (nonlinear_arith)
            requires
                a >= 1,
                c > 0,
        ;
        assert(t * (n + a * c) < n * c && n * c <= c * (n + a * c)) by (nonlinear_arith)
            requires
                a * t * c < n * d,
                d == c - t,
        ;
        lemma_gt_div_up(n * c, n + a * c, t);
        lemma_div_up_le(n * c, n + a * c, c);
    } else {
        let fl = n / c;
        vstd::arithmetic::div_mod::lemma_fundamental_div_mod(n as int, c as int);
        assert(t * (fl + a) < n && n <= c * (fl + a)) by (nonlinear_arith)
            requires
                a * t * c < n * d,
                d == c - t,
                n == c * fl + n % c,
                0 <= n % c < c,
                a >= 1,
                t > 0,
        ;
        lemma_gt_div_up(n, fl + a, t);
        lemma_div_up_le(n, fl + a, c);
    }
}

proof fn lemma_input1_within(c: nat, t: nat, l: nat, a: nat)
    requires
        c < t,
        a < amount1_delta(c, t, l, true),
    ensures
        l > 0,
        c <= next_price_from_amount1(c, l, a, true) < t,
{
    let d = (t - c) as nat;
    lemma_lt_div_up(a, l * d, q96());
    assert(l > 0) by (nonlinear_arith)
        requires
            a * q96() < l * d,
    ;
    assert(l * d == d * l) by (nonlinear_arith);
    lemma_div_lt(a * q96(), l, d);
}

proof fn lemma_output1_within(c: nat, t: nat, l: nat, a: nat)
    requires
        t <= c,
        a >= 1,
        a < amount1_delta(t, c, l, false),
    ensures
        l > 0,
        div_up(a * q96(), l) <= c,
        t <= next_price_from_amount1(c, l, a, false) < c,
{
    let d = (c - t) as nat;
    lemma_lt_div(l * d, q96(), a);
    assert(l > 0 && a * q96() <= d * l && 0 * l < a * q96()) by (nonlinear_arith)
        requires
            (a + 1) * q96() <= l * d,
            a >= 1,
    ;
    lemma_div_up_le(a * q96(), l, d);
    lemma_gt_div_up(a * q96(), l, 0);
}

proof fn lemma_output0_within(c: nat, t: nat, l: nat, a: nat)
    requires
        0 < c < t,
        a >= 1,
        a < amount0_delta(c, t, l, false),
    ensures
        a * c < l * q96(),
        c < next_price_from_amount0(c, l, a, false) <= t,
{
    let n = l * q96();
    let d = (t - c) as nat;
    let x = n * d / t;
    lemma_lt_div(x, c, a);
    lemma_le_floor((a + 1) * c, n * d, t);
    assert(a * c < n && n * c <= t * (n - a * c) && c * (n - a * c) < n * c) by (nonlinear_arith)
        requires
            ((a + 1) * c) * t <= n * d,
            d == t - c,
            a >= 1,
            c > 0,
            t > c,
    ;
    lemma_div_up_le(n * c, (n - a * c) as nat, t);
    lemma_gt_div_up(n * c, (n - a * c) as nat, c);
}

/// Input needed to move the price from `c` all the way to `t`.
pub open spec fn amount_in_to_target(c: nat, t: nat, l: nat) -> nat {
    if c >= t {
        amount0_delta(t, c, l, true)
    } else {
        amount1_delta(c, t, l, true)
    }
}

/// Output released when the price moves from `c` all the way to `t`.
pub open spec fn amount_out_to_target(c: nat, t: nat, l: nat) -> nat {
    if c >= t {
        amount1_delta(t, c, l, false)
    } else {
        amount0_delta(c, t, l, false)
    }
}

/// An exact input with the fee taken off: `rem * (10^6 - fee) / 10^6`.
pub open spec fn remaining_less_fee(rem: int, fee: nat) -> nat {
    (rem as nat) * ((1_000_000 - fee) as nat) / 1_000_000
}

/// The price a swap step ends at. The step trades towards `t` from `c`
/// (downwards, token0 in, where `c >= t`); `rem >= 0` is an exact input and
/// `rem < 0` an exact output; the step stops at `t` when the amount suffices.
pub open spec fn step_next(c: nat, t: nat, l: nat, rem: int, fee: nat) -> nat {
    if rem >= 0 {
        let a = remaining_less_fee(rem, fee);
        if a >= amount_in_to_target(c, t, l) {
            t
        } else if c >= t {
            next_price_from_amount0(c, l, a, true)
        } else {
            next_price_from_amount1(c, l, a, true)
        }
    } else {
        let a = (-rem) as nat;
        if a >= amount_out_to_target(c, t, l) {
            t
        } else if c >= t {
            next_price_from_amount1(c, l, a, false)
        } else {
            next_price_from_amount0(c, l, a, false)
        }
    }
}

/// The input a swap step takes, fee excluded.
pub open spec fn step_amount_in(c: nat, t: nat, l: nat, rem: int, fee: nat) -> nat {
    let n = step_next(c, t, l, rem, fee);
    if n == t && rem >= 0 {
        amount_in_to_target(c, t, l)
    } else if c >= t {
        amount0_delta(n, c, l, true)
    } else {
        amount1_delta(c, n, l, true)
    }
}

/// The output a swap step gives, never above an exact output asked for.
pub open spec fn step_amount_out(c: nat, t: nat, l: nat, rem: int, fee: nat) -> nat {
    let n = step_next(c, t, l, rem, fee);
    let out = if n == t && rem < 0 {
        amount_out_to_target(c, t, l)
    } else if c >= t {
        amount1_delta(n, c, l, false)
    } else {
        amount0_delta(c, n, l, false)
    };
    if rem < 0 && out > -rem {
        (-rem) as nat
    } else {
        out
    }
}

/// The fee a swap step takes: what is left of an exact input that stopped
/// short of `t`, else `amount_in * fee / (10^6 - fee)` rounded up.
pub open spec fn step_fee(c: nat, t: nat, l: nat, rem: int, fee: nat) -> int {
    if rem >= 0 && step_next(c, t, l, rem, fee) != t {
        rem - step_amount_in(c, t, l, rem, fee)
    } else {
        div_up(step_amount_in(c, t, l, rem, fee) * fee, (1_000_000 - fee) as nat) as int
    }
}

/// The amounts of a swap step fit in 128 bits and the fee is not negative.
pub open spec fn step_fits(c: nat, t: nat, l: nat, rem: int, fee: nat) -> bool {
    &&& step_amount_in(c, t, l, rem, fee) < b128()
    &&& step_amount_out(c, t, l, rem, fee) < b128()
    &&& 0 <= step_fee(c, t, l, rem, fee) < b128()
}

proof fn lemma_remaining_less_fee(rem: int, fee: nat)
    requires
        rem >= 0,
        fee < 1_000_000,
    ensures
        remaining_less_fee(rem, fee) <= rem,
{
    lemma_scaled_le(rem as nat, (1_000_000 - fee) as nat, 1_000_000);
}

/// A step never carries the price past `t`, nor back past `c`; an exact
/// output that stops short of `t` still moves the price.
pub proof fn lemma_step_within(c: nat, t: nat, l: nat, rem: int, fee: nat)
    requires
        is_price(c),
        is_price(t),
        fee < 1_000_000,
    ensures
        t <= c ==> t <= step_next(c, t, l, rem, fee) <= c,
        c < t ==> c <= step_next(c, t, l, rem, fee) <= t,
        rem < 0 && step_next(c, t, l, rem, fee) != t ==> step_next(c, t, l, rem, fee) != c,
        rem >= 0 && step_next(c, t, l, rem, fee) == t ==> remaining_less_fee(rem, fee) >= amount_in_to_target(c, t, l),
{
    let n = step_next(c, t, l, rem, fee);
    if rem >= 0 {
        let a = remaining_less_fee(rem, fee);
        if a < amount_in_to_target(c, t, l) {
            if c >= t {
                if a >= 1 {
                    lemma_input0_within(c, t, l, a);
                } else if c == t {
                    assert(l * q96() * (c - t) as nat == 0) by (nonlinear_arith)
                        requires
                            c == t,
                    ;
                    assert(div_up(0, c) == 0) by {
                        vstd::arithmetic::div_mod::lemma_basic_div((c - 1) as int, c as int);
                    }
                }
            } else {
                lemma_input1_within(c, t, l, a);
            }
        }
    } else {
        let a = (-rem) as nat;
        if a < amount_out_to_target(c, t, l) {
            if c >= t {
                lemma_output1_within(c, t, l, a);
            } else {
                lemma_output0_within(c, t, l, a);
            }
        }
    }
}

proof fn lemma_fee_fits(a: nat, rem: nat, fee: nat)
    requires
        fee < 1_000_000,
        a <= rem * ((1_000_000 - fee) as nat) / 1_000_000,
    ensures
        a + div_up(a * fee, (1_000_000 - fee) as nat) <= rem,
{
    let d = (1_000_000 - fee) as nat;
    lemma_le_floor(a, rem * d, 1_000_000);
    assert(a <= rem && a * fee <= (rem - a) as nat * d) by (nonlinear_arith)
        requires
            a * 1_000_000 <= rem * d,
            d == 1_000_000 - fee,
            fee < 1_000_000,
    ;
    lemma_div_up_le(a * fee, d, (rem - a) as nat);
}

/// One step of a swap from price `c` towards price `t` with liquidity `l`:
/// the price reached, the input taken (fee excluded), the output given and
/// the fee; `None` when one of the amounts does not fit in 128 bits.
pub fn _compute_swap_step(c: &Uint256, t: &Uint256, l: u128, rem: i128, fee_pips: u32) -> (r: Option<(Uint256, u128, u128, u128)>)
    requires
        is_price(c@),
        is_price(t@),
        fee_pips < FEE_UNITS,
    ensures
        r.is_some() <==> step_fits(c@, t@, l as nat, rem as int, fee_pips as nat),
        r matches Some((n, ai, ao, f)) ==> {
            &&& n@ == step_next(c@, t@, l as nat, rem as int, fee_pips as nat)
            &&& ai == step_amount_in(c@, t@, l as nat, rem as int, fee_pips as nat)
            &&& ao == step_amount_out(c@, t@, l as nat, rem as int, fee_pips as nat)
            &&& f == step_fee(c@, t@, l as nat, rem as int, fee_pips as nat)
            &&& rem >= 0 ==> ai + f <= rem
            &&& rem < 0 ==> ao <= -rem
        },
{
    proof {
        lemma_step_within(c@, t@, l as nat, rem as int, fee_pips as nat);
    }
    let ghost fee = fee_pips as nat;
    let zero_for_one = t.le(c);
    let exact_in = rem >= 0;
    let units = Uint256::from_u128(FEE_UNITS as u128);
    let fee_w = Uint256::from_u128(fee_pips as u128);
    let rest_w = Uint256::from_u128((FEE_UNITS - fee_pips) as u128);
    let next: Uint256;
    let mut amount_in = Uint256::zero();
    let mut amount_out = Uint256::zero();
    let mut asked: u128 = 0;
    if exact_in {
        asked = rem as u128;
        proof {
            lemma_remaining_less_fee(rem as int, fee);
        }
        let less = mul_div_256(&Uint256::from_u128(asked), &rest_w, &units).unwrap();
        let a = less.lo;
        amount_in = if zero_for_one {
            get_amount0_delta(t, c, l, true)
        } else {
            get_amount1_delta(c, t, l, true)
        };
        if amount_in.le(&less) {
            next = *t;
        } else if zero_for_one {
            next = get_next_sqrt_price_from_amount0_rounding_up(c, l, a, true);
        } else {
            next = get_next_sqrt_price_from_amount1_rounding_down(c, l, a, true);
        }
    } else {
        asked = ((-(rem + 1)) as u128) + 1;
        let aw = Uint256::from_u128(asked);
        amount_out = if zero_for_one {
            get_amount1_delta(t, c, l, false)
        } else {
            get_amount0_delta(c, t, l, false)
        };
        if amount_out.le(&aw) {
            next = *t;
        } else if zero_for_one {
            proof {
                lemma_output1_within(c@, t@, l as nat, asked as nat);
            }
            next = get_next_sqrt_price_from_amount1_rounding_down(c, l, asked, false);
        } else {
            proof {
                lemma_output0_within(c@, t@, l as nat, asked as nat);
            }
            next = get_next_sqrt_price_from_amount0_rounding_up(c, l, asked, false);
        }
    }
    let reached = t.equals(&next);
    if zero_for_one {
        if !(reached && exact_in) {
            amount_in = get_amount0_delta(&next, c, l, true);
        }
        if !(reached && !exact_in) {
            amount_out = get_amount1_delta(&next, c, l, false);
        }
    } else {
        if !(reached && exact_in) {
            amount_in = get_amount1_delta(c, &next, l, true);
        }
        if !(reached && !exact_in) {
            amount_out = get_amount0_delta(c, &next, l, false);
        }
    }
    let aw = Uint256::from_u128(asked);
    if !exact_in && aw.lt(&amount_out) {
        amount_out = aw;
    }
    let fee_amount: Uint256;
    if exact_in && !reached {
        if aw.lt(&amount_in) {
            return None;
        }
        fee_amount = aw.sub(&amount_in);
    } else {
        proof {
            assert(amount_in@ * fee <= amount_in@ * 1_000_000 && amount_in@ * 1_000_000 < b256())
                by (nonlinear_arith)
                requires
                    amount_in@ < amount_cap(),
                    fee < 1_000_000,
            ;
            assert(amount_in@ * fee * 1 == amount_in@ * fee);
            lemma_scaled_le(amount_in@ * fee, 1, (1_000_000 - fee) as nat);
        }
        fee_amount = mul_div_rounding_up(&amount_in, &fee_w, &rest_w).unwrap();
    }
    match (amount_in.to_u128(), amount_out.to_u128(), fee_amount.to_u128()) {
        (Some(ai), Some(ao), Some(f)) => {
            proof {
                if exact_in && reached {
                    lemma_fee_fits(ai as nat, asked as nat, fee);
                }
            }
            Some((next, ai, ao, f))
        },
        _ => None,
    }
}

proof fn lemma_floor_le_up(x: nat, d: nat)
    requires
        d > 0,
    ensures
        x / d <= div_up(x, d),
{
    lemma_le_floor(x / d, x, d);
    lemma_le_div(x, d, x / d);
}

proof fn lemma_div_up_monotonic(x: nat, y: nat, d: nat)
    requires
        d > 0,
        x <= y,
    ensures
        div_up(x, d) <= div_up(y, d),
        x / d <= y / d,
{
    vstd::arithmetic::div_mod::lemma_div_is_ordered((x + d - 1) as int, (y + d - 1) as int, d as int);
    vstd::arithmetic::div_mod::lemma_div_is_ordered(x as int, y as int, d as int);
}

/// Amounts rounded down never exceed the same amounts rounded up.
pub proof fn lemma_round_down_le_up(sa: nat, sb: nat, l: nat)
    requires
        0 < sa <= sb,
    ensures
        amount0_delta(sa, sb, l, false) <= amount0_delta(sa, sb, l, true),
        amount1_delta(sa, sb, l, false) <= amount1_delta(sa, sb, l, true),
{
    let n = l * q96() * (sb - sa) as nat;
    lemma_floor_le_up(n, sb);
    lemma_div_up_monotonic(n / sb, div_up(n, sb), sa);
    lemma_floor_le_up(n / sb, sa);
    lemma_floor_le_up(l * (sb - sa) as nat, q96());
}

} // verus!
