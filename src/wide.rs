//! Unsigned 256-bit integers held as two `u128` halves, and the full-precision
//! multiply-divide that the price math is built on.
use vstd::prelude::*;

verus! {

/// 2^64.
#[verifier::inline]
pub open spec fn b64() -> nat {
    18446744073709551616nat
}

/// 2^128.
#[verifier::inline]
pub open spec fn b128() -> nat {
    340282366920938463463374607431768211456nat
}

/// 2^256.
#[verifier::inline]
pub open spec fn b256() -> nat {
    115792089237316195423570985008687907853269984665640564039457584007913129639936nat
}

/// The value of four little-endian 64-bit limbs.
pub open spec fn limbs4(w: [u64; 4]) -> nat {
    w[0] as nat + w[1] as nat * b64() + w[2] as nat * b128() + w[3] as nat * 6277101735386680763835789423207666416102355444464034512896nat
}

/// The value of eight little-endian 64-bit limbs.
pub open spec fn limbs8(w: [u64; 8]) -> nat {
    limbs4([w[0], w[1], w[2], w[3]]) + limbs4([w[4], w[5], w[6], w[7]]) * b256()
}

/// Relies on `primitive_types::U256::full_mul`: the exact 512-bit product of two
/// 256-bit values, limbs least significant first.
#[verifier::external_body]
fn full_mul(a: [u64; 4], b: [u64; 4]) -> (r: [u64; 8])
    ensures
        limbs8(r) == limbs4(a) * limbs4(b),
{
    primitive_types::U256(a).full_mul(primitive_types::U256(b)).0
}

/// Relies on `primitive_types::U512::div_mod`: quotient and remainder of 512-bit
/// values; it panics on a zero divisor only.
#[verifier::external_body]
fn div_mod(n: [u64; 8], d: [u64; 8]) -> (r: ([u64; 8], [u64; 8]))
    requires
        limbs8(d) > 0,
    ensures
        limbs8(r.0) == limbs8(n) / limbs8(d),
        limbs8(r.1) == limbs8(n) % limbs8(d),
{
    let (q, m) = primitive_types::U512(n).div_mod(primitive_types::U512(d));
    (q.0, m.0)
}

/// An unsigned integer below 2^256.
#[derive(Clone, Copy, Debug, PartialEq, Eq, Structural)]
pub struct Uint256 {
    pub hi: u128,
    pub lo: u128,
}

impl View for Uint256 {
    type V = nat;

    open spec fn view(&self) -> nat {
        self.hi as nat * b128() + self.lo as nat
    }
}

proof fn lemma_split128(x: u128)
    ensures
        x as nat == (x as nat % b64()) + (x as nat / b64()) * b64(),
        x as nat / b64() < b64(),
{
}

impl Uint256 {
    pub fn zero() -> (r: Uint256)
        ensures
            r@ == 0,
    {
        Uint256 { hi: 0, lo: 0 }
    }

    pub fn from_u128(v: u128) -> (r: Uint256)
        ensures
            r@ == v,
    {
        Uint256 { hi: 0, lo: v }
    }

    /// The value as a `u128`, when it fits.
    pub fn to_u128(&self) -> (r: Option<u128>)
        ensures
            self@ < b128() <==> r.is_some(),
            r.is_some() ==> r.unwrap() == self@,
    {
        if self.hi == 0 {
            Some(self.lo)
        } else {
            None
        }
    }

    pub fn lt(&self, o: &Uint256) -> (r: bool)
        ensures
            r == (self@ < o@),
    {
        self.hi < o.hi || (self.hi == o.hi && self.lo < o.lo)
    }

    pub fn le(&self, o: &Uint256) -> (r: bool)
        ensures
            r == (self@ <= o@),
    {
        self.hi < o.hi || (self.hi == o.hi && self.lo <= o.lo)
    }

    pub fn equals(&self, o: &Uint256) -> (r: bool)
        ensures
            r == (self@ == o@),
    {
        self.hi == o.hi && self.lo == o.lo
    }

    pub fn is_zero(&self) -> (r: bool)
        ensures
            r == (self@ == 0),
    {
        self.hi == 0 && self.lo == 0
    }

    /// The sum, when it stays below 2^256.
    pub fn checked_add(&self, o: &Uint256) -> (r: Option<Uint256>)
        ensures
            self@ + o@ < b256() <==> r.is_some(),
            r.is_some() ==> r.unwrap()@ == self@ + o@,
    {
        let max: u128 = 0xffff_ffff_ffff_ffff_ffff_ffff_ffff_ffff;
        let carry: u128 = if self.lo > max - o.lo { 1 } else { 0 };
        let lo: u128 = if carry == 1 { self.lo - (max - o.lo) - 1 } else { self.lo + o.lo };
        if self.hi > max - o.hi || (self.hi + o.hi == max && carry == 1) {
            None
        } else {
            Some(Uint256 { hi: self.hi + o.hi + carry, lo })
        }
    }

    /// The difference; `o` must not exceed `self`.
    pub fn sub(&self, o: &Uint256) -> (r: Uint256)
        requires
            o@ <= self@,
        ensures
            r@ == self@ - o@,
    {
        if self.lo >= o.lo {
            Uint256 { hi: self.hi - o.hi, lo: self.lo - o.lo }
        } else {
            let max: u128 = 0xffff_ffff_ffff_ffff_ffff_ffff_ffff_ffff;
            Uint256 { hi: self.hi - o.hi - 1, lo: (max - o.lo) + self.lo + 1 }
        }
    }

    fn to_limbs(&self) -> (r: [u64; 4])
        ensures
            limbs4(r) == self@,
    {
        let m: u128 = 0x1_0000_0000_0000_0000;
        proof {
            lemma_split128(self.lo);
            lemma_split128(self.hi);
        }
        [
            (self.lo % m) as u64,
            (self.lo / m) as u64,
            (self.hi % m) as u64,
            (self.hi / m) as u64,
        ]
    }

    fn to_limbs8(&self) -> (r: [u64; 8])
        ensures
            limbs8(r) == self@,
    {
        let w = self.to_limbs();
        [w[0], w[1], w[2], w[3], 0, 0, 0, 0]
    }

    fn from_limbs(w: &[u64; 8]) -> (r: Option<Uint256>)
        ensures
            limbs8(*w) < b256() <==> r.is_some(),
            r.is_some() ==> r.unwrap()@ == limbs8(*w),
    {
        if w[4] == 0 && w[5] == 0 && w[6] == 0 && w[7] == 0 {
            let m: u128 = 0x1_0000_0000_0000_0000;
            Some(Uint256 {
                lo: w[0] as u128 + w[1] as u128 * m,
                hi: w[2] as u128 + w[3] as u128 * m,
            })
        } else {
            None
        }
    }
}

/// Quotient and remainder of `a * b` by `d`, computed at 512 bits; `None`
/// when the quotient does not fit in 256 bits.
pub fn mul_div_mod(a: &Uint256, b: &Uint256, d: &Uint256) -> (r: Option<(Uint256, Uint256)>)
    requires
        d@ > 0,
    ensures
        a@ * b@ / d@ < b256() <==> r.is_some(),
        r.is_some() ==> r.unwrap().0@ == a@ * b@ / d@ && r.unwrap().1@ == a@ * b@ % d@,
{
    let p = full_mul(a.to_limbs(), b.to_limbs());
    let (q, m) = div_mod(p, d.to_limbs8());
    let qw = Uint256::from_limbs(&q);
    proof {
        assert(limbs8(m) < d@) by {
            vstd::arithmetic::div_mod::lemma_mod_bound((a@ * b@) as int, d@ as int);
        }
    }
    let mw = Uint256::from_limbs(&m);
    match (qw, mw) {
        (Some(q), Some(m)) => Some((q, m)),
        _ => None,
    }
}

} // verus!

verus! {

/// `n / d` rounded up.
pub open spec fn div_up(n: nat, d: nat) -> nat {
    if d == 0 {
        0
    } else {
        ((n + d - 1) / d as int) as nat
    }
}

proof fn lemma_div_up_split(n: nat, d: nat)
    requires
        d > 0,
    ensures
        div_up(n, d) == n / d + if n % d == 0 { 0nat } else { 1nat },
{
    vstd::arithmetic::div_mod::lemma_fundamental_div_mod(n as int, d as int);
    let x = (n + d - 1) as int;
    vstd::arithmetic::div_mod::lemma_fundamental_div_mod(x, d as int);
    let q = n as int / d as int;
    let r = n as int % d as int;
    let q3 = x / d as int;
    let r3 = x % d as int;
    assert(q3 == q + if r == 0 { 0int } else { 1int }) by (nonlinear_arith)
        requires
            n == d * q + r,
            0 <= r < d,
            x == d * q3 + r3,
            0 <= r3 < d,
            x == n + d - 1,
    ;
}

/// `a * b / d` rounded down, when it fits in 256 bits.
pub fn mul_div_256(a: &Uint256, b: &Uint256, d: &Uint256) -> (r: Option<Uint256>)
    requires
        d@ > 0,
    ensures
        a@ * b@ / d@ < b256() <==> r.is_some(),
        r.is_some() ==> r.unwrap()@ == a@ * b@ / d@,
{
    match mul_div_mod(a, b, d) {
        Some((q, _)) => Some(q),
        None => None,
    }
}

/// `a * b / d` rounded up, when it fits in 256 bits.
pub fn mul_div_rounding_up(a: &Uint256, b: &Uint256, d: &Uint256) -> (r: Option<Uint256>)
    requires
        d@ > 0,
    ensures
        div_up(a@ * b@, d@) < b256() <==> r.is_some(),
        r.is_some() ==> r.unwrap()@ == div_up(a@ * b@, d@),
{
    proof {
        lemma_div_up_split(a@ * b@, d@);
    }
    match mul_div_mod(a, b, d) {
        Some((q, m)) => {
            if m.is_zero() {
                Some(q)
            } else {
                q.checked_add(&Uint256::from_u128(1))
            }
        },
        None => None,
    }
}

} // verus!

verus! {

/// `x` reduced modulo 2^256.
pub open spec fn wrap256(x: int) -> nat {
    (x % (b256() as int)) as nat
}

impl Uint256 {
    /// The sum modulo 2^256.
    pub fn wrapping_add(&self, o: &Uint256) -> (r: Uint256)
        ensures
            r@ == wrap256(self@ + o@ as int),
    {
        match self.checked_add(o) {
            Some(s) => {
                proof {
                    vstd::arithmetic::div_mod::lemma_small_mod(s@, b256());
                }
                s
            },
            None => {
                let max: u128 = 0xffff_ffff_ffff_ffff_ffff_ffff_ffff_ffff;
                let comp = Uint256 { hi: max - o.hi, lo: max - o.lo };
                let one = Uint256::from_u128(1);
                let d = self.sub(&comp);
                proof {
                    let y = (self@ + o@ - b256()) as nat;
                    vstd::arithmetic::div_mod::lemma_small_mod(y, b256());
                    vstd::arithmetic::div_mod::lemma_mod_add_multiples_vanish(y as int, b256() as int);
                }
                d.sub(&one)
            },
        }
    }

    /// The difference modulo 2^256.
    pub fn wrapping_sub(&self, o: &Uint256) -> (r: Uint256)
        ensures
            r@ == wrap256(self@ - o@),
    {
        if o.le(self) {
            proof {
                vstd::arithmetic::div_mod::lemma_small_mod((self@ - o@) as nat, b256());
            }
            self.sub(o)
        } else {
            let max: u128 = 0xffff_ffff_ffff_ffff_ffff_ffff_ffff_ffff;
            let comp = Uint256 { hi: max - o.hi, lo: max - o.lo };
            let s = self.checked_add(&comp).unwrap();
            proof {
                let y = self@ - o@;
                vstd::arithmetic::div_mod::lemma_small_mod((y + b256()) as nat, b256());
                vstd::arithmetic::div_mod::lemma_mod_add_multiples_vanish(y, b256() as int);
            }
            s.checked_add(&Uint256::from_u128(1)).unwrap()
        }
    }
}

/// Two wrapped subtractions in a row are one.
pub proof fn lemma_wrap256_sub(a: int, b: int, c: int)
    ensures
        wrap256(wrap256(a - b) - c) == wrap256(a - b - c),
{
    let m = b256() as int;
    vstd::arithmetic::div_mod::lemma_fundamental_div_mod(a - b, m);
    let q = (a - b) / m;
    let x = (a - b) % m;
    assert(a - b - c == (x - c) + q * m);
    vstd::arithmetic::div_mod::lemma_mod_multiples_vanish(q, x - c, m);
}

impl Uint256 {
    /// The number below 2^256 that `v` is.
    pub open spec fn from_nat(v: nat) -> Uint256 {
        Uint256 { hi: (v / b128()) as u128, lo: (v % b128()) as u128 }
    }

    pub proof fn lemma_from_nat(x: Uint256)
        ensures
            Uint256::from_nat(x@) == x,
    {
        let v = x@;
        assert(v / b128() == x.hi as nat && v % b128() == x.lo as nat) by {
            vstd::arithmetic::div_mod::lemma_fundamental_div_mod(v as int, b128() as int);
            vstd::arithmetic::div_mod::lemma_div_multiples_vanish_fancy(x.hi as int, x.lo as int, b128() as int);
            vstd::arithmetic::div_mod::lemma_mod_multiples_vanish(x.hi as int, x.lo as int, b128() as int);
            vstd::arithmetic::div_mod::lemma_small_mod(x.lo as nat, b128());
        }
    }
}

/// `a * b / denominator` rounded down, computed at full precision; fails
/// where the denominator is zero or the quotient does not fit in 128 bits.
pub fn mul_div(a: u128, b: u128, denominator: u128) -> (r: Result<u128, crate::error::LiquidityHelperError>)
    ensures
        r.is_ok() <==> denominator != 0 && a * b / (denominator as int) < b128(),
        r.is_ok() ==> r.unwrap() == a * b / (denominator as int),
        r.is_err() ==> r == Err::<u128, crate::error::LiquidityHelperError>(crate::error::LiquidityHelperError::DivisionOverflow),
{
    if denominator == 0 {
        return Err(crate::error::LiquidityHelperError::DivisionOverflow);
    }
    proof {
        assert(a * b / (denominator as int) <= a * b) by {
            vstd::arithmetic::div_mod::lemma_div_is_ordered_by_denominator((a * b) as int, 1, denominator as int);
        }
        assert(a * b < b256()) by (nonlinear_arith)
            requires
                a < b128(),
                b < b128(),
        ;
    }
    let q = mul_div_256(&Uint256::from_u128(a), &Uint256::from_u128(b), &Uint256::from_u128(denominator)).unwrap();
    match q.to_u128() {
        Some(v) => Ok(v),
        None => Err(crate::error::LiquidityHelperError::DivisionOverflow),
    }
}

} // verus!
