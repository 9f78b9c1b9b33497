//! The registry of pools: enabled fee tiers with their tick spacings, and the
//! pool of each token pair and fee.
use vstd::prelude::*;
use crate::position::AccountId;

verus! {

/// Failures of the registry.
#[derive(Clone, Copy, Debug, PartialEq, Eq, Structural)]
pub enum FactoryError {
    IdenticalAddresses,
    ZeroAddress,
    ZeroTickSpacing,
    NonZeroTickSpacing,
    FeeTooBig,
    TickSpacingOutOfBonds,
    NoTickSpacing,
    PoolInstantiationFailed,
    /// The caller is not the registry's owner.
    NotOwner,
}

/// The tick spacing enabled for `fee` in `s`, if any.
pub open spec fn spacing_of(s: Seq<(u32, i32)>, fee: u32) -> Option<i32>
    decreases s.len(),
{
    if s.len() == 0 {
        None
    } else if s.last().0 == fee {
        Some(s.last().1)
    } else {
        spacing_of(s.drop_last(), fee)
    }
}

/// The pool registered for `(a, b, fee)` in `s`, if any.
pub open spec fn pool_of(s: Seq<(AccountId, AccountId, u32, AccountId)>, a: AccountId, b: AccountId, fee: u32) -> Option<AccountId>
    decreases s.len(),
{
    if s.len() == 0 {
        None
    } else if s.last().0 == a && s.last().1 == b && s.last().2 == fee {
        Some(s.last().3)
    } else {
        pool_of(s.drop_last(), a, b, fee)
    }
}

/// The registry.
#[derive(Clone, Debug)]
pub struct Factory {
    pub owner: AccountId,
    pub fee_amount_tick_spacing: Vec<(u32, i32)>,
    pub pools: Vec<(AccountId, AccountId, u32, AccountId)>,
}

impl Factory {
    /// A registry owned by `owner` with no fee tier enabled.
    pub fn new(owner: AccountId) -> (r: Factory)
        ensures
            r.owner == owner,
            r.fee_amount_tick_spacing@.len() == 0,
            r.pools@.len() == 0,
    {
        Factory { owner, fee_amount_tick_spacing: Vec::new(), pools: Vec::new() }
    }

    /// The tick spacing enabled for `fee`, if any.
    pub fn get_fee_amount_tick_spacing(&self, fee: u32) -> (r: Option<i32>)
        ensures
            r == spacing_of(self.fee_amount_tick_spacing@, fee),
    {
        let mut i: usize = self.fee_amount_tick_spacing.len();
        proof {
            assert(self.fee_amount_tick_spacing@.subrange(0, i as int) =~= self.fee_amount_tick_spacing@);
        }
        while i > 0
            invariant
                i <= self.fee_amount_tick_spacing@.len(),
                spacing_of(self.fee_amount_tick_spacing@, fee) == spacing_of(self.fee_amount_tick_spacing@.subrange(0, i as int), fee),
            decreases i,
        {
            let (f, t) = self.fee_amount_tick_spacing[i - 1];
            proof {
                assert(self.fee_amount_tick_spacing@.subrange(0, i as int).drop_last()
                    =~= self.fee_amount_tick_spacing@.subrange(0, i - 1));
            }
            if f == fee {
                return Some(t);
            }
            i = i - 1;
        }
        None
    }

    /// The pool registered for `token_a`, `token_b` (in either order) and `fee`, if any.
    pub fn get_pool(&self, token_a: AccountId, token_b: AccountId, fee: u32) -> (r: Option<AccountId>)
        ensures
            r == pool_of(self.pools@, token_a, token_b, fee),
    {
        let mut i: usize = self.pools.len();
        proof {
            assert(self.pools@.subrange(0, i as int) =~= self.pools@);
        }
        while i > 0
            invariant
                i <= self.pools@.len(),
                pool_of(self.pools@, token_a, token_b, fee) == pool_of(self.pools@.subrange(0, i as int), token_a, token_b, fee),
            decreases i,
        {
            let (a, b, f, p) = self.pools[i - 1];
            proof {
                assert(self.pools@.subrange(0, i as int).drop_last() =~= self.pools@.subrange(0, i - 1));
            }
            if a.equals(&token_a) && b.equals(&token_b) && f == fee {
                return Some(p);
            }
            i = i - 1;
        }
        None
    }

    /// Hands the registry to `new_owner`; only the owner may.
    pub fn set_owner(&mut self, caller: AccountId, new_owner: AccountId) -> (r: Result<(), FactoryError>)
        ensures
            r.is_ok() <==> caller == old(self).owner,
            r.is_ok() ==> final(self).owner == new_owner && final(self).pools == old(self).pools
                && final(self).fee_amount_tick_spacing == old(self).fee_amount_tick_spacing,
            r is Err ==> *final(self) == *old(self) && r == Err::<(), FactoryError>(FactoryError::NotOwner),
    {
        if !caller.equals(&self.owner) {
            return Err(FactoryError::NotOwner);
        }
        self.owner = new_owner;
        Ok(())
    }

    /// Enables fee tier `fee` (millionths, below one million) with tick
    /// spacing `tick_spacing` (in `1..16384`); only the owner may, and a tier
    /// is enabled once.
    pub fn enable_fee_amount(&mut self, caller: AccountId, fee: u32, tick_spacing: i32) -> (r: Result<(), FactoryError>)
        ensures
            r.is_ok() <==> caller == old(self).owner && fee < 1_000_000 && 0 < tick_spacing < 16384
                && spacing_of(old(self).fee_amount_tick_spacing@, fee) is None,
            caller != old(self).owner ==> r == Err::<(), FactoryError>(FactoryError::NotOwner),
            caller == old(self).owner && fee >= 1_000_000 ==> r == Err::<(), FactoryError>(FactoryError::FeeTooBig),
            caller == old(self).owner && fee < 1_000_000 && !(0 < tick_spacing < 16384) ==> r == Err::<(), FactoryError>(
                FactoryError::TickSpacingOutOfBonds,
            ),
            caller == old(self).owner && fee < 1_000_000 && 0 < tick_spacing < 16384 && spacing_of(
                old(self).fee_amount_tick_spacing@,
                fee,
            ) is Some ==> r == Err::<(), FactoryError>(FactoryError::NonZeroTickSpacing),
            r is Err ==> *final(self) == *old(self),
            r.is_ok() ==> spacing_of(final(self).fee_amount_tick_spacing@, fee) == Some(tick_spacing)
                && final(self).fee_amount_tick_spacing@ == old(self).fee_amount_tick_spacing@.push((fee, tick_spacing))
                && final(self).owner == old(self).owner && final(self).pools == old(self).pools,
    {
        if !caller.equals(&self.owner) {
            return Err(FactoryError::NotOwner);
        }
        if fee >= 1_000_000 {
            return Err(FactoryError::FeeTooBig);
        }
        if tick_spacing <= 0 || tick_spacing >= 16384 {
            return Err(FactoryError::TickSpacingOutOfBonds);
        }
        if self.get_fee_amount_tick_spacing(fee).is_some() {
            return Err(FactoryError::NonZeroTickSpacing);
        }
        self.fee_amount_tick_spacing.push((fee, tick_spacing));
        proof {
            assert(self.fee_amount_tick_spacing@.drop_last() =~= old(self).fee_amount_tick_spacing@);
        }
        Ok(())
    }

    /// Checks that a pool may be created for `token_a`, `token_b` and `fee`,
    /// and gives the pair in canonical order with the fee tier's spacing.
    pub fn check_create_pool(&self, token_a: AccountId, token_b: AccountId, fee: u32) -> (r: Result<
        (AccountId, AccountId, i32),
        FactoryError,
    >)
        ensures
            token_a == token_b ==> r == Err::<(AccountId, AccountId, i32), FactoryError>(FactoryError::IdenticalAddresses),
            r matches Ok((t0, t1, spacing)) ==> {
                &&& token_a != token_b
                &&& t0.value() < t1.value()
                &&& (t0 == token_a && t1 == token_b) || (t0 == token_b && t1 == token_a)
                &&& t0.value() != 0
                &&& spacing_of(self.fee_amount_tick_spacing@, fee) == Some(spacing)
                &&& spacing != 0
            },
            token_a != token_b && (if token_a.value() < token_b.value() { token_a } else { token_b }).value() == 0 ==> r
                == Err::<(AccountId, AccountId, i32), FactoryError>(FactoryError::ZeroAddress),
            token_a != token_b && (if token_a.value() < token_b.value() { token_a } else { token_b }).value() != 0
                && spacing_of(self.fee_amount_tick_spacing@, fee) is None ==> r == Err::<(AccountId, AccountId, i32), FactoryError>(
                FactoryError::NoTickSpacing,
            ),
            token_a != token_b && (if token_a.value() < token_b.value() { token_a } else { token_b }).value() != 0
                && spacing_of(self.fee_amount_tick_spacing@, fee) == Some(0i32) ==> r == Err::<(AccountId, AccountId, i32), FactoryError>(
                FactoryError::ZeroTickSpacing,
            ),
            token_a != token_b ==> (r.is_ok() <==> {
                let low = if token_a.value() < token_b.value() { token_a } else { token_b };
                &&& low.value() != 0
                &&& spacing_of(self.fee_amount_tick_spacing@, fee) is Some
                &&& spacing_of(self.fee_amount_tick_spacing@, fee) != Some(0i32)
            }),
    {
        if token_a.equals(&token_b) {
            return Err(FactoryError::IdenticalAddresses);
        }
        let (t0, t1) = if token_a.lt(&token_b) { (token_a, token_b) } else { (token_b, token_a) };
        if t0.is_zero() {
            return Err(FactoryError::ZeroAddress);
        }
        let spacing = match self.get_fee_amount_tick_spacing(fee) {
            Some(s) => s,
            None => {
                return Err(FactoryError::NoTickSpacing);
            },
        };
        if spacing == 0 {
            return Err(FactoryError::ZeroTickSpacing);
        }
        Ok((t0, t1, spacing))
    }

    /// Registers `pool`, instantiated for `token_a`, `token_b` and `fee`,
    /// under both orders of the pair, after the same checks as
    /// `check_create_pool`; returns `pool`.
    pub fn create_pool(&mut self, token_a: AccountId, token_b: AccountId, fee: u32, pool: AccountId) -> (r: Result<
        AccountId,
        FactoryError,
    >)
        ensures
            r.is_ok() <==> old(self).check_create_pool_ok(token_a, token_b, fee),
            r is Err ==> *final(self) == *old(self),
            token_a == token_b ==> r == Err::<AccountId, FactoryError>(FactoryError::IdenticalAddresses),
            token_a != token_b && (if token_a.value() < token_b.value() { token_a } else { token_b }).value() == 0 ==> r
                == Err::<AccountId, FactoryError>(FactoryError::ZeroAddress),
            token_a != token_b && (if token_a.value() < token_b.value() { token_a } else { token_b }).value() != 0
                && spacing_of(old(self).fee_amount_tick_spacing@, fee) is None ==> r == Err::<AccountId, FactoryError>(
                FactoryError::NoTickSpacing,
            ),
            token_a != token_b && (if token_a.value() < token_b.value() { token_a } else { token_b }).value() != 0
                && spacing_of(old(self).fee_amount_tick_spacing@, fee) == Some(0i32) ==> r == Err::<AccountId, FactoryError>(
                FactoryError::ZeroTickSpacing,
            ),
            r.is_ok() ==> {
                &&& r == Ok::<AccountId, FactoryError>(pool)
                &&& pool_of(final(self).pools@, token_a, token_b, fee) == Some(pool)
                &&& pool_of(final(self).pools@, token_b, token_a, fee) == Some(pool)
                &&& final(self).owner == old(self).owner
                &&& final(self).fee_amount_tick_spacing == old(self).fee_amount_tick_spacing
            },
    {
        let (t0, t1, _) = match self.check_create_pool(token_a, token_b, fee) {
            Ok(v) => v,
            Err(e) => {
                return Err(e);
            },
        };
        let ghost s0 = self.pools@;
        self.pools.push((t0, t1, fee, pool));
        let ghost s1 = self.pools@;
        self.pools.push((t1, t0, fee, pool));
        proof {
            assert(self.pools@.drop_last() =~= s1);
            assert(s1.drop_last() =~= s0);
            assert(t0 != t1);
            assert(pool_of(s1, t0, t1, fee) == Some(pool));
            assert(pool_of(self.pools@, t0, t1, fee) == pool_of(s1, t0, t1, fee));
            assert(pool_of(self.pools@, t1, t0, fee) == Some(pool));
        }
        Ok(pool)
    }

    /// `check_create_pool` accepts `token_a`, `token_b` and `fee`.
    pub open spec fn check_create_pool_ok(&self, token_a: AccountId, token_b: AccountId, fee: u32) -> bool {
        let low = if token_a.value() < token_b.value() { token_a } else { token_b };
        &&& token_a != token_b
        &&& low.value() != 0
        &&& spacing_of(self.fee_amount_tick_spacing@, fee) is Some
        &&& spacing_of(self.fee_amount_tick_spacing@, fee) != Some(0i32)
    }
}

} // verus!
