//! Liquidity positions, keyed by owner and tick range, with their fee
//! snapshots and the tokens owed to their owners.
use vstd::prelude::*;
use crate::error::LiquidityHelperError;
use crate::tick::add_delta;
use crate::wide::{b128, mul_div_256, wrap256, Uint256};

verus! {

/// An account of the hosting ledger: 32 bytes, as two big-endian halves.
#[derive(Clone, Copy, Debug, PartialEq, Eq, Structural, Hash)]
pub struct AccountId {
    pub hi: u128,
    pub lo: u128,
}

impl AccountId {
    pub open spec fn value(self) -> nat {
        self.hi as nat * b128() + self.lo as nat
    }

    /// The account whose bytes are all zero.
    pub fn zero() -> (r: AccountId)
        ensures
            r.value() == 0,
    {
        AccountId { hi: 0, lo: 0 }
    }

    pub fn is_zero(&self) -> (r: bool)
        ensures
            r == (self.value() == 0),
    {
        self.hi == 0 && self.lo == 0
    }

    /// Byte order: the order of the accounts as 256-bit big-endian numbers.
    pub fn lt(&self, o: &AccountId) -> (r: bool)
        ensures
            r == (self.value() < o.value()),
    {
        self.hi < o.hi || (self.hi == o.hi && self.lo < o.lo)
    }

    pub fn equals(&self, o: &AccountId) -> (r: bool)
        ensures
            r == (self == o),
            r == (self.value() == o.value()),
    {
        self.hi == o.hi && self.lo == o.lo
    }
}

/// Token amounts.
pub type Balance = u128;

/// What the engine keeps for one position.
#[derive(Clone, Copy, Debug, PartialEq, Eq, Structural)]
pub struct PositionInfo {
    /// Liquidity of the position.
    pub liquidity: u128,
    /// Fee growth per unit of liquidity inside the range at the last update.
    pub fee_growth_inside_0_last_x128: Uint256,
    pub fee_growth_inside_1_last_x128: Uint256,
    /// Tokens owed to the owner and not yet collected.
    pub tokens_owed_0: Balance,
    pub tokens_owed_1: Balance,
}

impl PositionInfo {
    pub open spec fn empty_spec() -> PositionInfo {
        PositionInfo {
            liquidity: 0,
            fee_growth_inside_0_last_x128: Uint256 { hi: 0, lo: 0 },
            fee_growth_inside_1_last_x128: Uint256 { hi: 0, lo: 0 },
            tokens_owed_0: 0,
            tokens_owed_1: 0,
        }
    }

    pub fn empty() -> (r: PositionInfo)
        ensures
            r == PositionInfo::empty_spec(),
    {
        PositionInfo {
            liquidity: 0,
            fee_growth_inside_0_last_x128: Uint256::zero(),
            fee_growth_inside_1_last_x128: Uint256::zero(),
            tokens_owed_0: 0,
            tokens_owed_1: 0,
        }
    }
}

/// Fees earned by `liquidity` while the fee growth inside moved from `last`
/// to `now`, as a 128-bit amount (higher bits are dropped).
pub open spec fn fees_earned(now: nat, last: nat, liquidity: nat) -> nat {
    (wrap256(now - last) * liquidity / b128()) % b128()
}

/// `p` after `delta` liquidity and a fee growth inside of `inside0`, `inside1`:
/// fees earned by the old liquidity since the last snapshot are owed, and the
/// snapshot moves to the new growth.
pub open spec fn position_updated(p: PositionInfo, delta: int, inside0: Uint256, inside1: Uint256) -> PositionInfo {
    PositionInfo {
        liquidity: (p.liquidity + delta) as u128,
        fee_growth_inside_0_last_x128: inside0,
        fee_growth_inside_1_last_x128: inside1,
        tokens_owed_0: ((p.tokens_owed_0 + fees_earned(inside0@, p.fee_growth_inside_0_last_x128@, p.liquidity as nat))
            % (b128() as int)) as u128,
        tokens_owed_1: ((p.tokens_owed_1 + fees_earned(inside1@, p.fee_growth_inside_1_last_x128@, p.liquidity as nat))
            % (b128() as int)) as u128,
    }
}

fn fees_earned_exec(now: &Uint256, last: &Uint256, liquidity: u128) -> (r: u128)
    ensures
        r == fees_earned(now@, last@, liquidity as nat),
{
    let d = now.wrapping_sub(last);
    proof {
        assert(d@ * liquidity as nat / b128() < crate::wide::b256()) by {
            assert(d@ * liquidity as nat <= d@ * b128()) by (nonlinear_arith)
                requires
                    liquidity < b128(),
            ;
            vstd::arithmetic::div_mod::lemma_div_is_ordered((d@ * liquidity as nat) as int, (d@ * b128()) as int, b128() as int);
            vstd::arithmetic::div_mod::lemma_div_multiples_vanish(d@ as int, b128() as int);
        }
    }
    let q = mul_div_256(&d, &Uint256::from_u128(liquidity), &Uint256 { hi: 1, lo: 0 }).unwrap();
    proof {
        vstd::arithmetic::div_mod::lemma_fundamental_div_mod(q@ as int, b128() as int);
        vstd::arithmetic::div_mod::lemma_mod_multiples_vanish(q.hi as int, q.lo as int, b128() as int);
        vstd::arithmetic::div_mod::lemma_small_mod(q.lo as nat, b128());
    }
    q.lo
}

pub fn wrapping_add_128(a: u128, b: u128) -> (r: u128)
    ensures
        r == (a + b) % (b128() as int),
{
    if a > u128::MAX - b {
        proof {
            vstd::arithmetic::div_mod::lemma_small_mod((a + b - b128()) as nat, b128());
            vstd::arithmetic::div_mod::lemma_mod_add_multiples_vanish((a + b - b128()) as int, b128() as int);
        }
        b - (u128::MAX - a) - 1
    } else {
        proof {
            vstd::arithmetic::div_mod::lemma_small_mod((a + b) as nat, b128());
        }
        a + b
    }
}

/// Applies a liquidity change and a fee growth inside to a position. A
/// position without liquidity cannot take a zero change.
pub fn update_position(p: &PositionInfo, delta: i128, inside0: &Uint256, inside1: &Uint256) -> (r: Result<
    PositionInfo,
    LiquidityHelperError,
>)
    ensures
        r.is_ok() <==> (delta != 0 || p.liquidity > 0) && 0 <= p.liquidity + delta <= u128::MAX,
        r.is_ok() ==> r.unwrap() == position_updated(*p, delta as int, *inside0, *inside1),
        delta == 0 && p.liquidity == 0 ==> r == Err::<PositionInfo, LiquidityHelperError>(LiquidityHelperError::NoLiquidity),
        delta != 0 || p.liquidity > 0 ==> (r is Err ==> r == Err::<PositionInfo, LiquidityHelperError>(
            LiquidityHelperError::LiquidityOverflow,
        )),
{
    if delta == 0 && p.liquidity == 0 {
        return Err(LiquidityHelperError::NoLiquidity);
    }
    let liquidity = match add_delta(p.liquidity, delta) {
        Ok(v) => v,
        Err(e) => {
            return Err(e);
        },
    };
    let owed0 = fees_earned_exec(inside0, &p.fee_growth_inside_0_last_x128, p.liquidity);
    let owed1 = fees_earned_exec(inside1, &p.fee_growth_inside_1_last_x128, p.liquidity);
    Ok(
        PositionInfo {
            liquidity,
            fee_growth_inside_0_last_x128: *inside0,
            fee_growth_inside_1_last_x128: *inside1,
            tokens_owed_0: wrapping_add_128(p.tokens_owed_0, owed0),
            tokens_owed_1: wrapping_add_128(p.tokens_owed_1, owed1),
        },
    )
}

/// Owner and tick range of a position.
#[derive(Clone, Copy, Debug, PartialEq, Eq, Structural)]
pub struct PositionKey {
    pub owner: AccountId,
    pub tick_lower: i32,
    pub tick_upper: i32,
}

/// The record of `key` in `s`, if there is one.
pub open spec fn position_lookup(s: Seq<(PositionKey, PositionInfo)>, key: PositionKey) -> Option<PositionInfo>
    decreases s.len(),
{
    if s.len() == 0 {
        None
    } else if s.last().0 == key {
        Some(s.last().1)
    } else {
        position_lookup(s.drop_last(), key)
    }
}

proof fn lemma_position_found(s: Seq<(PositionKey, PositionInfo)>, i: int)
    requires
        0 <= i < s.len(),
        forall|j: int| 0 <= j < s.len() && j != i ==> s[j].0 != s[i].0,
    ensures
        position_lookup(s, s[i].0) == Some(s[i].1),
    decreases s.len(),
{
    if i != s.len() - 1 {
        lemma_position_found(s.drop_last(), i);
    }
}

proof fn lemma_position_absent(s: Seq<(PositionKey, PositionInfo)>, key: PositionKey)
    requires
        forall|j: int| 0 <= j < s.len() ==> s[j].0 != key,
    ensures
        position_lookup(s, key) == None::<PositionInfo>,
    decreases s.len(),
{
    if s.len() > 0 {
        lemma_position_absent(s.drop_last(), key);
    }
}

proof fn lemma_position_update(s: Seq<(PositionKey, PositionInfo)>, i: int, v: (PositionKey, PositionInfo), key: PositionKey)
    requires
        0 <= i < s.len(),
        s[i].0 == v.0,
        key != v.0,
    ensures
        position_lookup(s.update(i, v), key) == position_lookup(s, key),
    decreases s.len(),
{
    let w = s.update(i, v);
    if i != s.len() - 1 {
        assert(w.drop_last() =~= s.drop_last().update(i, v));
        lemma_position_update(s.drop_last(), i, v, key);
    } else {
        assert(w.drop_last() =~= s.drop_last());
    }
}

/// The positions, one record per key; records are never removed.
#[derive(Clone, Debug)]
pub struct Positions {
    pub entries: Vec<(PositionKey, PositionInfo)>,
}

impl Positions {
    /// Each key appears once.
    pub open spec fn wf(&self) -> bool {
        forall|i: int, j: int| 0 <= i < j < self.entries@.len() ==> self.entries@[i].0 != self.entries@[j].0
    }

    /// Whether a record is kept for `key`.
    pub open spec fn has(&self, key: PositionKey) -> bool {
        position_lookup(self.entries@, key).is_some()
    }

    /// The record of `key`, the empty record where none is kept.
    pub open spec fn info(&self, key: PositionKey) -> PositionInfo {
        match position_lookup(self.entries@, key) {
            Some(p) => p,
            None => PositionInfo::empty_spec(),
        }
    }

    pub fn new() -> (r: Positions)
        ensures
            r.wf(),
            forall|k: PositionKey| !r.has(k),
    {
        Positions { entries: Vec::new() }
    }

    proof fn lemma_unique(&self, i: int)
        requires
            self.wf(),
            0 <= i < self.entries@.len(),
        ensures
            forall|j: int| 0 <= j < self.entries@.len() && j != i ==> self.entries@[j].0 != self.entries@[i].0,
    {
        assert forall|j: int| 0 <= j < self.entries@.len() && j != i implies self.entries@[j].0
            != self.entries@[i].0 by {
            if j < i {
            } else {
            }
        }
    }

    fn find(&self, key: &PositionKey) -> (r: Option<usize>)
        requires
            self.wf(),
        ensures
            r matches Some(i) ==> i < self.entries@.len() && self.entries@[i as int].0 == *key
                && position_lookup(self.entries@, *key) == Some(self.entries@[i as int].1),
            r is None ==> (forall|j: int| 0 <= j < self.entries@.len() ==> self.entries@[j].0 != *key)
                && position_lookup(self.entries@, *key) == None::<PositionInfo>,
    {
        let mut i: usize = 0;
        while i < self.entries.len()
            invariant
                self.wf(),
                i <= self.entries@.len(),
                forall|j: int| 0 <= j < i ==> self.entries@[j].0 != *key,
            decreases self.entries@.len() - i,
        {
            let k = self.entries[i].0;
            if k.owner.equals(&key.owner) && k.tick_lower == key.tick_lower && k.tick_upper == key.tick_upper {
                proof {
                    self.lemma_unique(i as int);
                    lemma_position_found(self.entries@, i as int);
                }
                return Some(i);
            }
            i = i + 1;
        }
        proof {
            lemma_position_absent(self.entries@, *key);
        }
        None
    }

    /// The record of `key`, if one is kept.
    pub fn get(&self, key: &PositionKey) -> (r: Option<PositionInfo>)
        requires
            self.wf(),
        ensures
            r == position_lookup(self.entries@, *key),
    {
        match self.find(key) {
            Some(i) => Some(self.entries[i].1),
            None => None,
        }
    }

    /// Stores `v` as the record of `key`.
    pub fn set(&mut self, key: &PositionKey, v: PositionInfo)
        requires
            old(self).wf(),
        ensures
            final(self).wf(),
            final(self).has(*key),
            final(self).info(*key) == v,
            forall|k: PositionKey| k != *key ==> final(self).info(k) == old(self).info(k) && final(self).has(k)
                == old(self).has(k),
    {
        let ghost s = self.entries@;
        match self.find(key) {
            Some(i) => {
                self.entries[i] = (*key, v);
                proof {
                    assert forall|a: int, b: int| 0 <= a < b < self.entries@.len() implies self.entries@[a].0
                        != self.entries@[b].0 by {
                        assert(s[a].0 != s[b].0);
                    }
                    self.lemma_unique(i as int);
                    lemma_position_found(self.entries@, i as int);
                    assert forall|k: PositionKey| k != *key implies position_lookup(self.entries@, k) == position_lookup(s, k) by {
                        lemma_position_update(s, i as int, (*key, v), k);
                    }
                }
            },
            None => {
                self.entries.push((*key, v));
                proof {
                    assert(self.entries@.drop_last() =~= s);
                    assert forall|a: int, b: int| 0 <= a < b < self.entries@.len() implies self.entries@[a].0
                        != self.entries@[b].0 by {
                        if b < s.len() {
                            assert(s[a].0 != s[b].0);
                        }
                    }
                    lemma_position_found(self.entries@, s.len() as int);
                }
            },
        }
    }
}

} // verus!
