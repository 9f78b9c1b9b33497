//! Per-tick liquidity and fee-growth records, and the rules that update and
//! cross them.
use vstd::prelude::*;
use crate::error::LiquidityHelperError;
use crate::wide::{wrap256, Uint256};

verus! {

/// `x + y` when it stays within `u128`.
pub fn add_delta(x: u128, y: i128) -> (r: Result<u128, LiquidityHelperError>)
    ensures
        (0 <= x + y <= u128::MAX) <==> r.is_ok(),
        r.is_ok() ==> r.unwrap() == x + y,
        r.is_err() ==> r == Err::<u128, LiquidityHelperError>(LiquidityHelperError::LiquidityOverflow),
{
    if y < 0 {
        let m: u128 = ((-(y + 1)) as u128) + 1;
        if m > x {
            Err(LiquidityHelperError::LiquidityOverflow)
        } else {
            Ok(x - m)
        }
    } else {
        let p: u128 = y as u128;
        if x > u128::MAX - p {
            Err(LiquidityHelperError::LiquidityOverflow)
        } else {
            Ok(x + p)
        }
    }
}

/// What the engine keeps for one tick.
#[derive(Clone, Copy, Debug, PartialEq, Eq, Structural)]
pub struct TickInfo {
    /// Total liquidity of the positions that have this tick as a bound.
    pub liquidity_gross: u128,
    /// Liquidity added when the tick is crossed upwards (removed downwards).
    pub liquidity_net: i128,
    /// Fee growth per unit of liquidity on the other side of the tick.
    pub fee_growth_outside_0x128: Uint256,
    pub fee_growth_outside_1x128: Uint256,
    /// Tick accumulator on the other side of the tick.
    pub tick_cumulative_outside: i64,
    /// Seconds per unit of liquidity on the other side of the tick.
    pub seconds_per_liquidity_outside_x128: Uint256,
    /// Seconds spent on the other side of the tick.
    pub seconds_outside: u32,
    /// Exactly `liquidity_gross != 0`.
    pub initialized: bool,
}

impl TickInfo {
    pub open spec fn empty_spec() -> TickInfo {
        TickInfo {
            liquidity_gross: 0,
            liquidity_net: 0,
            fee_growth_outside_0x128: Uint256 { hi: 0, lo: 0 },
            fee_growth_outside_1x128: Uint256 { hi: 0, lo: 0 },
            tick_cumulative_outside: 0,
            seconds_per_liquidity_outside_x128: Uint256 { hi: 0, lo: 0 },
            seconds_outside: 0,
            initialized: false,
        }
    }

    /// The record of a tick that no position references.
    pub fn empty() -> (r: TickInfo)
        ensures
            r == TickInfo::empty_spec(),
    {
        TickInfo {
            liquidity_gross: 0,
            liquidity_net: 0,
            fee_growth_outside_0x128: Uint256::zero(),
            fee_growth_outside_1x128: Uint256::zero(),
            tick_cumulative_outside: 0,
            seconds_per_liquidity_outside_x128: Uint256::zero(),
            seconds_outside: 0,
            initialized: false,
        }
    }
}

/// Sum of `liquidity_net` over a sequence of tick records.
pub open spec fn net_sum(s: Seq<(i32, TickInfo)>) -> int
    decreases s.len(),
{
    if s.len() == 0 {
        0
    } else {
        net_sum(s.drop_last()) + s.last().1.liquidity_net
    }
}

/// Sum of `liquidity_net` over the records of ticks at or below `t`.
pub open spec fn net_upto(s: Seq<(i32, TickInfo)>, t: int) -> int
    decreases s.len(),
{
    if s.len() == 0 {
        0
    } else {
        net_upto(s.drop_last(), t) + if s.last().0 <= t { s.last().1.liquidity_net as int } else { 0 }
    }
}

proof fn lemma_net_upto_update(s: Seq<(i32, TickInfo)>, i: int, v: (i32, TickInfo), t: int)
    requires
        0 <= i < s.len(),
        s[i].0 == v.0,
    ensures
        net_upto(s.update(i, v), t) == net_upto(s, t) + if v.0 <= t { v.1.liquidity_net - s[i].1.liquidity_net } else { 0 },
    decreases s.len(),
{
    let u = s.update(i, v);
    if i == s.len() - 1 {
        assert(u.drop_last() =~= s.drop_last());
    } else {
        assert(u.drop_last() =~= s.drop_last().update(i, v));
        lemma_net_upto_update(s.drop_last(), i, v, t);
    }
}

proof fn lemma_net_upto_remove(s: Seq<(i32, TickInfo)>, i: int, t: int)
    requires
        0 <= i < s.len(),
    ensures
        net_upto(s.remove(i), t) == net_upto(s, t) - if s[i].0 <= t { s[i].1.liquidity_net as int } else { 0 },
    decreases s.len(),
{
    let u = s.remove(i);
    if i == s.len() - 1 {
        assert(u =~= s.drop_last());
    } else {
        assert(u.drop_last() =~= s.drop_last().remove(i));
        assert(u.last() == s.last());
        lemma_net_upto_remove(s.drop_last(), i, t);
    }
}

/// Without records of ticks in `(t1, t2]`, the sums up to `t1` and `t2` agree.
pub proof fn lemma_net_upto_gap(s: Seq<(i32, TickInfo)>, t1: int, t2: int)
    requires
        t1 <= t2,
        forall|j: int| 0 <= j < s.len() ==> !(t1 < #[trigger] s[j].0 <= t2),
    ensures
        net_upto(s, t1) == net_upto(s, t2),
    decreases s.len(),
{
    if s.len() > 0 {
        assert(!(t1 < s[s.len() - 1].0 <= t2));
        lemma_net_upto_gap(s.drop_last(), t1, t2);
    }
}

/// The sum up to `t` is the sum up to `t - 1` plus the net liquidity of `t`.
pub proof fn lemma_net_upto_step(s: Seq<(i32, TickInfo)>, t: int)
    requires
        forall|i: int, j: int| 0 <= i < j < s.len() ==> s[i].0 != s[j].0,
    ensures
        net_upto(s, t) == net_upto(s, t - 1) + match lookup(s, t) {
            Some(x) => x.liquidity_net as int,
            None => 0,
        },
    decreases s.len(),
{
    if s.len() > 0 {
        lemma_net_upto_step(s.drop_last(), t);
        if s.last().0 == t {
            lemma_lookup_absent(s.drop_last(), t);
        }
    }
}

/// The record of tick `t` in `s`, if there is one.
pub open spec fn lookup(s: Seq<(i32, TickInfo)>, t: int) -> Option<TickInfo>
    decreases s.len(),
{
    if s.len() == 0 {
        None
    } else if s.last().0 == t {
        Some(s.last().1)
    } else {
        lookup(s.drop_last(), t)
    }
}

proof fn lemma_net_sum_update(s: Seq<(i32, TickInfo)>, i: int, v: (i32, TickInfo))
    requires
        0 <= i < s.len(),
    ensures
        net_sum(s.update(i, v)) == net_sum(s) - s[i].1.liquidity_net + v.1.liquidity_net,
    decreases s.len(),
{
    let u = s.update(i, v);
    if i == s.len() - 1 {
        assert(u.drop_last() =~= s.drop_last());
    } else {
        assert(u.drop_last() =~= s.drop_last().update(i, v));
        lemma_net_sum_update(s.drop_last(), i, v);
    }
}

proof fn lemma_net_sum_remove(s: Seq<(i32, TickInfo)>, i: int)
    requires
        0 <= i < s.len(),
    ensures
        net_sum(s.remove(i)) == net_sum(s) - s[i].1.liquidity_net,
    decreases s.len(),
{
    let u = s.remove(i);
    if i == s.len() - 1 {
        assert(u =~= s.drop_last());
    } else {
        assert(u.drop_last() =~= s.drop_last().remove(i));
        assert(u.last() == s.last());
        lemma_net_sum_remove(s.drop_last(), i);
    }
}

proof fn lemma_lookup_found(s: Seq<(i32, TickInfo)>, i: int)
    requires
        0 <= i < s.len(),
        forall|j: int| 0 <= j < s.len() && j != i ==> s[j].0 != s[i].0,
    ensures
        lookup(s, s[i].0 as int) == Some(s[i].1),
    decreases s.len(),
{
    if i != s.len() - 1 {
        lemma_lookup_found(s.drop_last(), i);
    }
}

proof fn lemma_lookup_absent(s: Seq<(i32, TickInfo)>, t: int)
    requires
        forall|j: int| 0 <= j < s.len() ==> s[j].0 != t,
    ensures
        lookup(s, t) == None::<TickInfo>,
    decreases s.len(),
{
    if s.len() > 0 {
        lemma_lookup_absent(s.drop_last(), t);
    }
}

/// The tick records, one per initialized tick.
#[derive(Clone, Debug)]
pub struct Ticks {
    pub entries: Vec<(i32, TickInfo)>,
}

impl Ticks {
    /// Each tick appears once, and only initialized ticks are kept.
    pub open spec fn wf(&self) -> bool {
        &&& forall|i: int, j: int|
            0 <= i < j < self.entries@.len() ==> self.entries@[i].0 != self.entries@[j].0
        &&& forall|i: int|
            0 <= i < self.entries@.len() ==> #[trigger] self.entries@[i].1.liquidity_gross > 0
                && self.entries@[i].1.initialized
    }

    /// The record of tick `t`, the empty record where none is kept.
    pub open spec fn info(&self, t: int) -> TickInfo {
        match lookup(self.entries@, t) {
            Some(i) => i,
            None => TickInfo::empty_spec(),
        }
    }

    /// Sum of `liquidity_net` over the kept ticks.
    pub open spec fn total_net(&self) -> int {
        net_sum(self.entries@)
    }

    /// Sum of `liquidity_net` over the kept ticks at or below `t`.
    pub open spec fn net_below(&self, t: int) -> int {
        net_upto(self.entries@, t)
    }

    /// Without kept ticks in `(t1, t2]`, the sums up to `t1` and `t2` agree.
    pub proof fn lemma_net_below_gap(&self, t1: int, t2: int)
        requires
            self.wf(),
            t1 <= t2,
            forall|u: int| t1 < u <= t2 ==> #[trigger] self.info(u).liquidity_gross == 0,
        ensures
            self.net_below(t1) == self.net_below(t2),
    {
        assert forall|j: int| 0 <= j < self.entries@.len() implies !(t1 < #[trigger] self.entries@[j].0 <= t2) by {
            if t1 < self.entries@[j].0 <= t2 {
                self.lemma_unique(j);
                lemma_lookup_found(self.entries@, j);
                assert(self.entries@[j].1.liquidity_gross > 0);
                assert(self.info(self.entries@[j].0 as int).liquidity_gross > 0);
            }
        }
        lemma_net_upto_gap(self.entries@, t1, t2);
    }

    /// The sum up to `t` is the sum up to `t - 1` plus the net liquidity of `t`.
    pub proof fn lemma_net_below_step(&self, t: int)
        requires
            self.wf(),
        ensures
            self.net_below(t) == self.net_below(t - 1) + self.info(t).liquidity_net,
    {
        lemma_net_upto_step(self.entries@, t);
    }

    /// A kept record has gross liquidity and is initialized; an absent one
    /// reads as the empty record.
    pub proof fn lemma_info_kept(&self, t: int)
        requires
            self.wf(),
        ensures
            self.info(t).liquidity_gross == 0 ==> self.info(t) == TickInfo::empty_spec(),
            self.info(t).liquidity_gross > 0 ==> self.info(t).initialized,
    {
        lemma_lookup_entry(self.entries@, t);
    }

    pub fn new() -> (r: Ticks)
        ensures
            r.wf(),
            r.total_net() == 0,
            r.entries@.len() == 0,
            forall|t: int| r.info(t) == TickInfo::empty_spec(),
            forall|t: int| #[trigger] r.net_below(t) == 0,
    {
        Ticks { entries: Vec::new() }
    }

    fn find(&self, t: i32) -> (r: Option<usize>)
        requires
            self.wf(),
        ensures
            r matches Some(i) ==> i < self.entries@.len() && self.entries@[i as int].0 == t
                && self.info(t as int) == self.entries@[i as int].1,
            r is None ==> (forall|j: int| 0 <= j < self.entries@.len() ==> self.entries@[j].0 != t)
                && self.info(t as int) == TickInfo::empty_spec(),
    {
        let mut i: usize = 0;
        while i < self.entries.len()
            invariant
                self.wf(),
                i <= self.entries@.len(),
                forall|j: int| 0 <= j < i ==> self.entries@[j].0 != t,
            decreases self.entries@.len() - i,
        {
            if self.entries[i].0 == t {
                proof {
                    self.lemma_unique(i as int);
                    lemma_lookup_found(self.entries@, i as int);
                }
                return Some(i);
            }
            i = i + 1;
        }
        proof {
            lemma_lookup_absent(self.entries@, t as int);
        }
        None
    }

    /// The record of tick `t`, the empty record where none is kept.
    pub fn get(&self, t: i32) -> (r: TickInfo)
        requires
            self.wf(),
        ensures
            r == self.info(t as int),
            r.liquidity_gross > 0 <==> r.initialized,
            r.liquidity_gross == 0 ==> r == TickInfo::empty_spec(),
    {
        match self.find(t) {
            Some(i) => {
                assert(self.entries@[i as int].1.liquidity_gross > 0);
                self.entries[i].1
            },
            None => TickInfo::empty(),
        }
    }

    /// Stores `v` as the record of tick `t`, or drops the record where `v`
    /// has no gross liquidity (and then no net liquidity).
    pub fn set(&mut self, t: i32, v: TickInfo)
        requires
            old(self).wf(),
            v.liquidity_gross > 0 <==> v.initialized,
            v.liquidity_gross == 0 ==> v.liquidity_net == 0,
        ensures
            final(self).wf(),
            final(self).total_net() == old(self).total_net() - old(self).info(t as int).liquidity_net
                + v.liquidity_net,
            forall|u: int| #[trigger] final(self).net_below(u) == old(self).net_below(u) + if t <= u {
                v.liquidity_net - old(self).info(t as int).liquidity_net
            } else {
                0
            },
            v.liquidity_gross > 0 ==> final(self).info(t as int) == v,
            v.liquidity_gross == 0 ==> final(self).info(t as int) == TickInfo::empty_spec(),
            forall|u: int| u != t ==> final(self).info(u) == old(self).info(u),
    {
        let ghost s = self.entries@;
        match self.find(t) {
            Some(i) => {
                if v.liquidity_gross > 0 {
                    self.entries[i] = (t, v);
                    proof {
                        lemma_net_sum_update(s, i as int, (t, v));
                        assert forall|u: int| #[trigger] self.net_below(u) == old(self).net_below(u) + if t <= u {
                            v.liquidity_net - old(self).info(t as int).liquidity_net
                        } else {
                            0
                        } by {
                            lemma_net_upto_update(s, i as int, (t, v), u);
                        }
                        assert forall|u: int| u != t implies self.info(u) == old(self).info(u) by {
                            self.lemma_info_update(s, i as int, (t, v), u);
                        }
                        assert forall|a: int, b: int| 0 <= a < b < self.entries@.len() implies self.entries@[a].0
                            != self.entries@[b].0 by {
                            assert(s[a].0 != s[b].0);
                        }
                        assert forall|a: int| 0 <= a < self.entries@.len() implies #[trigger] self.entries@[a].1.liquidity_gross > 0
                            && self.entries@[a].1.initialized by {
                            if a != i {
                                assert(s[a].1.liquidity_gross > 0);
                            }
                        }
                        self.lemma_unique(i as int);
                        lemma_lookup_found(self.entries@, i as int);
                    }
                } else {
                    self.entries.remove(i);
                    proof {
                        assert forall|a: int, b: int| 0 <= a < b < self.entries@.len() implies self.entries@[a].0
                            != self.entries@[b].0 by {
                            if a < i && b < i {
                                assert(s[a].0 != s[b].0);
                            } else if a < i {
                                assert(s[a].0 != s[b + 1].0);
                            } else {
                                assert(s[a + 1].0 != s[b + 1].0);
                            }
                        }
                        assert forall|a: int| 0 <= a < self.entries@.len() implies #[trigger] self.entries@[a].1.liquidity_gross > 0
                            && self.entries@[a].1.initialized by {
                            if a < i {
                                assert(s[a].1.liquidity_gross > 0);
                            } else {
                                assert(s[a + 1].1.liquidity_gross > 0);
                            }
                        }
                        lemma_net_sum_remove(s, i as int);
                        assert forall|u: int| #[trigger] self.net_below(u) == old(self).net_below(u) + if t <= u {
                            v.liquidity_net - old(self).info(t as int).liquidity_net
                        } else {
                            0
                        } by {
                            lemma_net_upto_remove(s, i as int, u);
                        }
                        assert forall|u: int| u != t implies self.info(u) == old(self).info(u) by {
                            self.lemma_info_remove(s, i as int, u);
                        }
                        lemma_lookup_absent(self.entries@, t as int);
                    }
                }
            },
            None => {
                if v.liquidity_gross > 0 {
                    self.entries.push((t, v));
                    proof {
                        assert(self.entries@.drop_last() =~= s);
                        assert forall|u: int| #[trigger] self.net_below(u) == old(self).net_below(u) + if t <= u {
                            v.liquidity_net - old(self).info(t as int).liquidity_net
                        } else {
                            0
                        } by {
                        }
                        assert forall|a: int, b: int| 0 <= a < b < self.entries@.len() implies self.entries@[a].0
                            != self.entries@[b].0 by {
                            if b < s.len() {
                                assert(s[a].0 != s[b].0);
                            }
                        }
                        assert forall|a: int| 0 <= a < self.entries@.len() implies #[trigger] self.entries@[a].1.liquidity_gross > 0
                            && self.entries@[a].1.initialized by {
                            if a < s.len() {
                                assert(s[a].1.liquidity_gross > 0);
                            }
                        }
                        lemma_lookup_found(self.entries@, s.len() as int);
                    }
                }
            },
        }
    }

    proof fn lemma_unique(&self, i: int)
        requires
            self.wf(),
            0 <= i < self.entries@.len(),
        ensures
            forall|j: int| 0 <= j < self.entries@.len() && j != i ==> self.entries@[j].0 != self.entries@[i].0,
    {
        assert forall|j: int| 0 <= j < self.entries@.len() && j != i implies self.entries@[j].0
            != self.entries@[i].0 by {
            if j < i {
            } else {
            }
        }
    }

    proof fn lemma_info_update(&self, s: Seq<(i32, TickInfo)>, i: int, v: (i32, TickInfo), u: int)
        requires
            0 <= i < s.len(),
            s[i].0 == v.0,
            u != v.0,
            self.entries@ == s.update(i, v),
        ensures
            lookup(self.entries@, u) == lookup(s, u),
        decreases s.len(),
    {
        lemma_lookup_update(s, i, v, u);
    }

    proof fn lemma_info_remove(&self, s: Seq<(i32, TickInfo)>, i: int, u: int)
        requires
            0 <= i < s.len(),
            u != s[i].0,
            self.entries@ == s.remove(i),
        ensures
            lookup(self.entries@, u) == lookup(s, u),
    {
        lemma_lookup_remove(s, i, u);
    }
}

proof fn lemma_lookup_entry(s: Seq<(i32, TickInfo)>, t: int)
    ensures
        lookup(s, t) matches Some(x) ==> exists|i: int| 0 <= i < s.len() && #[trigger] s[i].1 == x,
    decreases s.len(),
{
    if s.len() > 0 && s.last().0 != t {
        lemma_lookup_entry(s.drop_last(), t);
        if let Some(x) = lookup(s.drop_last(), t) {
            let i = choose|i: int| 0 <= i < s.drop_last().len() && #[trigger] s.drop_last()[i].1 == x;
            assert(s[i].1 == x);
        }
    } else if s.len() > 0 {
        assert(s[s.len() - 1].1 == s.last().1);
    }
}

proof fn lemma_lookup_update(s: Seq<(i32, TickInfo)>, i: int, v: (i32, TickInfo), u: int)
    requires
        0 <= i < s.len(),
        s[i].0 == v.0,
        u != v.0,
    ensures
        lookup(s.update(i, v), u) == lookup(s, u),
    decreases s.len(),
{
    let w = s.update(i, v);
    if i != s.len() - 1 {
        assert(w.drop_last() =~= s.drop_last().update(i, v));
        lemma_lookup_update(s.drop_last(), i, v, u);
    } else {
        assert(w.drop_last() =~= s.drop_last());
    }
}

proof fn lemma_lookup_remove(s: Seq<(i32, TickInfo)>, i: int, u: int)
    requires
        0 <= i < s.len(),
        u != s[i].0,
    ensures
        lookup(s.remove(i), u) == lookup(s, u),
    decreases s.len(),
{
    let w = s.remove(i);
    if i != s.len() - 1 {
        assert(w.drop_last() =~= s.drop_last().remove(i));
        assert(w.last() == s.last());
        lemma_lookup_remove(s.drop_last(), i, u);
    } else {
        assert(w =~= s.drop_last());
    }
}

/// The oracle and fee accumulators that a tick copies or flips.
#[derive(Clone, Copy, Debug, PartialEq, Eq, Structural)]
pub struct Globals {
    pub fee_growth_global_0x128: Uint256,
    pub fee_growth_global_1x128: Uint256,
    pub seconds_per_liquidity_cumulative_x128: Uint256,
    pub tick_cumulative: i64,
    pub time: u32,
}

/// The record of a tick after `delta` liquidity of a position that has it as
/// its lower (or, with `upper`, its upper) bound was added.
pub open spec fn updated_info(info: TickInfo, tick: int, tick_current: int, delta: int, g: Globals, upper: bool) -> TickInfo {
    let fresh = info.liquidity_gross == 0;
    let seed = fresh && tick <= tick_current;
    TickInfo {
        liquidity_gross: (info.liquidity_gross + delta) as u128,
        liquidity_net: (if upper { info.liquidity_net - delta } else { info.liquidity_net + delta }) as i128,
        fee_growth_outside_0x128: if seed { g.fee_growth_global_0x128 } else { info.fee_growth_outside_0x128 },
        fee_growth_outside_1x128: if seed { g.fee_growth_global_1x128 } else { info.fee_growth_outside_1x128 },
        tick_cumulative_outside: if seed { g.tick_cumulative } else { info.tick_cumulative_outside },
        seconds_per_liquidity_outside_x128: if seed {
            g.seconds_per_liquidity_cumulative_x128
        } else {
            info.seconds_per_liquidity_outside_x128
        },
        seconds_outside: if seed { g.time } else { info.seconds_outside },
        initialized: if fresh { true } else { info.initialized },
    }
}

/// Adds `delta` liquidity to a tick record: gross liquidity grows by `delta`
/// and net liquidity by `delta` for a lower bound, by `-delta` for an upper
/// one. A tick taking liquidity for the first time records the accumulators
/// as grown below it where it is at or below the current tick. Also says
/// whether the tick went from unreferenced to referenced or back.
pub fn update(
    info: &TickInfo,
    tick: i32,
    tick_current: i32,
    delta: i128,
    g: &Globals,
    upper: bool,
    max_liquidity: u128,
) -> (r: Result<(TickInfo, bool), LiquidityHelperError>)
    ensures
        r.is_ok() <==> {
            &&& 0 <= info.liquidity_gross + delta <= max_liquidity
            &&& i128::MIN <= (if upper { info.liquidity_net - delta } else { info.liquidity_net + delta }) <= i128::MAX
        },
        r matches Ok((n, flipped)) ==> {
            &&& n == updated_info(*info, tick as int, tick_current as int, delta as int, *g, upper)
            &&& flipped == ((info.liquidity_gross == 0) != (n.liquidity_gross == 0))
        },
        r is Err ==> r == Err::<(TickInfo, bool), LiquidityHelperError>(LiquidityHelperError::LiquidityOverflow),
{
    let gross_after = match add_delta(info.liquidity_gross, delta) {
        Ok(v) => v,
        Err(e) => {
            return Err(e);
        },
    };
    if gross_after > max_liquidity {
        return Err(LiquidityHelperError::LiquidityOverflow);
    }
    let net_after = if upper {
        info.liquidity_net.checked_sub(delta)
    } else {
        info.liquidity_net.checked_add(delta)
    };
    let net_after = match net_after {
        Some(v) => v,
        None => {
            return Err(LiquidityHelperError::LiquidityOverflow);
        },
    };
    let flipped = (gross_after == 0) != (info.liquidity_gross == 0);
    let mut n = *info;
    if info.liquidity_gross == 0 {
        if tick <= tick_current {
            n.fee_growth_outside_0x128 = g.fee_growth_global_0x128;
            n.fee_growth_outside_1x128 = g.fee_growth_global_1x128;
            n.seconds_per_liquidity_outside_x128 = g.seconds_per_liquidity_cumulative_x128;
            n.tick_cumulative_outside = g.tick_cumulative;
            n.seconds_outside = g.time;
        }
        n.initialized = true;
    }
    n.liquidity_gross = gross_after;
    n.liquidity_net = net_after;
    Ok((n, flipped))
}

/// The record of a tick after the price crossed it: each accumulator outside
/// becomes the global value less the old outside value.
pub open spec fn crossed_info(info: TickInfo, g: Globals) -> TickInfo {
    TickInfo {
        fee_growth_outside_0x128: Uint256::from_nat(
            wrap256(g.fee_growth_global_0x128@ - info.fee_growth_outside_0x128@),
        ),
        fee_growth_outside_1x128: Uint256::from_nat(
            wrap256(g.fee_growth_global_1x128@ - info.fee_growth_outside_1x128@),
        ),
        seconds_per_liquidity_outside_x128: Uint256::from_nat(
            wrap256(g.seconds_per_liquidity_cumulative_x128@ - info.seconds_per_liquidity_outside_x128@),
        ),
        tick_cumulative_outside: g.tick_cumulative.wrapping_sub(info.tick_cumulative_outside),
        seconds_outside: g.time.wrapping_sub(info.seconds_outside),
        ..info
    }
}

/// Crosses tick `tick`: flips its accumulators outside to the other side and
/// gives the net liquidity to apply. A tick without a record keeps none.
pub fn cross(ticks: &mut Ticks, tick: i32, g: &Globals) -> (r: i128)
    requires
        old(ticks).wf(),
    ensures
        final(ticks).wf(),
        r == old(ticks).info(tick as int).liquidity_net,
        final(ticks).total_net() == old(ticks).total_net(),
        forall|u: int| #[trigger] final(ticks).net_below(u) == old(ticks).net_below(u),
        old(ticks).info(tick as int).liquidity_gross > 0 ==> final(ticks).info(tick as int)
            == crossed_info(old(ticks).info(tick as int), *g),
        forall|u: int| u != tick ==> final(ticks).info(u) == old(ticks).info(u),
        old(ticks).info(tick as int).liquidity_gross == 0 ==> *final(ticks) == *old(ticks),
{
    let info = ticks.get(tick);
    if info.liquidity_gross > 0 {
        let mut n = info;
        n.fee_growth_outside_0x128 = g.fee_growth_global_0x128.wrapping_sub(&info.fee_growth_outside_0x128);
        n.fee_growth_outside_1x128 = g.fee_growth_global_1x128.wrapping_sub(&info.fee_growth_outside_1x128);
        n.seconds_per_liquidity_outside_x128 = g.seconds_per_liquidity_cumulative_x128.wrapping_sub(
            &info.seconds_per_liquidity_outside_x128,
        );
        n.tick_cumulative_outside = g.tick_cumulative.wrapping_sub(info.tick_cumulative_outside);
        n.seconds_outside = g.time.wrapping_sub(info.seconds_outside);
        proof {
            Uint256::lemma_from_nat(n.fee_growth_outside_0x128);
            Uint256::lemma_from_nat(n.fee_growth_outside_1x128);
            Uint256::lemma_from_nat(n.seconds_per_liquidity_outside_x128);
        }
        ticks.set(tick, n);
    }
    info.liquidity_net
}

/// Fee growth per unit of liquidity inside `[lower, upper]`, for one token:
/// the global growth less the growth below the lower tick and above the
/// upper tick, as seen from the current tick, modulo 2^256.
pub open spec fn growth_inside(
    global: nat,
    lower_outside: nat,
    upper_outside: nat,
    tick_lower: int,
    tick_upper: int,
    tick_current: int,
) -> nat {
    let below = if tick_current >= tick_lower { lower_outside } else { wrap256(global - lower_outside) };
    let above = if tick_current < tick_upper { upper_outside } else { wrap256(global - upper_outside) };
    wrap256(global - below - above)
}

fn growth_inside_one(
    global: &Uint256,
    lower_outside: &Uint256,
    upper_outside: &Uint256,
    tick_lower: i32,
    tick_upper: i32,
    tick_current: i32,
) -> (r: Uint256)
    ensures
        r@ == growth_inside(global@, lower_outside@, upper_outside@, tick_lower as int, tick_upper as int, tick_current as int),
{
    let below = if tick_current >= tick_lower { *lower_outside } else { global.wrapping_sub(lower_outside) };
    let above = if tick_current < tick_upper { *upper_outside } else { global.wrapping_sub(upper_outside) };
    let d = global.wrapping_sub(&below);
    proof {
        crate::wide::lemma_wrap256_sub(global@ as int, below@ as int, above@ as int);
    }
    d.wrapping_sub(&above)
}

/// Fee growth per unit of liquidity of both tokens inside `[tick_lower, tick_upper]`.
pub fn get_fee_growth_inside(
    lower: &TickInfo,
    upper: &TickInfo,
    tick_lower: i32,
    tick_upper: i32,
    tick_current: i32,
    fee_growth_global_0x128: &Uint256,
    fee_growth_global_1x128: &Uint256,
) -> (r: (Uint256, Uint256))
    ensures
        r.0@ == growth_inside(
            fee_growth_global_0x128@,
            lower.fee_growth_outside_0x128@,
            upper.fee_growth_outside_0x128@,
            tick_lower as int,
            tick_upper as int,
            tick_current as int,
        ),
        r.1@ == growth_inside(
            fee_growth_global_1x128@,
            lower.fee_growth_outside_1x128@,
            upper.fee_growth_outside_1x128@,
            tick_lower as int,
            tick_upper as int,
            tick_current as int,
        ),
{
    (
        growth_inside_one(
            fee_growth_global_0x128,
            &lower.fee_growth_outside_0x128,
            &upper.fee_growth_outside_0x128,
            tick_lower,
            tick_upper,
            tick_current,
        ),
        growth_inside_one(
            fee_growth_global_1x128,
            &lower.fee_growth_outside_1x128,
            &upper.fee_growth_outside_1x128,
            tick_lower,
            tick_upper,
            tick_current,
        ),
    )
}

} // verus!
