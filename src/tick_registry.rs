//! Per-tick liquidity accounting with a presence flag for each tick.
use vstd::prelude::*;
use crate::error::PoolError;
use crate::price_math::{MAX_TICK, MIN_TICK, tick_in_range};

verus! {

/// Most liquidity that a single tick may reference, and the largest
/// magnitude of its net liquidity.
pub const MAX_LIQUIDITY: u64 = 0xFFFF_FFFF_FFFF_FFFF;

/// Number of ticks in the domain `[MIN_TICK, MAX_TICK]`.
pub const NUM_TICKS: usize = 21;

/// Liquidity accounting at one tick.
#[derive(Clone, Copy, Debug, PartialEq, Eq, Structural)]
pub struct Tick {
    /// The tick's index.
    pub index: i32,
    /// Total liquidity of the positions that have this tick as a bound.
    pub liquidity_gross: u64,
    /// Change of active liquidity when the price crosses this tick upward.
    pub liquidity_net: i128,
    /// Whether the tick holds liquidity.
    pub initialized: bool,
}

/// Sum of `liquidity_net` over a sequence of ticks.
pub open spec fn net_total(s: Seq<Tick>) -> int
    decreases s.len(),
{
    if s.len() == 0 {
        0
    } else {
        net_total(s.drop_last()) + s.last().liquidity_net
    }
}

/// Replacing one tick changes the net total by the change of that tick's net.
pub proof fn lemma_net_total_update(s: Seq<Tick>, i: int, t: Tick)
    requires
        0 <= i < s.len(),
    ensures
        net_total(s.update(i, t)) == net_total(s) - s[i].liquidity_net + t.liquidity_net,
    decreases s.len(),
{
    let u = s.update(i, t);
    if i == s.len() - 1 {
        assert(u.drop_last() =~= s.drop_last());
    } else {
        lemma_net_total_update(s.drop_last(), i, t);
        assert(u.drop_last() =~= s.drop_last().update(i, t));
    }
}

/// Every tick is fresh: no liquidity, not initialized.
pub open spec fn all_empty(s: Seq<Tick>) -> bool {
    forall|i: int| 0 <= i < s.len() ==> (#[trigger] s[i]).liquidity_gross == 0
        && s[i].liquidity_net == 0
}

/// A sequence of ticks that are all empty has net total 0.
pub proof fn lemma_net_total_empty(s: Seq<Tick>)
    requires
        all_empty(s),
    ensures
        net_total(s) == 0,
    decreases s.len(),
{
    if s.len() > 0 {
        assert(all_empty(s.drop_last()));
        lemma_net_total_empty(s.drop_last());
    }
}

/// Position of tick `t` in the registry's storage.
pub open spec fn slot(t: int) -> int {
    t - MIN_TICK
}

/// The tick that results from adding `liquidity * net_sign` to `t`.
pub open spec fn added(t: Tick, liquidity: int, net_sign: int) -> Tick {
    Tick {
        index: t.index,
        liquidity_gross: (t.liquidity_gross + liquidity) as u64,
        liquidity_net: (t.liquidity_net + net_sign * liquidity) as i128,
        initialized: t.liquidity_gross + liquidity > 0,
    }
}

/// The tick that results from removing `liquidity * net_sign` from `t`.
pub open spec fn removed(t: Tick, liquidity: int, net_sign: int) -> Tick {
    Tick {
        index: t.index,
        liquidity_gross: (t.liquidity_gross - liquidity) as u64,
        liquidity_net: (t.liquidity_net - net_sign * liquidity) as i128,
        initialized: t.liquidity_gross - liquidity > 0,
    }
}

/// Whether `net` lies within the bound on a tick's net liquidity.
pub open spec fn net_in_bounds(net: int) -> bool {
    -(MAX_LIQUIDITY as int) <= net <= MAX_LIQUIDITY
}

/// Sparse ledger of per-tick liquidity over the domain `[MIN_TICK, MAX_TICK]`.
pub struct TickRegistry {
    ticks: Vec<Tick>,
}

impl View for TickRegistry {
    type V = Seq<Tick>;

    closed spec fn view(&self) -> Seq<Tick> {
        self.ticks@
    }
}

impl TickRegistry {
    /// One entry per tick of the domain, in order; each is initialized
    /// exactly when it holds liquidity, and its net stays within bounds.
    pub open spec fn wf(&self) -> bool {
        &&& self@.len() == NUM_TICKS
        &&& forall|i: int|
            0 <= i < NUM_TICKS ==> {
                let t = #[trigger] self@[i];
                &&& t.index == MIN_TICK + i
                &&& t.initialized == (t.liquidity_gross > 0)
                &&& net_in_bounds(t.liquidity_net as int)
            }
    }

    /// The accounting of tick `t`.
    pub open spec fn tick_at(&self, t: int) -> Tick {
        self@[slot(t)]
    }

    /// Whether tick `t` is in the domain and holds liquidity.
    pub open spec fn is_initialized(&self, t: int) -> bool {
        tick_in_range(t) && self.tick_at(t).initialized
    }

    /// Whether adding `liquidity` with `net_sign` at tick `t` stays within
    /// `MAX_LIQUIDITY`.
    pub open spec fn can_add(&self, t: int, liquidity: int, net_sign: int) -> bool {
        &&& self.tick_at(t).liquidity_gross + liquidity <= MAX_LIQUIDITY
        &&& net_in_bounds(self.tick_at(t).liquidity_net + net_sign * liquidity)
    }

    /// Whether removing `liquidity` with `net_sign` at tick `t` leaves the
    /// gross liquidity nonnegative and the net within bounds.
    pub open spec fn can_remove(&self, t: int, liquidity: int, net_sign: int) -> bool {
        &&& liquidity <= self.tick_at(t).liquidity_gross
        &&& net_in_bounds(self.tick_at(t).liquidity_net - net_sign * liquidity)
    }

    /// A registry in which no tick holds liquidity.
    pub fn new() -> (r: TickRegistry)
        ensures
            r.wf(),
            all_empty(r@),
            net_total(r@) == 0,
    {
        let mut ticks: Vec<Tick> = Vec::new();
        let mut i: i32 = MIN_TICK;
        while i <= MAX_TICK
            invariant
                MIN_TICK <= i <= MAX_TICK + 1,
                ticks@.len() == i - MIN_TICK,
                forall|j: int|
                    0 <= j < ticks@.len() ==> #[trigger] ticks@[j] == (Tick {
                        index: (MIN_TICK + j) as i32,
                        liquidity_gross: 0,
                        liquidity_net: 0,
                        initialized: false,
                    }),
            decreases MAX_TICK + 1 - i,
        {
            ticks.push(Tick { index: i, liquidity_gross: 0, liquidity_net: 0, initialized: false });
            i = i + 1;
        }
        let r = TickRegistry { ticks };
        proof {
            lemma_net_total_empty(r@);
        }
        r
    }

    /// The accounting of tick `index`, if it lies in the domain and is
    /// initialized; a cleared presence flag reads as no liquidity.
    pub fn get(&self, index: i32) -> (r: Option<Tick>)
        requires
            self.wf(),
        ensures
            r == (if self.is_initialized(index as int) {
                Some(self.tick_at(index as int))
            } else {
                None
            }),
    {
        if index < MIN_TICK || index > MAX_TICK {
            return None;
        }
        let t = self.ticks[(index - MIN_TICK) as usize];
        if t.initialized {
            Some(t)
        } else {
            None
        }
    }

    /// Gross liquidity at tick `index`, or 0 where it is not initialized.
    pub fn gross_at(&self, index: i32) -> (r: u64)
        requires
            self.wf(),
        ensures
            r == (if self.is_initialized(index as int) {
                self.tick_at(index as int).liquidity_gross
            } else {
                0
            }),
    {
        match self.get(index) {
            Some(t) => t.liquidity_gross,
            None => 0,
        }
    }

    /// Net liquidity at tick `index`, or 0 where it is not initialized.
    pub fn net_at(&self, index: i32) -> (r: i128)
        requires
            self.wf(),
        ensures
            r == (if self.is_initialized(index as int) {
                self.tick_at(index as int).liquidity_net
            } else {
                0
            }),
    {
        match self.get(index) {
            Some(t) => t.liquidity_net,
            None => 0,
        }
    }

    /// Whether adding at tick `index` would succeed.
    pub fn fits_add(&self, index: i32, liquidity: u64, net_sign: i8) -> (r: bool)
        requires
            self.wf(),
            tick_in_range(index as int),
            net_sign == 1 || net_sign == -1,
        ensures
            r == self.can_add(index as int, liquidity as int, net_sign as int),
    {
        let t = self.ticks[(index - MIN_TICK) as usize];
        let room: u64 = MAX_LIQUIDITY - t.liquidity_gross;
        let net: i128 = if net_sign > 0 {
            t.liquidity_net + liquidity as i128
        } else {
            t.liquidity_net - liquidity as i128
        };
        liquidity <= room && -(MAX_LIQUIDITY as i128) <= net && net <= MAX_LIQUIDITY as i128
    }

    /// Whether removing at tick `index` would succeed.
    pub fn fits_remove(&self, index: i32, liquidity: u64, net_sign: i8) -> (r: bool)
        requires
            self.wf(),
            tick_in_range(index as int),
            net_sign == 1 || net_sign == -1,
        ensures
            r == self.can_remove(index as int, liquidity as int, net_sign as int),
    {
        let t = self.ticks[(index - MIN_TICK) as usize];
        let net: i128 = if net_sign > 0 {
            t.liquidity_net - liquidity as i128
        } else {
            t.liquidity_net + liquidity as i128
        };
        liquidity <= t.liquidity_gross && -(MAX_LIQUIDITY as i128) <= net && net
            <= MAX_LIQUIDITY as i128
    }

    /// Adds `liquidity` to the gross liquidity of tick `index` and
    /// `net_sign * liquidity` to its net, marking it initialized when it then
    /// holds liquidity. Refuses a tick outside the domain and a result beyond
    /// `MAX_LIQUIDITY`, leaving the registry unchanged.
    pub fn add_liquidity(&mut self, index: i32, liquidity: u64, net_sign: i8) -> (r: Result<
        (),
        PoolError,
    >)
        requires
            old(self).wf(),
            net_sign == 1 || net_sign == -1,
        ensures
            final(self).wf(),
            r is Ok <==> tick_in_range(index as int) && old(self).can_add(
                index as int,
                liquidity as int,
                net_sign as int,
            ),
            r == Err::<(), PoolError>(PoolError::InvalidRange) <==> !tick_in_range(index as int),
            r is Ok ==> final(self)@ == old(self)@.update(
                slot(index as int),
                added(old(self).tick_at(index as int), liquidity as int, net_sign as int),
            ),
            r is Err ==> final(self)@ == old(self)@,
            r is Err ==> r == Err::<(), PoolError>(PoolError::InvalidRange) || r == Err::<
                (),
                PoolError,
            >(PoolError::LiquidityOverflow),
    {
        if index < MIN_TICK || index > MAX_TICK {
            return Err(PoolError::InvalidRange);
        }
        if !self.fits_add(index, liquidity, net_sign) {
            return Err(PoolError::LiquidityOverflow);
        }
        let s = (index - MIN_TICK) as usize;
        let t = self.ticks[s];
        let gross = t.liquidity_gross + liquidity;
        let net: i128 = if net_sign > 0 {
            t.liquidity_net + liquidity as i128
        } else {
            t.liquidity_net - liquidity as i128
        };
        self.ticks.set(s, Tick { index: t.index, liquidity_gross: gross, liquidity_net: net, initialized: gross > 0 });
        proof {
            assert(final(self)@ =~= old(self)@.update(
                slot(index as int),
                added(old(self).tick_at(index as int), liquidity as int, net_sign as int),
            ));
        }
        Ok(())
    }
    /// Inverse of `add_liquidity`: subtracts `liquidity` from the gross
    /// liquidity of tick `index` and `net_sign * liquidity` from its net,
    /// clearing its presence flag when the gross liquidity reaches 0. Refuses
    /// a tick outside the domain and a removal of more than the tick holds,
    /// leaving the registry unchanged.
    pub fn remove_liquidity(&mut self, index: i32, liquidity: u64, net_sign: i8) -> (r: Result<
        (),
        PoolError,
    >)
        requires
            old(self).wf(),
            net_sign == 1 || net_sign == -1,
        ensures
            final(self).wf(),
            r is Ok <==> tick_in_range(index as int) && old(self).can_remove(
                index as int,
                liquidity as int,
                net_sign as int,
            ),
            r == Err::<(), PoolError>(PoolError::InvalidRange) <==> !tick_in_range(index as int),
            r is Ok ==> final(self)@ == old(self)@.update(
                slot(index as int),
                removed(old(self).tick_at(index as int), liquidity as int, net_sign as int),
            ),
            r is Err ==> final(self)@ == old(self)@,
            r is Err ==> r == Err::<(), PoolError>(PoolError::InvalidRange) || r == Err::<
                (),
                PoolError,
            >(PoolError::LiquidityUnderflow),
    {
        if index < MIN_TICK || index > MAX_TICK {
            return Err(PoolError::InvalidRange);
        }
        if !self.fits_remove(index, liquidity, net_sign) {
            return Err(PoolError::LiquidityUnderflow);
        }
        let s = (index - MIN_TICK) as usize;
        let t = self.ticks[s];
        let gross = t.liquidity_gross - liquidity;
        let net: i128 = if net_sign > 0 {
            t.liquidity_net - liquidity as i128
        } else {
            t.liquidity_net + liquidity as i128
        };
        self.ticks.set(s, Tick { index: t.index, liquidity_gross: gross, liquidity_net: net, initialized: gross > 0 });
        proof {
            assert(final(self)@ =~= old(self)@.update(
                slot(index as int),
                removed(old(self).tick_at(index as int), liquidity as int, net_sign as int),
            ));
        }
        Ok(())
    }

    /// The nearest initialized tick strictly above `tick` (`upward`) or
    /// strictly below it (`!upward`), if there is one in the domain.
    pub fn find_next_initialized(&self, tick: i32, upward: bool) -> (r: Option<i32>)
        requires
            self.wf(),
        ensures
            r matches Some(n) ==> self.is_initialized(n as int),
            r is Some ==> (upward ==> tick < r->0) && (!upward ==> r->0 < tick),
            r matches Some(n) ==> forall|m: int|
                (if upward {
                    tick < m < n
                } else {
                    n < m < tick
                }) ==> !#[trigger] self.is_initialized(m),
            r is None ==> forall|m: int|
                (if upward {
                    tick < m
                } else {
                    m < tick
                }) ==> !#[trigger] self.is_initialized(m),
    {
        if upward {
            let mut m: i32 = if tick < MIN_TICK { MIN_TICK } else if tick >= MAX_TICK { MAX_TICK + 1 } else { tick + 1 };
            while m <= MAX_TICK
                invariant
                    self.wf(),
                    upward,
                    MIN_TICK <= m <= MAX_TICK + 1,
                    m <= MAX_TICK ==> tick < m,
                    forall|k: int| tick < k < m ==> !#[trigger] self.is_initialized(k),
                decreases MAX_TICK + 1 - m,
            {
                if self.ticks[(m - MIN_TICK) as usize].initialized {
                    assert(self.is_initialized(m as int));
                    return Some(m);
                }
                m = m + 1;
            }
            None
        } else {
            let mut m: i32 = if tick > MAX_TICK { MAX_TICK } else if tick <= MIN_TICK { MIN_TICK - 1 } else { tick - 1 };
            while m >= MIN_TICK
                invariant
                    self.wf(),
                    !upward,
                    MIN_TICK - 1 <= m <= MAX_TICK,
                    MIN_TICK <= m ==> m < tick,
                    forall|k: int| m < k < tick ==> !#[trigger] self.is_initialized(k),
                decreases m + 1 - MIN_TICK,
            {
                if self.ticks[(m - MIN_TICK) as usize].initialized {
                    assert(self.is_initialized(m as int));
                    return Some(m);
                }
                m = m - 1;
            }
            None
        }
    }
}

} // verus!
