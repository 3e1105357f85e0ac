//! A single pool: its price, its tick registry, and the operations that
//! open and close positions and swap tokens against it.
use vstd::prelude::*;
use vstd::arithmetic::div_mod::{lemma_div_is_ordered, lemma_div_is_ordered_by_denominator};
use crate::error::PoolError;
use crate::price_math::{
    MAX_TICK,
    MIN_TICK,
    PRICE_SCALE,
    lemma_sqrt_price_bounds,
    lemma_sqrt_price_monotonic,
    sqrt_price_at,
    tick_in_range,
    tick_to_sqrt_price,
};
use crate::tick_registry::{MAX_LIQUIDITY, TickRegistry, added, all_empty, lemma_net_total_update, net_total, removed, slot};

verus! {

/// Balances of the two tokens held by one account.
pub struct Account {
    /// The account's identifier.
    pub id: String,
    /// Amount of token A held.
    pub balance_a: u128,
    /// Amount of token B held.
    pub balance_b: u128,
}

impl Account {
    /// An account with the given identifier and balances.
    pub fn new(id: String, balance_a: u128, balance_b: u128) -> (r: Account)
        ensures
            r.id@ == id@,
            r.balance_a == balance_a,
            r.balance_b == balance_b,
    {
        Account { id, balance_a, balance_b }
    }
}

/// Liquidity provided by an account over the tick range
/// `[lower_tick, upper_tick]`.
pub struct Position {
    /// Identifier of the account that opened the position.
    pub account_id: String,
    /// Lower bound of the range.
    pub lower_tick: i32,
    /// Upper bound of the range.
    pub upper_tick: i32,
    /// Liquidity provided over the range.
    pub liquidity: u64,
}

/// What a swap consumed and paid out.
#[derive(Clone, Copy, Debug, PartialEq, Eq, Structural)]
pub struct SwapResult {
    /// Input actually consumed; less than requested on a partial fill.
    pub amount_in: u128,
    /// Output paid to the account.
    pub amount_out: u128,
}

/// Whether `[lower, upper]` is a nonempty range of the domain carrying
/// positive liquidity.
pub open spec fn valid_range(lower: int, upper: int, liquidity: int) -> bool {
    &&& MIN_TICK <= lower
    &&& lower < upper
    &&& upper <= MAX_TICK
    &&& liquidity > 0
}

/// `p` moved into `[lo, hi]`.
pub open spec fn clamp_price(p: int, lo: int, hi: int) -> int {
    if p < lo {
        lo
    } else if p > hi {
        hi
    } else {
        p
    }
}

/// Token A owed for `liquidity` over `[lower, upper]` at square-root price
/// `p`: `liquidity * (1/q - 1/sqrt_price(upper))` with `q` the price moved
/// into the range, so that a range above the price takes token A only.
pub open spec fn deposit_a(liquidity: int, p: int, lower: int, upper: int) -> int {
    let q = clamp_price(p, sqrt_price_at(lower), sqrt_price_at(upper));
    liquidity * PRICE_SCALE / q - liquidity * PRICE_SCALE / sqrt_price_at(upper)
}

/// Token B owed for `liquidity` over `[lower, upper]` at square-root price
/// `p`: `liquidity * (q - sqrt_price(lower))` with `q` as for token A, so
/// that a range below the price takes token B only.
pub open spec fn deposit_b(liquidity: int, p: int, lower: int, upper: int) -> int {
    let q = clamp_price(p, sqrt_price_at(lower), sqrt_price_at(upper));
    liquidity * (q - sqrt_price_at(lower)) / (PRICE_SCALE as int)
}

/// The square-root price at which a position over `[lower, upper]` is
/// withdrawn: the bound nearest the price when the current tick lies outside
/// the range, and the live price when it lies inside.
pub open spec fn withdrawal_price(tick: int, p: int, lower: int, upper: int) -> int {
    if tick < lower {
        sqrt_price_at(lower)
    } else if tick > upper {
        sqrt_price_at(upper)
    } else {
        p
    }
}

/// Token A paid out for `liquidity` at withdrawal price `w`: `liquidity / w`.
pub open spec fn withdrawal_a(liquidity: int, w: int) -> int {
    liquidity * PRICE_SCALE / w
}

/// Token B paid out for `liquidity` at withdrawal price `w`: `liquidity * w`.
pub open spec fn withdrawal_b(liquidity: int, w: int) -> int {
    liquidity * w / (PRICE_SCALE as int)
}

/// Most liquidity a tick can hold, as an integer.
pub open spec fn liquidity_cap() -> int {
    MAX_LIQUIDITY as int
}

/// Outcome of swapping `remaining` of token A for token B, starting at tick
/// `t` with square-root price `p` and active liquidity `liq`, as
/// `(final tick, final price, input consumed, output paid)`.
///
/// Within a segment of constant liquidity the price would move by
/// `liq / remaining`. If that stays within the next tick's price, the whole
/// input is consumed, the output is `liq * delta`, and the swap ends there.
/// Otherwise the segment runs to the boundary: it consumes
/// `liq * (1/p - 1/boundary)` (at most what remains), pays
/// `liq * (boundary - p)`, and the swap moves to the next tick. There it
/// continues with that tick's gross liquidity if the tick is initialized,
/// and stops otherwise, even with input left. It also stops at `MAX_TICK`.
pub open spec fn swap_run(reg: TickRegistry, t: int, p: int, liq: int, remaining: int) -> (
    int,
    int,
    int,
    int,
)
    decreases MAX_TICK - t,
{
    if remaining <= 0 || t >= MAX_TICK {
        (t, p, 0, 0)
    } else {
        let next = sqrt_price_at(t + 1);
        let delta = liq * PRICE_SCALE / remaining;
        if p + delta <= next {
            (t, p + delta, remaining, liq * delta / (PRICE_SCALE as int))
        } else {
            let need = liq * PRICE_SCALE / p - liq * PRICE_SCALE / next;
            let step_in = if need < remaining {
                need
            } else {
                remaining
            };
            let step_out = liq * (next - p) / (PRICE_SCALE as int);
            if reg.is_initialized(t + 1) {
                let rest = swap_run(
                    reg,
                    t + 1,
                    next,
                    reg.tick_at(t + 1).liquidity_gross as int,
                    remaining - step_in,
                );
                (rest.0, rest.1, step_in + rest.2, step_out + rest.3)
            } else {
                (t + 1, next, step_in, step_out)
            }
        }
    }
}

/// Whether `p` lies in the price segment of tick `t`.
pub open spec fn price_in_segment(t: int, p: int) -> bool {
    &&& tick_in_range(t)
    &&& sqrt_price_at(t) <= p
    &&& t < MAX_TICK ==> p <= sqrt_price_at(t + 1)
    &&& t == MAX_TICK ==> p == sqrt_price_at(MAX_TICK as int)
}

/// A swap ends in a price segment at or above the one it started in,
/// consumes no more than it was given, and pays at most `liquidity_cap()` per tick
/// it passes.
pub proof fn lemma_swap_run_bounds(reg: TickRegistry, t: int, p: int, liq: int, remaining: int)
    requires
        reg.wf(),
        price_in_segment(t, p),
        0 <= liq <= liquidity_cap(),
        0 <= remaining,
    ensures
        ({
            let r = swap_run(reg, t, p, liq, remaining);
            &&& price_in_segment(r.0, r.1)
            &&& t <= r.0
            &&& 0 <= r.2 <= remaining
            &&& 0 <= r.3 <= (MAX_TICK - t + 1) * liquidity_cap()
        }),
    decreases MAX_TICK - t,
{
    if remaining <= 0 || t >= MAX_TICK {
    } else {
        let next = sqrt_price_at(t + 1);
        lemma_sqrt_price_bounds(t);
        lemma_sqrt_price_bounds(t + 1);
        lemma_sqrt_price_monotonic(t, t + 1);
        assert(0 <= liq * PRICE_SCALE) by (nonlinear_arith)
            requires 0 <= liq;
        let delta = liq * PRICE_SCALE / remaining;
        if p + delta <= next {
            assert(liq * delta <= liq * PRICE_SCALE) by (nonlinear_arith)
                requires 0 <= liq, 0 <= delta <= PRICE_SCALE;
            lemma_div_is_ordered(liq * delta, liq * PRICE_SCALE, PRICE_SCALE as int);
            assert(liq * PRICE_SCALE / (PRICE_SCALE as int) == liq) by (nonlinear_arith);
            assert(0 <= liq * delta) by (nonlinear_arith)
                requires 0 <= liq, 0 <= delta;
        } else {
            lemma_div_is_ordered_by_denominator(liq * PRICE_SCALE, p, next);
            assert(liq * (next - p) <= liq * PRICE_SCALE) by (nonlinear_arith)
                requires 0 <= liq, 0 <= next - p <= PRICE_SCALE;
            lemma_div_is_ordered(liq * (next - p), liq * PRICE_SCALE, PRICE_SCALE as int);
            assert(liq * PRICE_SCALE / (PRICE_SCALE as int) == liq) by (nonlinear_arith);
            assert(0 <= liq * (next - p)) by (nonlinear_arith)
                requires 0 <= liq, 0 <= next - p;
            if reg.is_initialized(t + 1) {
                let need = liq * PRICE_SCALE / p - liq * PRICE_SCALE / next;
                let step_in = if need < remaining {
                    need
                } else {
                    remaining
                };
                assert(reg@[slot(t + 1)].liquidity_gross <= liquidity_cap());
                lemma_swap_run_bounds(
                    reg,
                    t + 1,
                    next,
                    reg.tick_at(t + 1).liquidity_gross as int,
                    remaining - step_in,
                );
            }
        }
    }
}

/// Outcome of swapping `remaining` of token B for token A, the mirror image
/// of `swap_run`: starting at tick `t` with square-root price `p` and active
/// liquidity `liq`, as `(final tick, final price, input consumed, output paid)`.
///
/// Within a segment the price would move down by `liq / remaining`. If that
/// stays at or above the current tick's price, the whole input is consumed,
/// the output is `liq * delta`, and the swap ends there. Otherwise the
/// segment runs down to the tick's price: it consumes `liq * (p - boundary)`
/// (at most what remains) and pays `liq * (1/boundary - 1/p)`. At `MIN_TICK`
/// the swap stops there; elsewhere it moves to the tick below and continues
/// with that tick's gross liquidity if it is initialized, and stops otherwise.
pub open spec fn swap_down_run(reg: TickRegistry, t: int, p: int, liq: int, remaining: int) -> (
    int,
    int,
    int,
    int,
)
    decreases t - MIN_TICK,
{
    if remaining <= 0 {
        (t, p, 0, 0)
    } else {
        let low = sqrt_price_at(t);
        let delta = liq * PRICE_SCALE / remaining;
        if delta <= p - low {
            (t, p - delta, remaining, liq * delta / (PRICE_SCALE as int))
        } else {
            let need = liq * (p - low) / (PRICE_SCALE as int);
            let step_in = if need < remaining {
                need
            } else {
                remaining
            };
            let step_out = liq * PRICE_SCALE / low - liq * PRICE_SCALE / p;
            if t <= MIN_TICK {
                (t, low, step_in, step_out)
            } else if reg.is_initialized(t - 1) {
                let rest = swap_down_run(
                    reg,
                    t - 1,
                    low,
                    reg.tick_at(t - 1).liquidity_gross as int,
                    remaining - step_in,
                );
                (rest.0, rest.1, step_in + rest.2, step_out + rest.3)
            } else {
                (t - 1, low, step_in, step_out)
            }
        }
    }
}

/// A swap of token B ends in a price segment at or below the one it started
/// in, consumes no more than it was given, and pays at most `liquidity_cap()` per
/// tick it passes.
pub proof fn lemma_swap_down_run_bounds(
    reg: TickRegistry,
    t: int,
    p: int,
    liq: int,
    remaining: int,
)
    requires
        reg.wf(),
        price_in_segment(t, p),
        0 <= liq <= liquidity_cap(),
        0 <= remaining,
    ensures
        ({
            let r = swap_down_run(reg, t, p, liq, remaining);
            &&& price_in_segment(r.0, r.1)
            &&& r.0 <= t
            &&& 0 <= r.2 <= remaining
            &&& 0 <= r.3 <= (t - MIN_TICK + 1) * liquidity_cap()
        }),
    decreases t - MIN_TICK,
{
    if remaining <= 0 {
    } else {
        let low = sqrt_price_at(t);
        lemma_sqrt_price_bounds(t);
        if t < MAX_TICK {
            lemma_sqrt_price_bounds(t + 1);
        }
        assert(0 <= liq * PRICE_SCALE) by (nonlinear_arith)
            requires 0 <= liq;
        let delta = liq * PRICE_SCALE / remaining;
        assert(liq * PRICE_SCALE / (PRICE_SCALE as int) == liq) by (nonlinear_arith);
        if delta <= p - low {
            assert(liq * delta <= liq * PRICE_SCALE) by (nonlinear_arith)
                requires 0 <= liq, 0 <= delta <= PRICE_SCALE;
            lemma_div_is_ordered(liq * delta, liq * PRICE_SCALE, PRICE_SCALE as int);
            assert(0 <= liq * delta) by (nonlinear_arith)
                requires 0 <= liq, 0 <= delta;
        } else {
            lemma_div_is_ordered_by_denominator(liq * PRICE_SCALE, low, p);
            lemma_div_is_ordered_by_denominator(liq * PRICE_SCALE, PRICE_SCALE as int, low);
            assert(0 <= liq * (p - low)) by (nonlinear_arith)
                requires 0 <= liq, 0 <= p - low;
            if t > MIN_TICK {
                lemma_sqrt_price_monotonic(t - 1, t);
                if reg.is_initialized(t - 1) {
                    let need = liq * (p - low) / (PRICE_SCALE as int);
                    let step_in = if need < remaining {
                        need
                    } else {
                        remaining
                    };
                    assert(reg@[slot(t - 1)].liquidity_gross <= liquidity_cap());
                    lemma_swap_down_run_bounds(
                        reg,
                        t - 1,
                        low,
                        reg.tick_at(t - 1).liquidity_gross as int,
                        remaining - step_in,
                    );
                }
            }
        }
    }
}

impl Position {
    /// Opens a position through `pool.open_position`, with the bounds given
    /// upper first. The contract is `open_position`'s.
    pub fn new(
        pool: &mut Pool,
        account: &mut Account,
        upper_tick_index: i32,
        lower_tick_index: i32,
        liquidity: u64,
    ) -> (r: Result<Position, PoolError>)
        requires
            old(pool).wf(),
        ensures
            final(pool).wf(),
            net_total(final(pool).registry@) == 0,
            !valid_range(lower_tick_index as int, upper_tick_index as int, liquidity as int) <==> r == Err::<
                Position,
                PoolError,
            >(PoolError::InvalidRange),
            r == Err::<Position, PoolError>(PoolError::InsufficientBalance) <==> valid_range(
                lower_tick_index as int,
                upper_tick_index as int,
                liquidity as int,
            ) && (old(account).balance_a < deposit_a(
                liquidity as int,
                old(pool).current_sqrt_price as int,
                lower_tick_index as int,
                upper_tick_index as int,
            ) || old(account).balance_b < deposit_b(
                liquidity as int,
                old(pool).current_sqrt_price as int,
                lower_tick_index as int,
                upper_tick_index as int,
            )),
            r is Ok <==> valid_range(lower_tick_index as int, upper_tick_index as int, liquidity as int)
                && old(account).balance_a >= deposit_a(
                liquidity as int,
                old(pool).current_sqrt_price as int,
                lower_tick_index as int,
                upper_tick_index as int,
            ) && old(account).balance_b >= deposit_b(
                liquidity as int,
                old(pool).current_sqrt_price as int,
                lower_tick_index as int,
                upper_tick_index as int,
            ) && old(pool).registry.can_add(upper_tick_index as int, liquidity as int, -1)
                && old(pool).registry.can_add(lower_tick_index as int, liquidity as int, 1),
            r is Err ==> *final(pool) == *old(pool) && *final(account) == *old(account),
            r is Err ==> r == Err::<Position, PoolError>(PoolError::InvalidRange) || r == Err::<
                Position,
                PoolError,
            >(PoolError::InsufficientBalance) || r == Err::<Position, PoolError>(
                PoolError::LiquidityOverflow,
            ),
            r matches Ok(pos) ==> {
                &&& pos.account_id@ == old(account).id@
                &&& pos.lower_tick == lower_tick_index
                &&& pos.upper_tick == upper_tick_index
                &&& pos.liquidity == liquidity
                &&& final(account).id == old(account).id
                &&& final(account).balance_a == old(account).balance_a - deposit_a(
                    liquidity as int,
                    old(pool).current_sqrt_price as int,
                    lower_tick_index as int,
                    upper_tick_index as int,
                )
                &&& final(account).balance_b == old(account).balance_b - deposit_b(
                    liquidity as int,
                    old(pool).current_sqrt_price as int,
                    lower_tick_index as int,
                    upper_tick_index as int,
                )
                &&& final(pool).registry@ == old(pool).registry@.update(
                    slot(upper_tick_index as int),
                    added(old(pool).registry.tick_at(upper_tick_index as int), liquidity as int, -1),
                ).update(
                    slot(lower_tick_index as int),
                    added(old(pool).registry.tick_at(lower_tick_index as int), liquidity as int, 1),
                )
                &&& final(pool).registry.is_initialized(lower_tick_index as int)
                &&& final(pool).registry.is_initialized(upper_tick_index as int)
                &&& final(pool).current_tick == old(pool).current_tick
                &&& final(pool).current_sqrt_price == old(pool).current_sqrt_price
                &&& final(pool).token_a == old(pool).token_a
                &&& final(pool).token_b == old(pool).token_b
            },
    {
        pool.open_position(account, lower_tick_index, upper_tick_index, liquidity)
    }
}

/// A concentrated-liquidity pool over the tick domain `[MIN_TICK, MAX_TICK]`.
pub struct Pool {
    /// Identifier of token A.
    pub token_a: String,
    /// Identifier of token B.
    pub token_b: String,
    /// The tick whose segment holds the current price.
    pub current_tick: i32,
    /// Current square-root price, in fixed point.
    pub current_sqrt_price: u128,
    /// Distance between usable ticks.
    pub tick_spacing: u32,
    /// Liquidity accounting per tick.
    pub registry: TickRegistry,
}

impl Pool {
    /// The current tick lies in the domain, the price lies in the current
    /// tick's segment, and the net liquidity over all ticks sums to 0.
    pub open spec fn wf(&self) -> bool {
        &&& self.registry.wf()
        &&& tick_in_range(self.current_tick as int)
        &&& self.tick_spacing == 1
        &&& sqrt_price_at(self.current_tick as int) <= self.current_sqrt_price
        &&& self.current_tick < MAX_TICK ==> self.current_sqrt_price <= sqrt_price_at(
            self.current_tick + 1,
        )
        &&& self.current_tick == MAX_TICK ==> self.current_sqrt_price == sqrt_price_at(MAX_TICK as int)
        &&& net_total(self.registry@) == 0
    }

    /// A pool for the two tokens with no liquidity, at tick `initial_tick`
    /// and its price.
    pub fn new(token_a: String, token_b: String, initial_tick: i32) -> (r: Result<Pool, PoolError>)
        ensures
            r is Err <==> !tick_in_range(initial_tick as int),
            r is Err ==> r == Err::<Pool, PoolError>(PoolError::InvalidRange),
            r matches Ok(pool) ==> {
                &&& pool.wf()
                &&& pool.token_a@ == token_a@
                &&& pool.token_b@ == token_b@
                &&& pool.current_tick == initial_tick
                &&& pool.current_sqrt_price == sqrt_price_at(initial_tick as int)
                &&& forall|t: int| !#[trigger] pool.registry.is_initialized(t)
                &&& all_empty(pool.registry@)
                &&& forall|t: int|
                    tick_in_range(t) ==> (#[trigger] pool.registry.tick_at(t)).liquidity_gross == 0
                        && pool.registry.tick_at(t).liquidity_net == 0
            },
    {
        if initial_tick < MIN_TICK || initial_tick > MAX_TICK {
            return Err(PoolError::InvalidRange);
        }
        let registry = TickRegistry::new();
        let p = tick_to_sqrt_price(initial_tick);
        proof {
            if initial_tick < MAX_TICK {
                lemma_sqrt_price_monotonic(initial_tick as int, initial_tick + 1);
            }
            assert forall|t: int| !#[trigger] registry.is_initialized(t) by {
                if tick_in_range(t) {
                    assert(registry@[slot(t)].liquidity_gross == 0);
                }
            }
        }
        Ok(Pool {
            token_a,
            token_b,
            current_tick: initial_tick,
            current_sqrt_price: p,
            tick_spacing: 1,
            registry,
        })
    }

    /// Opens a position of `liquidity` over `[lower_tick, upper_tick]` for
    /// `account`, which pays `deposit_a` of token A and `deposit_b` of token B
    /// at the current price. The upper tick gains `liquidity` gross and loses
    /// it net; the lower tick gains it in both.
    pub fn open_position(
        &mut self,
        account: &mut Account,
        lower_tick: i32,
        upper_tick: i32,
        liquidity: u64,
    ) -> (r: Result<Position, PoolError>)
        requires
            old(self).wf(),
        ensures
            final(self).wf(),
            net_total(final(self).registry@) == 0,
            !valid_range(lower_tick as int, upper_tick as int, liquidity as int) <==> r == Err::<
                Position,
                PoolError,
            >(PoolError::InvalidRange),
            r == Err::<Position, PoolError>(PoolError::InsufficientBalance) <==> valid_range(
                lower_tick as int,
                upper_tick as int,
                liquidity as int,
            ) && (old(account).balance_a < deposit_a(
                liquidity as int,
                old(self).current_sqrt_price as int,
                lower_tick as int,
                upper_tick as int,
            ) || old(account).balance_b < deposit_b(
                liquidity as int,
                old(self).current_sqrt_price as int,
                lower_tick as int,
                upper_tick as int,
            )),
            r is Ok <==> valid_range(lower_tick as int, upper_tick as int, liquidity as int)
                && old(account).balance_a >= deposit_a(
                liquidity as int,
                old(self).current_sqrt_price as int,
                lower_tick as int,
                upper_tick as int,
            ) && old(account).balance_b >= deposit_b(
                liquidity as int,
                old(self).current_sqrt_price as int,
                lower_tick as int,
                upper_tick as int,
            ) && old(self).registry.can_add(upper_tick as int, liquidity as int, -1)
                && old(self).registry.can_add(lower_tick as int, liquidity as int, 1),
            r is Err ==> *final(self) == *old(self) && *final(account) == *old(account),
            r is Err ==> r == Err::<Position, PoolError>(PoolError::InvalidRange) || r == Err::<
                Position,
                PoolError,
            >(PoolError::InsufficientBalance) || r == Err::<Position, PoolError>(
                PoolError::LiquidityOverflow,
            ),
            r matches Ok(pos) ==> {
                &&& pos.account_id@ == old(account).id@
                &&& pos.lower_tick == lower_tick
                &&& pos.upper_tick == upper_tick
                &&& pos.liquidity == liquidity
                &&& final(account).id == old(account).id
                &&& final(account).balance_a == old(account).balance_a - deposit_a(
                    liquidity as int,
                    old(self).current_sqrt_price as int,
                    lower_tick as int,
                    upper_tick as int,
                )
                &&& final(account).balance_b == old(account).balance_b - deposit_b(
                    liquidity as int,
                    old(self).current_sqrt_price as int,
                    lower_tick as int,
                    upper_tick as int,
                )
                &&& final(self).registry@ == old(self).registry@.update(
                    slot(upper_tick as int),
                    added(old(self).registry.tick_at(upper_tick as int), liquidity as int, -1),
                ).update(
                    slot(lower_tick as int),
                    added(old(self).registry.tick_at(lower_tick as int), liquidity as int, 1),
                )
                &&& final(self).registry.is_initialized(lower_tick as int)
                &&& final(self).registry.is_initialized(upper_tick as int)
                &&& final(self).current_tick == old(self).current_tick
                &&& final(self).current_sqrt_price == old(self).current_sqrt_price
                &&& final(self).token_a == old(self).token_a
                &&& final(self).token_b == old(self).token_b
            },
    {
        if lower_tick < MIN_TICK || upper_tick > MAX_TICK || lower_tick >= upper_tick || liquidity
            == 0 {
            return Err(PoolError::InvalidRange);
        }
        let sp_lower = tick_to_sqrt_price(lower_tick);
        let sp_upper = tick_to_sqrt_price(upper_tick);
        let p = self.current_sqrt_price;
        let q: u128 = if p < sp_lower {
            sp_lower
        } else if p > sp_upper {
            sp_upper
        } else {
            p
        };
        proof {
            lemma_sqrt_price_monotonic(lower_tick as int, upper_tick as int);
            lemma_sqrt_price_bounds(self.current_tick as int);
            assert(liquidity * PRICE_SCALE <= 0xFFFF_FFFF_FFFF_FFFF * PRICE_SCALE) by (nonlinear_arith)
                requires liquidity <= 0xFFFF_FFFF_FFFF_FFFFu64;
            assert(liquidity * (q - sp_lower) <= 0xFFFF_FFFF_FFFF_FFFF * (2 * PRICE_SCALE)) by (nonlinear_arith)
                requires liquidity <= 0xFFFF_FFFF_FFFF_FFFFu64, 0 <= q - sp_lower <= 2 * PRICE_SCALE;
            lemma_div_is_ordered_by_denominator(liquidity * PRICE_SCALE, q as int, sp_upper as int);
        }
        let scaled: u128 = liquidity as u128 * PRICE_SCALE;
        let amount_a: u128 = scaled / q - scaled / sp_upper;
        let amount_b: u128 = liquidity as u128 * (q - sp_lower) / PRICE_SCALE;
        if account.balance_a < amount_a || account.balance_b < amount_b {
            return Err(PoolError::InsufficientBalance);
        }
        if !self.registry.fits_add(upper_tick, liquidity, -1) || !self.registry.fits_add(
            lower_tick,
            liquidity,
            1,
        ) {
            return Err(PoolError::LiquidityOverflow);
        }
        let ghost reg0 = self.registry@;
        let _ = self.registry.add_liquidity(upper_tick, liquidity, -1);
        let _ = self.registry.add_liquidity(lower_tick, liquidity, 1);
        proof {
            crate::tick_registry::lemma_net_total_update(
                reg0,
                slot(upper_tick as int),
                added(reg0[slot(upper_tick as int)], liquidity as int, -1),
            );
            let reg1 = reg0.update(
                slot(upper_tick as int),
                added(reg0[slot(upper_tick as int)], liquidity as int, -1),
            );
            crate::tick_registry::lemma_net_total_update(
                reg1,
                slot(lower_tick as int),
                added(reg0[slot(lower_tick as int)], liquidity as int, 1),
            );
        }
        account.balance_a = account.balance_a - amount_a;
        account.balance_b = account.balance_b - amount_b;
        Ok(Position { account_id: account.id.clone(), lower_tick, upper_tick, liquidity })
    }
    /// Closes `position`: credits `account` with `withdrawal_a` and
    /// `withdrawal_b` at the withdrawal price, and undoes the position's
    /// liquidity at both ticks, clearing the presence flag of a tick whose
    /// gross liquidity returns to 0. The position is consumed.
    pub fn close_position(&mut self, position: Position, account: &mut Account) -> (r: Result<
        (),
        PoolError,
    >)
        requires
            old(self).wf(),
        ensures
            final(self).wf(),
            net_total(final(self).registry@) == 0,
            !valid_range(position.lower_tick as int, position.upper_tick as int, position.liquidity as int)
                <==> r == Err::<(), PoolError>(PoolError::InvalidRange),
            r == Err::<(), PoolError>(PoolError::LiquidityUnderflow) <==> valid_range(
                position.lower_tick as int,
                position.upper_tick as int,
                position.liquidity as int,
            ) && !(old(self).registry.can_remove(
                position.lower_tick as int,
                position.liquidity as int,
                1,
            ) && old(self).registry.can_remove(
                position.upper_tick as int,
                position.liquidity as int,
                -1,
            )),
            r is Ok <==> valid_range(
                position.lower_tick as int,
                position.upper_tick as int,
                position.liquidity as int,
            ) && old(self).registry.can_remove(
                position.lower_tick as int,
                position.liquidity as int,
                1,
            ) && old(self).registry.can_remove(
                position.upper_tick as int,
                position.liquidity as int,
                -1,
            ) && old(account).balance_a + withdrawal_a(
                position.liquidity as int,
                withdrawal_price(
                    old(self).current_tick as int,
                    old(self).current_sqrt_price as int,
                    position.lower_tick as int,
                    position.upper_tick as int,
                ),
            ) <= u128::MAX && old(account).balance_b + withdrawal_b(
                position.liquidity as int,
                withdrawal_price(
                    old(self).current_tick as int,
                    old(self).current_sqrt_price as int,
                    position.lower_tick as int,
                    position.upper_tick as int,
                ),
            ) <= u128::MAX,
            r is Err ==> *final(self) == *old(self) && *final(account) == *old(account),
            r is Err ==> r == Err::<(), PoolError>(PoolError::InvalidRange) || r == Err::<
                (),
                PoolError,
            >(PoolError::LiquidityUnderflow) || r == Err::<(), PoolError>(
                PoolError::BalanceOverflow,
            ),
            r is Ok ==> {
                let w = withdrawal_price(
                    old(self).current_tick as int,
                    old(self).current_sqrt_price as int,
                    position.lower_tick as int,
                    position.upper_tick as int,
                );
                &&& final(account).id == old(account).id
                &&& final(account).balance_a == old(account).balance_a + withdrawal_a(
                    position.liquidity as int,
                    w,
                )
                &&& final(account).balance_b == old(account).balance_b + withdrawal_b(
                    position.liquidity as int,
                    w,
                )
                &&& final(self).registry@ == old(self).registry@.update(
                    slot(position.upper_tick as int),
                    removed(
                        old(self).registry.tick_at(position.upper_tick as int),
                        position.liquidity as int,
                        -1,
                    ),
                ).update(
                    slot(position.lower_tick as int),
                    removed(
                        old(self).registry.tick_at(position.lower_tick as int),
                        position.liquidity as int,
                        1,
                    ),
                )
                &&& final(self).current_tick == old(self).current_tick
                &&& final(self).current_sqrt_price == old(self).current_sqrt_price
                &&& final(self).token_a == old(self).token_a
                &&& final(self).token_b == old(self).token_b
            },
    {
        let lower_tick = position.lower_tick;
        let upper_tick = position.upper_tick;
        let liquidity = position.liquidity;
        if lower_tick < MIN_TICK || upper_tick > MAX_TICK || lower_tick >= upper_tick || liquidity
            == 0 {
            return Err(PoolError::InvalidRange);
        }
        if !self.registry.fits_remove(lower_tick, liquidity, 1) || !self.registry.fits_remove(
            upper_tick,
            liquidity,
            -1,
        ) {
            return Err(PoolError::LiquidityUnderflow);
        }
        let w: u128 = if self.current_tick < lower_tick {
            tick_to_sqrt_price(lower_tick)
        } else if self.current_tick > upper_tick {
            tick_to_sqrt_price(upper_tick)
        } else {
            self.current_sqrt_price
        };
        proof {
            lemma_sqrt_price_bounds(self.current_tick as int);
            if self.current_tick < MAX_TICK {
                lemma_sqrt_price_bounds(self.current_tick + 1);
            }
            assert(PRICE_SCALE <= w < 2 * PRICE_SCALE);
            assert(liquidity * PRICE_SCALE <= 0xFFFF_FFFF_FFFF_FFFF * PRICE_SCALE) by (nonlinear_arith)
                requires liquidity <= 0xFFFF_FFFF_FFFF_FFFFu64;
            assert(liquidity * w <= 0xFFFF_FFFF_FFFF_FFFF * (2 * PRICE_SCALE)) by (nonlinear_arith)
                requires liquidity <= 0xFFFF_FFFF_FFFF_FFFFu64, w < 2 * PRICE_SCALE;
        }
        let amount_a: u128 = liquidity as u128 * PRICE_SCALE / w;
        let amount_b: u128 = liquidity as u128 * w / PRICE_SCALE;
        if amount_a > u128::MAX - account.balance_a || amount_b > u128::MAX - account.balance_b {
            return Err(PoolError::BalanceOverflow);
        }
        let ghost reg0 = self.registry@;
        let _ = self.registry.remove_liquidity(upper_tick, liquidity, -1);
        let _ = self.registry.remove_liquidity(lower_tick, liquidity, 1);
        proof {
            crate::tick_registry::lemma_net_total_update(
                reg0,
                slot(upper_tick as int),
                removed(reg0[slot(upper_tick as int)], liquidity as int, -1),
            );
            let reg1 = reg0.update(
                slot(upper_tick as int),
                removed(reg0[slot(upper_tick as int)], liquidity as int, -1),
            );
            crate::tick_registry::lemma_net_total_update(
                reg1,
                slot(lower_tick as int),
                removed(reg0[slot(lower_tick as int)], liquidity as int, 1),
            );
        }
        account.balance_a = account.balance_a + amount_a;
        account.balance_b = account.balance_b + amount_b;
        Ok(())
    }
    /// Swaps up to `amount_a_in` of the account's token A for token B,
    /// moving the price upward segment by segment as `swap_run` describes.
    /// Returns what was consumed, which is less than requested when the
    /// swap stops at an uninitialized tick or at `MAX_TICK`. Fails with
    /// `NoLiquidity` whenever the current tick holds no liquidity; otherwise a
    /// zero amount changes nothing.
    pub fn swap_a_for_b(&mut self, account: &mut Account, amount_a_in: u128) -> (r: Result<
        SwapResult,
        PoolError,
    >)
        requires
            old(self).wf(),
        ensures
            final(self).wf(),
            ({
                let run = swap_run(
                    old(self).registry,
                    old(self).current_tick as int,
                    old(self).current_sqrt_price as int,
                    old(self).registry.tick_at(old(self).current_tick as int).liquidity_gross as int,
                    amount_a_in as int,
                );
                &&& r == Err::<SwapResult, PoolError>(PoolError::NoLiquidity) <==> !old(
                    self,
                ).registry.is_initialized(old(self).current_tick as int)
                &&& old(self).registry.is_initialized(old(self).current_tick as int) && amount_a_in
                    == 0 ==> r == Ok::<SwapResult, PoolError>(
                    SwapResult { amount_in: 0, amount_out: 0 },
                )
                &&& amount_a_in == 0 && r is Ok ==> *final(self) == *old(self) && *final(account)
                    == *old(account)
                &&& r == Err::<SwapResult, PoolError>(PoolError::InsufficientBalance) <==> old(
                    self,
                ).registry.is_initialized(old(self).current_tick as int) && 0 < amount_a_in
                    && old(account).balance_a < amount_a_in
                &&& r == Err::<SwapResult, PoolError>(PoolError::BalanceOverflow) <==> 0
                    < amount_a_in <= old(account).balance_a && old(self).registry.is_initialized(
                    old(self).current_tick as int,
                ) && old(account).balance_b + run.3 > u128::MAX
                &&& r is Err ==> r == Err::<SwapResult, PoolError>(PoolError::InsufficientBalance)
                    || r == Err::<SwapResult, PoolError>(PoolError::NoLiquidity) || r == Err::<
                    SwapResult,
                    PoolError,
                >(PoolError::BalanceOverflow)
                &&& r is Err ==> *final(self) == *old(self) && *final(account) == *old(account)
                &&& r matches Ok(res) ==> {
                    &&& res.amount_in == run.2
                    &&& res.amount_out == run.3
                    &&& res.amount_in <= amount_a_in
                    &&& final(self).current_tick == run.0
                    &&& final(self).current_sqrt_price == run.1
                    &&& old(self).current_tick <= final(self).current_tick
                    &&& final(self).registry == old(self).registry
                    &&& final(self).token_a == old(self).token_a
                    &&& final(self).token_b == old(self).token_b
                    &&& final(account).id == old(account).id
                    &&& final(account).balance_a == old(account).balance_a - res.amount_in
                    &&& final(account).balance_b == old(account).balance_b + res.amount_out
                }
            }),
    {
        let t0 = self.current_tick;
        let gross = self.registry.gross_at(t0);
        if gross == 0 {
            return Err(PoolError::NoLiquidity);
        }
        if amount_a_in == 0 {
            return Ok(SwapResult { amount_in: 0, amount_out: 0 });
        }
        if account.balance_a < amount_a_in {
            return Err(PoolError::InsufficientBalance);
        }
        let ghost total = swap_run(
            self.registry,
            t0 as int,
            self.current_sqrt_price as int,
            gross as int,
            amount_a_in as int,
        );
        proof {
            lemma_swap_run_bounds(
                self.registry,
                t0 as int,
                self.current_sqrt_price as int,
                gross as int,
                amount_a_in as int,
            );
            assert((MAX_TICK - t0 + 1) * liquidity_cap() <= 21 * liquidity_cap()) by (nonlinear_arith)
                requires MIN_TICK <= t0;
        }
        let mut t: i32 = t0;
        let mut p: u128 = self.current_sqrt_price;
        let mut liq: u128 = gross as u128;
        let mut remaining: u128 = amount_a_in;
        let mut consumed: u128 = 0;
        let mut out: u128 = 0;
        while remaining > 0 && t < MAX_TICK
            invariant
                self.registry.wf(),
                price_in_segment(t as int, p as int),
                liq <= liquidity_cap(),
                total.2 <= amount_a_in,
                0 <= total.3 <= 21 * liquidity_cap(),
                ({
                    let rest = swap_run(self.registry, t as int, p as int, liq as int, remaining as int);
                    &&& rest.0 == total.0
                    &&& rest.1 == total.1
                    &&& consumed + rest.2 == total.2
                    &&& out + rest.3 == total.3
                }),
            decreases MAX_TICK - t + (if remaining > 0 { 1int } else { 0 }),
        {
            proof {
                lemma_swap_run_bounds(self.registry, t as int, p as int, liq as int, remaining as int);
                lemma_sqrt_price_bounds(t as int);
                lemma_sqrt_price_bounds(t + 1);
                assert(liq * PRICE_SCALE <= liquidity_cap() * PRICE_SCALE) by (nonlinear_arith)
                    requires liq <= liquidity_cap();
            }
            let next = tick_to_sqrt_price(t + 1);
            let scaled: u128 = liq * PRICE_SCALE;
            let delta: u128 = scaled / remaining;
            proof {
                lemma_div_is_ordered(scaled as int, scaled as int, 1);
            }
            if delta <= next - p {
                proof {
                    assert(liq * delta <= liquidity_cap() * PRICE_SCALE) by (nonlinear_arith)
                        requires liq <= liquidity_cap(), delta <= PRICE_SCALE;
                }
                out = out + liq * delta / PRICE_SCALE;
                consumed = consumed + remaining;
                p = p + delta;
                remaining = 0;
            } else {
                proof {
                    lemma_div_is_ordered_by_denominator(scaled as int, p as int, next as int);
                    assert(liq * (next - p) <= liquidity_cap() * PRICE_SCALE) by (nonlinear_arith)
                        requires liq <= liquidity_cap(), next - p <= PRICE_SCALE;
                }
                let need: u128 = scaled / p - scaled / next;
                let step_in: u128 = if need < remaining {
                    need
                } else {
                    remaining
                };
                let step_out: u128 = liq * (next - p) / PRICE_SCALE;
                proof {
                    if self.registry.is_initialized(t + 1) {
                        assert(self.registry@[slot(t + 1)].liquidity_gross <= liquidity_cap());
                        lemma_swap_run_bounds(
                            self.registry,
                            t + 1,
                            next as int,
                            self.registry.tick_at(t + 1).liquidity_gross as int,
                            remaining - step_in,
                        );
                    }
                }
                consumed = consumed + step_in;
                out = out + step_out;
                t = t + 1;
                p = next;
                match self.registry.get(t) {
                    Some(tick) => {
                        liq = tick.liquidity_gross as u128;
                        remaining = remaining - step_in;
                    },
                    None => {
                        remaining = 0;
                    },
                }
            }
        }
        if out > u128::MAX - account.balance_b {
            return Err(PoolError::BalanceOverflow);
        }
        self.current_tick = t;
        self.current_sqrt_price = p;
        account.balance_a = account.balance_a - consumed;
        account.balance_b = account.balance_b + out;
        Ok(SwapResult { amount_in: consumed, amount_out: out })
    }

    /// Swaps up to `amount_b_in` of the account's token B for token A,
    /// moving the price downward segment by segment as `swap_down_run`
    /// describes. Returns what was consumed, which is less than requested
    /// when the swap stops at an uninitialized tick or at `MIN_TICK`. Fails
    /// with `NoLiquidity` whenever the current tick holds no liquidity;
    /// otherwise a zero amount changes nothing.
    pub fn swap_b_for_a(&mut self, account: &mut Account, amount_b_in: u128) -> (r: Result<
        SwapResult,
        PoolError,
    >)
        requires
            old(self).wf(),
        ensures
            final(self).wf(),
            ({
                let run = swap_down_run(
                    old(self).registry,
                    old(self).current_tick as int,
                    old(self).current_sqrt_price as int,
                    old(self).registry.tick_at(old(self).current_tick as int).liquidity_gross as int,
                    amount_b_in as int,
                );
                &&& r == Err::<SwapResult, PoolError>(PoolError::NoLiquidity) <==> !old(
                    self,
                ).registry.is_initialized(old(self).current_tick as int)
                &&& old(self).registry.is_initialized(old(self).current_tick as int) && amount_b_in
                    == 0 ==> r == Ok::<SwapResult, PoolError>(
                    SwapResult { amount_in: 0, amount_out: 0 },
                )
                &&& amount_b_in == 0 && r is Ok ==> *final(self) == *old(self) && *final(account)
                    == *old(account)
                &&& r == Err::<SwapResult, PoolError>(PoolError::InsufficientBalance) <==> old(
                    self,
                ).registry.is_initialized(old(self).current_tick as int) && 0 < amount_b_in
                    && old(account).balance_b < amount_b_in
                &&& r == Err::<SwapResult, PoolError>(PoolError::BalanceOverflow) <==> 0
                    < amount_b_in <= old(account).balance_b && old(self).registry.is_initialized(
                    old(self).current_tick as int,
                ) && old(account).balance_a + run.3 > u128::MAX
                &&& r is Err ==> r == Err::<SwapResult, PoolError>(PoolError::InsufficientBalance)
                    || r == Err::<SwapResult, PoolError>(PoolError::NoLiquidity) || r == Err::<
                    SwapResult,
                    PoolError,
                >(PoolError::BalanceOverflow)
                &&& r is Err ==> *final(self) == *old(self) && *final(account) == *old(account)
                &&& r matches Ok(res) ==> {
                    &&& res.amount_in == run.2
                    &&& res.amount_out == run.3
                    &&& res.amount_in <= amount_b_in
                    &&& final(self).current_tick == run.0
                    &&& final(self).current_sqrt_price == run.1
                    &&& final(self).current_tick <= old(self).current_tick
                    &&& final(self).registry == old(self).registry
                    &&& final(self).token_a == old(self).token_a
                    &&& final(self).token_b == old(self).token_b
                    &&& final(account).id == old(account).id
                    &&& final(account).balance_b == old(account).balance_b - res.amount_in
                    &&& final(account).balance_a == old(account).balance_a + res.amount_out
                }
            }),
    {
        let t0 = self.current_tick;
        let gross = self.registry.gross_at(t0);
        if gross == 0 {
            return Err(PoolError::NoLiquidity);
        }
        if amount_b_in == 0 {
            return Ok(SwapResult { amount_in: 0, amount_out: 0 });
        }
        if account.balance_b < amount_b_in {
            return Err(PoolError::InsufficientBalance);
        }
        let ghost total = swap_down_run(
            self.registry,
            t0 as int,
            self.current_sqrt_price as int,
            gross as int,
            amount_b_in as int,
        );
        proof {
            lemma_swap_down_run_bounds(
                self.registry,
                t0 as int,
                self.current_sqrt_price as int,
                gross as int,
                amount_b_in as int,
            );
            assert((t0 - MIN_TICK + 1) * liquidity_cap() <= 21 * liquidity_cap()) by (nonlinear_arith)
                requires t0 <= MAX_TICK;
        }
        let mut t: i32 = t0;
        let mut p: u128 = self.current_sqrt_price;
        let mut liq: u128 = gross as u128;
        let mut remaining: u128 = amount_b_in;
        let mut consumed: u128 = 0;
        let mut out: u128 = 0;
        while remaining > 0
            invariant
                self.registry.wf(),
                price_in_segment(t as int, p as int),
                liq <= liquidity_cap(),
                total.2 <= amount_b_in,
                0 <= total.3 <= 21 * liquidity_cap(),
                ({
                    let rest = swap_down_run(self.registry, t as int, p as int, liq as int, remaining as int);
                    &&& rest.0 == total.0
                    &&& rest.1 == total.1
                    &&& consumed + rest.2 == total.2
                    &&& out + rest.3 == total.3
                }),
            decreases t - MIN_TICK + (if remaining > 0 { 1int } else { 0 }),
        {
            proof {
                lemma_swap_down_run_bounds(self.registry, t as int, p as int, liq as int, remaining as int);
                lemma_sqrt_price_bounds(t as int);
                if t < MAX_TICK {
                    lemma_sqrt_price_bounds(t + 1);
                }
                assert(liq * PRICE_SCALE <= liquidity_cap() * PRICE_SCALE) by (nonlinear_arith)
                    requires liq <= liquidity_cap();
            }
            let low = tick_to_sqrt_price(t);
            let scaled: u128 = liq * PRICE_SCALE;
            let delta: u128 = scaled / remaining;
            proof {
                lemma_div_is_ordered(scaled as int, scaled as int, 1);
            }
            if delta <= p - low {
                proof {
                    assert(liq * delta <= liquidity_cap() * PRICE_SCALE) by (nonlinear_arith)
                        requires liq <= liquidity_cap(), delta <= PRICE_SCALE;
                }
                out = out + liq * delta / PRICE_SCALE;
                consumed = consumed + remaining;
                p = p - delta;
                remaining = 0;
            } else {
                proof {
                    lemma_div_is_ordered_by_denominator(scaled as int, low as int, p as int);
                    assert(liq * (p - low) <= liquidity_cap() * PRICE_SCALE) by (nonlinear_arith)
                        requires liq <= liquidity_cap(), p - low <= PRICE_SCALE;
                }
                let need: u128 = liq * (p - low) / PRICE_SCALE;
                let step_in: u128 = if need < remaining {
                    need
                } else {
                    remaining
                };
                let step_out: u128 = scaled / low - scaled / p;
                proof {
                    if t > MIN_TICK {
                        lemma_sqrt_price_monotonic(t - 1, t as int);
                        if self.registry.is_initialized(t - 1) {
                            assert(self.registry@[slot(t - 1)].liquidity_gross <= liquidity_cap());
                            lemma_swap_down_run_bounds(
                                self.registry,
                                t - 1,
                                low as int,
                                self.registry.tick_at(t - 1).liquidity_gross as int,
                                remaining - step_in,
                            );
                        }
                    }
                }
                consumed = consumed + step_in;
                out = out + step_out;
                p = low;
                if t <= MIN_TICK {
                    remaining = 0;
                } else {
                    t = t - 1;
                    match self.registry.get(t) {
                        Some(tick) => {
                            liq = tick.liquidity_gross as u128;
                            remaining = remaining - step_in;
                        },
                        None => {
                            remaining = 0;
                        },
                    }
                }
            }
        }
        if out > u128::MAX - account.balance_a {
            return Err(PoolError::BalanceOverflow);
        }
        self.current_tick = t;
        self.current_sqrt_price = p;
        account.balance_b = account.balance_b - consumed;
        account.balance_a = account.balance_a + out;
        Ok(SwapResult { amount_in: consumed, amount_out: out })
    }
}

/// Net liquidity over all ticks sums to 0 in every well-formed pool, and
/// stays 0 through the registry change of `open_position` (`+liquidity` net
/// at the lower tick, `-liquidity` at the upper) and of `close_position` (the
/// reverse), for any range and liquidity that the registry accepts. So after any sequence of opens and
/// closes the sum is 0.
pub proof fn lemma_net_liquidity_balanced(pool: Pool, lower: int, upper: int, liquidity: int)
    requires
        pool.wf(),
        valid_range(lower, upper, liquidity),
    ensures
        net_total(pool.registry@) == 0,
        pool.registry.can_add(upper, liquidity, -1) && pool.registry.can_add(lower, liquidity, 1)
            ==> net_total(
            pool.registry@.update(
                slot(upper),
                added(pool.registry.tick_at(upper), liquidity, -1),
            ).update(slot(lower), added(pool.registry.tick_at(lower), liquidity, 1)),
        ) == 0,
        pool.registry.can_remove(upper, liquidity, -1) && pool.registry.can_remove(
            lower,
            liquidity,
            1,
        ) ==> net_total(
            pool.registry@.update(
                slot(upper),
                removed(pool.registry.tick_at(upper), liquidity, -1),
            ).update(slot(lower), removed(pool.registry.tick_at(lower), liquidity, 1)),
        ) == 0,
{
    let s = pool.registry@;
    let a1 = s.update(slot(upper), added(s[slot(upper)], liquidity, -1));
    lemma_net_total_update(s, slot(upper), added(s[slot(upper)], liquidity, -1));
    lemma_net_total_update(a1, slot(lower), added(s[slot(lower)], liquidity, 1));
    let r1 = s.update(slot(upper), removed(s[slot(upper)], liquidity, -1));
    lemma_net_total_update(s, slot(upper), removed(s[slot(upper)], liquidity, -1));
    lemma_net_total_update(r1, slot(lower), removed(s[slot(lower)], liquidity, 1));
}

} // verus!
