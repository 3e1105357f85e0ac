use clmm_pool::error::PoolError;
use clmm_pool::pool::{Account, Pool, Position, SwapResult};
use clmm_pool::price_math::{tick_to_sqrt_price, MAX_TICK, MIN_TICK, PRICE_SCALE};
use clmm_pool::tick_registry::{TickRegistry, MAX_LIQUIDITY};

fn pool_at(tick: i32) -> Pool {
    Pool::new("token-a".to_string(), "token-b".to_string(), tick).unwrap()
}

fn account(a: u128, b: u128) -> Account {
    Account::new("acct".to_string(), a, b)
}

#[test]
fn sqrt_price_table_ends() {
    assert_eq!(tick_to_sqrt_price(0), PRICE_SCALE);
    assert_eq!(tick_to_sqrt_price(10), 1000500100010000500);
    assert_eq!(tick_to_sqrt_price(20), 1001000450120021002);
}

#[test]
fn sqrt_price_increases() {
    for t in MIN_TICK..MAX_TICK {
        assert!(tick_to_sqrt_price(t) < tick_to_sqrt_price(t + 1));
    }
}

#[test]
fn pool_new_rejects_out_of_range_tick() {
    let r = Pool::new("a".to_string(), "b".to_string(), MAX_TICK + 1);
    assert!(matches!(r, Err(PoolError::InvalidRange)));
    let r = Pool::new("a".to_string(), "b".to_string(), -1);
    assert!(matches!(r, Err(PoolError::InvalidRange)));
}

#[test]
fn pool_new_starts_at_tick_price() {
    let pool = pool_at(10);
    assert_eq!(pool.current_tick, 10);
    assert_eq!(pool.current_sqrt_price, 1000500100010000500);
    assert_eq!(pool.registry.find_next_initialized(MIN_TICK - 1, true), None);
}

#[test]
fn open_position_scenario_deposits_and_ticks() {
    let mut pool = pool_at(10);
    let mut acct = account(1000, 1000);
    let pos = pool.open_position(&mut acct, 10, 15, 1_000_000).unwrap();
    assert_eq!(pos.lower_tick, 10);
    assert_eq!(pos.upper_tick, 15);
    assert_eq!(pos.liquidity, 1_000_000);
    assert_eq!(pos.account_id, "acct");
    // liquidity * (1/sqrt_price(10) - 1/sqrt_price(15)) of token A, none of B
    assert_eq!(acct.balance_a, 750);
    assert_eq!(acct.balance_b, 1000);
    assert_eq!(pool.registry.net_at(10), 1_000_000);
    assert_eq!(pool.registry.net_at(15), -1_000_000);
    assert_eq!(pool.registry.gross_at(10), 1_000_000);
    assert_eq!(pool.registry.gross_at(15), 1_000_000);
    assert!(pool.registry.get(10).unwrap().initialized);
    assert!(pool.registry.get(15).unwrap().initialized);
    assert_eq!(pool.registry.get(11), None);
    assert_eq!(pool.current_tick, 10);
}

#[test]
fn open_position_rejects_invalid_ranges() {
    let mut pool = pool_at(10);
    let mut acct = account(1000, 1000);
    let cases: [(i32, i32, u64); 5] = [
        (10, MAX_TICK + 1, 1000),
        (MIN_TICK - 1, 15, 1000),
        (15, 15, 1000),
        (15, 10, 1000),
        (10, 15, 0),
    ];
    for (lower, upper, liquidity) in cases {
        let r = pool.open_position(&mut acct, lower, upper, liquidity);
        assert!(matches!(r, Err(PoolError::InvalidRange)));
    }
    assert_eq!(acct.balance_a, 1000);
    assert_eq!(acct.balance_b, 1000);
    assert_eq!(pool.registry.find_next_initialized(MIN_TICK - 1, true), None);
}

#[test]
fn open_position_insufficient_balance_leaves_state() {
    let mut pool = pool_at(10);
    let mut acct = account(249, 1000);
    let r = pool.open_position(&mut acct, 10, 15, 1_000_000);
    assert!(matches!(r, Err(PoolError::InsufficientBalance)));
    assert_eq!(acct.balance_a, 249);
    assert_eq!(acct.balance_b, 1000);
    assert_eq!(pool.registry.get(10), None);
    assert_eq!(pool.registry.get(15), None);
    // a range below the price takes token B only
    let mut acct = account(1000, 249);
    let r = pool.open_position(&mut acct, 5, 10, 1_000_000);
    assert!(matches!(r, Err(PoolError::InsufficientBalance)));
    assert_eq!(acct.balance_b, 249);
    assert_eq!(pool.registry.get(5), None);
}

#[test]
fn open_position_regions() {
    // price below the range: token A only
    let mut pool = pool_at(5);
    let mut acct = account(1000, 1000);
    pool.open_position(&mut acct, 10, 15, 1_000_000).unwrap();
    assert_eq!((acct.balance_a, acct.balance_b), (750, 1000));
    // price above the range: token B only
    let mut pool = pool_at(18);
    let mut acct = account(1000, 1000);
    pool.open_position(&mut acct, 10, 15, 1_000_000).unwrap();
    assert_eq!((acct.balance_a, acct.balance_b), (1000, 750));
}

#[test]
fn open_position_liquidity_overflow() {
    let mut pool = pool_at(10);
    let mut acct = account(u128::MAX / 2, u128::MAX / 2);
    pool.open_position(&mut acct, 10, 15, MAX_LIQUIDITY).unwrap();
    let a = acct.balance_a;
    assert_eq!(a, u128::MAX / 2 - 4608574346337574);
    let r = pool.open_position(&mut acct, 10, 15, 1);
    assert!(matches!(r, Err(PoolError::LiquidityOverflow)));
    assert_eq!(acct.balance_a, a);
    assert_eq!(pool.registry.gross_at(10), MAX_LIQUIDITY);
}

#[test]
fn close_position_inside_range_uses_live_price() {
    let mut pool = pool_at(10);
    let mut acct = account(1000, 1000);
    let pos = pool.open_position(&mut acct, 10, 15, 1_000_000).unwrap();
    pool.close_position(pos, &mut acct).unwrap();
    assert_eq!(acct.balance_a, 750 + 999_500);
    assert_eq!(acct.balance_b, 1000 + 1_000_500);
    assert_eq!(pool.registry.get(10), None);
    assert_eq!(pool.registry.get(15), None);
    assert_eq!(pool.registry.gross_at(10), 0);
    assert_eq!(pool.registry.net_at(15), 0);
}

#[test]
fn close_position_above_range_uses_upper_price() {
    let mut pool = pool_at(18);
    let mut acct = account(1000, 1000);
    let pos = pool.open_position(&mut acct, 10, 15, 1_000_000).unwrap();
    pool.close_position(pos, &mut acct).unwrap();
    assert_eq!(acct.balance_a, 1000 + 999_250);
    assert_eq!(acct.balance_b, 750 + 1_000_750);
}

#[test]
fn close_position_below_range_uses_lower_price() {
    let mut pool = pool_at(5);
    let mut acct = account(1000, 1000);
    let pos = pool.open_position(&mut acct, 10, 15, 1_000_000).unwrap();
    pool.close_position(pos, &mut acct).unwrap();
    assert_eq!(acct.balance_a, 750 + 999_500);
    assert_eq!(acct.balance_b, 1000 + 1_000_500);
}

#[test]
fn close_position_errors() {
    let mut pool = pool_at(10);
    let mut acct = account(1000, 1000);
    let unknown = Position { account_id: "x".to_string(), lower_tick: 10, upper_tick: 15, liquidity: 5 };
    assert!(matches!(pool.close_position(unknown, &mut acct), Err(PoolError::LiquidityUnderflow)));
    let bad = Position { account_id: "x".to_string(), lower_tick: 15, upper_tick: 10, liquidity: 5 };
    assert!(matches!(pool.close_position(bad, &mut acct), Err(PoolError::InvalidRange)));
    let pos = pool.open_position(&mut acct, 10, 15, 1_000_000).unwrap();
    let mut rich = account(u128::MAX, 0);
    assert!(matches!(pool.close_position(pos, &mut rich), Err(PoolError::BalanceOverflow)));
    assert_eq!(rich.balance_a, u128::MAX);
    assert_eq!(pool.registry.gross_at(10), 1_000_000);
}

#[test]
fn net_liquidity_sums_to_zero_after_opens_and_closes() {
    let mut pool = pool_at(10);
    let mut acct = account(1_000_000, 1_000_000);
    let p1 = pool.open_position(&mut acct, 10, 15, 1_000_000).unwrap();
    let p2 = pool.open_position(&mut acct, 12, 15, 30_000).unwrap();
    let p3 = pool.open_position(&mut acct, 3, 12, 7_000).unwrap();
    pool.close_position(p2, &mut acct).unwrap();
    let mut sum: i128 = 0;
    for t in MIN_TICK..=MAX_TICK {
        sum += pool.registry.net_at(t);
    }
    assert_eq!(sum, 0);
    assert_eq!(pool.registry.net_at(12), -7_000);
    pool.close_position(p1, &mut acct).unwrap();
    pool.close_position(p3, &mut acct).unwrap();
    for t in MIN_TICK..=MAX_TICK {
        assert_eq!(pool.registry.net_at(t), 0);
        assert_eq!(pool.registry.get(t), None);
    }
}

fn scenario_pool() -> Pool {
    let mut pool = pool_at(10);
    let mut lp = account(1000, 1000);
    pool.open_position(&mut lp, 10, 15, 1_000_000).unwrap();
    pool
}

#[test]
fn swap_zero_is_noop() {
    let mut pool = scenario_pool();
    let mut trader = account(1000, 1000);
    let r = pool.swap_a_for_b(&mut trader, 0).unwrap();
    assert_eq!(r, SwapResult { amount_in: 0, amount_out: 0 });
    assert_eq!((trader.balance_a, trader.balance_b), (1000, 1000));
    assert_eq!(pool.current_tick, 10);
    assert_eq!(pool.current_sqrt_price, 1000500100010000500);
}

#[test]
fn swap_single_segment() {
    let mut pool = scenario_pool();
    let mut trader = account(100_000_000_000, 0);
    let r = pool.swap_a_for_b(&mut trader, 50_000_000_000).unwrap();
    // price moves by liquidity / input = 2e-5, below tick 11's price
    assert_eq!(r, SwapResult { amount_in: 50_000_000_000, amount_out: 20 });
    assert_eq!(pool.current_tick, 10);
    assert_eq!(pool.current_sqrt_price, 1000500100010000500 + 20_000_000_000_000);
    assert_eq!(trader.balance_a, 50_000_000_000);
    assert_eq!(trader.balance_b, 20);
}

#[test]
fn swap_small_input_crosses_and_stops_at_uninitialized_tick() {
    let mut pool = scenario_pool();
    let mut trader = account(1000, 1000);
    let r = pool.swap_a_for_b(&mut trader, 100).unwrap();
    assert_eq!(r, SwapResult { amount_in: 50, amount_out: 50 });
    assert_eq!(pool.current_tick, 11);
    assert_eq!(pool.current_sqrt_price, tick_to_sqrt_price(11));
    assert_eq!((trader.balance_a, trader.balance_b), (950, 1050));
}

#[test]
fn swap_crossing_two_ticks_reports_partial_fill() {
    let mut pool = pool_at(10);
    let mut lp = account(1000, 1000);
    pool.open_position(&mut lp, 10, 15, 1_000_000).unwrap();
    pool.open_position(&mut lp, 11, 15, 2_000_000).unwrap();
    assert_eq!(lp.balance_a, 1000 - 250 - 400);
    let mut trader = account(1000, 0);
    let r = pool.swap_a_for_b(&mut trader, 400).unwrap();
    assert_eq!(pool.current_tick, 12);
    assert_eq!(pool.current_sqrt_price, tick_to_sqrt_price(12));
    assert_eq!(r, SwapResult { amount_in: 150, amount_out: 150 });
    assert!(r.amount_in < 400);
    assert_eq!((trader.balance_a, trader.balance_b), (850, 150));
    // the registry itself is untouched by a swap
    assert_eq!(pool.registry.gross_at(11), 2_000_000);
}

#[test]
fn swap_input_exhausted_at_boundary() {
    let mut pool = pool_at(10);
    let mut lp = account(1000, 1000);
    pool.open_position(&mut lp, 10, 15, 1_000_000).unwrap();
    pool.open_position(&mut lp, 11, 15, 2_000_000).unwrap();
    let mut trader = account(1000, 0);
    let r = pool.swap_a_for_b(&mut trader, 30).unwrap();
    assert_eq!(r, SwapResult { amount_in: 30, amount_out: 50 });
    assert_eq!(pool.current_tick, 11);
}

#[test]
fn swap_errors() {
    let mut empty = pool_at(10);
    let mut trader = account(1000, 1000);
    assert!(matches!(empty.swap_a_for_b(&mut trader, 10), Err(PoolError::NoLiquidity)));
    let mut pool = scenario_pool();
    assert!(matches!(pool.swap_a_for_b(&mut trader, 1001), Err(PoolError::InsufficientBalance)));
    let mut full = account(1000, u128::MAX);
    assert!(matches!(pool.swap_a_for_b(&mut full, 100), Err(PoolError::BalanceOverflow)));
    assert_eq!(pool.current_tick, 10);
    assert_eq!(full.balance_a, 1000);
    assert_eq!((trader.balance_a, trader.balance_b), (1000, 1000));
}

#[test]
fn swap_stops_at_max_tick() {
    let mut pool = pool_at(MAX_TICK);
    let mut lp = account(1000, 1000);
    pool.open_position(&mut lp, 15, MAX_TICK, 1_000_000).unwrap();
    let mut trader = account(1000, 1000);
    let r = pool.swap_a_for_b(&mut trader, 100).unwrap();
    assert_eq!(r, SwapResult { amount_in: 0, amount_out: 0 });
    assert_eq!(pool.current_tick, MAX_TICK);
}

#[test]
fn registry_add_remove_and_search() {
    let mut reg = TickRegistry::new();
    assert!(matches!(reg.add_liquidity(MAX_TICK + 1, 5, 1), Err(PoolError::InvalidRange)));
    reg.add_liquidity(4, 5, 1).unwrap();
    reg.add_liquidity(9, 5, -1).unwrap();
    reg.add_liquidity(4, 3, -1).unwrap();
    let t = reg.get(4).unwrap();
    assert_eq!((t.index, t.liquidity_gross, t.liquidity_net), (4, 8, 2));
    assert_eq!(reg.find_next_initialized(0, true), Some(4));
    assert_eq!(reg.find_next_initialized(4, true), Some(9));
    assert_eq!(reg.find_next_initialized(9, true), None);
    assert_eq!(reg.find_next_initialized(9, false), Some(4));
    assert_eq!(reg.find_next_initialized(4, false), None);
    assert!(matches!(reg.remove_liquidity(9, 6, -1), Err(PoolError::LiquidityUnderflow)));
    reg.remove_liquidity(9, 5, -1).unwrap();
    assert_eq!(reg.get(9), None);
    assert_eq!(reg.net_at(9), 0);
    assert_eq!(reg.find_next_initialized(4, true), None);
    assert!(matches!(reg.add_liquidity(4, MAX_LIQUIDITY, 1), Err(PoolError::LiquidityOverflow)));
    assert_eq!(reg.gross_at(4), 8);
}

#[test]
fn error_messages() {
    assert_eq!(PoolError::NoLiquidity.message(), "no liquidity at the current tick");
    assert_eq!(PoolError::InvalidRange.message(), "invalid tick range");
}

#[test]
fn swap_b_for_a_zero_is_noop() {
    let mut pool = scenario_pool();
    let mut trader = account(1000, 1000);
    let r = pool.swap_b_for_a(&mut trader, 0).unwrap();
    assert_eq!(r, SwapResult { amount_in: 0, amount_out: 0 });
    assert_eq!((trader.balance_a, trader.balance_b), (1000, 1000));
    assert_eq!(pool.current_tick, 10);
}

#[test]
fn swap_b_for_a_single_segment() {
    let mut pool = scenario_pool();
    let mut trader = account(100_000_000_000, 100_000_000_000);
    pool.swap_a_for_b(&mut trader, 50_000_000_000).unwrap();
    assert_eq!(pool.current_sqrt_price, 1000520100010000500);
    let r = pool.swap_b_for_a(&mut trader, 100_000_000_000).unwrap();
    assert_eq!(r, SwapResult { amount_in: 100_000_000_000, amount_out: 10 });
    assert_eq!(pool.current_tick, 10);
    assert_eq!(pool.current_sqrt_price, 1000510100010000500);
    assert_eq!(trader.balance_a, 50_000_000_010);
    assert_eq!(trader.balance_b, 20);
}

#[test]
fn swap_b_for_a_crosses_down_and_stops() {
    let mut pool = pool_at(10);
    let mut lp = account(1000, 1000);
    pool.open_position(&mut lp, 9, 15, 1_000_000).unwrap();
    assert_eq!((lp.balance_a, lp.balance_b), (750, 950));
    pool.open_position(&mut lp, 10, 15, 1_000_000).unwrap();
    let mut trader = account(1000, 1000);
    let r = pool.swap_b_for_a(&mut trader, 100).unwrap();
    assert_eq!(r, SwapResult { amount_in: 50, amount_out: 50 });
    assert_eq!(pool.current_tick, 8);
    assert_eq!(pool.current_sqrt_price, tick_to_sqrt_price(9));
    assert_eq!((trader.balance_a, trader.balance_b), (1050, 950));
}

#[test]
fn swap_b_for_a_stops_at_min_tick() {
    let mut pool = pool_at(1);
    let mut lp = account(1_000_000, 1_000_000);
    pool.open_position(&mut lp, 0, 5, 1_000_000).unwrap();
    pool.open_position(&mut lp, 1, 5, 1_000_000).unwrap();
    let mut trader = account(1000, 1000);
    let r = pool.swap_b_for_a(&mut trader, 100).unwrap();
    assert_eq!(r, SwapResult { amount_in: 49, amount_out: 50 });
    assert_eq!(pool.current_tick, MIN_TICK);
    assert_eq!(pool.current_sqrt_price, PRICE_SCALE);
}

#[test]
fn swap_b_for_a_errors() {
    let mut empty = pool_at(10);
    let mut trader = account(1000, 1000);
    assert!(matches!(empty.swap_b_for_a(&mut trader, 10), Err(PoolError::NoLiquidity)));
    let mut pool = scenario_pool();
    assert!(matches!(pool.swap_b_for_a(&mut trader, 1001), Err(PoolError::InsufficientBalance)));
    assert_eq!((trader.balance_a, trader.balance_b), (1000, 1000));
}

#[test]
fn swap_on_empty_pool_is_no_liquidity_whatever_the_amount() {
    let mut empty = pool_at(10);
    let mut trader = account(10, 10);
    assert!(matches!(empty.swap_a_for_b(&mut trader, 0), Err(PoolError::NoLiquidity)));
    assert!(matches!(empty.swap_a_for_b(&mut trader, 11), Err(PoolError::NoLiquidity)));
    assert!(matches!(empty.swap_b_for_a(&mut trader, 0), Err(PoolError::NoLiquidity)));
    assert!(matches!(empty.swap_b_for_a(&mut trader, 11), Err(PoolError::NoLiquidity)));
    assert_eq!((trader.balance_a, trader.balance_b), (10, 10));
}

#[test]
fn position_new_takes_upper_bound_first() {
    let mut pool = pool_at(10);
    let mut acct = account(1000, 1000);
    let pos = Position::new(&mut pool, &mut acct, 15, 10, 1_000_000).unwrap();
    assert_eq!((pos.lower_tick, pos.upper_tick), (10, 15));
    assert_eq!((acct.balance_a, acct.balance_b), (750, 1000));
    assert_eq!(pool.registry.net_at(10), 1_000_000);
    assert_eq!(pool.registry.net_at(15), -1_000_000);
    let r = Position::new(&mut pool, &mut acct, 10, 15, 1);
    assert!(matches!(r, Err(PoolError::InvalidRange)));
}
