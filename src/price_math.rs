//! Conversion between a tick index and its square-root price.
//!
//! Prices are fixed-point numbers scaled by `PRICE_SCALE`: the square root
//! of `1.0001^t` is held as `floor(PRICE_SCALE * sqrt(1.0001^t))`.
use vstd::prelude::*;

verus! {

/// Lowest tick of the pool's domain.
pub const MIN_TICK: i32 = 0;

/// Highest tick of the pool's domain.
pub const MAX_TICK: i32 = 20;

/// Fixed-point scale of a square-root price: `PRICE_SCALE` stands for 1.0.
pub const PRICE_SCALE: u128 = 1_000_000_000_000_000_000;

/// `b^e` over the integers.
pub open spec fn pow(b: int, e: nat) -> int
    decreases e,
{
    if e == 0 {
        1
    } else {
        b * pow(b, (e - 1) as nat)
    }
}

/// Whether `t` lies in the pool's tick domain.
pub open spec fn tick_in_range(t: int) -> bool {
    MIN_TICK <= t <= MAX_TICK
}

/// `v` is the floor of `PRICE_SCALE * sqrt(1.0001^t)`, that is
/// `v^2 * 10000^t <= PRICE_SCALE^2 * 10001^t < (v + 1)^2 * 10000^t`.
pub open spec fn is_floor_sqrt_price(t: nat, v: int) -> bool {
    &&& 0 <= v
    &&& v * v * pow(10000, t) <= PRICE_SCALE * PRICE_SCALE * pow(10001, t)
    &&& PRICE_SCALE * PRICE_SCALE * pow(10001, t) < (v + 1) * (v + 1) * pow(10000, t)
}

/// The fixed-point square-root price of each tick of the domain.
pub open spec fn sqrt_price_at(t: int) -> int {
    if t <= 0 {
        1000000000000000000
    } else if t == 1 {
        1000049998750062496
    } else if t == 2 {
        1000100000000000000
    } else if t == 3 {
        1000150003749937502
    } else if t == 4 {
        1000200010000000000
    } else if t == 5 {
        1000250018750312496
    } else if t == 6 {
        1000300030001000000
    } else if t == 7 {
        1000350043752187527
    } else if t == 8 {
        1000400060004000100
    } else if t == 9 {
        1000450078756562746
    } else if t == 10 {
        1000500100010000500
    } else if t == 11 {
        1000550123764438402
    } else if t == 12 {
        1000600150020001500
    } else if t == 13 {
        1000650178776814846
    } else if t == 14 {
        1000700210035003500
    } else if t == 15 {
        1000750243794692527
    } else if t == 16 {
        1000800280056007000
    } else if t == 17 {
        1000850318819071996
    } else if t == 18 {
        1000900360084012601
    } else if t == 19 {
        1000950403850953904
    } else {
        1001000450120021002
    }
}

/// Every square-root price of the domain lies between `PRICE_SCALE` and
/// twice it.
pub proof fn lemma_sqrt_price_bounds(t: int)
    requires
        tick_in_range(t),
    ensures
        PRICE_SCALE <= sqrt_price_at(t) < 2 * PRICE_SCALE,
{
}

/// Square-root prices strictly increase with the tick.
pub proof fn lemma_sqrt_price_monotonic(a: int, b: int)
    requires
        tick_in_range(a),
        tick_in_range(b),
        a < b,
    ensures
        sqrt_price_at(a) < sqrt_price_at(b),
    decreases b - a,
{
    if a + 1 < b {
        lemma_sqrt_price_monotonic(a + 1, b);
    }
}

/// Each entry of the table is the floor of `PRICE_SCALE * sqrt(1.0001^t)`.
pub proof fn lemma_sqrt_price_is_floor(t: int)
    requires
        tick_in_range(t),
    ensures
        is_floor_sqrt_price(t as nat, sqrt_price_at(t)),
{
    reveal_with_fuel(pow, 21);
    if t == 0 {
        assert(pow(10000, 0) == 1);
        assert(pow(10001, 0) == 1);
        assert(sqrt_price_at(0) == 1000000000000000000);
        assert(1000000000000000000 * 1000000000000000000 * 1 == 1000000000000000000000000000000000000);
        assert(1000000000000000000 * 1000000000000000000 * 1 == 1000000000000000000000000000000000000);
        assert(1000000000000000001 * 1000000000000000001 * 1 == 1000000000000000002000000000000000001);
    } else if t == 1 {
        assert(pow(10000, 1) == 10000);
        assert(pow(10001, 1) == 10001);
        assert(sqrt_price_at(1) == 1000049998750062496);
        assert(1000049998750062496 * 1000049998750062496 * 10000 == 10000999999999999998119437639057500160000);
        assert(1000000000000000000 * 1000000000000000000 * 10001 == 10001000000000000000000000000000000000000);
        assert(1000049998750062497 * 1000049998750062497 * 10000 == 10001000000000000018120437614058750090000);
    } else if t == 2 {
        assert(pow(10000, 2) == 100000000);
        assert(pow(10001, 2) == 100020001);
        assert(sqrt_price_at(2) == 1000100000000000000);
        assert(1000100000000000000 * 1000100000000000000 * 100000000 == 100020001000000000000000000000000000000000000);
        assert(1000000000000000000 * 1000000000000000000 * 100020001 == 100020001000000000000000000000000000000000000);
        assert(1000100000000000001 * 1000100000000000001 * 100000000 == 100020001000000000200020000000000000100000000);
    } else if t == 3 {
        assert(pow(10000, 3) == 1000000000000);
        assert(pow(10001, 3) == 1000300030001);
        assert(sqrt_price_at(3) == 1000150003749937502);
        assert(1000150003749937502 * 1000150003749937502 * 1000000000000 == 1000300030000999999312631268906000004000000000000);
        assert(1000000000000000000 * 1000000000000000000 * 1000300030001 == 1000300030001000000000000000000000000000000000000);
        assert(1000150003749937503 * 1000150003749937503 * 1000000000000 == 1000300030001000001312931276405875009000000000000);
    } else if t == 4 {
        assert(pow(10000, 4) == 10000000000000000);
        assert(pow(10001, 4) == 10004000600040001);
        assert(sqrt_price_at(4) == 1000200010000000000);
        assert(1000200010000000000 * 1000200010000000000 * 10000000000000000 == 10004000600040001000000000000000000000000000000000000);
        assert(1000000000000000000 * 1000000000000000000 * 10004000600040001 == 10004000600040001000000000000000000000000000000000000);
        assert(1000200010000000001 * 1000200010000000001 * 10000000000000000 == 10004000600040001020004000200000000010000000000000000);
    } else if t == 5 {
        assert(pow(10000, 5) == 100000000000000000000);
        assert(pow(10001, 5) == 100050010001000050001);
        assert(sqrt_price_at(5) == 1000250018750312496);
        assert(1000250018750312496 * 1000250018750312496 * 100000000000000000000 == 100050010001000049982221869765375001600000000000000000000);
        assert(1000000000000000000 * 1000000000000000000 * 100050010001000050001 == 100050010001000050001000000000000000000000000000000000000);
        assert(1000250018750312497 * 1000250018750312497 * 100000000000000000000 == 100050010001000050182271873515437500900000000000000000000);
    } else if t == 6 {
        assert(pow(10000, 6) == 1000000000000000000000000);
        assert(pow(10001, 6) == 1000600150020001500060001);
        assert(sqrt_price_at(6) == 1000300030001000000);
        assert(1000300030001000000 * 1000300030001000000 * 1000000000000000000000000 == 1000600150020001500060001000000000000000000000000000000000000);
        assert(1000000000000000000 * 1000000000000000000 * 1000600150020001500060001 == 1000600150020001500060001000000000000000000000000000000000000);
        assert(1000300030001000001 * 1000300030001000001 * 1000000000000000000000000 == 1000600150020001502060601060002000001000000000000000000000000);
    } else if t == 7 {
        assert(pow(10000, 7) == 10000000000000000000000000000);
        assert(pow(10001, 7) == 10007002100350035002100070001);
        assert(sqrt_price_at(7) == 1000350043752187527);
        assert(1000350043752187527 * 1000350043752187527 * 10000000000000000000000000000 == 10007002100350034995228133977743757290000000000000000000000000000);
        assert(1000000000000000000 * 1000000000000000000 * 10007002100350035002100070001 == 10007002100350035002100070001000000000000000000000000000000000000);
        assert(1000350043752187528 * 1000350043752187528 * 10000000000000000000000000000 == 10007002100350035015235134852787507840000000000000000000000000000);
    } else if t == 8 {
        assert(pow(10000, 8) == 100000000000000000000000000000000);
        assert(pow(10001, 8) == 100080028005600700056002800080001);
        assert(sqrt_price_at(8) == 1000400060004000100);
        assert(1000400060004000100 * 1000400060004000100 * 100000000000000000000000000000000 == 100080028005600700056002800080001000000000000000000000000000000000000);
        assert(1000000000000000000 * 1000000000000000000 * 100080028005600700056002800080001 == 100080028005600700056002800080001000000000000000000000000000000000000);
        assert(1000400060004000101 * 1000400060004000101 * 100000000000000000000000000000000 == 100080028005600700256082812080801020100000000000000000000000000000000);
    } else if t == 9 {
        assert(pow(10000, 9) == 1000000000000000000000000000000000000);
        assert(pow(10001, 9) == 1000900360084012601260084003600090001);
        assert(sqrt_price_at(9) == 1000450078756562746);
        assert(1000450078756562746 * 1000450078756562746 * 1000000000000000000000000000000000000 == 1000900360084012601067575564635060516000000000000000000000000000000000000);
        assert(1000000000000000000 * 1000000000000000000 * 1000900360084012601260084003600090001 == 1000900360084012601260084003600090001000000000000000000000000000000000000);
        assert(1000450078756562747 * 1000450078756562747 * 1000000000000000000000000000000000000 == 1000900360084012603068475722148186009000000000000000000000000000000000000);
    } else if t == 10 {
        assert(pow(10000, 10) == 10000000000000000000000000000000000000000);
        assert(pow(10001, 10) == 10010004501200210025202100120004500100001);
        assert(sqrt_price_at(10) == 1000500100010000500);
        assert(1000500100010000500 * 1000500100010000500 * 10000000000000000000000000000000000000000 == 10010004501200210025002000100002500000000000000000000000000000000000000000000);
        assert(1000000000000000000 * 1000000000000000000 * 10010004501200210025202100120004500100001 == 10010004501200210025202100120004500100001000000000000000000000000000000000000);
        assert(1000500100010000501 * 1000500100010000501 * 10000000000000000000000000000000000000000 == 10010004501200210045012002100202510010000000000000000000000000000000000000000);
    } else if t == 11 {
        assert(pow(10000, 11) == 100000000000000000000000000000000000000000000);
        assert(pow(10001, 11) == 100110055016503300462046203300165005500110001);
        assert(sqrt_price_at(11) == 1000550123764438402);
        assert(1000550123764438402 * 1000550123764438402 * 100000000000000000000000000000000000000000000 == 100110055016503300387841296245231360400000000000000000000000000000000000000000000);
        assert(1000000000000000000 * 1000000000000000000 * 100110055016503300462046203300165005500110001 == 100110055016503300462046203300165005500110001000000000000000000000000000000000000);
        assert(1000550123764438403 * 1000550123764438403 * 100000000000000000000000000000000000000000000 == 100110055016503300587951320998119040900000000000000000000000000000000000000000000);
    } else if t == 12 {
        assert(pow(10000, 12) == 1000000000000000000000000000000000000000000000000);
        assert(pow(10001, 12) == 1001200660220049507920924079204950220006600120001);
        assert(sqrt_price_at(12) == 1000600150020001500);
        assert(1000600150020001500 * 1000600150020001500 * 1000000000000000000000000000000000000000000000000 == 1001200660220049507800850060002250000000000000000000000000000000000000000000000000000);
        assert(1000000000000000000 * 1000000000000000000 * 1001200660220049507920924079204950220006600120001 == 1001200660220049507920924079204950220006600120001000000000000000000000000000000000000);
        assert(1000600150020001501 * 1000600150020001501 * 1000000000000000000000000000000000000000000000000 == 1001200660220049509802050360042253001000000000000000000000000000000000000000000000000);
    } else if t == 13 {
        assert(pow(10000, 13) == 10000000000000000000000000000000000000000000000000000);
        assert(pow(10001, 13) == 10013007802860715128717161716128707150286007800130001);
        assert(sqrt_price_at(13) == 1000650178776814846);
        assert(1000650178776814846 * 1000650178776814846 * 10000000000000000000000000000000000000000000000000000 == 10013007802860715124493264809660037160000000000000000000000000000000000000000000000000000);
        assert(1000000000000000000 * 1000000000000000000 * 10013007802860715128717161716128707150286007800130001 == 10013007802860715128717161716128707150286007800130001000000000000000000000000000000000000);
        assert(1000650178776814847 * 1000650178776814847 * 10000000000000000000000000000000000000000000000000000 == 10013007802860715144506268385196334090000000000000000000000000000000000000000000000000000);
    } else if t == 14 {
        assert(pow(10000, 14) == 100000000000000000000000000000000000000000000000000000000);
        assert(pow(10001, 14) == 100140091036410012002300334323003200210010364009100140001);
        assert(sqrt_price_at(14) == 1000700210035003500);
        assert(1000700210035003500 * 1000700210035003500 * 100000000000000000000000000000000000000000000000000000000 == 100140091036410011960269524501225000000000000000000000000000000000000000000000000000000000000);
        assert(1000000000000000000 * 1000000000000000000 * 100140091036410012002300334323003200210010364009100140001 == 100140091036410012002300334323003200210010364009100140001000000000000000000000000000000000000);
        assert(1000700210035003501 * 1000700210035003501 * 100000000000000000000000000000000000000000000000000000000 == 100140091036410012160409566508225700100000000000000000000000000000000000000000000000000000000);
    } else if t == 15 {
        assert(pow(10000, 15) == 1000000000000000000000000000000000000000000000000000000000000);
        assert(pow(10001, 15) == 1001501050455136530035005643564355005300313650455010500150001);
        assert(sqrt_price_at(15) == 1000750243794692527);
        assert(1000750243794692527 * 1000750243794692527 * 1000000000000000000000000000000000000000000000000000000000000 == 1001501050455136528642604334469645729000000000000000000000000000000000000000000000000000000000000);
        assert(1000000000000000000 * 1000000000000000000 * 1001501050455136530035005643564355005300313650455010500150001 == 1001501050455136530035005643564355005300313650455010500150001000000000000000000000000000000000000);
        assert(1000750243794692528 * 1000750243794692528 * 1000000000000000000000000000000000000000000000000000000000000 == 1001501050455136530644104822059030784000000000000000000000000000000000000000000000000000000000000);
    } else if t == 16 {
        assert(pow(10000, 16) == 10000000000000000000000000000000000000000000000000000000000000000);
        assert(pow(10001, 16) == 10016012005601820436880091441287114408008436818200560012000160001);
        assert(sqrt_price_at(16) == 1000800280056007000);
        assert(1000800280056007000 * 1000800280056007000 * 10000000000000000000000000000000000000000000000000000000000000000 == 10016012005601820425670567840490000000000000000000000000000000000000000000000000000000000000000000000);
        assert(1000000000000000000 * 1000000000000000000 * 10016012005601820436880091441287114408008436818200560012000160001 == 10016012005601820436880091441287114408008436818200560012000160001000000000000000000000000000000000000);
        assert(1000800280056007001 * 1000800280056007001 * 10000000000000000000000000000000000000000000000000000000000000000 == 10016012005601820445686573441610140010000000000000000000000000000000000000000000000000000000000000000);
    } else if t == 17 {
        assert(pow(10000, 17) == 100000000000000000000000000000000000000000000000000000000000000000000);
        assert(pow(10001, 17) == 100170136068023806189237794504312431194492376618823800680013600170001);
        assert(sqrt_price_at(17) == 1000850318819071996);
        assert(1000850318819071996 * 1000850318819071996 * 100000000000000000000000000000000000000000000000000000000000000000000 == 100170136068023805999386839063142401600000000000000000000000000000000000000000000000000000000000000000000);
        assert(1000000000000000000 * 1000000000000000000 * 100170136068023806189237794504312431194492376618823800680013600170001 == 100170136068023806189237794504312431194492376618823800680013600170001000000000000000000000000000000000000);
        assert(1000850318819071997 * 1000850318819071997 * 100000000000000000000000000000000000000000000000000000000000000000000 == 100170136068023806199556902826956800900000000000000000000000000000000000000000000000000000000000000000000);
    } else if t == 18 {
        assert(pow(10000, 18) == 1000000000000000000000000000000000000000000000000000000000000000000000000);
        assert(pow(10001, 18) == 1001801530816306085698567182837628624376118258564856830600816015300180001);
        assert(sqrt_price_at(18) == 1000900360084012601);
        assert(1000900360084012601 * 1000900360084012601 * 1000000000000000000000000000000000000000000000000000000000000000000000000 == 1001801530816306085177930837126785201000000000000000000000000000000000000000000000000000000000000000000000000);
        assert(1000000000000000000 * 1000000000000000000 * 1001801530816306085698567182837628624376118258564856830600816015300180001 == 1001801530816306085698567182837628624376118258564856830600816015300180001000000000000000000000000000000000000);
        assert(1000900360084012602 * 1000900360084012602 * 1000000000000000000000000000000000000000000000000000000000000000000000000 == 1001801530816306087179731557294810404000000000000000000000000000000000000000000000000000000000000000000000000);
    } else if t == 19 {
        assert(pow(10000, 19) == 10000000000000000000000000000000000000000000000000000000000000000000000000000);
        assert(pow(10001, 19) == 10019017109693877163071370395559123872385558703907133162838760969017100190001);
        assert(sqrt_price_at(19) == 1000950403850953904);
        assert(1000950403850953904 * 1000950403850953904 * 10000000000000000000000000000000000000000000000000000000000000000000000000000 == 10019017109693877160105691707328412160000000000000000000000000000000000000000000000000000000000000000000000000000);
        assert(1000000000000000000 * 1000000000000000000 * 10019017109693877163071370395559123872385558703907133162838760969017100190001 == 10019017109693877163071370395559123872385558703907133162838760969017100190001000000000000000000000000000000000000);
        assert(1000950403850953905 * 1000950403850953905 * 10000000000000000000000000000000000000000000000000000000000000000000000000000 == 10019017109693877180124699784347490250000000000000000000000000000000000000000000000000000000000000000000000000000);
    } else if t == 20 {
        assert(pow(10000, 20) == 100000000000000000000000000000000000000000000000000000000000000000000000000000000);
        assert(pow(10001, 20) == 100200190114048465507876775325986797847727972597775238761550448451140019000200001);
        assert(sqrt_price_at(20) == 1001000450120021002);
        assert(1001000450120021002 * 1001000450120021002 * 100000000000000000000000000000000000000000000000000000000000000000000000000000000 == 100200190114048465403730684092108400400000000000000000000000000000000000000000000000000000000000000000000000000000000);
        assert(1000000000000000000 * 1000000000000000000 * 100200190114048465507876775325986797847727972597775238761550448451140019000200001 == 100200190114048465507876775325986797847727972597775238761550448451140019000200001000000000000000000000000000000000000);
        assert(1001000450120021003 * 1001000450120021003 * 100000000000000000000000000000000000000000000000000000000000000000000000000000000 == 100200190114048465603930774116112600900000000000000000000000000000000000000000000000000000000000000000000000000000000);
    }
}

/// The square-root price of `tick`, in fixed point.
pub fn tick_to_sqrt_price(tick: i32) -> (r: u128)
    requires
        tick_in_range(tick as int),
    ensures
        r == sqrt_price_at(tick as int),
        is_floor_sqrt_price(tick as nat, r as int),
        PRICE_SCALE <= r < 2 * PRICE_SCALE,
{
    proof {
        lemma_sqrt_price_is_floor(tick as int);
    }
    if tick <= 0 {
        1000000000000000000
    } else if tick == 1 {
        1000049998750062496
    } else if tick == 2 {
        1000100000000000000
    } else if tick == 3 {
        1000150003749937502
    } else if tick == 4 {
        1000200010000000000
    } else if tick == 5 {
        1000250018750312496
    } else if tick == 6 {
        1000300030001000000
    } else if tick == 7 {
        1000350043752187527
    } else if tick == 8 {
        1000400060004000100
    } else if tick == 9 {
        1000450078756562746
    } else if tick == 10 {
        1000500100010000500
    } else if tick == 11 {
        1000550123764438402
    } else if tick == 12 {
        1000600150020001500
    } else if tick == 13 {
        1000650178776814846
    } else if tick == 14 {
        1000700210035003500
    } else if tick == 15 {
        1000750243794692527
    } else if tick == 16 {
        1000800280056007000
    } else if tick == 17 {
        1000850318819071996
    } else if tick == 18 {
        1000900360084012601
    } else if tick == 19 {
        1000950403850953904
    } else {
        1001000450120021002
    }
}

} // verus!
