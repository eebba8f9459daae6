//! What numbers, whole seconds and readings are for.

use crate::candle::base_candle_of;
use crate::candle::below_tenth;
use crate::candle::candle_of_readings;
use crate::candle::floored;
use crate::candle::floored_points;
use crate::candle::history_item_of;
use crate::candle::item_ticks;
use crate::candle::json_price;
use crate::candle::json_time;
use crate::candle::larger_decimal;
use crate::candle::smaller_decimal;
use crate::candle::tuple_ticks;
use crate::candle::HistoryItem;
use crate::candle::HistoryPoint;
use crate::candle::Point;
use crate::decimal::lemma_new;
use crate::decimal::lemma_pow10_positive;
use crate::decimal::one_units;
use crate::decimal::pow10;
use crate::decimal::Decimal;
use crate::json::json_array;
use crate::json::json_outline;
use crate::json::JsonView;
use crate::number::floor_i64;
use crate::number::integer;
use crate::number::larger;
use crate::number::smaller;
use crate::number::sum;
use crate::number::truncate_i64;
use crate::number::Number;
use vstd::arithmetic::div_mod::lemma_fundamental_div_mod;
use vstd::prelude::*;

verus! {

/// The floor of a number is the whole number that is not above it and less than one below it. A
/// number beyond what an `i64` holds is held at its bounds.
pub proof fn law_floor(n: Number)
    requires
        n is Exact,
    ensures
        ({
            let one = one_units();
            let f = floor_i64(n);
            &&& i64::MIN * one <= n.units() < (i64::MAX + 1) * one ==> f * one <= n.units() < (f + 1)
                * one
            &&& n.units() < i64::MIN * one ==> f == i64::MIN
            &&& n.units() >= (i64::MAX + 1) * one ==> f == i64::MAX
        }),
{
    let one = one_units();
    let u = n.units();
    lemma_pow10_positive(28);
    lemma_fundamental_div_mod(u, one);
    let q = u / one;
    assert(q * one <= u < (q + 1) * one) by (nonlinear_arith)
        requires
            u == one * q + u % one,
            0 <= u % one < one,
    ;
    lemma_between(q, u, one);
}

proof fn lemma_between(q: int, u: int, one: int)
    requires
        one > 0,
        q * one <= u < (q + 1) * one,
    ensures
        u < i64::MIN * one ==> q < i64::MIN,
        u >= (i64::MAX + 1) * one ==> q > i64::MAX,
        i64::MIN * one <= u < (i64::MAX + 1) * one ==> i64::MIN <= q <= i64::MAX,
{
    let low: int = i64::MIN as int;
    let high: int = i64::MAX as int;
    if u < low * one {
        assert(q < low) by (nonlinear_arith)
            requires
                one > 0,
                q * one <= u,
                u < low * one,
        ;
    }
    if u >= (high + 1) * one {
        assert(q > high) by (nonlinear_arith)
            requires
                one > 0,
                u < (q + 1) * one,
                u >= (high + 1) * one,
        ;
    }
    if low * one <= u < (high + 1) * one {
        assert(low <= q) by (nonlinear_arith)
            requires
                one > 0,
                u < (q + 1) * one,
                low * one <= u,
        ;
        assert(q <= high) by (nonlinear_arith)
            requires
                one > 0,
                q * one <= u,
                u < (high + 1) * one,
        ;
    }
}

/// The integer part of a number is the whole number next to it on the side of zero: what is left
/// out is less than one and has the sign of the number.
pub proof fn law_truncate(n: Number)
    requires
        n is Exact,
        i64::MIN * one_units() < n.units() < (i64::MAX + 1) * one_units(),
    ensures
        ({
            let one = one_units();
            let t = truncate_i64(n);
            &&& n.units() >= 0 ==> 0 <= n.units() - t * one < one && t >= 0
            &&& n.units() <= 0 ==> 0 <= t * one - n.units() < one && t <= 0
        }),
{
    let one = one_units();
    lemma_pow10_positive(28);
    let u = n.units();
    let m = if u < 0 {
        -u
    } else {
        u
    };
    lemma_fundamental_div_mod(m, one);
    let q = m / one;
    assert(q * one <= m < (q + 1) * one) by (nonlinear_arith)
        requires
            m == one * q + m % one,
            0 <= m % one < one,
    ;
    assert((q + 1) * one == q * one + one) by (nonlinear_arith);
    assert((-q) * one == -(q * one)) by (nonlinear_arith);
    let high: int = i64::MAX + 1;
    assert(m < high * one) by {
        assert(high * one == -(i64::MIN * one)) by (nonlinear_arith)
            requires
                high == -(i64::MIN as int),
        ;
    }
    assert(0 <= q < high) by (nonlinear_arith)
        requires
            one > 0,
            0 <= m < high * one,
            q * one <= m < (q + 1) * one,
    ;
}

/// The larger of two numbers is one of them, and no less than either; the smaller is one of them,
/// and no more than either. So it is with decimals.
pub proof fn law_larger_and_smaller(a: Number, b: Number, x: Decimal, y: Decimal)
    ensures
        larger(a, b) == a || larger(a, b) == b,
        larger(a, b).units() >= a.units() && larger(a, b).units() >= b.units(),
        smaller(a, b) == a || smaller(a, b) == b,
        smaller(a, b).units() <= a.units() && smaller(a, b).units() <= b.units(),
        larger_decimal(x, y) == x || larger_decimal(x, y) == y,
        larger_decimal(x, y).units() >= x.units() && larger_decimal(x, y).units() >= y.units(),
        smaller_decimal(x, y) == x || smaller_decimal(x, y) == y,
        smaller_decimal(x, y).units() <= x.units() && smaller_decimal(x, y).units() <= y.units(),
{
}

/// Every number that is no decimal lies beyond all decimals, and a sum with one lies where it
/// does.
pub proof fn law_beyond_stays_beyond(a: Number, d: Decimal)
    requires
        !(a is Exact),
    ensures
        sum(a, Number::Exact(d)) == a,
        sum(Number::Exact(d), a) == a,
        floor_i64(Number::Below) == i64::MIN && floor_i64(Number::Above) == i64::MAX,
        truncate_i64(Number::Below) == i64::MIN && truncate_i64(Number::Above) == i64::MAX,
{
}

/// An entry of a history is a time and a price; what is no number counts as nothing, and a third
/// value does not matter.
pub proof fn law_entries_are_time_and_price(time: Number, price: Number, third: Option<Number>)
    ensures
        ({
            let point = Point { time, price };
            let zero = integer(0);
            &&& HistoryItem::Tick([Some(time), Some(price)]).point() == point
            &&& HistoryItem::TickWithNull([Some(time), Some(price), third]).point() == point
            &&& HistoryItem::Tick([None, Some(price)]).point() == Point { time: zero, price }
            &&& HistoryItem::Tick([Some(time), None]).point() == Point { time, price: zero }
            &&& HistoryItem::TickWithNull([None, Some(price), third]).point() == Point {
                time: zero,
                price,
            }
            &&& HistoryItem::TickWithNull([Some(time), None, third]).point() == Point {
                time,
                price: zero,
            }
            &&& zero.units() == 0
        }),
{
    crate::decimal::lemma_integer(0);
    assert(0 * one_units() == 0) by (nonlinear_arith);
}

/// Entries, pairs and points become ticks one for one, in order and with their prices: an entry at
/// the integer part of its time, a pair at its own second, a point at the floor of its time.
pub proof fn law_ticks_stand_for_entries(
    entries: Seq<HistoryItem>,
    pairs: Seq<(i64, Option<Number>)>,
    points: Seq<HistoryPoint>,
    plain: Seq<Point>,
)
    ensures
        item_ticks(entries).len() == entries.len(),
        forall|i: int|
            #![trigger item_ticks(entries)[i]]
            0 <= i < entries.len() ==> item_ticks(entries)[i].time == truncate_i64(
                entries[i].point().time,
            ) && item_ticks(entries)[i].price == entries[i].point().price,
        tuple_ticks(pairs).len() == pairs.len(),
        forall|i: int|
            #![trigger tuple_ticks(pairs)[i]]
            0 <= i < pairs.len() ==> tuple_ticks(pairs)[i].time == pairs[i].0 && (
            pairs[i].1 is Some ==> tuple_ticks(pairs)[i].price == pairs[i].1->0) && (
            pairs[i].1 is None ==> tuple_ticks(pairs)[i].price.units() == 0),
        floored(points).len() == points.len(),
        forall|i: int|
            #![trigger floored(points)[i]]
            0 <= i < points.len() ==> floored(points)[i].time == floor_i64(points[i].time)
                && floored(points)[i].price == points[i].price,
        floored_points(plain).len() == plain.len(),
        forall|i: int|
            #![trigger floored_points(plain)[i]]
            0 <= i < plain.len() ==> floored_points(plain)[i].time == floor_i64(plain[i].time)
                && floored_points(plain)[i].price == plain[i].price,
{
    crate::decimal::lemma_integer(0);
    assert(0 * one_units() == 0) by (nonlinear_arith);
}

/// Readings make up a candle: each is the price that it stands for, the time is its integer part,
/// and a volume that is left out is none. Without one of them there is no candle.
pub proof fn law_readings_make_a_candle(
    time: Number,
    open: Number,
    close: Number,
    high: Number,
    low: Number,
    volume: Number,
)
    ensures
        ({
            let is = |c: crate::candle::BaseCandle|
                c.timestamp == truncate_i64(time) && c.open == open && c.close == close && c.high
                    == high && c.low == low;
            let (t, o, c, h, l) = (Some(time), Some(open), Some(close), Some(high), Some(low));
            let v = Some(Some(volume));
            let none = None::<Number>;
            &&& candle_of_readings(t, o, c, h, l, None) matches Some(r) && is(r)
                && r.volume is None
            &&& candle_of_readings(t, o, c, h, l, v) matches Some(r) && is(r) && r.volume == Some(
                volume,
            )
            &&& candle_of_readings(none, o, c, h, l, v) is None
            &&& candle_of_readings(t, none, c, h, l, v) is None
            &&& candle_of_readings(t, o, none, h, l, v) is None
            &&& candle_of_readings(t, o, c, none, l, v) is None
            &&& candle_of_readings(t, o, c, h, none, v) is None
            &&& candle_of_readings(t, o, c, h, l, Some(none)) is None
        }),
{
}

/// A candle is read from an array of a time, the open, the close, the high and the low, in this
/// order, and perhaps a volume.
pub proof fn law_candles_are_read_in_order(text: Seq<char>)
    ensures
        base_candle_of(text) matches Some(c) ==> {
            &&& json_array(text) matches Some(list) && {
                &&& list.len() == 5 || list.len() == 6
                &&& json_time(list[0]) is Some && c.timestamp == truncate_i64(
                    json_time(list[0])->0,
                )
                &&& json_price(list[1]) == Some(c.open)
                &&& json_price(list[2]) == Some(c.close)
                &&& json_price(list[3]) == Some(c.high)
                &&& json_price(list[4]) == Some(c.low)
                &&& list.len() == 5 ==> c.volume is None
                &&& list.len() == 6 && json_outline(list[5]) == Some(JsonView::Null)
                    ==> c.volume is None
                &&& list.len() == 6 && json_outline(list[5]) != Some(JsonView::Null)
                    ==> c.volume is Some && json_price(list[5]) == c.volume
            }
        },
        json_array(text) matches Some(list) ==> {
            let five = json_time(list[0]) is Some && json_price(list[1]) is Some && json_price(
                list[2],
            ) is Some && json_price(list[3]) is Some && json_price(list[4]) is Some;
            &&& list.len() == 5 && five ==> base_candle_of(text) is Some
            &&& list.len() == 6 && five && (json_price(list[5]) is Some || json_outline(list[5])
                == Some(JsonView::Null)) ==> base_candle_of(text) is Some
        },
{
}

/// An entry of a history is read from two or three values: the time from the first, the price from
/// the second.
pub proof fn law_entries_are_read_in_order(values: Seq<Seq<char>>)
    ensures
        history_item_of(values) is Some <==> values.len() == 2 || values.len() == 3,
        history_item_of(values) matches Some(item) ==> {
            &&& json_time(values[0]) is Some ==> item.point().time == json_time(values[0])->0
            &&& json_price(values[1]) is Some ==> item.point().price == json_price(values[1])->0
            &&& json_time(values[0]) is None ==> item.point().time.units() == 0
            &&& json_price(values[1]) is None ==> item.point().price.units() == 0
        },
{
    crate::decimal::lemma_integer(0);
    assert(0 * one_units() == 0) by (nonlinear_arith);
}

/// A body is below a tenth of a range by more than half of the smallest step: ten bodies are less
/// than the range, and by how much.
pub proof fn law_below_a_tenth(body: int, range: int)
    ensures
        below_tenth(body, range) <==> 20 * (body * one_units()) < (2 * one_units() - 10) * range,
        range >= 0 && below_tenth(body, range) ==> 10 * body < range,
{
    let one = one_units();
    let t = pow10(27);
    lemma_new(1, 1);
    lemma_pow10_positive(27);
    lemma_pow10_positive(28);
    assert(one == 10 * t) by {
        reveal_with_fuel(vstd::arithmetic::power::pow, 2);
    }
    assert(crate::candle::tenth().units() == t);
    let b = body * one;
    let a = (2 * t - 1) * range;
    assert((2 * one - 10) * range == 10 * a) by (nonlinear_arith)
        requires
            one == 10 * t,
            a == (2 * t - 1) * range,
    ;
    if range >= 0 && below_tenth(body, range) {
        assert(10 * body < range) by (nonlinear_arith)
            requires
                range >= 0,
                t > 0,
                one == 10 * t,
                2 * (body * one) < (2 * t - 1) * range,
        ;
    }
}

/// The upper shadow, the body and the lower shadow of a candle make up its range, whichever of open
/// and close is the larger.
pub proof fn law_shadows_and_body_make_up_the_range(
    open: Decimal,
    high: Decimal,
    low: Decimal,
    close: Decimal,
)
    ensures
        ({
            let upper = high.units() - larger_decimal(open, close).units();
            let lower = smaller_decimal(open, close).units() - low.units();
            let body = crate::decimal::magnitude(close.units() - open.units());
            &&& upper + body + lower == high.units() - low.units()
            &&& body >= 0
            &&& body == close.units() - open.units() || body == open.units() - close.units()
        }),
{
}

} // verus!
