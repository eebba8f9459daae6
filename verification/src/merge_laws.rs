//! What merging a history with candles is for: every entry of the history stays, and every price
//! of a candle that the history leaves room for is put at its second.

use crate::candle::additions;
use crate::candle::adds_to;
use crate::candle::all_candle_points;
use crate::candle::candle_points;
use crate::candle::history_points;
use crate::candle::merged_points;
use crate::candle::CandleItem;
use crate::candle::HistoryItem;
use crate::candle::Point;
use crate::decimal::is_decimal;
use crate::decimal::lemma_integer;
use crate::decimal::lemma_written;
use crate::decimal::one_units;
use crate::number::integer;
use crate::number::sum;
use crate::number::Number;
use crate::sort::by_time;
use crate::sort::inserted;
use crate::sort::law_by_time_in_order;
use crate::sort::Timed;
use vstd::prelude::*;

verus! {

/// Whether the seconds at which a candle's prices are put are decimals.
pub open spec fn times_are_decimals(candle: CandleItem, period: u32) -> bool {
    let s = candle.0.units();
    &&& candle.0 is Exact
    &&& is_decimal(s + one_units())
    &&& is_decimal(s + 2 * one_units())
    &&& is_decimal(s + period * one_units())
    &&& is_decimal(s + (period - 1) * one_units())
}

/// Whether the sums by which a candle's seconds are found are exact.
pub open spec fn times_are_exact(candle: CandleItem, period: u32) -> bool {
    let s = candle.0.units();
    &&& sum(candle.0, integer(1)).units() == s + one_units()
    &&& sum(candle.0, integer(2)).units() == s + 2 * one_units()
    &&& sum(sum(candle.0, integer(period as int)), integer(-1)).units() == s + (period - 1)
        * one_units()
}

/// Whether a history leaves room for a price at a time: it is empty, or it has an entry that is
/// later and none at this time.
pub open spec fn leaves_room(history: Seq<HistoryItem>, time: int) -> bool {
    history.len() > 0 ==> {
        &&& exists|i: int|
            0 <= i < history.len() && time < (#[trigger] history[i]).point().time.units()
        &&& forall|i: int|
            0 <= i < history.len() ==> (#[trigger] history[i]).point().time.units() != time
    }
}

/// Whether a price stands at a time.
pub open spec fn has_price(points: Seq<Point>, time: int, price: Number) -> bool {
    exists|n: int|
        0 <= n < points.len() && (#[trigger] points[n]).time.units() == time && points[n].price
            == price
}

proof fn lemma_inserted_contains<T: Timed>(s: Seq<T>, x: T, y: T)
    ensures
        inserted(s, x).contains(y) <==> s.contains(y) || x == y,
        inserted(s, x).len() == s.len() + 1,
    decreases s.len(),
{
    if s.len() == 0 || s.last().time_key() <= x.time_key() {
        lemma_push_contains(s, x, y);
    } else {
        lemma_inserted_contains(s.drop_last(), x, y);
        lemma_push_contains(inserted(s.drop_last(), x), s.last(), y);
        lemma_push_contains(s.drop_last(), s.last(), y);
        assert(s.drop_last().push(s.last()) =~= s);
    }
}

proof fn lemma_push_contains<T>(s: Seq<T>, x: T, y: T)
    ensures
        s.push(x).contains(y) <==> s.contains(y) || x == y,
{
    let t = s.push(x);
    if s.contains(y) {
        let i = choose|i: int| 0 <= i < s.len() && s[i] == y;
        assert(t[i] == y);
    }
    if x == y {
        assert(t[s.len() as int] == y);
    }
    if t.contains(y) {
        let i = choose|i: int| 0 <= i < t.len() && t[i] == y;
        if i < s.len() {
            assert(s[i] == y);
        }
    }
}

/// Sorting loses nothing and adds nothing.
pub proof fn law_by_time_keeps_all<T: Timed>(s: Seq<T>, y: T)
    ensures
        by_time(s).contains(y) <==> s.contains(y),
        by_time(s).len() == s.len(),
    decreases s.len(),
{
    if s.len() > 0 {
        law_by_time_keeps_all(s.drop_last(), y);
        lemma_inserted_contains(by_time(s.drop_last()), s.last(), y);
        lemma_push_contains(s.drop_last(), s.last(), y);
        assert(s.drop_last().push(s.last()) =~= s);
    }
}

proof fn lemma_additions_contain(history: Seq<Point>, points: Seq<Point>, y: Point)
    ensures
        additions(history, points).contains(y) <==> points.contains(y) && adds_to(history, y),
    decreases points.len(),
{
    if points.len() > 0 {
        let front = points.drop_last();
        lemma_additions_contain(history, front, y);
        lemma_push_contains(front, points.last(), y);
        lemma_push_contains(additions(history, front), points.last(), y);
        assert(front.push(points.last()) =~= points);
    }
}

proof fn lemma_all_candle_points(candles: Seq<CandleItem>, period: u32, y: Point)
    ensures
        all_candle_points(candles, period).contains(y) <==> exists|i: int|
            0 <= i < candles.len() && (#[trigger] candle_points(candles[i], period)).contains(y),
        all_candle_points(candles, period).len() == 4 * candles.len(),
    decreases candles.len(),
{
    if candles.len() > 0 {
        let front = candles.drop_last();
        let n = candles.len() - 1;
        lemma_all_candle_points(front, period, y);
        let a = all_candle_points(front, period);
        let b = candle_points(candles.last(), period);
        let all = a + b;
        assert(all.contains(y) <==> a.contains(y) || b.contains(y)) by {
            if a.contains(y) {
                let k = choose|k: int| 0 <= k < a.len() && a[k] == y;
                assert(all[k] == y);
            }
            if b.contains(y) {
                let k = choose|k: int| 0 <= k < b.len() && b[k] == y;
                assert(all[a.len() + k] == y);
            }
            if all.contains(y) {
                let k = choose|k: int| 0 <= k < all.len() && all[k] == y;
                if k < a.len() {
                    assert(a[k] == y);
                } else {
                    assert(b[k - a.len()] == y);
                }
            }
        }
        if a.contains(y) {
            let i = choose|i: int|
                0 <= i < front.len() && (#[trigger] candle_points(front[i], period)).contains(y);
            assert(front[i] == candles[i]);
            assert(candle_points(candles[i], period).contains(y));
        }
        if b.contains(y) {
            assert(candle_points(candles[n], period).contains(y));
        }
        if exists|i: int|
            0 <= i < candles.len() && (#[trigger] candle_points(candles[i], period)).contains(y) {
            let i = choose|i: int|
                0 <= i < candles.len() && (#[trigger] candle_points(candles[i], period)).contains(
                    y,
                );
            if i < n {
                assert(front[i] == candles[i]);
                assert(candle_points(front[i], period).contains(y));
            }
        }
    }
}

proof fn lemma_merged(period: u32, history: Seq<HistoryItem>, candles: Seq<CandleItem>, y: Point)
    ensures
        merged_points(period, history, candles).contains(y) <==> history_points(history).contains(y)
            || (period >= 5 && adds_to(history_points(history), y) && exists|i: int|
            0 <= i < candles.len() && (#[trigger] candle_points(candles[i], period)).contains(y)),
{
    let known = history_points(history);
    let adds = if period >= 5 {
        additions(known, all_candle_points(candles, period))
    } else {
        Seq::empty()
    };
    let all = known + adds;
    law_by_time_keeps_all(all, y);
    lemma_additions_contain(known, all_candle_points(candles, period), y);
    lemma_all_candle_points(candles, period, y);
    if known.contains(y) {
        let k = choose|k: int| 0 <= k < known.len() && known[k] == y;
        assert(all[k] == y);
    }
    if adds.contains(y) {
        let k = choose|k: int| 0 <= k < adds.len() && adds[k] == y;
        assert(all[known.len() + k] == y);
    }
    if all.contains(y) {
        let k = choose|k: int| 0 <= k < all.len() && all[k] == y;
        if k < known.len() {
            assert(known[k] == y);
        } else {
            assert(adds[k - known.len()] == y);
        }
    }
}

proof fn lemma_room(history: Seq<HistoryItem>, y: Point)
    ensures
        adds_to(history_points(history), y) <==> leaves_room(history, y.time.units()),
{
    let known = history_points(history);
    assert(forall|i: int| 0 <= i < history.len() ==> #[trigger] known[i] == history[i].point());
    if history.len() > 0 {
        if adds_to(known, y) {
            let i = choose|i: int|
                0 <= i < known.len() && y.time.units() < (#[trigger] known[i]).time.units();
            assert(y.time.units() < history[i].point().time.units());
            assert forall|i: int| 0 <= i < history.len() implies (
            #[trigger] history[i]).point().time.units() != y.time.units() by {
                assert(known[i] == history[i].point());
            }
        }
        if leaves_room(history, y.time.units()) {
            let i = choose|i: int|
                0 <= i < history.len() && y.time.units() < (
                #[trigger] history[i]).point().time.units();
            assert(y.time.units() < known[i].time.units());
            assert forall|i: int| 0 <= i < known.len() implies (
            #[trigger] known[i]).time.units() != y.time.units() by {
                assert(known[i] == history[i].point());
            }
        }
    }
}

proof fn lemma_put(
    period: u32,
    history: Seq<HistoryItem>,
    candles: Seq<CandleItem>,
    i: int,
    k: int,
    time: int,
)
    requires
        period >= 5,
        0 <= i < candles.len(),
        0 <= k < 4,
        candle_points(candles[i], period)[k].time.units() == time,
        leaves_room(history, time),
    ensures
        has_price(
            merged_points(period, history, candles),
            time,
            candle_points(candles[i], period)[k].price,
        ),
{
    let y = candle_points(candles[i], period)[k];
    lemma_room(history, y);
    lemma_merged(period, history, candles, y);
    assert(candle_points(candles[i], period).contains(y));
    let points = merged_points(period, history, candles);
    let n = choose|n: int| 0 <= n < points.len() && points[n] == y;
    assert(points[n].price == y.price);
}

/// Where the history leaves room, the prices of a candle of at least five seconds are merged at
/// their seconds: the open at the candle's start, the high one second later, the low two seconds
/// later, and the close one second before the period is over.
pub proof fn law_candle_prices_are_put_in_gaps(
    period: u32,
    history: Seq<HistoryItem>,
    candles: Seq<CandleItem>,
    i: int,
)
    requires
        period >= 5,
        0 <= i < candles.len(),
        times_are_exact(candles[i], period),
    ensures
        ({
            let points = merged_points(period, history, candles);
            let CandleItem(start, open, close, high, low, _) = candles[i];
            let s = start.units();
            let second = one_units();
            let last = s + (period - 1) * second;
            &&& last + second == s + period * second
            &&& leaves_room(history, s) ==> has_price(points, s, open)
            &&& leaves_room(history, s + second) ==> has_price(points, s + second, high)
            &&& leaves_room(history, s + 2 * second) ==> has_price(points, s + 2 * second, low)
            &&& leaves_room(history, last) ==> has_price(points, last, close)
        }),
{
    let s = candles[i].0.units();
    let second = one_units();
    assert((period - 1) * second + second == period * second) by (nonlinear_arith);
    if leaves_room(history, s) {
        lemma_put(period, history, candles, i, 0, s);
    }
    if leaves_room(history, s + second) {
        lemma_put(period, history, candles, i, 1, s + second);
    }
    if leaves_room(history, s + 2 * second) {
        lemma_put(period, history, candles, i, 2, s + 2 * second);
    }
    if leaves_room(history, s + (period - 1) * second) {
        lemma_put(period, history, candles, i, 3, s + (period - 1) * second);
    }
}

/// Every merged point is an entry of the history or one of the four prices of a candle at its
/// second, at a time for which the history leaves room. Every entry of the history is merged, and
/// the points come in the order of time.
pub proof fn law_merged_points_come_from_somewhere(
    period: u32,
    history: Seq<HistoryItem>,
    candles: Seq<CandleItem>,
)
    ensures
        ({
            let points = merged_points(period, history, candles);
            &&& forall|a: int, b: int|
                0 <= a <= b < points.len() ==> (#[trigger] points[a]).time.units() <= (
                #[trigger] points[b]).time.units()
            &&& forall|k: int|
                0 <= k < history.len() ==> points.contains((#[trigger] history[k]).point())
            &&& forall|n: int|
                #![trigger points[n]]
                0 <= n < points.len() ==> {
                    ||| exists|k: int|
                        0 <= k < history.len() && points[n] == (#[trigger] history[k]).point()
                    ||| period >= 5 && leaves_room(history, points[n].time.units()) && exists|i: int|
                        #![trigger candles[i]]
                        0 <= i < candles.len() && (times_are_exact(candles[i], period)
                            ==> is_price_of(candles[i], period, points[n]))
                }
        }),
{
    let points = merged_points(period, history, candles);
    let known = history_points(history);
    law_by_time_in_order(
        known + if period >= 5 {
            additions(known, all_candle_points(candles, period))
        } else {
            Seq::empty()
        },
    );
    assert forall|a: int, b: int| 0 <= a <= b < points.len() implies (
    #[trigger] points[a]).time.units() <= (#[trigger] points[b]).time.units() by {
        if a < b {
            assert(points[a].time_key() <= points[b].time_key());
        }
    }
    assert forall|k: int| 0 <= k < history.len() implies points.contains(
        (#[trigger] history[k]).point(),
    ) by {
        lemma_merged(period, history, candles, history[k].point());
        assert(known[k] == history[k].point());
    }
    assert forall|n: int| #![trigger points[n]] 0 <= n < points.len() implies {
        ||| exists|k: int| 0 <= k < history.len() && points[n] == (#[trigger] history[k]).point()
        ||| period >= 5 && leaves_room(history, points[n].time.units()) && exists|i: int|
            #![trigger candles[i]]
            0 <= i < candles.len() && (times_are_exact(candles[i], period) ==> is_price_of(
                candles[i],
                period,
                points[n],
            ))
    } by {
        let y = points[n];
        lemma_merged(period, history, candles, y);
        lemma_room(history, y);
        assert(points.contains(y));
        if known.contains(y) {
            let k = choose|k: int| 0 <= k < known.len() && known[k] == y;
            assert(y == history[k].point());
        } else {
            let i = choose|i: int|
                0 <= i < candles.len() && (#[trigger] candle_points(candles[i], period)).contains(
                    y,
                );
            let four = candle_points(candles[i], period);
            let k = choose|k: int| 0 <= k < four.len() && four[k] == y;
            assert(k == 0 || k == 1 || k == 2 || k == 3);
            assert(times_are_exact(candles[i], period) ==> is_price_of(candles[i], period, y));
        }
    }
}

/// Whether a point is a price of a candle at its second.
pub open spec fn is_price_of(candle: CandleItem, period: u32, point: Point) -> bool {
    let CandleItem(start, open, close, high, low, _) = candle;
    let s = start.units();
    let t = point.time.units();
    ||| t == s && point.price == open
    ||| t == s + one_units() && point.price == high
    ||| t == s + 2 * one_units() && point.price == low
    ||| t == s + (period - 1) * one_units() && point.price == close
}

spec fn room_count(history: Seq<HistoryItem>, time: int) -> int {
    if leaves_room(history, time) {
        1
    } else {
        0
    }
}

proof fn lemma_additions_len(history: Seq<HistoryItem>, a: Seq<Point>, y: Point)
    ensures
        additions(history_points(history), a.push(y)).len() == additions(
            history_points(history),
            a,
        ).len() + room_count(history, y.time.units()),
{
    assert(a.push(y).drop_last() =~= a);
    lemma_room(history, y);
}

/// No price is merged twice: one candle more brings one point for each of its four seconds for
/// which the history leaves room, and candles of less than five seconds bring none.
pub proof fn law_each_price_is_merged_once(
    period: u32,
    history: Seq<HistoryItem>,
    candles: Seq<CandleItem>,
    candle: CandleItem,
)
    requires
        times_are_exact(candle, period),
    ensures
        ({
            let count = |time: int|
                if leaves_room(history, time) {
                    1int
                } else {
                    0int
                };
            let s = candle.0.units();
            let second = one_units();
            &&& merged_points(period, history, Seq::empty()).len() == history.len()
            &&& period < 5 ==> merged_points(period, history, candles).len() == history.len()
            &&& period >= 5 ==> merged_points(period, history, candles.push(candle)).len()
                == merged_points(period, history, candles).len() + count(s) + count(s + second)
                + count(s + 2 * second) + count(s + (period - 1) * second)
        }),
{
    let known = history_points(history);
    let a = all_candle_points(candles, period);
    let four = candle_points(candle, period);
    let none = Seq::<Point>::empty();
    assert(candles.push(candle).drop_last() =~= candles);
    let all = all_candle_points(candles.push(candle), period);
    assert(all =~= a.push(four[0]).push(four[1]).push(four[2]).push(four[3]));
    lemma_additions_len(history, a, four[0]);
    lemma_additions_len(history, a.push(four[0]), four[1]);
    lemma_additions_len(history, a.push(four[0]).push(four[1]), four[2]);
    lemma_additions_len(history, a.push(four[0]).push(four[1]).push(four[2]), four[3]);
    law_by_time_in_order(known + additions(known, a));
    law_by_time_in_order(known + additions(known, all));
    law_by_time_in_order(known + additions(known, none));
    law_by_time_in_order(known + none);
    assert(all_candle_points(Seq::<CandleItem>::empty(), period) =~= none);
}

/// The seconds of a candle that starts at a whole second are decimals.
pub proof fn law_whole_seconds_are_decimals(candle: CandleItem, period: u32, start: i64)
    requires
        candle.0 == integer(start as int),
    ensures
        times_are_decimals(candle, period),
{
    let one = one_units();
    lemma_integer(start);
    lemma_written(start + 1, 0);
    lemma_written(start + 2, 0);
    lemma_written(start + period, 0);
    lemma_written(start + period - 1, 0);
    assert((start + 1) * one == start * one + one) by (nonlinear_arith);
    assert((start + 2) * one == start * one + 2 * one) by (nonlinear_arith);
    assert((start + period) * one == start * one + period * one) by (nonlinear_arith);
    assert((start + period - 1) * one == start * one + (period - 1) * one) by (nonlinear_arith);
}

} // verus!
