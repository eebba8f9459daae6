//! What holds of all candles.

use crate::candle::additions;
use crate::candle::adds_to;
use crate::candle::all_candle_points;
use crate::candle::candle_of;
use crate::candle::gathered;
use crate::candle::held;
use crate::candle::history_points;
use crate::candle::lemma_sorted_spans_held;
use crate::candle::merged_points;
use crate::candle::point_candles;
use crate::candle::span_prices;
use crate::candle::span_prices_towards_epoch;
use crate::candle::span_start;
use crate::candle::span_start_towards_epoch;
use crate::candle::spans_held;
use crate::candle::tick_candles;
use crate::candle::with_price;
use crate::candle::BaseCandle;
use crate::candle::CandleItem;
use crate::candle::CandleView;
use crate::candle::HistoryItem;
use crate::candle::Point;
use crate::candle::Tick;
use crate::clock::DateTime;
use crate::sort::at_time;
use crate::sort::by_time;
use crate::sort::in_order;
use crate::sort::law_by_time_forgets_order;
use crate::sort::law_by_time_in_order;
use crate::sort::law_by_time_stable;
use crate::sort::lemma_none_at_time;
use crate::sort::same_at_every_time;
use crate::sort::Timed;
use crate::subscription::quotient_towards_zero;
use crate::subscription::subscription_step;
use crate::subscription::SubscriptionType;
use crate::subscription::Update;
use vstd::arithmetic::div_mod::lemma_div_is_ordered;
use vstd::arithmetic::div_mod::lemma_fundamental_div_mod;
use vstd::arithmetic::div_mod::lemma_mod_multiples_basic;
use vstd::prelude::*;

verus! {

/// Low is the lowest and high the highest of the four prices of a candle.
pub open spec fn well_shaped(c: BaseCandle) -> bool {
    &&& c.low.units() <= c.open.units() <= c.high.units()
    &&& c.low.units() <= c.close.units() <= c.high.units()
}

/// In every candle that is put together from prices, low is lowest and high is highest.
pub proof fn law_candles_well_shaped(prices: Seq<Tick>)
    ensures
        forall|i: int| 0 <= i < gathered(prices).len() ==> #[trigger] well_shaped(gathered(prices)[i]),
    decreases prices.len(),
{
    if prices.len() > 0 {
        law_candles_well_shaped(prices.drop_last());
        let earlier = gathered(prices.drop_last());
        let all = gathered(prices);
        assert forall|i: int| 0 <= i < all.len() implies #[trigger] well_shaped(all[i]) by {
            if earlier.len() > 0 {
                assert(well_shaped(earlier[earlier.len() - 1]));
            }
            if i < earlier.len() {
                assert(well_shaped(earlier[i]));
            }
        }
    }
}

/// Whether a candle stands for a price: it begins where the price's span does, and the price
/// lies between its low and its high.
pub open spec fn stands_for(c: BaseCandle, price: Tick) -> bool {
    c.timestamp == price.time && c.low.units() <= price.price.units() <= c.high.units()
}

/// Every price goes into a candle.
pub proof fn law_candles_cover_prices(prices: Seq<Tick>, n: int)
    requires
        0 <= n < prices.len(),
    ensures
        exists|i: int|
            0 <= i < gathered(prices).len() && #[trigger] stands_for(gathered(prices)[i], prices[n]),
    decreases prices.len(),
{
    let earlier = gathered(prices.drop_last());
    let all = gathered(prices);
    if n == prices.len() - 1 {
        assert(stands_for(all[all.len() - 1], prices[n]));
    } else {
        law_candles_cover_prices(prices.drop_last(), n);
        assert(prices.drop_last()[n] == prices[n]);
        let i = choose|i: int|
            0 <= i < earlier.len() && #[trigger] stands_for(earlier[i], prices.drop_last()[n]);
        assert(stands_for(all[i], prices[n]));
    }
}

/// Whether every candle begins later than the one before it.
pub open spec fn strictly_later(candles: Seq<BaseCandle>) -> bool {
    forall|i: int, j: int|
        0 <= i < j < candles.len() ==> (#[trigger] candles[i]).timestamp < (#[trigger]
        candles[j]).timestamp
}

proof fn lemma_gathered_later(prices: Seq<Tick>)
    requires
        in_order(prices),
    ensures
        strictly_later(gathered(prices)),
        prices.len() > 0 ==> gathered(prices).len() > 0 && gathered(prices).last().timestamp
            == prices.last().time,
        forall|i: int|
            0 <= i < gathered(prices).len() ==> exists|n: int|
                0 <= n < prices.len() && (#[trigger] prices[n]).time == (#[trigger] gathered(
                    prices,
                )[i]).timestamp,
    decreases prices.len(),
{
    if prices.len() > 0 {
        let t = prices.drop_last();
        assert(in_order(t)) by {
            assert forall|i: int, j: int| 0 <= i < j < t.len() implies t[i].time_key()
                <= t[j].time_key() by {
                assert(prices[i].time_key() <= prices[j].time_key());
            }
        }
        lemma_gathered_later(t);
        let earlier = gathered(t);
        let all = gathered(prices);
        if earlier.len() > 0 {
            assert(t.len() > 0);
            assert(prices[t.len() - 1].time_key() <= prices[prices.len() - 1].time_key());
        }
        assert forall|i: int, j: int| 0 <= i < j < all.len() implies (#[trigger] all[i]).timestamp
            < (#[trigger] all[j]).timestamp by {
            assert(all[i].timestamp == earlier[i].timestamp);
            if j < earlier.len() {
                assert(all[j].timestamp == earlier[j].timestamp);
            } else {
                let last = earlier.len() - 1;
                if i < last {
                    assert(earlier[i].timestamp < earlier[last].timestamp);
                }
            }
        }
        assert forall|i: int| 0 <= i < all.len() implies exists|n: int|
            0 <= n < prices.len() && (#[trigger] prices[n]).time == (#[trigger] all[i]).timestamp by {
            if i < earlier.len() {
                assert(earlier[i].timestamp == all[i].timestamp);
                let n = choose|n: int|
                    0 <= n < t.len() && (#[trigger] t[n]).time == earlier[i].timestamp;
                assert(prices[n].time == all[i].timestamp);
            } else {
                assert(prices[prices.len() - 1].time == all[i].timestamp);
            }
        }
    }
}

proof fn lemma_multiple(q: int, period: int)
    requires
        period > 0,
    ensures
        (q * period) % period == 0,
{
    lemma_mod_multiples_basic(q, period);
}

/// A span begins at a multiple of the period, and the second lies in it.
pub proof fn law_span_holds_second(time: int, period: int)
    requires
        period > 0,
    ensures
        span_start(time, period) % period == 0,
        span_start(time, period) <= time < span_start(time, period) + period,
{
    lemma_multiple(time / period, period);
    lemma_fundamental_div_mod(time, period);
    assert(period * (time / period) == (time / period) * period) by (nonlinear_arith);
}

/// The candles of an asset's points begin at multiples of the period, each later than the one
/// before it.
pub proof fn law_point_candles_in_order(points: Seq<Tick>, period: int)
    requires
        period > 0,
        spans_held(points, period),
    ensures
        strictly_later(point_candles(points, period)),
        forall|i: int|
            0 <= i < point_candles(points, period).len() ==> (#[trigger] point_candles(
                points,
                period,
            )[i]).timestamp as int % period == 0,
{
    let sorted = by_time(points);
    let prices = span_prices(sorted, period);
    lemma_sorted_spans_held(points, period);
    law_by_time_in_order(points);
    assert forall|i: int| 0 <= i < sorted.len() implies (#[trigger] prices[i]).time == span_start(
        sorted[i].time as int,
        period,
    ) by {
        assert(span_start(sorted[i].time as int, period) >= i64::MIN);
        law_span_holds_second(sorted[i].time as int, period);
    }
    assert forall|i: int, j: int| 0 <= i < j < prices.len() implies prices[i].time_key()
        <= prices[j].time_key() by {
        assert(sorted[i].time_key() <= sorted[j].time_key());
        lemma_span_start_monotonic(sorted[i].time as int, sorted[j].time as int, period);
    }
    lemma_gathered_later(prices);
    let candles = point_candles(points, period);
    assert forall|i: int| 0 <= i < candles.len() implies (#[trigger] candles[i]).timestamp as int
        % period == 0 by {
        let n = choose|n: int| 0 <= n < prices.len() && (#[trigger] prices[n]).time == candles[i].timestamp;
        law_span_holds_second(sorted[n].time as int, period);
    }
}

proof fn lemma_span_start_monotonic(a: int, b: int, period: int)
    requires
        period > 0,
        a <= b,
    ensures
        span_start(a, period) <= span_start(b, period),
{
    lemma_div_is_ordered(a, b, period);
    assert((a / period) * period <= (b / period) * period) by (nonlinear_arith)
        requires
            a / period <= b / period,
            period > 0,
    ;
}

/// The candles of ticks begin at multiples of the period, each later than the one before it.
pub proof fn law_tick_candles_in_order(ticks: Seq<Tick>, period: int)
    requires
        period > 0,
    ensures
        strictly_later(tick_candles(ticks, period)),
        forall|i: int|
            0 <= i < tick_candles(ticks, period).len() ==> (#[trigger] tick_candles(
                ticks,
                period,
            )[i]).timestamp as int % period == 0,
{
    let sorted = by_time(ticks);
    let prices = span_prices_towards_epoch(sorted, period);
    law_by_time_in_order(ticks);
    assert forall|i: int| 0 <= i < sorted.len() implies (#[trigger] prices[i]).time
        == span_start_towards_epoch(sorted[i].time as int, period) && prices[i].time as int % period
        == 0 by {
        let t = sorted[i].time as int;
        let m = if t < 0 {
            -t
        } else {
            t
        };
        law_span_holds_second(m, period);
        assert(m / period * period >= 0) by (nonlinear_arith)
            requires
                m >= 0,
                period > 0,
        ;
        lemma_multiple(-(m / period), period);
        assert(-(m / period) * period == -(m / period * period)) by (nonlinear_arith);
    }
    assert forall|i: int, j: int| 0 <= i < j < prices.len() implies prices[i].time_key()
        <= prices[j].time_key() by {
        let a = sorted[i].time as int;
        let b = sorted[j].time as int;
        assert(sorted[i].time_key() <= sorted[j].time_key());
        if a >= 0 {
            lemma_span_start_monotonic(a, b, period);
        } else if b < 0 {
            lemma_span_start_monotonic(-b, -a, period);
        } else {
            assert((-a) / period * period >= 0) by (nonlinear_arith)
                requires
                    a < 0,
                    period > 0,
            ;
            assert(b / period * period >= 0) by (nonlinear_arith)
                requires
                    b >= 0,
                    period > 0,
            ;
        }
    }
    lemma_gathered_later(prices);
    let candles = tick_candles(ticks, period);
    assert forall|i: int| 0 <= i < candles.len() implies (#[trigger] candles[i]).timestamp as int
        % period == 0 by {
        let n = choose|n: int| 0 <= n < prices.len() && (#[trigger] prices[n]).time == candles[i].timestamp;
        assert(prices[n].time as int % period == 0);
    }
}

/// Candles do not depend on the order in which ticks of different seconds come: the same ticks
/// of each second, in the same order, make the same candles.
pub proof fn law_order_of_seconds_does_not_matter(a: Seq<Tick>, b: Seq<Tick>, period: int)
    requires
        same_at_every_time(a, b),
    ensures
        tick_candles(a, period) == tick_candles(b, period),
        point_candles(a, period) == point_candles(b, period),
{
    law_by_time_forgets_order(a, b);
}

/// Whether a candle is made of some prices: it opens with the first and closes with the last, and
/// its high and its low are the highest and the lowest of them.
pub open spec fn made_of(c: BaseCandle, prices: Seq<Tick>) -> bool {
    &&& prices.len() > 0
    &&& c.open == prices[0].price
    &&& c.close == prices.last().price
    &&& exists|n: int| 0 <= n < prices.len() && #[trigger] prices[n].price == c.high
    &&& exists|n: int| 0 <= n < prices.len() && #[trigger] prices[n].price == c.low
    &&& forall|n: int|
        0 <= n < prices.len() ==> c.low.units() <= (#[trigger] prices[n]).price.units()
            <= c.high.units()
}

proof fn lemma_made_of_one_more(c: BaseCandle, prices: Seq<Tick>, next: Tick)
    requires
        made_of(c, prices),
    ensures
        made_of(with_price(c, next.price), prices.push(next)),
{
    let all = prices.push(next);
    let d = with_price(c, next.price);
    let high = choose|n: int| 0 <= n < prices.len() && #[trigger] prices[n].price == c.high;
    let low = choose|n: int| 0 <= n < prices.len() && #[trigger] prices[n].price == c.low;
    assert(all[high] == prices[high] && all[low] == prices[low]);
    assert(all[all.len() - 1] == next);
    assert forall|n: int| 0 <= n < all.len() implies d.low.units() <= (#[trigger] all[n]).price.units()
        <= d.high.units() by {
        if n < prices.len() {
            assert(all[n] == prices[n]);
        }
    }
}

/// Every candle that is put together from prices in the order of time is made of the prices of
/// its own span, in their order.
pub proof fn law_candle_is_made_of_its_prices(prices: Seq<Tick>, i: int)
    requires
        in_order(prices),
        0 <= i < gathered(prices).len(),
    ensures
        made_of(
            gathered(prices)[i],
            at_time(prices, gathered(prices)[i].timestamp as int),
        ),
    decreases prices.len(),
{
    if prices.len() > 0 {
        let t = prices.drop_last();
        let next = prices.last();
        let earlier = gathered(t);
        let all = gathered(prices);
        assert forall|i: int, j: int| 0 <= i < j < t.len() implies t[i].time_key()
            <= t[j].time_key() by {
            assert(prices[i].time_key() <= prices[j].time_key());
        }
        lemma_gathered_later(t);
        lemma_gathered_later(prices);
        let key = all[i].timestamp as int;
        if i < earlier.len() {
            law_candle_is_made_of_its_prices(t, i);
            assert(earlier[i].timestamp == key);
            if i < all.len() - 1 {
                assert(all[i].timestamp < all[all.len() - 1].timestamp);
                assert(next.time != key);
                assert(all[i] == earlier[i]);
            } else {
                assert(next.time == key);
                lemma_made_of_one_more(earlier[i], at_time(t, key), next);
            }
        } else {
            assert forall|n: int| 0 <= n < t.len() implies (#[trigger] t[n]).time_key() != key by {
                if n < t.len() - 1 {
                    assert(t[n].time_key() <= t[t.len() - 1].time_key());
                }
                assert(prices[t.len() - 1].time_key() <= prices[prices.len() - 1].time_key());
            }
            lemma_none_at_time(t, key);
            let run = at_time(prices, key);
            assert(run =~= seq![next]);
            assert(run[0] == next);
        }
    }
}

/// All prices of a candle are decimals.
pub open spec fn all_exact(c: BaseCandle) -> bool {
    c.open is Exact && c.high is Exact && c.low is Exact && c.close is Exact
}

proof fn lemma_held(raw: Seq<BaseCandle>, symbol: Seq<char>)
    requires
        forall|i: int| 0 <= i < raw.len() ==> #[trigger] all_exact(raw[i]),
    ensures
        held(raw, symbol).len() == raw.len(),
        forall|i: int|
            0 <= i < raw.len() ==> Ok::<CandleView, Seq<char>>(#[trigger] held(raw, symbol)[i])
                == candle_of(raw[i], symbol),
    decreases raw.len(),
{
    if raw.len() > 0 {
        let t = raw.drop_last();
        assert forall|i: int| 0 <= i < t.len() implies #[trigger] all_exact(t[i]) by {
            assert(all_exact(raw[i]));
        }
        lemma_held(t, symbol);
        assert(all_exact(raw[raw.len() - 1]));
        assert forall|i: int| 0 <= i < raw.len() implies Ok::<CandleView, Seq<char>>(
            #[trigger] held(raw, symbol)[i],
        ) == candle_of(raw[i], symbol) by {
            if i < t.len() {
                assert(held(raw, symbol)[i] == held(t, symbol)[i]);
            }
        }
    }
}

/// Where every price is a decimal no candle is left out, and none has a volume.
pub proof fn law_decimal_prices_keep_every_candle(prices: Seq<Tick>, symbol: Seq<char>)
    requires
        forall|n: int| 0 <= n < prices.len() ==> (#[trigger] prices[n]).price is Exact,
    ensures
        held(gathered(prices), symbol).len() == gathered(prices).len(),
        forall|i: int|
            0 <= i < gathered(prices).len() ==> Ok::<CandleView, Seq<char>>(
                #[trigger] held(gathered(prices), symbol)[i],
            ) == candle_of(gathered(prices)[i], symbol) && held(
                gathered(prices),
                symbol,
            )[i].volume is None,
{
    lemma_all_exact(prices);
    lemma_held(gathered(prices), symbol);
}

proof fn lemma_all_exact(prices: Seq<Tick>)
    requires
        forall|n: int| 0 <= n < prices.len() ==> (#[trigger] prices[n]).price is Exact,
    ensures
        forall|i: int| 0 <= i < gathered(prices).len() ==> #[trigger] all_exact(gathered(prices)[i]),
    decreases prices.len(),
{
    if prices.len() > 0 {
        let t = prices.drop_last();
        assert forall|n: int| 0 <= n < t.len() implies (#[trigger] t[n]).price is Exact by {
            assert(prices[n].price is Exact);
        }
        lemma_all_exact(t);
        let earlier = gathered(t);
        let all = gathered(prices);
        assert(prices[prices.len() - 1].price is Exact);
        assert forall|i: int| 0 <= i < all.len() implies #[trigger] all_exact(all[i]) by {
            if i < earlier.len() {
                assert(all_exact(earlier[i]));
            }
        }
    }
}

proof fn lemma_at_time_split(a: Seq<Point>, b: Seq<Point>, key: int)
    ensures
        at_time(a + b, key) == at_time(a, key) + at_time(b, key),
    decreases b.len(),
{
    if b.len() == 0 {
        assert(a + b =~= a);
        assert(at_time(a, key) + b =~= at_time(a, key));
    } else {
        lemma_at_time_split(a, b.drop_last(), key);
        assert((a + b).drop_last() =~= a + b.drop_last());
        assert(at_time(a + b, key) =~= at_time(a, key) + at_time(b, key));
    }
}

proof fn lemma_no_addition_at(history: Seq<Point>, points: Seq<Point>, n: int)
    requires
        0 <= n < history.len(),
    ensures
        at_time(additions(history, points), history[n].time.units()).len() == 0,
    decreases points.len(),
{
    if points.len() > 0 {
        lemma_no_addition_at(history, points.drop_last(), n);
        if adds_to(history, points.last()) {
            assert(history[n].time.units() != points.last().time.units());
            let earlier = additions(history, points.drop_last());
            assert(earlier.push(points.last()).drop_last() =~= earlier);
        }
    }
}

/// Merging keeps the history: the points come out in the order of time, and at the time of
/// every entry of the history they are exactly the entries of that time, in their order.
pub proof fn law_merge_keeps_history(
    period: u32,
    history: Seq<HistoryItem>,
    candles: Seq<CandleItem>,
    n: int,
)
    requires
        0 <= n < history.len(),
    ensures
        in_order(merged_points(period, history, candles)),
        at_time(merged_points(period, history, candles), history[n].point().time.units())
            == at_time(history_points(history), history[n].point().time.units()),
{
    let known = history_points(history);
    let key = history[n].point().time.units();
    let adds = if period >= 5 {
        additions(known, all_candle_points(candles, period))
    } else {
        Seq::empty()
    };
    assert(known[n] == history[n].point());
    law_by_time_in_order(known + adds);
    law_by_time_stable(known + adds, key);
    lemma_at_time_split(known, adds, key);
    if period >= 5 {
        lemma_no_addition_at(known, all_candle_points(candles, period), n);
    }
    assert(at_time(known, key) + at_time(adds, key) =~= at_time(known, key));
}

/// A subscription by number after some candles.
pub open spec fn chunk_after(sub: SubscriptionType, candles: Seq<BaseCandle>) -> SubscriptionType
    decreases candles.len(),
{
    if candles.len() == 0 {
        sub
    } else {
        subscription_step(
            chunk_after(sub, candles.drop_last()),
            candles.last(),
            DateTime { secs: 0, nanos: 0 },
            DateTime { secs: 0, nanos: 0 },
        ).0
    }
}

/// A subscription by number hands out a candle exactly with every `size`-th candle that it
/// takes in.
pub proof fn law_chunk_counts(
    size: usize,
    first: BaseCandle,
    candles: Seq<BaseCandle>,
    next: BaseCandle,
)
    requires
        size > 0,
    ensures
        ({
            let sub = chunk_after(
                SubscriptionType::Chunk { size, current: 0, candle: first },
                candles,
            );
            let zero = DateTime { secs: 0, nanos: 0 };
            &&& sub matches SubscriptionType::Chunk { size: s, current, .. } && s == size && current
                == candles.len() as int % size as int
            &&& subscription_step(sub, next, zero, zero).1 is Finished <==> (candles.len() as int
                + 1) % size as int == 0
        }),
    decreases candles.len(),
{
    let n = candles.len() as int;
    let d = size as int;
    lemma_fundamental_div_mod(n, d);
    if n > 0 {
        law_chunk_counts(size, first, candles.drop_last(), candles.last());
        lemma_next_mod(n - 1, d);
    } else {
        vstd::arithmetic::div_mod::lemma_small_mod(0, size as nat);
    }
    lemma_next_mod(n, d);
}

proof fn lemma_next_mod(n: int, d: int)
    requires
        n >= 0,
        d > 0,
    ensures
        (n + 1) % d == if n % d + 1 == d {
            0
        } else {
            n % d + 1
        },
{
    lemma_fundamental_div_mod(n, d);
    let q = n / d;
    if n % d + 1 == d {
        assert(n + 1 == (q + 1) * d + 0) by (nonlinear_arith)
            requires
                n == d * q + n % d,
                n % d + 1 == d,
        ;
        vstd::arithmetic::div_mod::lemma_fundamental_div_mod_converse(n + 1, d, q + 1, 0);
    } else {
        assert(n + 1 == q * d + (n % d + 1)) by (nonlinear_arith)
            requires
                n == d * q + n % d,
        ;
        vstd::arithmetic::div_mod::lemma_fundamental_div_mod_converse(n + 1, d, q, n % d + 1);
    }
}

/// A subscription by spans hands a candle out when one of a later span arrives. What it hands
/// out begins at a multiple of the duration, one duration before the end of its span; the
/// arriving candle opens the next span and lies before its end.
pub proof fn law_aligned_candles_begin_their_span(
    sub: SubscriptionType,
    next: BaseCandle,
    start: DateTime,
    at: DateTime,
)
    requires
        sub.wf(),
        sub.takes(next),
        sub matches SubscriptionType::TimeAligned { duration, next_boundary, .. } && (
        next_boundary matches Some(b) ==> b as int % duration.secs as int == 0),
    ensures
        ({
            let secs = sub->TimeAligned_duration.secs as int;
            let (after, update) = subscription_step(sub, next, start, at);
            &&& after matches SubscriptionType::TimeAligned { next_boundary: Some(b), .. } && b as int
                % secs == 0 && next.timestamp < b
            &&& update is Finished <==> sub->next_boundary is Some && sub->next_boundary->0
                <= next.timestamp
            &&& update matches Update::Finished(c) ==> c.timestamp as int % secs == 0
                && c.timestamp + secs == sub->next_boundary->0
        }),
{
    let secs = sub->TimeAligned_duration.secs as int;
    let t = next.timestamp as int;
    let q = quotient_towards_zero(t, secs);
    lemma_multiple(q + 1, secs);
    lemma_fundamental_div_mod(t, secs);
    lemma_fundamental_div_mod(-t, secs);
    if t < 0 {
        let m = (-t) / secs;
        assert(t < (-m + 1) * secs) by (nonlinear_arith)
            requires
                -t == secs * m + (-t) % secs,
                0 <= (-t) % secs < secs,
                secs > 0,
        ;
        assert((-m + 1) * secs >= t) by (nonlinear_arith)
            requires
                -t == secs * m + (-t) % secs,
                0 <= (-t) % secs < secs,
                secs > 0,
        ;
    } else {
        let m = t / secs;
        assert(t < (m + 1) * secs) by (nonlinear_arith)
            requires
                t == secs * m + t % secs,
                t % secs < secs,
        ;
    }
    if let Some(b) = sub->next_boundary {
        lemma_fundamental_div_mod(b as int, secs);
        let k = b as int / secs;
        assert(b - secs == (k - 1) * secs) by (nonlinear_arith)
            requires
                b as int == secs * k + 0,
        ;
        lemma_multiple(k - 1, secs);
    }
}

} // verus!
