//! What a candle says of prices: of all that lie in its span it has the first as its open, the
//! last as its close, the highest as its high and the lowest as its low.

use crate::candle::all_but_last;
use crate::candle::gathered;
use crate::candle::held;
use crate::candle::point_candles;
use crate::candle::span_prices;
use crate::candle::span_prices_towards_epoch;
use crate::candle::span_start;
use crate::candle::span_start_towards_epoch;
use crate::candle::spans_held;
use crate::candle::tick_candles;
use crate::candle::BaseCandle;
use crate::candle::CandleView;
use crate::candle::Tick;
use crate::candle_laws::law_candle_is_made_of_its_prices;
use crate::candle_laws::law_candles_cover_prices;
use crate::candle_laws::law_point_candles_in_order;
use crate::candle_laws::law_span_holds_second;
use crate::candle_laws::law_tick_candles_in_order;
use crate::candle_laws::stands_for;
use crate::number::Number;
use crate::sort::at_time;
use crate::sort::by_time;
use crate::sort::in_order;
use crate::sort::inserted;
use crate::sort::law_by_time_in_order;
use crate::sort::Timed;
use vstd::prelude::*;

verus! {

/// Whether a price is the first of those within a span: none there is earlier, nor of the same
/// second and in front of it.
pub open spec fn is_first(ticks: Seq<Tick>, within: spec_fn(int) -> bool, n: int) -> bool {
    &&& 0 <= n < ticks.len()
    &&& within(ticks[n].time as int)
    &&& forall|m: int|
        0 <= m < ticks.len() && within((#[trigger] ticks[m]).time as int) ==> ticks[n].time
            < ticks[m].time || (ticks[n].time == ticks[m].time && n <= m)
}

/// Whether a price is the last of those within a span.
pub open spec fn is_last(ticks: Seq<Tick>, within: spec_fn(int) -> bool, n: int) -> bool {
    &&& 0 <= n < ticks.len()
    &&& within(ticks[n].time as int)
    &&& forall|m: int|
        0 <= m < ticks.len() && within((#[trigger] ticks[m]).time as int) ==> ticks[m].time
            < ticks[n].time || (ticks[n].time == ticks[m].time && m <= n)
}

/// Whether a price lies within a span.
pub open spec fn lies_within(ticks: Seq<Tick>, within: spec_fn(int) -> bool, n: int) -> bool {
    0 <= n < ticks.len() && within(ticks[n].time as int)
}

/// Whether a candle sums up the prices within a span: it opens with the first, closes with the
/// last, and its high and low are the highest and the lowest of them.
pub open spec fn sums_up(c: BaseCandle, ticks: Seq<Tick>, within: spec_fn(int) -> bool) -> bool {
    &&& exists|n: int| #[trigger] is_first(ticks, within, n) && ticks[n].price == c.open
    &&& exists|n: int| #[trigger] is_last(ticks, within, n) && ticks[n].price == c.close
    &&& exists|n: int| #[trigger] lies_within(ticks, within, n) && ticks[n].price == c.high
    &&& exists|n: int| #[trigger] lies_within(ticks, within, n) && ticks[n].price == c.low
    &&& forall|n: int| #[trigger]
        lies_within(ticks, within, n) ==> c.low.units() <= ticks[n].price.units()
            <= c.high.units()
}

spec fn slot<T: Timed>(s: Seq<T>, x: T) -> int
    decreases s.len(),
{
    if s.len() == 0 || s.last().time_key() <= x.time_key() {
        s.len() as int
    } else {
        slot(s.drop_last(), x)
    }
}

proof fn lemma_slot<T: Timed>(s: Seq<T>, x: T)
    requires
        in_order(s),
    ensures
        0 <= slot(s, x) <= s.len(),
        inserted(s, x) == s.insert(slot(s, x), x),
        forall|j: int| 0 <= j < slot(s, x) ==> (#[trigger] s[j]).time_key() <= x.time_key(),
        forall|j: int| slot(s, x) <= j < s.len() ==> x.time_key() < (#[trigger] s[j]).time_key(),
    decreases s.len(),
{
    if s.len() == 0 || s.last().time_key() <= x.time_key() {
        assert(s.insert(s.len() as int, x) =~= s.push(x));
        assert forall|j: int| 0 <= j < s.len() implies (#[trigger] s[j]).time_key()
            <= x.time_key() by {
            if j < s.len() - 1 {
                assert(s[j].time_key() <= s[s.len() - 1].time_key());
            }
        }
    } else {
        let t = s.drop_last();
        assert forall|i: int, j: int| 0 <= i < j < t.len() implies t[i].time_key()
            <= t[j].time_key() by {
            assert(s[i].time_key() <= s[j].time_key());
        }
        lemma_slot(t, x);
        let at = slot(t, x);
        assert(t.insert(at, x).push(s.last()) =~= s.insert(at, x));
        assert forall|j: int| 0 <= j < at implies (#[trigger] s[j]).time_key() <= x.time_key() by {
            assert(t[j] == s[j]);
        }
        assert forall|j: int| at <= j < s.len() implies x.time_key() < (
        #[trigger] s[j]).time_key() by {
            if j < t.len() {
                assert(t[j] == s[j]);
            }
        }
    }
}

/// Where each record of a sorted list stood.
spec fn places<T: Timed>(s: Seq<T>) -> Seq<int>
    decreases s.len(),
{
    if s.len() == 0 {
        Seq::empty()
    } else {
        let t = s.drop_last();
        places(t).insert(slot(by_time(t), s.last()), t.len() as int)
    }
}

proof fn lemma_places<T: Timed>(s: Seq<T>)
    ensures
        places(s).len() == s.len(),
        by_time(s).len() == s.len(),
        forall|k: int|
            0 <= k < s.len() ==> 0 <= #[trigger] places(s)[k] < s.len() && by_time(s)[k]
                == s[places(s)[k]],
        forall|k: int, m: int|
            0 <= k < m < s.len() ==> {
                let a = #[trigger] places(s)[k];
                let b = #[trigger] places(s)[m];
                s[a].time_key() < s[b].time_key() || (s[a].time_key() == s[b].time_key() && a < b)
            },
        forall|n: int| 0 <= n < s.len() ==> #[trigger] stood(s, n),
    decreases s.len(),
{
    law_by_time_in_order(s);
    if s.len() > 0 {
        let t = s.drop_last();
        let x = s.last();
        lemma_places(t);
        law_by_time_in_order(t);
        lemma_slot(by_time(t), x);
        let at = slot(by_time(t), x);
        let old = places(t);
        let new = places(s);
        assert forall|k: int| 0 <= k < s.len() implies 0 <= #[trigger] new[k] < s.len()
            && by_time(s)[k] == s[new[k]] by {
            if k < at {
                assert(new[k] == old[k]);
            } else if k > at {
                assert(new[k] == old[k - 1]);
            }
        }
        assert forall|k: int, m: int| 0 <= k < m < s.len() implies {
            let a = #[trigger] new[k];
            let b = #[trigger] new[m];
            s[a].time_key() < s[b].time_key() || (s[a].time_key() == s[b].time_key() && a < b)
        } by {
            let ok = if k < at {
                k
            } else {
                k - 1
            };
            let om = if m < at {
                m
            } else {
                m - 1
            };
            if k != at {
                assert(new[k] == old[ok]);
                assert(by_time(t)[ok] == t[old[ok]]);
            }
            if m != at {
                assert(new[m] == old[om]);
                assert(by_time(t)[om] == t[old[om]]);
            }
        }
        assert forall|n: int| 0 <= n < s.len() implies #[trigger] stood(s, n) by {
            if n == t.len() {
                assert(new[at] == n);
            } else {
                assert(stood(t, n));
                let k = choose|k: int| 0 <= k < t.len() && #[trigger] places(t)[k] == n;
                if k < at {
                    assert(new[k] == n);
                } else {
                    assert(new[k + 1] == n);
                }
            }
        }
    }
}

spec fn stood<T: Timed>(s: Seq<T>, n: int) -> bool {
    exists|k: int| 0 <= k < s.len() && #[trigger] places(s)[k] == n
}

/// The places of the records of one time, in order.
spec fn indices<T: Timed>(s: Seq<T>, key: int) -> Seq<int>
    decreases s.len(),
{
    if s.len() == 0 {
        Seq::empty()
    } else if s.last().time_key() == key {
        indices(s.drop_last(), key).push(s.len() - 1)
    } else {
        indices(s.drop_last(), key)
    }
}

proof fn lemma_indices<T: Timed>(s: Seq<T>, key: int)
    ensures
        indices(s, key).len() == at_time(s, key).len(),
        forall|i: int|
            0 <= i < indices(s, key).len() ==> 0 <= #[trigger] indices(s, key)[i] < s.len()
                && s[indices(s, key)[i]].time_key() == key && at_time(s, key)[i] == s[indices(
                s,
                key,
            )[i]],
        forall|i: int, j: int|
            0 <= i < j < indices(s, key).len() ==> #[trigger] indices(s, key)[i] < #[trigger] indices(
                s,
                key,
            )[j],
        forall|k: int|
            0 <= k < s.len() && (#[trigger] s[k]).time_key() == key ==> indices(s, key).contains(k),
    decreases s.len(),
{
    if s.len() > 0 {
        let t = s.drop_last();
        lemma_indices(t, key);
        let old = indices(t, key);
        let new = indices(s, key);
        assert forall|i: int| 0 <= i < new.len() implies 0 <= #[trigger] new[i] < s.len()
            && s[new[i]].time_key() == key && at_time(s, key)[i] == s[new[i]] by {
            if i < old.len() {
                assert(new[i] == old[i]);
            }
        }
        assert forall|i: int, j: int| 0 <= i < j < new.len() implies #[trigger] new[i]
            < #[trigger] new[j] by {
            assert(new[i] == old[i]);
            if j < old.len() {
                assert(new[j] == old[j]);
            }
        }
        assert forall|k: int| 0 <= k < s.len() && (#[trigger] s[k]).time_key()
            == key implies new.contains(k) by {
            if k < t.len() {
                assert(t[k].time_key() == key);
                let i = choose|i: int| 0 <= i < old.len() && old[i] == k;
                assert(new[i] == k);
            } else {
                assert(new[new.len() - 1] == k);
            }
        }
    }
}

spec fn spanned(ticks: Seq<Tick>, span: spec_fn(int) -> int) -> Seq<Tick> {
    by_time(ticks).map_values(|p: Tick| Tick { time: span(p.time as int) as i64, price: p.price })
}

proof fn lemma_sums_up(ticks: Seq<Tick>, span: spec_fn(int) -> int, i: int)
    requires
        0 <= i < gathered(spanned(ticks, span)).len(),
        forall|n: int|
            0 <= n < ticks.len() ==> i64::MIN <= #[trigger] span(ticks[n].time as int) <= i64::MAX,
        forall|a: int, b: int| a <= b ==> #[trigger] span(a) <= #[trigger] span(b),
    ensures
        sums_up(
            gathered(spanned(ticks, span))[i],
            ticks,
            |t: int| span(t) == gathered(spanned(ticks, span))[i].timestamp,
        ),
{
    let prices = spanned(ticks, span);
    let c = gathered(prices)[i];
    let within = |t: int| span(t) == c.timestamp;
    let p = places(ticks);
    let sorted = by_time(ticks);
    lemma_places(ticks);
    assert forall|k: int| 0 <= k < prices.len() implies (#[trigger] prices[k]).time == span(
        ticks[p[k]].time as int,
    ) && prices[k].price == ticks[p[k]].price by {
        assert(sorted[k] == ticks[p[k]]);
        assert(i64::MIN <= span(ticks[p[k]].time as int) <= i64::MAX);
    }
    assert forall|a: int, b: int| 0 <= a < b < prices.len() implies prices[a].time_key()
        <= prices[b].time_key() by {
        let x = p[a];
        let y = p[b];
        assert(ticks[x].time_key() <= ticks[y].time_key());
        assert(span(ticks[x].time as int) <= span(ticks[y].time as int));
    }
    law_candle_is_made_of_its_prices(prices, i);
    let key = c.timestamp as int;
    let run = at_time(prices, key);
    let ix = indices(prices, key);
    lemma_indices(prices, key);
    let last = run.len() - 1;
    assert forall|m: int| #[trigger] lies_within(ticks, within, m) implies exists|r: int|
        0 <= r < ix.len() && p[#[trigger] ix[r]] == m by {
        assert(stood(ticks, m));
        let k = choose|k: int| 0 <= k < ticks.len() && #[trigger] p[k] == m;
        assert(prices[k].time_key() == key);
        assert(ix.contains(k));
        let r = choose|r: int| 0 <= r < ix.len() && ix[r] == k;
        assert(p[ix[r]] == m);
    }
    assert forall|r: int| 0 <= r < ix.len() implies lies_within(ticks, within, p[#[trigger] ix[r]])
        && run[r].price == ticks[p[ix[r]]].price by {
        assert(prices[ix[r]].time_key() == key);
    }
    let f = p[ix[0]];
    let l = p[ix[last]];
    assert(is_first(ticks, within, f)) by {
        assert forall|m: int| 0 <= m < ticks.len() && within((#[trigger] ticks[m]).time as int) implies ticks[f].time
            < ticks[m].time || (ticks[f].time == ticks[m].time && f <= m) by {
            assert(lies_within(ticks, within, m));
            let r = choose|r: int| 0 <= r < ix.len() && p[#[trigger] ix[r]] == m;
            if r > 0 {
                assert(ix[0] < ix[r]);
                assert(p[ix[0]] == f && p[ix[r]] == m);
            }
        }
        assert(lies_within(ticks, within, f));
    }
    assert(is_last(ticks, within, l)) by {
        assert forall|m: int| 0 <= m < ticks.len() && within((#[trigger] ticks[m]).time as int) implies ticks[m].time
            < ticks[l].time || (ticks[l].time == ticks[m].time && m <= l) by {
            assert(lies_within(ticks, within, m));
            let r = choose|r: int| 0 <= r < ix.len() && p[#[trigger] ix[r]] == m;
            if r < last {
                assert(ix[r] < ix[last]);
                assert(p[ix[last]] == l && p[ix[r]] == m);
            }
        }
        assert(lies_within(ticks, within, l));
    }
    assert(ticks[f].price == c.open) by {
        assert(run[0].price == ticks[p[ix[0]]].price);
    }
    assert(ticks[l].price == c.close) by {
        assert(run[last].price == ticks[p[ix[last]]].price);
    }
    let hi = choose|n: int| 0 <= n < run.len() && #[trigger] run[n].price == c.high;
    let lo = choose|n: int| 0 <= n < run.len() && #[trigger] run[n].price == c.low;
    assert(lies_within(ticks, within, p[ix[hi]]) && ticks[p[ix[hi]]].price == c.high);
    assert(lies_within(ticks, within, p[ix[lo]]) && ticks[p[ix[lo]]].price == c.low);
    assert forall|n: int| #[trigger] lies_within(ticks, within, n) implies c.low.units()
        <= ticks[n].price.units() <= c.high.units() by {
        let r = choose|r: int| 0 <= r < ix.len() && p[#[trigger] ix[r]] == n;
        assert(run[r].price == ticks[p[ix[r]]].price);
        assert(c.low.units() <= run[r].price.units() <= c.high.units());
    }
}

proof fn lemma_div_ordered(a: int, b: int, period: int)
    requires
        period > 0,
        a <= b,
    ensures
        span_start(a, period) <= span_start(b, period),
{
    vstd::arithmetic::div_mod::lemma_div_is_ordered(a, b, period);
    assert((a / period) * period <= (b / period) * period) by (nonlinear_arith)
        requires
            a / period <= b / period,
            period > 0,
    ;
}

proof fn lemma_only_span(t: int, start: int, period: int)
    requires
        period > 0,
        start % period == 0,
    ensures
        span_start(t, period) == start <==> start <= t < start + period,
{
    law_span_holds_second(t, period);
    if start <= t < start + period {
        let a = span_start(t, period);
        vstd::arithmetic::div_mod::lemma_fundamental_div_mod(start, period);
        let q = start / period;
        let w = t / period;
        assert(period * q == start);
        assert(w * period == a);
        assert(q == w) by (nonlinear_arith)
            requires
                period > 0,
                period * q <= t < period * q + period,
                w * period <= t < w * period + period,
        ;
        assert(period * q == w * period) by (nonlinear_arith)
            requires
                q == w,
        ;
    }
}

/// Every candle of an asset's points sums up the points of its span: those from its own second on
/// and before the second that is a period later.
pub proof fn law_point_candles_sum_up_their_spans(points: Seq<Tick>, period: int, i: int)
    requires
        period > 0,
        spans_held(points, period),
        0 <= i < point_candles(points, period).len(),
    ensures
        ({
            let c = point_candles(points, period)[i];
            sums_up(c, points, |t: int| c.timestamp <= t < c.timestamp + period)
        }),
{
    let span = |t: int| span_start(t, period);
    let c = point_candles(points, period)[i];
    assert(point_candles(points, period) == gathered(spanned(points, span))) by {
        assert(spanned(points, span) =~= span_prices(by_time(points), period));
    }
    assert forall|n: int| 0 <= n < points.len() implies i64::MIN <= #[trigger] span(
        points[n].time as int,
    ) <= i64::MAX by {
        assert(span_start(points[n].time as int, period) >= i64::MIN);
        law_span_holds_second(points[n].time as int, period);
    }
    assert forall|a: int, b: int| a <= b implies #[trigger] span(a) <= #[trigger] span(b) by {
        lemma_div_ordered(a, b, period);
    }
    lemma_sums_up(points, span, i);
    law_point_candles_in_order(points, period);
    let found = |t: int| span(t) == c.timestamp;
    let within = |t: int| c.timestamp <= t < c.timestamp + period;
    assert forall|t: int| #[trigger] found(t) == within(t) by {
        lemma_only_span(t, c.timestamp as int, period);
    }
    assert(found =~= within);
}

/// Every point goes into a candle: one that begins no later than the point, and less than a period
/// before it.
pub proof fn law_every_point_has_its_candle(points: Seq<Tick>, period: int, n: int)
    requires
        period > 0,
        spans_held(points, period),
        0 <= n < points.len(),
    ensures
        exists|i: int|
            #![trigger point_candles(points, period)[i]]
            0 <= i < point_candles(points, period).len() && point_candles(points, period)[i].timestamp
                <= points[n].time < point_candles(points, period)[i].timestamp + period,
{
    let prices = span_prices(by_time(points), period);
    lemma_places(points);
    assert(stood(points, n));
    let k = choose|k: int| 0 <= k < points.len() && #[trigger] places(points)[k] == n;
    law_span_holds_second(points[n].time as int, period);
    assert(span_start(points[n].time as int, period) >= i64::MIN);
    assert(by_time(points)[k] == points[n]);
    law_candles_cover_prices(prices, k);
    let i = choose|i: int|
        0 <= i < gathered(prices).len() && #[trigger] stands_for(gathered(prices)[i], prices[k]);
    assert(point_candles(points, period)[i].timestamp == span_start(points[n].time as int, period));
}

/// The candles without the current one are all but the newest, as they are. Each of them is over:
/// there is a point a whole period after it began, or later.
pub proof fn law_closed_candles_are_over(points: Seq<Tick>, period: int)
    requires
        period > 0,
        spans_held(points, period),
    ensures
        ({
            let all = point_candles(points, period);
            let closed = all_but_last(all);
            &&& points.len() > 0 ==> all.len() > 0
            &&& all.len() > 0 ==> closed.len() == all.len() - 1
            &&& all.len() == 0 ==> closed.len() == 0
            &&& forall|i: int|
                #![trigger closed[i]]
                0 <= i < closed.len() ==> closed[i] == all[i] && exists|n: int|
                    0 <= n < points.len() && (#[trigger] points[n]).time >= closed[i].timestamp
                        + period
        }),
{
    let all = point_candles(points, period);
    let closed = all_but_last(all);
    law_point_candles_in_order(points, period);
    if points.len() > 0 {
        law_every_point_has_its_candle(points, period, 0);
    }
    assert forall|i: int| #![trigger closed[i]] 0 <= i < closed.len() implies closed[i] == all[i]
        && exists|n: int|
        0 <= n < points.len() && (#[trigger] points[n]).time >= closed[i].timestamp + period by {
        let last = all.len() - 1;
        let a = all[i].timestamp as int;
        let b = all[last].timestamp as int;
        assert(a < b);
        lemma_next_multiple(a, b, period);
        law_point_candles_sum_up_their_spans(points, period, last);
        let within = |t: int| all[last].timestamp <= t < all[last].timestamp + period;
        assert(sums_up(all[last], points, within));
        let n = choose|n: int|
            #[trigger] is_first(points, within, n) && points[n].price == all[last].open;
        assert(points[n].time >= a + period);
    }
}

proof fn lemma_next_multiple(a: int, b: int, period: int)
    requires
        period > 0,
        a < b,
        a % period == 0,
        b % period == 0,
    ensures
        a + period <= b,
{
    vstd::arithmetic::div_mod::lemma_fundamental_div_mod(a, period);
    vstd::arithmetic::div_mod::lemma_fundamental_div_mod(b, period);
    let x = a / period;
    let y = b / period;
    assert(period * x + period <= period * y) by (nonlinear_arith)
        requires
            period > 0,
            period * x < period * y,
    ;
}

/// Whether a second lies in the span that begins at `start`, counted towards 1970 from either
/// side: the span around 1970 reaches to both.
pub open spec fn in_span_towards_epoch(start: int, t: int, period: int) -> bool {
    if start > 0 {
        start <= t < start + period
    } else if start < 0 {
        start - period < t <= start
    } else {
        -period < t < period
    }
}

proof fn lemma_towards_epoch(t: int, period: int)
    requires
        period > 0,
    ensures
        t >= 0 ==> 0 <= span_start_towards_epoch(t, period) <= t,
        t < 0 ==> t <= span_start_towards_epoch(t, period) <= 0,
        in_span_towards_epoch(span_start_towards_epoch(t, period), t, period),
        span_start_towards_epoch(t, period) % period == 0,
{
    let m = if t < 0 {
        -t
    } else {
        t
    };
    law_span_holds_second(m, period);
    let q = m / period;
    assert(q * period >= 0) by (nonlinear_arith)
        requires
            q >= 0,
            period > 0,
    ;
    vstd::arithmetic::div_mod::lemma_mod_multiples_basic(-q, period);
    assert((-q) * period == -(q * period)) by (nonlinear_arith);
}

proof fn lemma_only_span_towards_epoch(t: int, start: int, period: int)
    requires
        period > 0,
        start % period == 0,
    ensures
        span_start_towards_epoch(t, period) == start <==> in_span_towards_epoch(start, t, period),
{
    lemma_towards_epoch(t, period);
    let a = span_start_towards_epoch(t, period);
    if in_span_towards_epoch(start, t, period) {
        if a < start {
            lemma_next_multiple(a, start, period);
        }
        if start < a {
            lemma_next_multiple(start, a, period);
        }
    }
}

/// Every candle of ticks sums up the ticks of its span, which is counted towards 1970.
pub proof fn law_tick_candles_sum_up_their_spans(ticks: Seq<Tick>, period: int, i: int)
    requires
        period > 0,
        0 <= i < tick_candles(ticks, period).len(),
    ensures
        ({
            let c = tick_candles(ticks, period)[i];
            sums_up(c, ticks, |t: int| in_span_towards_epoch(c.timestamp as int, t, period))
        }),
{
    let span = |t: int| span_start_towards_epoch(t, period);
    let c = tick_candles(ticks, period)[i];
    assert(tick_candles(ticks, period) == gathered(spanned(ticks, span))) by {
        assert(spanned(ticks, span) =~= span_prices_towards_epoch(by_time(ticks), period));
    }
    assert forall|n: int| 0 <= n < ticks.len() implies i64::MIN <= #[trigger] span(
        ticks[n].time as int,
    ) <= i64::MAX by {
        lemma_towards_epoch(ticks[n].time as int, period);
    }
    assert forall|a: int, b: int| a <= b implies #[trigger] span(a) <= #[trigger] span(b) by {
        lemma_towards_epoch(a, period);
        lemma_towards_epoch(b, period);
        if span(b) < span(a) {
            lemma_next_multiple(span(b), span(a), period);
        }
    }
    lemma_sums_up(ticks, span, i);
    law_tick_candles_in_order(ticks, period);
    let found = |t: int| span(t) == c.timestamp;
    let within = |t: int| in_span_towards_epoch(c.timestamp as int, t, period);
    assert forall|t: int| #[trigger] found(t) == within(t) by {
        lemma_only_span_towards_epoch(t, c.timestamp as int, period);
    }
    assert(found =~= within);
}

/// Every tick goes into a candle: the one in whose span it lies.
pub proof fn law_every_tick_has_its_candle(ticks: Seq<Tick>, period: int, n: int)
    requires
        period > 0,
        0 <= n < ticks.len(),
    ensures
        exists|i: int|
            #![trigger tick_candles(ticks, period)[i]]
            0 <= i < tick_candles(ticks, period).len() && in_span_towards_epoch(
                tick_candles(ticks, period)[i].timestamp as int,
                ticks[n].time as int,
                period,
            ),
{
    let prices = span_prices_towards_epoch(by_time(ticks), period);
    lemma_places(ticks);
    assert(stood(ticks, n));
    let k = choose|k: int| 0 <= k < ticks.len() && #[trigger] places(ticks)[k] == n;
    lemma_towards_epoch(ticks[n].time as int, period);
    assert(by_time(ticks)[k] == ticks[n]);
    law_candles_cover_prices(prices, k);
    let i = choose|i: int|
        0 <= i < gathered(prices).len() && #[trigger] stands_for(gathered(prices)[i], prices[k]);
    assert(tick_candles(ticks, period)[i].timestamp == span_start_towards_epoch(
        ticks[n].time as int,
        period,
    ));
}

/// Every candle that is held is one of the raw ones, with its time and its prices.
pub proof fn law_held_candles_are_raw_ones(raw: Seq<BaseCandle>, symbol: Seq<char>)
    ensures
        forall|i: int|
            #![trigger held(raw, symbol)[i]]
            0 <= i < held(raw, symbol).len() ==> exists|k: int|
                #![trigger raw[k]]
                0 <= k < raw.len() && is_held_as(raw[k], symbol, held(raw, symbol)[i]),
        forall|k: int|
            #![trigger raw[k]]
            0 <= k < raw.len() && raw[k].open is Exact && raw[k].high is Exact && raw[k].low is Exact
                && raw[k].close is Exact ==> exists|i: int|
                #![trigger held(raw, symbol)[i]]
                0 <= i < held(raw, symbol).len() && is_held_as(
                    raw[k],
                    symbol,
                    held(raw, symbol)[i],
                ),
    decreases raw.len(),
{
    if raw.len() > 0 {
        let front = raw.drop_last();
        let last = raw.len() - 1;
        law_held_candles_are_raw_ones(front, symbol);
        let old = held(front, symbol);
        let all = held(raw, symbol);
        assert forall|i: int| #![trigger all[i]] 0 <= i < all.len() implies exists|k: int|
            #![trigger raw[k]]
            0 <= k < raw.len() && is_held_as(raw[k], symbol, all[i]) by {
            if i < old.len() {
                assert(all[i] == old[i]);
                let k = choose|k: int|
                    #![trigger front[k]]
                    0 <= k < front.len() && is_held_as(front[k], symbol, old[i]);
                assert(raw[k] == front[k]);
            } else {
                assert(is_held_as(raw[last], symbol, all[i]));
            }
        }
        assert forall|k: int|
            #![trigger raw[k]]
            0 <= k < raw.len() && raw[k].open is Exact && raw[k].high is Exact && raw[k].low is Exact
                && raw[k].close is Exact implies exists|i: int|
            #![trigger all[i]]
            0 <= i < all.len() && is_held_as(raw[k], symbol, all[i]) by {
            if k < last {
                assert(front[k] == raw[k]);
                let i = choose|i: int|
                    #![trigger old[i]]
                    0 <= i < old.len() && is_held_as(front[k], symbol, old[i]);
                assert(all[i] == old[i]);
            } else {
                assert(is_held_as(raw[k], symbol, all[all.len() - 1]));
            }
        }
    }
}

/// Whether a candle is a raw one under the name of a symbol.
pub open spec fn is_held_as(raw: BaseCandle, symbol: Seq<char>, c: CandleView) -> bool {
    &&& c.symbol == symbol
    &&& c.timestamp == raw.timestamp
    &&& Number::Exact(c.open) == raw.open
    &&& Number::Exact(c.high) == raw.high
    &&& Number::Exact(c.low) == raw.low
    &&& Number::Exact(c.close) == raw.close
    &&& c.volume is None
}

proof fn lemma_exact_if_ticks_are(ticks: Seq<Tick>, c: BaseCandle, within: spec_fn(int) -> bool)
    requires
        sums_up(c, ticks, within),
        forall|n: int| 0 <= n < ticks.len() ==> (#[trigger] ticks[n]).price is Exact,
    ensures
        c.open is Exact && c.high is Exact && c.low is Exact && c.close is Exact,
{
    let a = choose|n: int| #[trigger] is_first(ticks, within, n) && ticks[n].price == c.open;
    let b = choose|n: int| #[trigger] is_last(ticks, within, n) && ticks[n].price == c.close;
    let h = choose|n: int| #[trigger] lies_within(ticks, within, n) && ticks[n].price == c.high;
    let l = choose|n: int| #[trigger] lies_within(ticks, within, n) && ticks[n].price == c.low;
    assert(ticks[a].price is Exact && ticks[b].price is Exact && ticks[h].price is Exact
        && ticks[l].price is Exact);
}

/// Of the candles of an asset's points without the current one, each is over: there is a point a
/// whole period after it began, or later.
pub proof fn law_held_closed_candles_are_over(points: Seq<Tick>, period: int, symbol: Seq<char>, i: int)
    requires
        period > 0,
        spans_held(points, period),
        0 <= i < held(all_but_last(point_candles(points, period)), symbol).len(),
    ensures
        exists|n: int|
            0 <= n < points.len() && (#[trigger] points[n]).time >= held(
                all_but_last(point_candles(points, period)),
                symbol,
            )[i].timestamp + period,
{
    let over = all_but_last(point_candles(points, period));
    law_held_candles_are_raw_ones(over, symbol);
    law_closed_candles_are_over(points, period);
    let c = held(over, symbol)[i];
    let k = choose|k: int|
        #![trigger over[k]]
        0 <= k < over.len() && is_held_as(over[k], symbol, c);
    let n = choose|n: int|
        0 <= n < points.len() && (#[trigger] points[n]).time >= over[k].timestamp + period;
    assert(points[n].time >= c.timestamp + period);
}

proof fn lemma_point_is_in_a_candle(points: Seq<Tick>, period: int, n: int) -> (k: int)
    requires
        period > 0,
        spans_held(points, period),
        0 <= n < points.len(),
        forall|m: int| 0 <= m < points.len() ==> (#[trigger] points[m]).price is Exact,
    ensures
        0 <= k < point_candles(points, period).len(),
        ({
            let c = point_candles(points, period)[k];
            &&& c.open is Exact && c.high is Exact && c.low is Exact && c.close is Exact
            &&& c.timestamp <= points[n].time < c.timestamp + period
            &&& c.low.units() <= points[n].price.units() <= c.high.units()
        }),
{
    law_every_point_has_its_candle(points, period, n);
    let k = choose|k: int|
        #![trigger point_candles(points, period)[k]]
        0 <= k < point_candles(points, period).len() && point_candles(points, period)[k].timestamp
            <= points[n].time < point_candles(points, period)[k].timestamp + period;
    let c = point_candles(points, period)[k];
    let within = |t: int| c.timestamp <= t < c.timestamp + period;
    law_point_candles_sum_up_their_spans(points, period, k);
    lemma_exact_if_ticks_are(points, c, within);
    assert(lies_within(points, within, n));
    k
}

/// Where all prices are decimals every point has a candle among those with the current one: it
/// begins no later than the point and less than a period before it, and its low and high hold the
/// price.
pub proof fn law_every_point_is_held(points: Seq<Tick>, period: int, symbol: Seq<char>, n: int)
    requires
        period > 0,
        spans_held(points, period),
        0 <= n < points.len(),
        forall|m: int| 0 <= m < points.len() ==> (#[trigger] points[m]).price is Exact,
    ensures
        exists|i: int|
            #![trigger held(point_candles(points, period), symbol)[i]]
            0 <= i < held(point_candles(points, period), symbol).len() && {
                let c = held(point_candles(points, period), symbol)[i];
                c.timestamp <= points[n].time < c.timestamp + period && c.low.units()
                    <= points[n].price.units() <= c.high.units()
            },
{
    let raw = point_candles(points, period);
    law_held_candles_are_raw_ones(raw, symbol);
    let k = lemma_point_is_in_a_candle(points, period, n);
    let i = choose|i: int|
        #![trigger held(raw, symbol)[i]]
        0 <= i < held(raw, symbol).len() && is_held_as(raw[k], symbol, held(raw, symbol)[i]);
    let c = held(raw, symbol)[i];
    assert(Number::Exact(c.low).units() == c.low.units());
    assert(Number::Exact(c.high).units() == c.high.units());
}

proof fn lemma_tick_is_in_a_candle(ticks: Seq<Tick>, period: int, n: int) -> (k: int)
    requires
        period > 0,
        0 <= n < ticks.len(),
        forall|m: int| 0 <= m < ticks.len() ==> (#[trigger] ticks[m]).price is Exact,
    ensures
        0 <= k < tick_candles(ticks, period).len(),
        ({
            let c = tick_candles(ticks, period)[k];
            &&& c.open is Exact && c.high is Exact && c.low is Exact && c.close is Exact
            &&& in_span_towards_epoch(c.timestamp as int, ticks[n].time as int, period)
            &&& c.low.units() <= ticks[n].price.units() <= c.high.units()
        }),
{
    law_every_tick_has_its_candle(ticks, period, n);
    let k = choose|k: int|
        #![trigger tick_candles(ticks, period)[k]]
        0 <= k < tick_candles(ticks, period).len() && in_span_towards_epoch(
            tick_candles(ticks, period)[k].timestamp as int,
            ticks[n].time as int,
            period,
        );
    let c = tick_candles(ticks, period)[k];
    let within = |t: int| in_span_towards_epoch(c.timestamp as int, t, period);
    law_tick_candles_sum_up_their_spans(ticks, period, k);
    lemma_exact_if_ticks_are(ticks, c, within);
    assert(lies_within(ticks, within, n));
    k
}

/// Where all prices are decimals every tick has its candle: it lies in the span of the candle,
/// whose low and high hold its price.
pub proof fn law_every_tick_is_held(ticks: Seq<Tick>, period: int, symbol: Seq<char>, n: int)
    requires
        period > 0,
        0 <= n < ticks.len(),
        forall|m: int| 0 <= m < ticks.len() ==> (#[trigger] ticks[m]).price is Exact,
    ensures
        exists|i: int|
            #![trigger held(tick_candles(ticks, period), symbol)[i]]
            0 <= i < held(tick_candles(ticks, period), symbol).len() && {
                let c = held(tick_candles(ticks, period), symbol)[i];
                in_span_towards_epoch(c.timestamp as int, ticks[n].time as int, period)
                    && c.low.units() <= ticks[n].price.units() <= c.high.units()
            },
{
    let raw = tick_candles(ticks, period);
    law_held_candles_are_raw_ones(raw, symbol);
    let k = lemma_tick_is_in_a_candle(ticks, period, n);
    let i = choose|i: int|
        #![trigger held(raw, symbol)[i]]
        0 <= i < held(raw, symbol).len() && is_held_as(raw[k], symbol, held(raw, symbol)[i]);
    let c = held(raw, symbol)[i];
    assert(Number::Exact(c.low).units() == c.low.units());
    assert(Number::Exact(c.high).units() == c.high.units());
}

/// Whether a candle under the name of a symbol sums up the prices from its second on and before the
/// second that is a period later.
pub open spec fn sums_up_span(c: CandleView, symbol: Seq<char>, points: Seq<Tick>, period: int) -> bool {
    exists|raw: BaseCandle|
        #![trigger is_held_as(raw, symbol, c)]
        is_held_as(raw, symbol, c) && sums_up(
            raw,
            points,
            |t: int| raw.timestamp <= t < raw.timestamp + period,
        )
}

/// Every candle of an asset's points, with or without the current one, sums up the points of its
/// span.
pub proof fn law_held_point_candles_sum_up(
    points: Seq<Tick>,
    period: int,
    symbol: Seq<char>,
)
    requires
        period > 0,
        spans_held(points, period),
    ensures
        forall|i: int|
            0 <= i < held(point_candles(points, period), symbol).len() ==> sums_up_span(
                #[trigger] held(point_candles(points, period), symbol)[i],
                symbol,
                points,
                period,
            ),
        forall|i: int|
            0 <= i < held(all_but_last(point_candles(points, period)), symbol).len()
                ==> sums_up_span(
                #[trigger] held(all_but_last(point_candles(points, period)), symbol)[i],
                symbol,
                points,
                period,
            ),
{
    let raw = point_candles(points, period);
    let over = all_but_last(raw);
    law_held_candles_are_raw_ones(raw, symbol);
    law_held_candles_are_raw_ones(over, symbol);
    assert forall|i: int| 0 <= i < held(raw, symbol).len() implies sums_up_span(
        #[trigger] held(raw, symbol)[i],
        symbol,
        points,
        period,
    ) by {
        let k = choose|k: int|
            #![trigger raw[k]]
            0 <= k < raw.len() && is_held_as(raw[k], symbol, held(raw, symbol)[i]);
        law_point_candles_sum_up_their_spans(points, period, k);
    }
    assert forall|i: int| 0 <= i < held(over, symbol).len() implies sums_up_span(
        #[trigger] held(over, symbol)[i],
        symbol,
        points,
        period,
    ) by {
        let k = choose|k: int|
            #![trigger over[k]]
            0 <= k < over.len() && is_held_as(over[k], symbol, held(over, symbol)[i]);
        assert(over[k] == raw[k]);
        law_point_candles_sum_up_their_spans(points, period, k);
    }
}

/// Where all prices are decimals, a point with another one at least a period later has its candle
/// also without the current one.
pub proof fn law_points_of_the_past_are_held(
    points: Seq<Tick>,
    period: int,
    symbol: Seq<char>,
    n: int,
    later: int,
)
    requires
        period > 0,
        spans_held(points, period),
        0 <= n < points.len(),
        0 <= later < points.len(),
        points[later].time >= points[n].time + period,
        forall|m: int| 0 <= m < points.len() ==> (#[trigger] points[m]).price is Exact,
    ensures
        exists|i: int|
            #![trigger held(all_but_last(point_candles(points, period)), symbol)[i]]
            0 <= i < held(all_but_last(point_candles(points, period)), symbol).len() && {
                let c = held(all_but_last(point_candles(points, period)), symbol)[i];
                c.timestamp <= points[n].time < c.timestamp + period && c.low.units()
                    <= points[n].price.units() <= c.high.units()
            },
{
    let raw = point_candles(points, period);
    let over = all_but_last(raw);
    let k = lemma_point_is_in_a_candle(points, period, n);
    let m = lemma_point_is_in_a_candle(points, period, later);
    law_point_candles_in_order(points, period);
    assert(raw[k].timestamp < raw[m].timestamp);
    if m < k {
        assert(raw[m].timestamp < raw[k].timestamp);
    }
    assert(k < m);
    assert(over[k] == raw[k]);
    law_held_candles_are_raw_ones(over, symbol);
    let i = choose|i: int|
        #![trigger held(over, symbol)[i]]
        0 <= i < held(over, symbol).len() && is_held_as(over[k], symbol, held(over, symbol)[i]);
    let c = held(over, symbol)[i];
    assert(Number::Exact(c.low).units() == c.low.units());
    assert(Number::Exact(c.high).units() == c.high.units());
}

/// Whether a candle under the name of a symbol sums up the ticks of its span, which is counted
/// towards 1970.
pub open spec fn sums_up_span_towards_epoch(
    c: CandleView,
    symbol: Seq<char>,
    ticks: Seq<Tick>,
    period: int,
) -> bool {
    exists|raw: BaseCandle|
        #![trigger is_held_as(raw, symbol, c)]
        is_held_as(raw, symbol, c) && sums_up(
            raw,
            ticks,
            |t: int| in_span_towards_epoch(raw.timestamp as int, t, period),
        )
}

/// Every candle of ticks sums up the ticks of its span.
pub proof fn law_held_tick_candles_sum_up(ticks: Seq<Tick>, period: int, symbol: Seq<char>)
    requires
        period > 0,
    ensures
        forall|i: int|
            0 <= i < held(tick_candles(ticks, period), symbol).len() ==> sums_up_span_towards_epoch(
                #[trigger] held(tick_candles(ticks, period), symbol)[i],
                symbol,
                ticks,
                period,
            ),
{
    let raw = tick_candles(ticks, period);
    law_held_candles_are_raw_ones(raw, symbol);
    assert forall|i: int| 0 <= i < held(raw, symbol).len() implies sums_up_span_towards_epoch(
        #[trigger] held(raw, symbol)[i],
        symbol,
        ticks,
        period,
    ) by {
        let k = choose|k: int|
            #![trigger raw[k]]
            0 <= k < raw.len() && is_held_as(raw[k], symbol, held(raw, symbol)[i]);
        law_tick_candles_sum_up_their_spans(ticks, period, k);
    }
}

} // verus!
