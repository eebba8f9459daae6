//! What the candles that a subscription hands out are made of.

use crate::candle::BaseCandle;
use crate::candle_laws::chunk_after;
use crate::candle_laws::law_chunk_counts;
use crate::clock::DateTime;
use crate::clock::Duration;
use crate::number::Number;
use crate::subscription::extended;
use crate::subscription::quotient_towards_zero;
use crate::subscription::span_end;
use crate::subscription::subscription_step;
use crate::subscription::volume_together;
use crate::subscription::SubscriptionType;
use crate::subscription::Update;
use vstd::arithmetic::div_mod::lemma_fundamental_div_mod;
use vstd::prelude::*;

verus! {

/// Whether a candle puts others together: it opens with the first and closes with the last, and
/// its high and its low are the highest high and the lowest low of them.
pub open spec fn puts_together(c: BaseCandle, parts: Seq<BaseCandle>) -> bool {
    &&& parts.len() > 0
    &&& c.open == parts[0].open
    &&& c.close == parts.last().close
    &&& exists|n: int| 0 <= n < parts.len() && (#[trigger] parts[n]).high == c.high
    &&& exists|n: int| 0 <= n < parts.len() && (#[trigger] parts[n]).low == c.low
    &&& forall|n: int|
        0 <= n < parts.len() ==> (#[trigger] parts[n]).high.units() <= c.high.units()
            && c.low.units() <= parts[n].low.units()
}

proof fn lemma_one(c: BaseCandle)
    ensures
        puts_together(c, seq![c]),
{
    let parts = seq![c];
    assert(parts[0] == c);
}

proof fn lemma_one_more(c: BaseCandle, parts: Seq<BaseCandle>, next: BaseCandle)
    requires
        puts_together(c, parts),
    ensures
        puts_together(extended(c, next), parts.push(next)),
{
    let all = parts.push(next);
    let d = extended(c, next);
    let high = choose|n: int| 0 <= n < parts.len() && (#[trigger] parts[n]).high == c.high;
    let low = choose|n: int| 0 <= n < parts.len() && (#[trigger] parts[n]).low == c.low;
    assert(all[high] == parts[high] && all[low] == parts[low]);
    assert(all[all.len() - 1] == next);
    assert forall|n: int| 0 <= n < all.len() implies (#[trigger] all[n]).high.units()
        <= d.high.units() && d.low.units() <= all[n].low.units() by {
        if n < parts.len() {
            assert(all[n] == parts[n]);
        }
    }
}

/// Whether a candle of a subscription by number or by time holds candles: it puts them together,
/// and has the time of the last and the volume of the first of them.
pub open spec fn holds(c: BaseCandle, parts: Seq<BaseCandle>) -> bool {
    puts_together(c, parts) && c.timestamp == parts.last().timestamp && c.volume == parts[0].volume
}

/// Between two candles that it hands out a subscription by number holds the candles since.
proof fn lemma_chunk_holds(size: usize, first: BaseCandle, candles: Seq<BaseCandle>)
    requires
        size > 0,
    ensures
        ({
            let n = candles.len() as int;
            let current = n % size as int;
            chunk_after(SubscriptionType::Chunk { size, current: 0, candle: first }, candles) matches
                SubscriptionType::Chunk { candle, .. } && (current > 0 ==> holds(
                candle,
                candles.skip(n - current),
            ))
        }),
    decreases candles.len(),
{
    let n = candles.len() as int;
    let d = size as int;
    if n == 0 {
        vstd::arithmetic::div_mod::lemma_small_mod(0, size as nat);
    } else {
        let earlier = candles.drop_last();
        let next = candles.last();
        lemma_chunk_holds(size, first, earlier);
        law_chunk_counts(size, first, earlier, next);
        law_chunk_counts(size, first, candles, next);
        let before = (n - 1) % d;
        let sub = chunk_after(SubscriptionType::Chunk { size, current: 0, candle: first }, earlier);
        lemma_fundamental_div_mod(n - 1, d);
        if before == 0 {
            lemma_one(next);
            assert(n % d > 0 ==> candles.skip(n - 1) =~= seq![next]);
        } else {
            let parts = earlier.skip(n - 1 - before);
            lemma_one_more(sub->Chunk_candle, parts, next);
            assert(candles.skip(n - 1 - before) =~= parts.push(next));
        }
    }
}

/// A candle that a subscription by number hands out holds the last `size` candles.
pub proof fn law_chunk_holds_its_candles(
    size: usize,
    first: BaseCandle,
    candles: Seq<BaseCandle>,
    next: BaseCandle,
)
    requires
        size > 0,
    ensures
        ({
            let zero = DateTime { secs: 0, nanos: 0 };
            let all = candles.push(next);
            let sub = chunk_after(
                SubscriptionType::Chunk { size, current: 0, candle: first },
                candles,
            );
            subscription_step(sub, next, zero, zero).1 matches Update::Finished(c) ==> size
                <= all.len() && holds(c, all.skip(all.len() - size))
        }),
{
    let n = candles.len() as int;
    let d = size as int;
    let sub = chunk_after(SubscriptionType::Chunk { size, current: 0, candle: first }, candles);
    let all = candles.push(next);
    law_chunk_counts(size, first, candles, next);
    lemma_chunk_holds(size, first, candles);
    lemma_fundamental_div_mod(n, d);
    assert(d * (n / d) >= 0) by (nonlinear_arith)
        requires
            n / d >= 0,
            d > 0,
    ;
    if n % d + 1 >= d {
        if n % d == 0 {
            lemma_one(next);
            assert(all.skip(n) =~= seq![next]);
        } else {
            let parts = candles.skip(n - n % d);
            lemma_one_more(sub->Chunk_candle, parts, next);
            assert(all.skip(n - n % d) =~= parts.push(next));
        }
    }
}

/// A subscription by spans after some candles.
pub open spec fn aligned_after(sub: SubscriptionType, candles: Seq<BaseCandle>) -> SubscriptionType
    decreases candles.len(),
{
    if candles.len() == 0 {
        sub
    } else {
        subscription_step(
            aligned_after(sub, candles.drop_last()),
            candles.last(),
            DateTime { secs: 0, nanos: 0 },
            DateTime { secs: 0, nanos: 0 },
        ).0
    }
}

/// The place of the candle that opened the span that is open after some candles: the first, or
/// the last that came when the span before it was over.
pub open spec fn opener(candles: Seq<BaseCandle>, secs: int) -> int
    decreases candles.len(),
{
    if candles.len() <= 1 {
        0
    } else {
        let k = opener(candles.drop_last(), secs);
        if candles.last().timestamp >= span_end(candles[k].timestamp as int, secs) {
            candles.len() - 1
        } else {
            k
        }
    }
}

/// The volume of some candles together.
pub open spec fn volumes_together(candles: Seq<BaseCandle>) -> Option<Number>
    decreases candles.len(),
{
    if candles.len() == 0 {
        None
    } else if candles.len() == 1 {
        candles[0].volume
    } else {
        volume_together(volumes_together(candles.drop_last()), candles.last().volume)
    }
}

/// Whether the end of the span of every candle can be held.
pub open spec fn ends_held(candles: Seq<BaseCandle>, secs: int) -> bool {
    forall|n: int|
        0 <= n < candles.len() ==> span_end((#[trigger] candles[n]).timestamp as int, secs)
            <= i64::MAX
}

/// A span ends behind its second, and one duration before that begins at a second that can be
/// held.
proof fn lemma_span_end(t: int, secs: int)
    requires
        secs > 0,
        i64::MIN <= t <= i64::MAX,
    ensures
        t < span_end(t, secs),
        i64::MIN <= span_end(t, secs) - secs <= i64::MAX,
        t >= 0 ==> 0 <= span_end(t, secs) - secs <= t,
{
    let q = quotient_towards_zero(t, secs);
    assert(span_end(t, secs) - secs == q * secs) by (nonlinear_arith)
        requires
            span_end(t, secs) == (q + 1) * secs,
    ;
    if t < 0 {
        let m = (-t) / secs;
        lemma_fundamental_div_mod(-t, secs);
        assert(q * secs == -(secs * m)) by (nonlinear_arith)
            requires
                q == -m,
        ;
        assert(secs * m >= 0) by (nonlinear_arith)
            requires
                m >= 0,
                secs > 0,
        ;
    } else {
        lemma_fundamental_div_mod(t, secs);
        assert(q * secs == secs * (t / secs)) by (nonlinear_arith)
            requires
                q == t / secs,
        ;
        assert(secs * (t / secs) >= 0) by (nonlinear_arith)
            requires
                t / secs >= 0,
                secs > 0,
        ;
    }
}

/// A span that is opened at or behind the end of another begins at or behind that end.
proof fn lemma_later_span(earlier: int, t: int, secs: int)
    requires
        secs > 0,
        0 <= earlier,
        span_end(earlier, secs) <= t,
    ensures
        span_end(earlier, secs) <= span_end(t, secs) - secs,
{
    let a = earlier / secs + 1;
    let b = t / secs;
    lemma_fundamental_div_mod(t, secs);
    lemma_fundamental_div_mod(earlier, secs);
    assert(t >= 0) by (nonlinear_arith)
        requires
            a >= 1,
            a * secs <= t,
            secs > 0,
    ;
    assert(a <= b) by (nonlinear_arith)
        requires
            a * secs <= t,
            t == secs * b + t % secs,
            t % secs < secs,
            secs > 0,
    ;
    assert(a * secs <= b * secs) by (nonlinear_arith)
        requires
            a <= b,
            secs > 0,
    ;
    assert((b + 1) * secs - secs == b * secs) by (nonlinear_arith);
}

/// A subscription by spans holds the candles since the one that opened its span, all of which lie
/// before the end of that span.
proof fn lemma_aligned_holds(duration: Duration, first: BaseCandle, candles: Seq<BaseCandle>)
    requires
        duration.secs > 0,
        candles.len() > 0,
        ends_held(candles, duration.secs as int),
    ensures
        ({
            let secs = duration.secs as int;
            let k = opener(candles, secs);
            let end = span_end(candles[k].timestamp as int, secs);
            &&& 0 <= k < candles.len()
            &&& aligned_after(
                SubscriptionType::TimeAligned { duration, candle: first, next_boundary: None },
                candles,
            ) matches SubscriptionType::TimeAligned {
                duration: d,
                candle,
                next_boundary: Some(b),
            } && d == duration && b == end && puts_together(candle, candles.skip(k))
                && candle.volume == volumes_together(candles.skip(k))
            &&& forall|n: int| k <= n < candles.len() ==> (#[trigger] candles[n]).timestamp < end
        }),
    decreases candles.len(),
{
    let secs = duration.secs as int;
    let fresh = SubscriptionType::TimeAligned { duration, candle: first, next_boundary: None };
    let earlier = candles.drop_last();
    let next = candles.last();
    let k = opener(candles, secs);
    assert(candles[candles.len() - 1] == next);
    assert(span_end(next.timestamp as int, secs) <= i64::MAX);
    lemma_span_end(next.timestamp as int, secs);
    lemma_one(next);
    if candles.len() == 1 {
        assert(earlier =~= Seq::<BaseCandle>::empty());
        assert(aligned_after(fresh, earlier) == fresh);
        assert(candles.skip(0) =~= seq![next]);
    } else {
        assert forall|n: int| 0 <= n < earlier.len() implies span_end(
            (#[trigger] earlier[n]).timestamp as int,
            secs,
        ) <= i64::MAX by {
            assert(span_end(candles[n].timestamp as int, secs) <= i64::MAX);
        }
        lemma_aligned_holds(duration, first, earlier);
        let j = opener(earlier, secs);
        let end = span_end(earlier[j].timestamp as int, secs);
        assert(candles[j] == earlier[j]);
        let sub = aligned_after(fresh, earlier);
        if next.timestamp >= end {
            assert(candles.skip(k) =~= seq![next]);
        } else {
            let parts = earlier.skip(j);
            lemma_one_more(sub->TimeAligned_candle, parts, next);
            assert(candles.skip(j) =~= parts.push(next));
            assert(parts.push(next).drop_last() =~= parts);
            assert forall|n: int| k <= n < candles.len() implies (#[trigger] candles[n]).timestamp
                < end by {
                if n < earlier.len() {
                    assert(earlier[n] == candles[n]);
                }
            }
        }
    }
}

/// A candle that a subscription by spans hands out is made of the candles since the one that
/// opened its span: it puts them together, has their volume, and begins where the span does, and
/// all of them lie before the end of the span.
pub proof fn law_aligned_candle_holds_its_span(
    duration: Duration,
    first: BaseCandle,
    candles: Seq<BaseCandle>,
    next: BaseCandle,
)
    requires
        duration.secs > 0,
        ends_held(candles, duration.secs as int),
    ensures
        ({
            let secs = duration.secs as int;
            let zero = DateTime { secs: 0, nanos: 0 };
            let k = opener(candles, secs);
            let sub = aligned_after(
                SubscriptionType::TimeAligned { duration, candle: first, next_boundary: None },
                candles,
            );
            subscription_step(sub, next, zero, zero).1 matches Update::Finished(c) ==> {
                &&& 0 <= k < candles.len()
                &&& c.timestamp + secs == span_end(candles[k].timestamp as int, secs)
                &&& puts_together(c, candles.skip(k))
                &&& c.volume == volumes_together(candles.skip(k))
                &&& forall|n: int|
                    k <= n < candles.len() ==> (#[trigger] candles[n]).timestamp < c.timestamp
                        + secs
                &&& next.timestamp >= c.timestamp + secs
            }
        }),
{
    if candles.len() > 0 {
        let secs = duration.secs as int;
        lemma_aligned_holds(duration, first, candles);
        lemma_span_end(candles[opener(candles, secs)].timestamp as int, secs);
    }
}

/// Where candles come in the order of time, none of them before 1970, those that a span is made
/// of are exactly those that lie in it.
pub proof fn law_span_takes_the_candles_in_it(candles: Seq<BaseCandle>, secs: int, n: int)
    requires
        secs > 0,
        0 <= n < candles.len(),
        forall|i: int| 0 <= i < candles.len() ==> (#[trigger] candles[i]).timestamp >= 0,
        forall|i: int, j: int|
            0 <= i < j < candles.len() ==> (#[trigger] candles[i]).timestamp <= (#[trigger]
            candles[j]).timestamp,
    ensures
        ({
            let k = opener(candles, secs);
            let end = span_end(candles[k].timestamp as int, secs);
            &&& 0 <= k < candles.len()
            &&& candles[n].timestamp < end
            &&& n >= k <==> end - secs <= candles[n].timestamp
        }),
    decreases candles.len(),
{
    let earlier = candles.drop_last();
    let last = candles.len() - 1;
    let k = opener(candles, secs);
    lemma_span_end(candles[last].timestamp as int, secs);
    if last > 0 {
        assert forall|i: int| 0 <= i < earlier.len() implies (#[trigger] earlier[i]).timestamp
            >= 0 by {
            assert(candles[i].timestamp >= 0);
        }
        assert forall|i: int, j: int| 0 <= i < j < earlier.len() implies (#[trigger]
        earlier[i]).timestamp <= (#[trigger] earlier[j]).timestamp by {
            assert(candles[i].timestamp <= candles[j].timestamp);
        }
        let j = opener(earlier, secs);
        let m = if n < last {
            n
        } else {
            last - 1
        };
        law_span_takes_the_candles_in_it(earlier, secs, m);
        assert(earlier[j] == candles[j]);
        assert(earlier[m] == candles[m]);
        assert(candles[j].timestamp <= candles[last].timestamp);
        lemma_span_end(candles[j].timestamp as int, secs);
        if k == last {
            lemma_later_span(candles[j].timestamp as int, candles[last].timestamp as int, secs);
        }
    }
}

/// A candle that a subscription by time takes in, with the instants of the first candle since it
/// last handed one out and of this one.
pub type TimedCandle = (BaseCandle, DateTime, DateTime);

/// The candles among them.
pub open spec fn candles_among(inputs: Seq<TimedCandle>) -> Seq<BaseCandle> {
    inputs.map_values(|i: TimedCandle| i.0)
}

/// A subscription by time after some candles, and how many of them it has handed out.
pub open spec fn time_after(sub: SubscriptionType, inputs: Seq<TimedCandle>) -> (
    SubscriptionType,
    int,
)
    decreases inputs.len(),
{
    if inputs.len() == 0 {
        (sub, 0)
    } else {
        let (before, done) = time_after(sub, inputs.drop_last());
        let (next, start, at) = inputs.last();
        let (after, update) = subscription_step(before, next, start, at);
        (
            after,
            if update is Finished {
                inputs.len() as int
            } else {
                done
            },
        )
    }
}

/// A subscription by time holds the candles that it has not handed out.
proof fn lemma_time_holds(duration: Duration, first: BaseCandle, inputs: Seq<TimedCandle>)
    ensures
        ({
            let (sub, done) = time_after(
                SubscriptionType::Time { start_time: None, duration, candle: first },
                inputs,
            );
            &&& 0 <= done <= inputs.len()
            &&& sub matches SubscriptionType::Time { start_time, duration: d, candle } && d
                == duration && if done == inputs.len() {
                start_time is None
            } else {
                start_time == Some(inputs[done].0.timestamp) && holds(
                    candle,
                    candles_among(inputs).skip(done),
                )
            }
        }),
    decreases inputs.len(),
{
    if inputs.len() > 0 {
        let fresh = SubscriptionType::Time { start_time: None, duration, candle: first };
        let earlier = inputs.drop_last();
        let next = inputs.last().0;
        lemma_time_holds(duration, first, earlier);
        let (sub, done) = time_after(fresh, earlier);
        let all = candles_among(inputs);
        lemma_one(next);
        if done == earlier.len() {
            assert(all.skip(done) =~= seq![next]);
        } else {
            let parts = candles_among(earlier).skip(done);
            lemma_one_more(sub->Time_candle, parts, next);
            assert(all.skip(done) =~= parts.push(next));
        }
    }
}

/// A candle that a subscription by time hands out holds the candles since it last handed one out,
/// and comes when its duration has passed since the first of them.
pub proof fn law_time_candle_holds_what_came_since(
    duration: Duration,
    first: BaseCandle,
    inputs: Seq<TimedCandle>,
    next: BaseCandle,
    start: DateTime,
    at: DateTime,
)
    ensures
        ({
            let (sub, done) = time_after(
                SubscriptionType::Time { start_time: None, duration, candle: first },
                inputs,
            );
            let all = candles_among(inputs).push(next);
            &&& 0 <= done <= inputs.len()
            &&& subscription_step(sub, next, start, at).1 is Finished <==> done < inputs.len()
                && at.since_epoch() - start.since_epoch() >= duration.length()
                && at.since_epoch() >= start.since_epoch()
            &&& subscription_step(sub, next, start, at).1 matches Update::Finished(c) ==> holds(
                c,
                all.skip(done),
            )
        }),
{
    lemma_time_holds(duration, first, inputs);
    let (sub, done) = time_after(
        SubscriptionType::Time { start_time: None, duration, candle: first },
        inputs,
    );
    let all = candles_among(inputs).push(next);
    if done < inputs.len() {
        let parts = candles_among(inputs).skip(done);
        lemma_one_more(sub->Time_candle, parts, next);
        assert(all.skip(done) =~= parts.push(next));
    }
}

/// A subscription without conditions hands every candle out as it is.
pub proof fn law_direct_hands_out_everything(next: BaseCandle, start: DateTime, at: DateTime)
    ensures
        subscription_step(SubscriptionType::Direct, next, start, at) == (
            SubscriptionType::Direct,
            Update::Finished(next),
        ),
{
}

/// The volume of candles together: one that is not known counts for nothing, and there is none
/// where none is known.
pub proof fn law_unknown_volumes_count_for_nothing(candles: Seq<BaseCandle>, next: BaseCandle)
    requires
        candles.len() > 0,
    ensures
        ({
            let before = volumes_together(candles);
            let after = volumes_together(candles.push(next));
            &&& next.volume is None ==> after == before
            &&& before is None ==> after == next.volume
            &&& before is Some && next.volume is Some ==> after == Some(
                crate::number::sum(before->0, next.volume->0),
            )
        }),
        volumes_together(seq![next]) == next.volume,
{
    assert(candles.push(next).drop_last() =~= candles);
}

/// The length of a span in seconds is that of as many instants: an instant lies a span behind
/// another exactly if so many seconds lie between them.
pub proof fn law_seconds_make_up_time(a: i64, b: i64, secs: u64)
    ensures
        crate::clock::second(b).since_epoch() - crate::clock::second(a).since_epoch() >= (Duration {
            secs,
            nanos: 0,
        }).length() <==> b - a >= secs,
        crate::clock::second(a).since_epoch() < crate::clock::second(b).since_epoch() <==> a < b,
{
}

/// A subscription by time counts from the first instant of the second of its first candle, where
/// that has a date.
pub proof fn law_time_counts_from_the_first_candle(
    first: i64,
    duration: Duration,
    candle: BaseCandle,
    otherwise: DateTime,
)
    ensures
        ({
            let sub = SubscriptionType::Time { start_time: Some(first), duration, candle };
            &&& crate::clock::has_date(first as int) ==> crate::subscription::started(
                sub,
                otherwise,
            ).since_epoch() == first * 1_000_000_000
            &&& !crate::clock::has_date(first as int) ==> crate::subscription::started(
                sub,
                otherwise,
            ) == otherwise
        }),
{
}

} // verus!
