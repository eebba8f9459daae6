//! Subscriptions to candles: which of the incoming candles a subscriber sees, and how they are
//! put together.

use crate::candle::BaseCandle;
use crate::clock::duration_text;
use crate::clock::has_date;
use crate::clock::second;
use crate::clock::second_or;
use crate::clock::DateTime;
use crate::clock::Duration;
use crate::error::PocketError;
use crate::error::PocketResult;
use crate::number::integer;
use crate::number::larger;
use crate::number::smaller;
use crate::number::sum;
use crate::number::Number;
use vstd::prelude::*;
use vstd::string::StringExecFns;

verus! {

/// Seconds in a day.
pub const DAY: u64 = 86400;

/// How incoming candles are put together for a subscriber.
#[derive(Clone, Copy, Debug)]
pub enum SubscriptionType {
    /// Every candle is passed on.
    Direct,
    /// Candles are put together by number.
    Chunk {
        /// Number of candles to aggregate
        size: usize,
        /// Current aggregated candle count
        current: usize,
        /// Current aggregated candle
        candle: BaseCandle,
    },
    /// Candles are put together until a time has passed since the first of them.
    Time { start_time: Option<i64>, duration: Duration, candle: BaseCandle },
    /// Candles are put together by spans that begin at multiples of the duration.
    TimeAligned {
        duration: Duration,
        candle: BaseCandle,
        /// The end of the current span.
        next_boundary: Option<i64>,
    },
}

/// A candle that holds nothing yet.
pub open spec fn empty_candle() -> BaseCandle {
    BaseCandle {
        timestamp: 0,
        open: integer(0),
        close: integer(0),
        high: integer(0),
        low: integer(0),
        volume: None,
    }
}

/// The candle that `candle` becomes when `next` is put to it: open and volume stay.
pub open spec fn extended(candle: BaseCandle, next: BaseCandle) -> BaseCandle {
    BaseCandle {
        timestamp: next.timestamp,
        high: larger(candle.high, next.high),
        low: smaller(candle.low, next.low),
        close: next.close,
        ..candle
    }
}

/// The volume of two candles together: what is not known counts for nothing.
pub open spec fn volume_together(a: Option<Number>, b: Option<Number>) -> Option<Number> {
    match (a, b) {
        (Some(x), Some(y)) => Some(sum(x, y)),
        (None, Some(_)) => b,
        _ => a,
    }
}

/// `n / d` without its fraction, towards zero.
pub open spec fn quotient_towards_zero(n: int, d: int) -> int {
    if n < 0 {
        -((-n) / d)
    } else {
        n / d
    }
}

/// The end of the span of `secs` seconds in which a second lies.
pub open spec fn span_end(timestamp: int, secs: int) -> int {
    (quotient_towards_zero(timestamp, secs) + 1) * secs
}

impl SubscriptionType {
    /// What the constructors give and `update` keeps.
    pub open spec fn wf(self) -> bool {
        match self {
            SubscriptionType::Direct => true,
            SubscriptionType::Chunk { size, current, .. } => current == 0 || current < size,
            SubscriptionType::Time { duration, .. } => duration.valid(),
            SubscriptionType::TimeAligned { duration, next_boundary, .. } => {
                &&& duration.valid()
                &&& 0 < duration.secs
                &&& DAY % duration.secs == 0
                &&& next_boundary matches Some(b) ==> b - duration.secs >= i64::MIN
            },
        }
    }

    /// Whether the candle's time leaves room for the end of its span.
    pub open spec fn takes(self, next: BaseCandle) -> bool {
        self matches SubscriptionType::TimeAligned { duration, next_boundary, .. } ==> (
        next_boundary is None || next.timestamp >= next_boundary->0) ==> span_end(
            next.timestamp as int,
            duration.secs as int,
        ) <= i64::MAX
    }
}

/// What an update gives: a finished candle, nothing yet, or an error.
pub enum Update {
    Finished(BaseCandle),
    Pending,
    TimeError,
}

/// What a subscription becomes on a candle, and what it hands out. For a subscription by time
/// `start` and `at` are the instants of the first candle and of this one.
pub open spec fn subscription_step(
    sub: SubscriptionType,
    next: BaseCandle,
    start: DateTime,
    at: DateTime,
) -> (SubscriptionType, Update) {
    match sub {
        SubscriptionType::Direct => (sub, Update::Finished(next)),
        SubscriptionType::Chunk { size, current, candle } => {
            let all = if current == 0 {
                next
            } else {
                extended(candle, next)
            };
            if current + 1 >= size {
                (SubscriptionType::Chunk { size, current: 0, candle: all }, Update::Finished(all))
            } else {
                (
                    SubscriptionType::Chunk { size, current: (current + 1) as usize, candle: all },
                    Update::Pending,
                )
            }
        },
        SubscriptionType::Time { start_time: None, duration, candle } => (
            SubscriptionType::Time { start_time: Some(next.timestamp), duration, candle: next },
            Update::Pending,
        ),
        SubscriptionType::Time { start_time: Some(first), duration, candle } => {
            let all = extended(candle, next);
            let passed = at.since_epoch() - start.since_epoch();
            if passed < 0 {
                (
                    SubscriptionType::Time { start_time: Some(first), duration, candle: all },
                    Update::TimeError,
                )
            } else if passed >= duration.length() {
                (
                    SubscriptionType::Time { start_time: None, duration, candle: all },
                    Update::Finished(all),
                )
            } else {
                (
                    SubscriptionType::Time { start_time: Some(first), duration, candle: all },
                    Update::Pending,
                )
            }
        },
        SubscriptionType::TimeAligned { duration, candle, next_boundary: None } => (
            SubscriptionType::TimeAligned {
                duration,
                candle: next,
                next_boundary: Some(
                    span_end(next.timestamp as int, duration.secs as int) as i64,
                ),
            },
            Update::Pending,
        ),
        SubscriptionType::TimeAligned { duration, candle, next_boundary: Some(boundary) } => {
            if next.timestamp < boundary {
                (
                    SubscriptionType::TimeAligned {
                        duration,
                        candle: BaseCandle {
                            volume: volume_together(candle.volume, next.volume),
                            ..extended(candle, next)
                        },
                        next_boundary: Some(boundary),
                    },
                    Update::Pending,
                )
            } else {
                (
                    SubscriptionType::TimeAligned {
                        duration,
                        candle: next,
                        next_boundary: Some(
                            span_end(next.timestamp as int, duration.secs as int) as i64,
                        ),
                    },
                    Update::Finished(
                        BaseCandle { timestamp: (boundary - duration.secs) as i64, ..candle },
                    ),
                )
            }
        },
    }
}

/// The instant that a subscription by time counts from.
pub open spec fn started(sub: SubscriptionType, otherwise: DateTime) -> DateTime {
    match sub {
        SubscriptionType::Time { start_time: Some(first), .. } => second_or(first, otherwise),
        _ => otherwise,
    }
}

/// Whether the result of an update is what the step says.
pub open spec fn update_is(r: PocketResult<Option<BaseCandle>>, update: Update) -> bool {
    match (r, update) {
        (Ok(Some(c)), Update::Finished(v)) => c == v,
        (Ok(None), Update::Pending) => true,
        (Err(PocketError::General(e)), Update::TimeError) => e@
            == "Time calculation error in conditional update"@,
        _ => false,
    }
}

/// Whether the dates of a subscription's first candle and of this one are known, or not asked.
pub open spec fn dates_known(sub: SubscriptionType, next: BaseCandle) -> bool {
    sub matches SubscriptionType::Time { start_time: Some(first), .. } ==> has_date(first as int)
        && has_date(next.timestamp as int)
}

impl SubscriptionType {
    pub fn none() -> (r: SubscriptionType)
        ensures
            r == SubscriptionType::Direct,
    {
        SubscriptionType::Direct
    }

    pub fn chunk(size: usize) -> (r: SubscriptionType)
        ensures
            r == (SubscriptionType::Chunk { size, current: 0, candle: empty_candle() }),
            r.wf(),
    {
        SubscriptionType::Chunk { size, current: 0, candle: new_candle() }
    }

    pub fn time(duration: Duration) -> (r: SubscriptionType)
        requires
            duration.valid(),
        ensures
            r == (SubscriptionType::Time { start_time: None, duration, candle: empty_candle() }),
            r.wf(),
    {
        SubscriptionType::Time { start_time: None, duration, candle: new_candle() }
    }

    /// A subscription whose finished candles carry the beginning of their span. The duration
    /// has to divide a day.
    pub fn time_aligned(duration: Duration) -> (r: PocketResult<SubscriptionType>)
        requires
            duration.valid(),
            duration.secs > 0,
        ensures
            match r {
                Ok(sub) => DAY % duration.secs == 0 && sub.wf() && sub == (
                SubscriptionType::TimeAligned {
                    duration,
                    candle: empty_candle(),
                    next_boundary: None,
                }),
                Err(PocketError::General(e)) => DAY % duration.secs != 0 && e@
                    == "Unsupported duration for time-aligned subscription: "@ + duration_text(
                    duration.secs,
                    duration.nanos,
                )
                    + ", duration should be a multiple of the number of seconds in a day"@,
                _ => false,
            },
    {
        if DAY % duration.as_secs() != 0 {
            let mut text = "Unsupported duration for time-aligned subscription: ".to_owned();
            text.append(duration.text().as_str());
            text.append(", duration should be a multiple of the number of seconds in a day");
            return Err(PocketError::General(text));
        }
        Ok(
            SubscriptionType::TimeAligned {
                duration,
                candle: new_candle(),
                next_boundary: None,
            },
        )
    }

    /// The whole seconds that a subscription by time lasts, the lowest 32 bits of them.
    pub fn period_secs(&self) -> (r: Option<u32>)
        ensures
            r == match self {
                SubscriptionType::Time { duration, .. } => Some(
                    (duration.secs % 0x1_0000_0000) as u32,
                ),
                SubscriptionType::TimeAligned { duration, .. } => Some(
                    (duration.secs % 0x1_0000_0000) as u32,
                ),
                _ => None,
            },
    {
        match self {
            SubscriptionType::Time { duration, .. } => Some(
                (duration.as_secs() % 0x1_0000_0000) as u32,
            ),
            SubscriptionType::TimeAligned { duration, .. } => Some(
                (duration.as_secs() % 0x1_0000_0000) as u32,
            ),
            _ => None,
        }
    }

    /// Takes a candle in. A candle whose time has no date counts as of the present, so that for
    /// such a candle what happens to a subscription by time depends on the clock.
    pub fn update(&mut self, new_candle: &BaseCandle) -> (r: PocketResult<Option<BaseCandle>>)
        requires
            old(self).wf(),
            old(self).takes(*new_candle),
        ensures
            final(self).wf(),
            exists|s: DateTime, n: DateTime|
                #![trigger subscription_step(*old(self), *new_candle, s, n)]
                *final(self) == subscription_step(*old(self), *new_candle, s, n).0 && update_is(
                    r,
                    subscription_step(*old(self), *new_candle, s, n).1,
                ),
            dates_known(*old(self), *new_candle) ==> *final(self) == subscription_step(
                *old(self),
                *new_candle,
                started(*old(self), second(0)),
                second(new_candle.timestamp),
            ).0 && update_is(
                r,
                subscription_step(
                    *old(self),
                    *new_candle,
                    started(*old(self), second(0)),
                    second(new_candle.timestamp),
                ).1,
            ),
    {
        let mut start = DateTime { secs: 0, nanos: 0 };
        let mut at = DateTime { secs: 0, nanos: 0 };
        if let SubscriptionType::Time { start_time: Some(first), .. } = self {
            at = new_candle.timestamp();
            start = DateTime::from_timestamp_or_now(*first);
        }
        let ghost before = *self;
        let r = self.update_at(new_candle, start, at);
        proof {
            if !(before is Time) || before->start_time is None {
                assert(subscription_step(before, *new_candle, start, at) == subscription_step(
                    before,
                    *new_candle,
                    started(before, second(0)),
                    second(new_candle.timestamp),
                ));
            }
        }
        r
    }

    /// Takes a candle in. For a subscription by time `start` is the instant of its first candle
    /// and `at` the instant of this one.
    pub fn update_at(&mut self, new_candle: &BaseCandle, start: DateTime, at: DateTime) -> (r:
        PocketResult<Option<BaseCandle>>)
        requires
            old(self).wf(),
            old(self).takes(*new_candle),
            start.valid(),
            at.valid(),
        ensures
            final(self).wf(),
            *final(self) == subscription_step(*old(self), *new_candle, start, at).0,
            update_is(r, subscription_step(*old(self), *new_candle, start, at).1),
    {
        match self {
            SubscriptionType::Direct => Ok(Some(*new_candle)),
            SubscriptionType::Chunk { size, current, candle } => {
                if *current == 0 {
                    *candle = *new_candle;
                } else {
                    extend(candle, new_candle);
                }
                if *size == 0 || *current >= *size - 1 {
                    *current = 0;
                    Ok(Some(*candle))
                } else {
                    *current = *current + 1;
                    Ok(None)
                }
            },
            SubscriptionType::Time { start_time, duration, candle } => {
                if start_time.is_none() {
                    *start_time = Some(new_candle.timestamp);
                    *candle = *new_candle;
                    return Ok(None);
                }
                extend(candle, new_candle);
                match at.elapsed_since(&start) {
                    Some(elapsed) => {
                        if elapsed.at_least(duration) {
                            *start_time = None;
                            Ok(Some(*candle))
                        } else {
                            Ok(None)
                        }
                    },
                    None => Err(
                        PocketError::General(
                            "Time calculation error in conditional update".to_owned(),
                        ),
                    ),
                }
            },
            SubscriptionType::TimeAligned { duration, candle, next_boundary } => {
                proof {
                    if duration.secs > DAY {
                        vstd::arithmetic::div_mod::lemma_small_mod(
                            DAY as nat,
                            duration.secs as nat,
                        );
                    }
                }
                let secs: i64 = duration.secs as i64;
                match *next_boundary {
                    None => {
                        *candle = *new_candle;
                        *next_boundary = Some(end_of_span(new_candle.timestamp, secs));
                        Ok(None)
                    },
                    Some(boundary) => {
                        if new_candle.timestamp < boundary {
                            extend(candle, new_candle);
                            candle.volume = add_volume(candle.volume, new_candle.volume);
                            Ok(None)
                        } else {
                            let mut completed = *candle;
                            completed.timestamp = boundary - secs;
                            *candle = *new_candle;
                            *next_boundary = Some(end_of_span(new_candle.timestamp, secs));
                            Ok(Some(completed))
                        }
                    },
                }
            },
        }
    }
}

fn new_candle() -> (r: BaseCandle)
    ensures
        r == empty_candle(),
{
    BaseCandle {
        timestamp: 0,
        open: Number::zero(),
        close: Number::zero(),
        high: Number::zero(),
        low: Number::zero(),
        volume: None,
    }
}

fn extend(candle: &mut BaseCandle, next: &BaseCandle)
    ensures
        *final(candle) == extended(*old(candle), *next),
{
    candle.timestamp = next.timestamp;
    candle.high = candle.high.max(next.high);
    candle.low = candle.low.min(next.low);
    candle.close = next.close;
}

fn add_volume(a: Option<Number>, b: Option<Number>) -> (r: Option<Number>)
    ensures
        r == volume_together(a, b),
{
    match (a, b) {
        (Some(x), Some(y)) => Some(x.plus(y)),
        (None, Some(_)) => b,
        _ => a,
    }
}

fn end_of_span(timestamp: i64, secs: i64) -> (r: i64)
    requires
        0 < secs <= DAY,
        span_end(timestamp as int, secs as int) <= i64::MAX,
    ensures
        r == span_end(timestamp as int, secs as int),
        r - secs >= i64::MIN,
{
    let t: i128 = timestamp as i128;
    let s: i128 = secs as i128;
    let m: i128 = if t < 0 {
        -t
    } else {
        t
    };
    let q: i128 = m / s;
    proof {
        vstd::arithmetic::div_mod::lemma_fundamental_div_mod(m as int, s as int);
        assert(0 <= q * s <= m) by (nonlinear_arith)
            requires
                m == s * q + m % s,
                m % s >= 0,
                q >= 0,
                s > 0,
        ;
        assert((q + 1) * s == q * s + s) by (nonlinear_arith);
        assert((-q + 1) * s == -(q * s) + s) by (nonlinear_arith);
    }
    if t < 0 {
        (s - q * s) as i64
    } else {
        (q * s + s) as i64
    }
}

} // verus!
