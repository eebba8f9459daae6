//! Candles: open, high, low and close of a price over a span of time.

use crate::clock::has_date;
use crate::clock::second;
use crate::clock::DateTime;
use crate::decimal::decimal_difference;
use crate::decimal::decimal_quotient;
use crate::decimal::exact_difference;
use crate::decimal::in_range;
use crate::decimal::lemma_integer;
use crate::decimal::lemma_new;
use crate::decimal::lemma_pow10_positive;
use crate::decimal::magnitude;
use crate::decimal::max_units;
use crate::decimal::one_units;
use crate::decimal::pow10;
use crate::decimal::price_reading;
use crate::decimal::time_reading;
use crate::decimal::Decimal;
use crate::error::BinaryOptionsError;
use crate::error::BinaryOptionsResult;
use crate::json::json_array;
use crate::json::json_outline;
use crate::json::number_of;
use crate::json::outline;
use crate::json::read_array;
use crate::json::read_price;
use crate::json::read_time;
use crate::json::Json;
use crate::json::JsonView;
use crate::merge_laws::has_price;
use crate::merge_laws::law_candle_prices_are_put_in_gaps;
use crate::merge_laws::leaves_room;
use crate::merge_laws::times_are_decimals;
use crate::merge_laws::times_are_exact;
use crate::number::floor_i64;
use crate::number::integer;
use crate::number::larger;
use crate::number::smaller;
use crate::number::sum;
use crate::number::truncate_i64;
use crate::number::Number;
use crate::sort::by_time;
use crate::sort::sort_by_time;
use crate::sort::Timed;
use crate::span_laws::law_every_point_is_held;
use crate::span_laws::law_held_closed_candles_are_over;
use crate::text::texts;
use vstd::prelude::*;

verus! {

/// Candle data for one symbol. The exchange gives no volume with its prices, so that the volume is
/// always none.
#[derive(Debug)]
pub struct Candle {
    /// Trading symbol (e.g., "EURUSD_otc")
    pub symbol: String,
    /// Unix timestamp of the candle start time
    pub timestamp: i64,
    /// Opening price
    pub open: Decimal,
    /// Highest price in the candle period
    pub high: Decimal,
    /// Lowest price in the candle period
    pub low: Decimal,
    /// Closing price
    pub close: Decimal,
    /// Volume, which is not known
    pub volume: Option<Decimal>,
}

pub struct CandleView {
    pub symbol: Seq<char>,
    pub timestamp: i64,
    pub open: Decimal,
    pub high: Decimal,
    pub low: Decimal,
    pub close: Decimal,
    pub volume: Option<Decimal>,
}

impl View for Candle {
    type V = CandleView;

    open spec fn view(&self) -> CandleView {
        CandleView {
            symbol: self.symbol@,
            timestamp: self.timestamp,
            open: self.open,
            high: self.high,
            low: self.low,
            close: self.close,
            volume: self.volume,
        }
    }
}

pub open spec fn candles_view(candles: Seq<Candle>) -> Seq<CandleView> {
    candles.map_values(|c: Candle| c@)
}

/// A candle of numbers as the exchange sends them. The server writes it as the array
/// `[timestamp, open, close, high, low]`, with or without a volume at the end.
#[derive(Debug, Clone, Copy)]
pub struct BaseCandle {
    pub timestamp: i64,
    pub open: Number,
    pub close: Number,
    pub high: Number,
    pub low: Number,
    pub volume: Option<Number>,
}

/// One entry of a price history: a time and a price, and perhaps a third value that is not
/// read. A value that is not a number is none.
#[derive(Debug, Clone, Copy)]
pub enum HistoryItem {
    Tick([Option<Number>; 2]),
    TickWithNull([Option<Number>; 3]),
}

/// Timestamp, open, close, high, low and volume.
#[derive(Debug, Clone, Copy)]
pub struct CandleItem(
    pub Number,
    pub Number,
    pub Number,
    pub Number,
    pub Number,
    pub Number,
);

/// A price of an asset at a time.
#[derive(Debug)]
pub struct HistoryPoint {
    pub asset: String,
    pub time: Number,
    pub price: Number,
}

/// A price at a whole second.
#[derive(Debug, Clone, Copy)]
pub struct Tick {
    pub time: i64,
    pub price: Number,
}

/// A price at a time.
#[derive(Debug, Clone, Copy)]
pub struct Point {
    pub time: Number,
    pub price: Number,
}

impl Timed for Tick {
    open spec fn time_key(&self) -> int {
        self.time as int
    }

    fn earlier(a: &Tick, b: &Tick) -> (r: bool) {
        a.time < b.time
    }
}

impl Timed for Point {
    open spec fn time_key(&self) -> int {
        self.time.units()
    }

    fn earlier(a: &Point, b: &Point) -> (r: bool) {
        Number::less(a.time, b.time)
    }
}

/// The number, zero where there is none.
pub open spec fn or_zero(n: Option<Number>) -> Number {
    match n {
        Some(n) => n,
        None => integer(0),
    }
}

fn number_or_zero(n: Option<Number>) -> (r: Number)
    ensures
        r == or_zero(n),
{
    match n {
        Some(n) => n,
        None => Number::zero(),
    }
}

impl HistoryItem {
    /// The time and the price of the entry.
    pub open spec fn point(self) -> Point {
        match self {
            HistoryItem::Tick(values) => Point {
                time: or_zero(values[0]),
                price: or_zero(values[1]),
            },
            HistoryItem::TickWithNull(values) => Point {
                time: or_zero(values[0]),
                price: or_zero(values[1]),
            },
        }
    }

    /// The price of the entry at a whole second, the fraction of its time left out.
    pub open spec fn tick(self) -> Tick {
        Tick { time: truncate_i64(self.point().time), price: self.point().price }
    }

    pub fn to_point(&self) -> (r: (Number, Number))
        ensures
            r == (self.point().time, self.point().price),
    {
        match self {
            HistoryItem::Tick(values) => (number_or_zero(values[0]), number_or_zero(values[1])),
            HistoryItem::TickWithNull(values) => (
                number_or_zero(values[0]),
                number_or_zero(values[1]),
            ),
        }
    }

    pub fn to_tick(&self) -> (r: (i64, Number))
        ensures
            r == (self.tick().time, self.tick().price),
    {
        let (time, price) = self.to_point();
        (time.truncate_to_i64(), price)
    }
}

pub open spec fn items<T>(list: Option<&[T]>) -> Seq<T> {
    match list {
        Some(s) => s@,
        None => Seq::empty(),
    }
}

pub open spec fn history_points(history: Seq<HistoryItem>) -> Seq<Point> {
    history.map_values(|item: HistoryItem| item.point())
}

/// The four prices that a candle stands for: open at its start, high and low one and two
/// seconds later, close in its last second.
pub open spec fn candle_points(candle: CandleItem, period: u32) -> Seq<Point> {
    seq![
        Point { time: candle.0, price: candle.1 },
        Point { time: sum(candle.0, integer(1)), price: candle.3 },
        Point { time: sum(candle.0, integer(2)), price: candle.4 },
        Point { time: sum(sum(candle.0, integer(period as int)), integer(-1)), price: candle.2 },
    ]
}

/// Whether a point from a candle adds to the history: without a history it does, else it lies
/// before the newest entry and at a time where the history has none.
pub open spec fn adds_to(history: Seq<Point>, point: Point) -> bool {
    history.len() > 0 ==> {
        &&& exists|i: int|
            0 <= i < history.len() && point.time.units() < (#[trigger] history[i]).time.units()
        &&& forall|i: int|
            0 <= i < history.len() ==> (#[trigger] history[i]).time.units() != point.time.units()
    }
}

/// The points among `points` that add to the history.
pub open spec fn additions(history: Seq<Point>, points: Seq<Point>) -> Seq<Point>
    decreases points.len(),
{
    if points.len() == 0 {
        points
    } else if adds_to(history, points.last()) {
        additions(history, points.drop_last()).push(points.last())
    } else {
        additions(history, points.drop_last())
    }
}

/// The points of all candles, one candle after the other.
pub open spec fn all_candle_points(candles: Seq<CandleItem>, period: u32) -> Seq<Point>
    decreases candles.len(),
{
    if candles.len() == 0 {
        Seq::empty()
    } else {
        all_candle_points(candles.drop_last(), period) + candle_points(candles.last(), period)
    }
}

/// The history together with what the candles add to it, in the order of time. Candles of less
/// than five seconds add nothing.
pub open spec fn merged_points(
    period: u32,
    history: Seq<HistoryItem>,
    candles: Seq<CandleItem>,
) -> Seq<Point> {
    let known = history_points(history);
    by_time(
        known + if period >= 5 {
            additions(known, all_candle_points(candles, period))
        } else {
            Seq::empty()
        },
    )
}

/// Whether a list of points of an asset is what `points` says.
pub open spec fn points_are(r: Seq<HistoryPoint>, asset: Seq<char>, points: Seq<Point>) -> bool {
    &&& r.len() == points.len()
    &&& forall|i: int|
        0 <= i < r.len() ==> (#[trigger] r[i]).asset@ == asset && r[i].time == points[i].time
            && r[i].price == points[i].price
}

fn push_addition(points: &mut Vec<Point>, history: &Vec<Point>, newest: Option<Number>, point: Point)
    requires
        newest is Some <==> history@.len() > 0,
        newest matches Some(max) ==> is_newest(history@, max),
    ensures
        final(points)@ == old(points)@ + additions(history@, seq![point]),
{
    reveal_with_fuel(additions, 2);
    assert(seq![point].drop_last() =~= Seq::<Point>::empty());
    if let Some(max) = newest {
        proof {
            assert(is_newest(history@, max));
        }
        if !Number::less(point.time, max) {
            assert(!adds_to(history@, point));
            return;
        }
        let mut i: usize = 0;
        while i < history.len()
            invariant
                i <= history@.len(),
                *points == *old(points),
                forall|j: int|
                    0 <= j < i ==> (#[trigger] history@[j]).time.units() != point.time.units(),
                !adds_to(history@, point) ==> additions(history@, seq![point]) =~= Seq::<
                    Point,
                >::empty(),
            decreases history@.len() - i,
        {
            if Number::same(history[i].time, point.time) {
                return;
            }
            i += 1;
        }
        proof {
            let n = choose|n: int|
                0 <= n < history@.len() && (#[trigger] history@[n]).time.units() == max.units();
            assert(point.time.units() < history@[n].time.units());
        }
    }
    assert(adds_to(history@, point));
    points.push(point);
}

/// Whether `max` is the time of the newest point.
pub open spec fn is_newest(points: Seq<Point>, max: Number) -> bool {
    &&& exists|n: int| 0 <= n < points.len() && (#[trigger] points[n]).time.units() == max.units()
    &&& forall|n: int| 0 <= n < points.len() ==> (#[trigger] points[n]).time.units() <= max.units()
}

fn newest_time(points: &Vec<Point>) -> (r: Option<Number>)
    ensures
        r is Some <==> points@.len() > 0,
        r matches Some(max) ==> is_newest(points@, max),
{
    if points.len() == 0 {
        return None;
    }
    let mut max = points[0].time;
    let mut i: usize = 1;
    while i < points.len()
        invariant
            1 <= i <= points@.len(),
            exists|n: int| 0 <= n < i && (#[trigger] points@[n]).time.units() == max.units(),
            forall|n: int| 0 <= n < i ==> (#[trigger] points@[n]).time.units() <= max.units(),
        decreases points@.len() - i,
    {
        if Number::less(max, points[i].time) {
            max = points[i].time;
        }
        i += 1;
    }
    Some(max)
}

proof fn lemma_additions_split(history: Seq<Point>, a: Seq<Point>, b: Seq<Point>)
    ensures
        additions(history, a + b) == additions(history, a) + additions(history, b),
    decreases b.len(),
{
    if b.len() == 0 {
        assert(a + b =~= a);
        assert(additions(history, a) + b =~= additions(history, a));
    } else {
        lemma_additions_split(history, a, b.drop_last());
        assert((a + b).drop_last() =~= a + b.drop_last());
        assert(additions(history, a + b) =~= additions(history, a) + additions(history, b));
    }
}

/// Merges the price history of an asset with the points that its candles stand for.
pub fn merge_history_points(
    asset: &str,
    period: u32,
    history: Option<&[HistoryItem]>,
    candles: Option<&[CandleItem]>,
) -> (r: Vec<HistoryPoint>)
    ensures
        points_are(r@, asset@, merged_points(period, items(history), items(candles))),
        period < 5 ==> r@.len() == items(history).len(),
        forall|i: int|
            #![trigger items(candles)[i]]
            period >= 5 && 0 <= i < items(candles).len() && times_are_decimals(
                items(candles)[i],
                period,
            ) ==> {
                let CandleItem(start, open, close, high, low, _) = items(candles)[i];
                let s = start.units();
                let second = one_units();
                let last = s + (period - 1) * second;
                &&& leaves_room(items(history), s) ==> has_point(r@, s, open)
                &&& leaves_room(items(history), s + second) ==> has_point(r@, s + second, high)
                &&& leaves_room(items(history), s + 2 * second) ==> has_point(
                    r@,
                    s + 2 * second,
                    low,
                )
                &&& leaves_room(items(history), last) ==> has_point(r@, last, close)
            },
{
    let mut known: Vec<Point> = Vec::new();
    if let Some(list) = history {
        let mut i: usize = 0;
        while i < list.len()
            invariant
                i <= list@.len(),
                known@ == history_points(list@.take(i as int)),
            decreases list@.len() - i,
        {
            let (time, price) = list[i].to_point();
            known.push(Point { time, price });
            assert(history_points(list@.take(i + 1)) =~= history_points(list@.take(i as int)).push(
                list@[i as int].point(),
            ));
            i += 1;
        }
        assert(list@.take(list@.len() as int) =~= list@);
    }
    assert(known@ =~= history_points(items(history)));
    let mut points: Vec<Point> = known.clone();
    assert(points@ =~= known@);
    let ghost all = items(candles);
    if period >= 5 {
        if let Some(list) = candles {
            let newest = newest_time(&known);
            let one = Number::from_integer(1);
            let two = Number::from_integer(2);
            let length = Number::from_integer(period as i64);
            let minus_one = Number::from_integer(-1);
            let mut i: usize = 0;
            assert(points@ =~= known@ + additions(known@, Seq::empty()));
            while i < list.len()
                invariant
                    i <= list@.len(),
                    newest is Some <==> known@.len() > 0,
                    newest matches Some(max) ==> is_newest(known@, max),
                    one == integer(1),
                    two == integer(2),
                    length == integer(period as int),
                    minus_one == integer(-1),
                    one.units() == one_units(),
                    two.units() == 2 * one_units(),
                    length.units() == period * one_units(),
                    minus_one.units() == -one_units(),
                    all == list@,
                    forall|j: int|
                        0 <= j < i && times_are_decimals(all[j], period) ==> times_are_exact(
                            #[trigger] all[j],
                            period,
                        ),
                    points@ == known@ + additions(
                        known@,
                        all_candle_points(list@.take(i as int), period),
                    ),
                decreases list@.len() - i,
            {
                let candle = list[i];
                let ghost before = points@;
                let p0 = Point { time: candle.0, price: candle.1 };
                let p1 = Point { time: candle.0.plus(one), price: candle.3 };
                let p2 = Point { time: candle.0.plus(two), price: candle.4 };
                let p3 = Point { time: candle.0.plus(length).plus(minus_one), price: candle.2 };
                push_addition(&mut points, &known, newest, p0);
                push_addition(&mut points, &known, newest, p1);
                push_addition(&mut points, &known, newest, p2);
                push_addition(&mut points, &known, newest, p3);
                proof {
                    assert(period * one_units() - one_units() == (period - 1) * one_units())
                        by (nonlinear_arith);
                    assert(times_are_decimals(all[i as int], period) ==> times_are_exact(
                        all[i as int],
                        period,
                    ));
                    let earlier = all_candle_points(list@.take(i as int), period);
                    assert(list@.take(i + 1).drop_last() =~= list@.take(i as int));
                    let four = candle_points(candle, period);
                    lemma_additions_split(known@, seq![p0], seq![p1]);
                    lemma_additions_split(known@, seq![p0] + seq![p1], seq![p2]);
                    lemma_additions_split(known@, seq![p0] + seq![p1] + seq![p2], seq![p3]);
                    assert(four =~= seq![p0] + seq![p1] + seq![p2] + seq![p3]);
                    lemma_additions_split(known@, earlier, four);
                    assert(points@ =~= before + additions(known@, four));
                    assert(points@ =~= known@ + (additions(known@, earlier) + additions(
                        known@,
                        four,
                    )));
                }
                i += 1;
            }
            assert(list@.take(list@.len() as int) =~= list@);
        } else {
            assert(known@ + additions(known@, Seq::empty()) =~= known@);
        }
    } else {
        assert(known@ + Seq::<Point>::empty() =~= known@);
    }
    let sorted = sort_by_time(&points);
    let mut r: Vec<HistoryPoint> = Vec::new();
    let mut i: usize = 0;
    while i < sorted.len()
        invariant
            i <= sorted@.len(),
            points_are(r@, asset@, sorted@.take(i as int)),
        decreases sorted@.len() - i,
    {
        r.push(
            HistoryPoint {
                asset: asset.to_owned(),
                time: sorted[i].time,
                price: sorted[i].price,
            },
        );
        i += 1;
    }
    assert(sorted@.take(sorted@.len() as int) =~= sorted@);
    proof {
        lemma_points_are_put(asset@, period, items(history), all, r@);
    }
    r
}

/// Whether a price stands at a time.
pub open spec fn has_point(points: Seq<HistoryPoint>, time: int, price: Number) -> bool {
    exists|n: int|
        0 <= n < points.len() && (#[trigger] points[n]).time.units() == time && points[n].price
            == price
}

proof fn lemma_points_are_put(
    asset: Seq<char>,
    period: u32,
    history: Seq<HistoryItem>,
    candles: Seq<CandleItem>,
    r: Seq<HistoryPoint>,
)
    requires
        points_are(r, asset, merged_points(period, history, candles)),
        forall|i: int|
            period >= 5 && 0 <= i < candles.len() && times_are_decimals(candles[i], period)
                ==> times_are_exact(#[trigger] candles[i], period),
    ensures
        period < 5 ==> r.len() == history.len(),
        forall|i: int|
            #![trigger candles[i]]
            period >= 5 && 0 <= i < candles.len() && times_are_decimals(candles[i], period) ==> {
                let CandleItem(start, open, close, high, low, _) = candles[i];
                let s = start.units();
                let second = one_units();
                let last = s + (period - 1) * second;
                &&& leaves_room(history, s) ==> has_point(r, s, open)
                &&& leaves_room(history, s + second) ==> has_point(r, s + second, high)
                &&& leaves_room(history, s + 2 * second) ==> has_point(r, s + 2 * second, low)
                &&& leaves_room(history, last) ==> has_point(r, last, close)
            },
{
    let points = merged_points(period, history, candles);
    if period < 5 {
        crate::sort::law_by_time_in_order(history_points(history) + Seq::<Point>::empty());
    }
    assert forall|time: int, price: Number| #[trigger] has_price(points, time, price) implies has_point(
        r,
        time,
        price,
    ) by {
        let n = choose|n: int|
            0 <= n < points.len() && (#[trigger] points[n]).time.units() == time && points[n].price
                == price;
        assert(r[n].time == points[n].time);
    }
    assert forall|i: int|
        #![trigger candles[i]]
        period >= 5 && 0 <= i < candles.len() && times_are_decimals(candles[i], period) implies {
        let CandleItem(start, open, close, high, low, _) = candles[i];
        let s = start.units();
        let second = one_units();
        let last = s + (period - 1) * second;
        &&& leaves_room(history, s) ==> has_point(r, s, open)
        &&& leaves_room(history, s + second) ==> has_point(r, s + second, high)
        &&& leaves_room(history, s + 2 * second) ==> has_point(r, s + 2 * second, low)
        &&& leaves_room(history, last) ==> has_point(r, last, close)
    } by {
        law_candle_prices_are_put_in_gaps(period, history, candles, i);
    }
}

/// The beginning of the span of `period` seconds in which a second lies.
pub open spec fn span_start(time: int, period: int) -> int {
    (time / period) * period
}

/// The beginning of the span of `period` seconds in which a second lies, counted towards the
/// year 1970 from either side.
pub open spec fn span_start_towards_epoch(time: int, period: int) -> int {
    if time < 0 {
        -((-time) / period * period)
    } else {
        time / period * period
    }
}

/// A candle of a single price.
pub open spec fn single_price(timestamp: i64, price: Number) -> BaseCandle {
    BaseCandle { timestamp, open: price, close: price, high: price, low: price, volume: None }
}

/// A candle with one more price.
pub open spec fn with_price(candle: BaseCandle, price: Number) -> BaseCandle {
    BaseCandle {
        high: larger(candle.high, price),
        low: smaller(candle.low, price),
        close: price,
        ..candle
    }
}

/// One candle for each run of prices of the same span, in order. The time of each price is the
/// beginning of its span.
pub open spec fn gathered(prices: Seq<Tick>) -> Seq<BaseCandle>
    decreases prices.len(),
{
    if prices.len() == 0 {
        Seq::empty()
    } else {
        let earlier = gathered(prices.drop_last());
        let next = prices.last();
        if earlier.len() > 0 && earlier.last().timestamp == next.time {
            earlier.drop_last().push(with_price(earlier.last(), next.price))
        } else {
            earlier.push(single_price(next.time, next.price))
        }
    }
}

/// The decimal that a number is, an error with a message where it is none.
pub open spec fn exact_or(n: Number, message: Seq<char>) -> Result<Decimal, Seq<char>> {
    match n {
        Number::Exact(d) => Ok(d),
        _ => Err(message),
    }
}

/// The candle of a symbol, or what cannot be held: the open is tried first, then the high, the low
/// and the close. It has no volume, whatever the base candle has.
pub open spec fn candle_of(base: BaseCandle, symbol: Seq<char>) -> Result<CandleView, Seq<char>> {
    match (
        exact_or(base.open, "Couldn't parse open"@),
        exact_or(base.high, "Couldn't parse high"@),
        exact_or(base.low, "Couldn't parse low"@),
        exact_or(base.close, "Couldn't parse close"@),
    ) {
        (Err(e), _, _, _) => Err(e),
        (_, Err(e), _, _) => Err(e),
        (_, _, Err(e), _) => Err(e),
        (_, _, _, Err(e)) => Err(e),
        (Ok(open), Ok(high), Ok(low), Ok(close)) => Ok(
            CandleView { symbol, timestamp: base.timestamp, open, high, low, close, volume: None },
        ),
    }
}

/// The candles of a symbol that can be held, in order.
pub open spec fn held(raw: Seq<BaseCandle>, symbol: Seq<char>) -> Seq<CandleView>
    decreases raw.len(),
{
    if raw.len() == 0 {
        Seq::empty()
    } else {
        match candle_of(raw.last(), symbol) {
            Ok(c) => held(raw.drop_last(), symbol).push(c),
            Err(_) => held(raw.drop_last(), symbol),
        }
    }
}

/// All but the last.
pub open spec fn all_but_last<T>(s: Seq<T>) -> Seq<T> {
    if s.len() == 0 {
        s
    } else {
        s.drop_last()
    }
}

impl BaseCandle {
    pub fn new(
        timestamp: i64,
        open: Number,
        high: Number,
        low: Number,
        close: Number,
        volume: Option<Number>,
    ) -> (r: BaseCandle)
        ensures
            r == (BaseCandle { timestamp, open, close, high, low, volume }),
    {
        BaseCandle { timestamp, open, close, high, low, volume }
    }

    /// A candle of a single price.
    pub fn from_price(timestamp: i64, price: Number) -> (r: BaseCandle)
        ensures
            r == single_price(timestamp, price),
    {
        BaseCandle { timestamp, open: price, close: price, high: price, low: price, volume: None }
    }

    fn add_price(&mut self, price: Number)
        ensures
            *final(self) == with_price(*old(self), price),
    {
        self.high = self.high.max(price);
        self.low = self.low.min(price);
        self.close = price;
    }
}

fn exact(n: Number, message: &str) -> (r: BinaryOptionsResult<Decimal>)
    ensures
        match (r, exact_or(n, message@)) {
            (Ok(d), Ok(v)) => d == v,
            (Err(BinaryOptionsError::General(e)), Err(v)) => e@ == v,
            _ => false,
        },
{
    match n {
        Number::Exact(d) => Ok(d),
        _ => Err(BinaryOptionsError::General(message.to_owned())),
    }
}

impl Candle {
    /// The same candle once more.
    pub fn copied(&self) -> (r: Candle)
        ensures
            r@ == self@,
    {
        Candle {
            symbol: self.symbol.clone(),
            timestamp: self.timestamp,
            open: self.open,
            high: self.high,
            low: self.low,
            close: self.close,
            volume: self.volume,
        }
    }

    /// The candle of a symbol, where all its prices are decimals. It has no volume.
    pub fn try_from(value: (BaseCandle, String)) -> (r: BinaryOptionsResult<Candle>)
        ensures
            match (r, candle_of(value.0, value.1@)) {
                (Ok(c), Ok(v)) => c@ == v,
                (Err(BinaryOptionsError::General(e)), Err(v)) => e@ == v,
                _ => false,
            },
    {
        let (base, symbol) = value;
        let open = match exact(base.open, "Couldn't parse open") {
            Ok(d) => d,
            Err(e) => return Err(e),
        };
        let high = match exact(base.high, "Couldn't parse high") {
            Ok(d) => d,
            Err(e) => return Err(e),
        };
        let low = match exact(base.low, "Couldn't parse low") {
            Ok(d) => d,
            Err(e) => return Err(e),
        };
        let close = match exact(base.close, "Couldn't parse close") {
            Ok(d) => d,
            Err(e) => return Err(e),
        };
        Ok(Candle { symbol, timestamp: base.timestamp, open, high, low, close, volume: None })
    }
}

fn gather(prices: &Vec<Tick>) -> (r: Vec<BaseCandle>)
    ensures
        r@ == gathered(prices@),
{
    let mut candles: Vec<BaseCandle> = Vec::new();
    let mut current: Option<BaseCandle> = None;
    let mut i: usize = 0;
    while i < prices.len()
        invariant
            i <= prices@.len(),
            current is None <==> i == 0,
            match current {
                Some(c) => candles@.push(c) == gathered(prices@.take(i as int)),
                None => candles@ == gathered(prices@.take(i as int)),
            },
        decreases prices@.len() - i,
    {
        let next = prices[i];
        proof {
            assert(prices@.take(i + 1).drop_last() =~= prices@.take(i as int));
            if let Some(c) = current {
                assert(candles@.push(c).last() == c);
                assert(candles@.push(c).drop_last() =~= candles@);
            }
        }
        current = match current {
            Some(mut candle) => {
                if candle.timestamp == next.time {
                    candle.add_price(next.price);
                    Some(candle)
                } else {
                    candles.push(candle);
                    Some(BaseCandle::from_price(next.time, next.price))
                }
            },
            None => Some(BaseCandle::from_price(next.time, next.price)),
        };
        i += 1;
    }
    assert(prices@.take(i as int) =~= prices@);
    if let Some(candle) = current {
        candles.push(candle);
    }
    candles
}

fn hold(raw: &Vec<BaseCandle>, count: usize, symbol: &str) -> (r: Vec<Candle>)
    requires
        count <= raw@.len(),
    ensures
        candles_view(r@) == held(raw@.take(count as int), symbol@),
{
    let mut candles: Vec<Candle> = Vec::new();
    let mut i: usize = 0;
    assert(candles_view(candles@) =~= held(raw@.take(0), symbol@));
    while i < count
        invariant
            i <= count <= raw@.len(),
            candles_view(candles@) == held(raw@.take(i as int), symbol@),
        decreases count - i,
    {
        let ghost before = candles@;
        assert(raw@.take(i + 1).drop_last() =~= raw@.take(i as int));
        match Candle::try_from((raw[i], symbol.to_owned())) {
            Ok(c) => {
                candles.push(c);
                assert(candles_view(candles@) =~= candles_view(before).push(c@));
            },
            Err(_) => {},
        }
        i += 1;
    }
    candles
}

/// The prices of some points, each with the beginning of its span.
pub open spec fn span_prices(points: Seq<Tick>, period: int) -> Seq<Tick> {
    points.map_values(
        |p: Tick| Tick { time: span_start(p.time as int, period) as i64, price: p.price },
    )
}

/// The prices of some points, each with the beginning of its span, counted towards 1970.
pub open spec fn span_prices_towards_epoch(points: Seq<Tick>, period: int) -> Seq<Tick> {
    points.map_values(
        |p: Tick|
            Tick {
                time: span_start_towards_epoch(p.time as int, period) as i64,
                price: p.price,
            },
    )
}

pub open spec fn floored(points: Seq<HistoryPoint>) -> Seq<Tick> {
    points.map_values(|p: HistoryPoint| Tick { time: floor_i64(p.time), price: p.price })
}

/// The raw candles of some points.
pub open spec fn point_candles(points: Seq<Tick>, period: int) -> Seq<BaseCandle> {
    gathered(span_prices(by_time(points), period))
}

/// The raw candles of some ticks.
pub open spec fn tick_candles(ticks: Seq<Tick>, period: int) -> Seq<BaseCandle> {
    gathered(span_prices_towards_epoch(by_time(ticks), period))
}

/// Whether the span of every point begins at a second that can be held.
pub open spec fn spans_held(points: Seq<Tick>, period: int) -> bool {
    forall|i: int|
        0 <= i < points.len() ==> span_start((#[trigger] points[i]).time as int, period)
            >= i64::MIN
}

proof fn lemma_span_start(time: int, period: int)
    requires
        period > 0,
    ensures
        span_start(time, period) <= time < span_start(time, period) + period,
{
    vstd::arithmetic::div_mod::lemma_fundamental_div_mod(time, period);
    assert(period * (time / period) == (time / period) * period) by (nonlinear_arith);
}

proof fn lemma_span_start_towards_epoch(time: int, period: int)
    requires
        period > 0,
    ensures
        time >= 0 ==> 0 <= span_start_towards_epoch(time, period) <= time,
        time < 0 ==> time <= span_start_towards_epoch(time, period) <= 0,
{
    let m = if time < 0 {
        -time
    } else {
        time
    };
    lemma_span_start(m, period);
    assert(0 <= m / period * period) by (nonlinear_arith)
        requires
            m >= 0,
            period > 0,
    ;
}

/// Sorting changes nothing about which spans can be held.
pub proof fn lemma_sorted_spans_held(points: Seq<Tick>, period: int)
    requires
        spans_held(points, period),
    ensures
        spans_held(by_time(points), period),
        by_time(points).len() == points.len(),
    decreases points.len(),
{
    if points.len() > 0 {
        let t = points.drop_last();
        assert forall|i: int| 0 <= i < t.len() implies span_start(
            (#[trigger] t[i]).time as int,
            period,
        ) >= i64::MIN by {
            assert(t[i] == points[i]);
        }
        lemma_sorted_spans_held(t, period);
        assert(span_start(points[points.len() - 1].time as int, period) >= i64::MIN);
        lemma_inserted_spans_held(by_time(t), points.last(), period);
    }
}

proof fn lemma_inserted_spans_held(s: Seq<Tick>, x: Tick, period: int)
    requires
        spans_held(s, period),
        span_start(x.time as int, period) >= i64::MIN,
    ensures
        spans_held(crate::sort::inserted(s, x), period),
        crate::sort::inserted(s, x).len() == s.len() + 1,
    decreases s.len(),
{
    if s.len() == 0 || s.last().time_key() <= x.time_key() {
    } else {
        let t = s.drop_last();
        assert forall|i: int| 0 <= i < t.len() implies span_start(
            (#[trigger] t[i]).time as int,
            period,
        ) >= i64::MIN by {
            assert(t[i] == s[i]);
        }
        lemma_inserted_spans_held(t, x, period);
        assert(span_start(s[s.len() - 1].time as int, period) >= i64::MIN);
    }
}

/// Builds candles from the prices of an asset. The newest one is still developing and is left
/// out unless it is asked for. A candle with a price that no decimal can hold is left out.
pub fn compile_candles_from_history_points(
    points: &[HistoryPoint],
    period: u32,
    symbol: &str,
    include_current: bool,
) -> (r: Vec<Candle>)
    requires
        period > 0 ==> spans_held(floored(points@), period as int),
    ensures
        period == 0 ==> r@.len() == 0,
        period > 0 ==> candles_view(r@) == held(
            if include_current {
                point_candles(floored(points@), period as int)
            } else {
                all_but_last(point_candles(floored(points@), period as int))
            },
            symbol@,
        ),
        period > 0 && !include_current ==> forall|i: int|
            #![trigger r@[i]]
            0 <= i < r@.len() ==> exists|n: int|
                0 <= n < points@.len() && floor_i64((#[trigger] points@[n]).time)
                    >= r@[i].timestamp + period,
        period > 0 && include_current && (forall|n: int|
            0 <= n < points@.len() ==> (#[trigger] points@[n]).price is Exact) ==> forall|n: int|
            #![trigger points@[n]]
            0 <= n < points@.len() ==> exists|i: int|
                #![trigger r@[i]]
                0 <= i < r@.len() && r@[i].timestamp <= floor_i64(points@[n].time)
                    < r@[i].timestamp + period && r@[i].low.units() <= points@[n].price.units()
                    <= r@[i].high.units(),
{
    if period == 0 {
        return Vec::new();
    }
    let mut ticks: Vec<Tick> = Vec::new();
    let mut i: usize = 0;
    while i < points.len()
        invariant
            i <= points@.len(),
            ticks@ == floored(points@.take(i as int)),
        decreases points@.len() - i,
    {
        ticks.push(Tick { time: points[i].time.floor_to_i64(), price: points[i].price });
        assert(floored(points@.take(i + 1)) =~= floored(points@.take(i as int)).push(
            Tick { time: floor_i64(points@[i as int].time), price: points@[i as int].price },
        ));
        i += 1;
    }
    assert(points@.take(points@.len() as int) =~= points@);
    let sorted = sort_by_time(&ticks);
    proof {
        lemma_sorted_spans_held(ticks@, period as int);
    }
    let mut prices: Vec<Tick> = Vec::new();
    let mut i: usize = 0;
    while i < sorted.len()
        invariant
            i <= sorted@.len(),
            period > 0,
            spans_held(sorted@, period as int),
            prices@ == span_prices(sorted@.take(i as int), period as int),
        decreases sorted@.len() - i,
    {
        let tick = sorted[i];
        let start = span_start_of(tick.time, period);
        prices.push(Tick { time: start, price: tick.price });
        assert(span_prices(sorted@.take(i + 1), period as int) =~= span_prices(
            sorted@.take(i as int),
            period as int,
        ).push(Tick { time: start, price: tick.price }));
        i += 1;
    }
    assert(sorted@.take(sorted@.len() as int) =~= sorted@);
    let raw = gather(&prices);
    let count: usize = if include_current || raw.len() == 0 {
        raw.len()
    } else {
        raw.len() - 1
    };
    assert(raw@.take(raw@.len() as int) =~= raw@);
    let r = hold(&raw, count, symbol);
    proof {
        lemma_compiled(points@, period, symbol@, include_current, r@);
    }
    r
}

proof fn lemma_compiled(
    points: Seq<HistoryPoint>,
    period: u32,
    symbol: Seq<char>,
    include_current: bool,
    r: Seq<Candle>,
)
    requires
        period > 0,
        spans_held(floored(points), period as int),
        candles_view(r) == held(
            if include_current {
                point_candles(floored(points), period as int)
            } else {
                all_but_last(point_candles(floored(points), period as int))
            },
            symbol,
        ),
    ensures
        !include_current ==> forall|i: int|
            #![trigger r[i]]
            0 <= i < r.len() ==> exists|n: int|
                0 <= n < points.len() && floor_i64((#[trigger] points[n]).time) >= r[i].timestamp
                    + period,
        include_current && (forall|n: int|
            0 <= n < points.len() ==> (#[trigger] points[n]).price is Exact) ==> forall|n: int|
            #![trigger points[n]]
            0 <= n < points.len() ==> exists|i: int|
                #![trigger r[i]]
                0 <= i < r.len() && r[i].timestamp <= floor_i64(points[n].time) < r[i].timestamp
                    + period && r[i].low.units() <= points[n].price.units() <= r[i].high.units(),
{
    let ticks = floored(points);
    assert(forall|i: int| 0 <= i < r.len() ==> #[trigger] candles_view(r)[i] == r[i]@);
    if !include_current {
        assert forall|i: int| #![trigger r[i]] 0 <= i < r.len() implies exists|n: int|
            0 <= n < points.len() && floor_i64((#[trigger] points[n]).time) >= r[i].timestamp
                + period by {
            law_held_closed_candles_are_over(ticks, period as int, symbol, i);
            assert(candles_view(r)[i] == r[i]@);
            let n = choose|n: int|
                0 <= n < ticks.len() && (#[trigger] ticks[n]).time >= candles_view(r)[i].timestamp
                    + period;
            assert(ticks[n].time == floor_i64(points[n].time));
        }
    } else if forall|n: int| 0 <= n < points.len() ==> (#[trigger] points[n]).price is Exact {
        assert forall|n: int| 0 <= n < ticks.len() implies (#[trigger] ticks[n]).price is Exact by {
            assert(ticks[n].price == points[n].price);
        }
        assert forall|n: int| #![trigger points[n]] 0 <= n < points.len() implies exists|i: int|
            #![trigger r[i]]
            0 <= i < r.len() && r[i].timestamp <= floor_i64(points[n].time) < r[i].timestamp
                + period && r[i].low.units() <= points[n].price.units() <= r[i].high.units() by {
            law_every_point_is_held(ticks, period as int, symbol, n);
            let all = held(point_candles(ticks, period as int), symbol);
            let i = choose|i: int|
                #![trigger held(point_candles(ticks, period as int), symbol)[i]]
                0 <= i < held(point_candles(ticks, period as int), symbol).len() && {
                    let c = held(point_candles(ticks, period as int), symbol)[i];
                    c.timestamp <= ticks[n].time < c.timestamp + period as int && c.low.units()
                        <= ticks[n].price.units() <= c.high.units()
                };
            assert(all[i] == candles_view(r)[i]);
            assert(candles_view(r)[i] == r[i]@);
        }
    }
}

/// Whether the span of every point begins at a second that can be held.
pub fn spans_fit(points: &[HistoryPoint], period: u32) -> (r: bool)
    requires
        period > 0,
    ensures
        r == spans_held(floored(points@), period as int),
{
    let mut i: usize = 0;
    while i < points.len()
        invariant
            i <= points@.len(),
            period > 0,
            spans_held(floored(points@.take(i as int)), period as int),
        decreases points@.len() - i,
    {
        let time: i64 = points[i].time.floor_to_i64();
        let rest: i128 = if time >= 0 {
            0
        } else {
            let t: i128 = -(time as i128);
            let p: i128 = period as i128;
            let q: i128 = (t + p - 1) / p;
            proof {
                let d = period as int;
                vstd::arithmetic::div_mod::lemma_fundamental_div_mod(t + d - 1, d);
                let rem = (t + d - 1) % d;
                assert(time as int == (-q) * d + (d - 1 - rem)) by (nonlinear_arith)
                    requires
                        t + d - 1 == d * q + rem,
                        t == -(time as int),
                ;
                vstd::arithmetic::div_mod::lemma_fundamental_div_mod_converse(
                    time as int,
                    d,
                    -(q as int),
                    d - 1 - rem,
                );
                assert(0 <= q * p <= t + d) by (nonlinear_arith)
                    requires
                        t + d - 1 == d * q + rem,
                        rem >= 0,
                        q >= 0,
                        p == d,
                        d > 0,
                ;
                assert((-q) * d == -(q * p)) by (nonlinear_arith)
                    requires
                        p == d,
                ;
            }
            -(q * p)
        };
        proof {
            if time >= 0 {
                assert((time as int / period as int) * (period as int) >= 0) by (nonlinear_arith)
                    requires
                        time >= 0,
                        period > 0,
                ;
            }
            let all = floored(points@);
            assert(all[i as int].time == time);
        }
        if rest < i64::MIN as i128 {
            assert(span_start(floored(points@)[i as int].time as int, period as int) < i64::MIN);
            return false;
        }
        assert(floored(points@.take(i + 1)) =~= floored(points@.take(i as int)).push(
            Tick { time, price: points@[i as int].price },
        ));
        i += 1;
    }
    assert(points@.take(points@.len() as int) =~= points@);
    true
}

fn span_start_of(time: i64, period: u32) -> (r: i64)
    requires
        period > 0,
        span_start(time as int, period as int) >= i64::MIN,
    ensures
        r == span_start(time as int, period as int),
{
    proof {
        lemma_span_start(time as int, period as int);
    }
    let p: i128 = period as i128;
    let t: i128 = time as i128;
    if time >= 0 {
        proof {
            assert(0 <= (time as int / period as int) * (period as int)) by (nonlinear_arith)
                requires
                    time >= 0,
                    period > 0,
            ;
        }
        (t / p * p) as i64
    } else {
        let q: i128 = (-t - 1) / p;
        proof {
            let d = period as int;
            let m = -(time as int) - 1;
            vstd::arithmetic::div_mod::lemma_fundamental_div_mod(m, d);
            assert(0 <= (q + 1) * p <= m + d) by (nonlinear_arith)
                requires
                    m == d * q + m % d,
                    m % d >= 0,
                    q >= 0,
                    p == d,
                    d > 0,
            ;
        }
        let start: i128 = -((q + 1) * p);
        proof {
            let d = period as int;
            let m = -(time as int) - 1;
            vstd::arithmetic::div_mod::lemma_fundamental_div_mod(m, d);
            assert(start == (-(q + 1)) * d) by (nonlinear_arith)
                requires
                    start == -((q + 1) * p),
                    p == d,
            ;
            let rest = d - 1 - m % d;
            assert(time as int == (-(q + 1)) * d + rest) by (nonlinear_arith)
                requires
                    m == d * q + m % d,
                    m == -(time as int) - 1,
                    rest == d - 1 - m % d,
            ;
            vstd::arithmetic::div_mod::lemma_fundamental_div_mod_converse(
                time as int,
                d,
                -(q + 1),
                rest,
            );
        }
        start as i64
    }
}

fn span_start_towards_epoch_of(time: i64, period: u32) -> (r: i64)
    requires
        period > 0,
    ensures
        r == span_start_towards_epoch(time as int, period as int),
{
    proof {
        lemma_span_start_towards_epoch(time as int, period as int);
    }
    let p: i128 = period as i128;
    let t: i128 = time as i128;
    if time >= 0 {
        (t / p * p) as i64
    } else {
        (-((-t) / p * p)) as i64
    }
}

/// Builds closed candles from the same merged points that the exchange draws its chart from.
/// The newest candle is left out: the history may hold the one that is still developing.
pub fn merge_history_ohlc(
    asset: &str,
    period: u32,
    history: Option<&[HistoryItem]>,
    candles: Option<&[CandleItem]>,
) -> (r: Vec<Candle>)
    requires
        period > 0 ==> spans_held(
            floored_points(merged_points(period, items(history), items(candles))),
            period as int,
        ),
    ensures
        period == 0 ==> r@.len() == 0,
        period > 0 ==> candles_view(r@) == held(
            all_but_last(
                point_candles(
                    floored_points(merged_points(period, items(history), items(candles))),
                    period as int,
                ),
            ),
            asset@,
        ),
{
    if period == 0 {
        return Vec::new();
    }
    let points = merge_history_points(asset, period, history, candles);
    assert(floored(points@) =~= floored_points(
        merged_points(period, items(history), items(candles)),
    ));
    compile_candles_from_history_points(points.as_slice(), period, asset, false)
}

/// Points at whole seconds, the fraction of their time left out.
pub open spec fn floored_points(points: Seq<Point>) -> Seq<Tick> {
    points.map_values(|p: Point| Tick { time: floor_i64(p.time), price: p.price })
}

pub open spec fn item_ticks(ticks: Seq<HistoryItem>) -> Seq<Tick> {
    ticks.map_values(|t: HistoryItem| t.tick())
}

/// Compiles raw tick data into candles of `period` seconds. There are none without ticks or
/// with a period of zero. A candle with a price that no decimal can hold is left out.
pub fn compile_candles_from_ticks(ticks: &[HistoryItem], period: u32, symbol: &str) -> (r: Vec<
    Candle,
>)
    ensures
        period == 0 ==> r@.len() == 0,
        period > 0 ==> candles_view(r@) == held(
            tick_candles(item_ticks(ticks@), period as int),
            symbol@,
        ),
{
    if period == 0 {
        return Vec::new();
    }
    let mut plain: Vec<Tick> = Vec::new();
    let mut i: usize = 0;
    while i < ticks.len()
        invariant
            i <= ticks@.len(),
            plain@ == item_ticks(ticks@.take(i as int)),
        decreases ticks@.len() - i,
    {
        let (time, price) = ticks[i].to_tick();
        plain.push(Tick { time, price });
        assert(item_ticks(ticks@.take(i + 1)) =~= item_ticks(ticks@.take(i as int)).push(
            ticks@[i as int].tick(),
        ));
        i += 1;
    }
    assert(ticks@.take(ticks@.len() as int) =~= ticks@);
    let sorted = sort_by_time(&plain);
    let mut prices: Vec<Tick> = Vec::new();
    let mut i: usize = 0;
    while i < sorted.len()
        invariant
            i <= sorted@.len(),
            period > 0,
            prices@ == span_prices_towards_epoch(sorted@.take(i as int), period as int),
        decreases sorted@.len() - i,
    {
        let tick = sorted[i];
        let start = span_start_towards_epoch_of(tick.time, period);
        prices.push(Tick { time: start, price: tick.price });
        assert(span_prices_towards_epoch(sorted@.take(i + 1), period as int)
            =~= span_prices_towards_epoch(sorted@.take(i as int), period as int).push(
            Tick { time: start, price: tick.price },
        ));
        i += 1;
    }
    assert(sorted@.take(sorted@.len() as int) =~= sorted@);
    let raw = gather(&prices);
    assert(raw@.take(raw@.len() as int) =~= raw@);
    hold(&raw, raw.len(), symbol)
}

pub open spec fn tuple_ticks(ticks: Seq<(i64, Option<Number>)>) -> Seq<Tick> {
    ticks.map_values(|t: (i64, Option<Number>)| Tick { time: t.0, price: or_zero(t.1) })
}

/// Compiles timestamps and prices into candles of `period` seconds, like
/// `compile_candles_from_ticks`. A price that is not a number counts as zero.
pub fn compile_candles_from_tuples(
    ticks: &[(i64, Option<Number>)],
    period: u32,
    symbol: &str,
) -> (r: Vec<Candle>)
    ensures
        period == 0 ==> r@.len() == 0,
        period > 0 ==> candles_view(r@) == held(
            tick_candles(tuple_ticks(ticks@), period as int),
            symbol@,
        ),
{
    let mut history_items: Vec<HistoryItem> = Vec::new();
    let mut i: usize = 0;
    while i < ticks.len()
        invariant
            i <= ticks@.len(),
            item_ticks(history_items@) == tuple_ticks(ticks@.take(i as int)),
        decreases ticks@.len() - i,
    {
        let (timestamp, price) = ticks[i];
        let item = HistoryItem::Tick([Some(Number::from_integer(timestamp)), price]);
        proof {
            lemma_integer(timestamp);
            assert(item.tick() == Tick { time: timestamp, price: or_zero(price) });
        }
        let ghost before = history_items@;
        history_items.push(item);
        assert(item_ticks(history_items@) =~= item_ticks(before).push(item.tick()));
        assert(tuple_ticks(ticks@.take(i + 1)) =~= tuple_ticks(ticks@.take(i as int)).push(
            Tick { time: timestamp, price: or_zero(price) },
        ));
        i += 1;
    }
    assert(ticks@.take(ticks@.len() as int) =~= ticks@);
    compile_candles_from_ticks(history_items.as_slice(), period, symbol)
}

/// Whether two decimals have a difference: always if it is in range.
pub open spec fn differ_by_decimal(a: Decimal, b: Decimal) -> bool {
    in_range(a.units() - b.units()) || decimal_difference(a, b) is Some
}

/// Whether two decimals have a quotient: always if it is in range.
pub open spec fn divide_to_decimal(a: Decimal, b: Decimal) -> bool {
    (b.units() != 0 && magnitude(a.units()) * one_units() <= max_units() * magnitude(b.units()))
        || decimal_quotient(a, b) is Some
}

/// The smaller of two decimals, the first where they are equal.
pub open spec fn smaller_decimal(a: Decimal, b: Decimal) -> Decimal {
    if a.units() > b.units() {
        b
    } else {
        a
    }
}

/// The larger of two decimals, the first where they are equal.
pub open spec fn larger_decimal(a: Decimal, b: Decimal) -> Decimal {
    if a.units() < b.units() {
        b
    } else {
        a
    }
}

/// Whether a body is less than a tenth of a range by more than half of a unit.
pub open spec fn below_tenth(body: int, range: int) -> bool {
    2 * (body * one_units()) < (2 * tenth().units() - 1) * range
}

/// A tenth.
pub open spec fn tenth() -> Decimal {
    Decimal::spec_new(1, 1)
}

/// The nearest number of units to the share that a body is of a range lies on the same side of a
/// tenth as the share does, unless that is below it by no more than half of a unit.
proof fn lemma_share_of_range(body: int, range: int)
    ensures
        range > 0 ==> forall|share: int|
            2 * magnitude(#[trigger] (share * range) - body * one_units()) <= range ==> {
                &&& below_tenth(body, range) ==> share < tenth().units()
                &&& 10 * body >= range ==> share >= tenth().units()
            },
{
    let t = tenth().units();
    lemma_new(1, 1);
    assert(t == pow10(27));
    assert(one_units() == 10 * t) by {
        reveal_with_fuel(vstd::arithmetic::power::pow, 2);
    }
    if range > 0 {
        assert forall|share: int|
            2 * magnitude(#[trigger] (share * range) - body * one_units()) <= range implies {
            &&& below_tenth(body, range) ==> share < t
            &&& 10 * body >= range ==> share >= t
        } by {
            if below_tenth(body, range) {
                assert(share < t) by (nonlinear_arith)
                    requires
                        range > 0,
                        2 * (share * range) < (2 * t - 1) * range + range,
                ;
            }
            if 10 * body >= range {
                lemma_pow10_positive(27);
                assert(body * one_units() >= t * range) by (nonlinear_arith)
                    requires
                        one_units() == 10 * t,
                        t > 0,
                        10 * body >= range,
                ;
                assert(share >= t) by (nonlinear_arith)
                    requires
                        range > 0,
                        2 * (share * range) >= 2 * (t * range) - range,
                ;
            }
        }
    }
}

impl Candle {
    /// A candle of a single price. There is an error where the price is no decimal.
    pub fn new(symbol: String, timestamp: i64, price: Option<Decimal>) -> (r: BinaryOptionsResult<
        Candle,
    >)
        ensures
            match (r, price) {
                (Ok(c), Some(p)) => c@ == (CandleView {
                    symbol: symbol@,
                    timestamp,
                    open: p,
                    high: p,
                    low: p,
                    close: p,
                    volume: None,
                }),
                (Err(BinaryOptionsError::General(e)), None) => e@
                    == "Couldn't parse f64 to Decimal"@,
                _ => false,
            },
    {
        match price {
            Some(p) => Ok(
                Candle { symbol, timestamp, open: p, high: p, low: p, close: p, volume: None },
            ),
            None => Err(not_decimal()),
        }
    }

    /// Takes one more price in: the open stays, the price becomes the close. Where the price is
    /// no decimal the candle is left as it is.
    pub fn update_price(&mut self, price: Option<Decimal>) -> (r: BinaryOptionsResult<()>)
        ensures
            match (r, price) {
                (Ok(_), Some(p)) => final(self)@ == (CandleView {
                    high: larger_decimal(old(self).high, p),
                    low: smaller_decimal(old(self).low, p),
                    close: p,
                    ..old(self)@
                }),
                (Err(BinaryOptionsError::General(e)), None) => e@
                    == "Couldn't parse f64 to Decimal"@ && *final(self) == *old(self),
                _ => false,
            },
            price matches Some(p) ==> final(self).high.units() >= p.units()
                && final(self).high.units() >= old(self).high.units() && final(self).low.units()
                <= p.units() && final(self).low.units() <= old(self).low.units(),
    {
        match price {
            Some(p) => {
                self.high = self.high.max(p);
                self.low = self.low.min(p);
                self.close = p;
                Ok(())
            },
            None => Err(not_decimal()),
        }
    }

    /// Takes one more price in, as `update_price` does, and moves the candle to its time.
    pub fn update(&mut self, timestamp: i64, price: Option<Decimal>) -> (r: BinaryOptionsResult<()>)
        ensures
            match (r, price) {
                (Ok(_), Some(p)) => final(self)@ == (CandleView {
                    timestamp,
                    high: larger_decimal(old(self).high, p),
                    low: smaller_decimal(old(self).low, p),
                    close: p,
                    ..old(self)@
                }),
                (Err(BinaryOptionsError::General(e)), None) => e@
                    == "Couldn't parse f64 to Decimal"@ && *final(self) == *old(self),
                _ => false,
            },
    {
        match self.update_price(price) {
            Ok(_) => {
                self.timestamp = timestamp;
                Ok(())
            },
            Err(e) => Err(e),
        }
    }

    /// High less low.
    pub fn price_range(&self) -> (r: Decimal)
        requires
            differ_by_decimal(self.high, self.low),
        ensures
            decimal_difference(self.high, self.low) == Some(r),
            exact_difference(self.high, self.low) ==> r.units() == self.high.units()
                - self.low.units(),
    {
        difference(self.high, self.low)
    }

    /// Whether the candle closed higher than it opened.
    pub fn is_bullish(&self) -> (r: bool)
        ensures
            r == (self.close.units() > self.open.units()),
    {
        self.close > self.open
    }

    /// Whether the candle closed lower than it opened.
    pub fn is_bearish(&self) -> (r: bool)
        ensures
            r == (self.close.units() < self.open.units()),
    {
        self.close < self.open
    }

    /// Whether the body is less than a tenth of the range, or the range is nothing.
    pub fn is_doji(&self) -> (r: bool)
        requires
            differ_by_decimal(self.close, self.open),
            differ_by_decimal(self.high, self.low),
            decimal_difference(self.high, self.low)->0.units() > 0 ==> divide_to_decimal(
                decimal_difference(self.close, self.open)->0.magnitude(),
                decimal_difference(self.high, self.low)->0,
            ),
        ensures
            r == (decimal_difference(self.high, self.low)->0.units() > 0 ==> decimal_quotient(
                decimal_difference(self.close, self.open)->0.magnitude(),
                decimal_difference(self.high, self.low)->0,
            )->0.units() < tenth().units()),
            ({
                let body = magnitude(self.close.units() - self.open.units());
                let range = self.high.units() - self.low.units();
                exact_difference(self.close, self.open) && exact_difference(self.high, self.low)
                    && body <= range ==> {
                    &&& range == 0 || below_tenth(body, range) ==> r
                    &&& range > 0 && 10 * body >= range ==> !r
                }
            }),
    {
        let body_size = self.body_size();
        let range = self.price_range();
        proof {
            lemma_share_of_range(body_size.units(), range.units());
        }
        if range.is_positive() {
            match body_size.checked_div(range) {
                Some(share) => match Decimal::new(1, 1) {
                    Some(limit) => share < limit,
                    None => false,
                },
                None => false,
            }
        } else {
            true
        }
    }

    /// What `is_doji` says, none where the body, the range or their quotient is no decimal.
    pub fn is_doji_if_held(&self) -> (r: Option<bool>)
        ensures
            r == match (
                decimal_difference(self.close, self.open),
                decimal_difference(self.high, self.low),
            ) {
                (Some(body), Some(range)) => if range.units() > 0 {
                    match decimal_quotient(body.magnitude(), range) {
                        Some(share) => Some(share.units() < tenth().units()),
                        None => None,
                    }
                } else {
                    Some(true)
                },
                _ => None,
            },
    {
        match (self.close.checked_sub(self.open), self.high.checked_sub(self.low)) {
            (Some(body), Some(range)) => {
                if range.is_positive() && body.abs().checked_div(range).is_none() {
                    None
                } else {
                    Some(self.is_doji())
                }
            },
            _ => None,
        }
    }

    /// Close less open, without its sign.
    pub fn body_size(&self) -> (r: Decimal)
        requires
            differ_by_decimal(self.close, self.open),
        ensures
            decimal_difference(self.close, self.open) is Some,
            r == decimal_difference(self.close, self.open)->0.magnitude(),
            exact_difference(self.close, self.open) ==> r.units() == magnitude(
                self.close.units() - self.open.units(),
            ),
    {
        difference(self.close, self.open).abs()
    }

    /// High less the larger of open and close.
    pub fn upper_shadow(&self) -> (r: Decimal)
        requires
            differ_by_decimal(self.high, larger_decimal(self.open, self.close)),
        ensures
            decimal_difference(self.high, larger_decimal(self.open, self.close)) == Some(r),
            exact_difference(self.high, larger_decimal(self.open, self.close)) ==> r.units()
                == self.high.units() - larger_decimal(self.open, self.close).units(),
            exact_difference(self.high, larger_decimal(self.open, self.close)) ==> r.units()
                <= self.high.units() - self.open.units() && r.units() <= self.high.units()
                - self.close.units() && (r.units() == self.high.units() - self.open.units()
                || r.units() == self.high.units() - self.close.units()),
    {
        difference(self.high, self.open.max(self.close))
    }

    /// The smaller of open and close, less low.
    pub fn lower_shadow(&self) -> (r: Decimal)
        requires
            differ_by_decimal(smaller_decimal(self.open, self.close), self.low),
        ensures
            decimal_difference(smaller_decimal(self.open, self.close), self.low) == Some(r),
            exact_difference(smaller_decimal(self.open, self.close), self.low) ==> r.units()
                == smaller_decimal(self.open, self.close).units() - self.low.units(),
            exact_difference(smaller_decimal(self.open, self.close), self.low) ==> r.units()
                <= self.open.units() - self.low.units() && r.units() <= self.close.units()
                - self.low.units() && (r.units() == self.open.units() - self.low.units()
                || r.units() == self.close.units() - self.low.units()),
    {
        difference(self.open.min(self.close), self.low)
    }

    /// The start of the candle as a date, the present where it has none.
    pub fn datetime(&self) -> (r: DateTime)
        ensures
            r.valid(),
            has_date(self.timestamp as int) ==> r == second(self.timestamp),
    {
        DateTime::from_timestamp_or_now(self.timestamp)
    }
}

impl BaseCandle {
    /// The start of the candle as a date, the present where it has none.
    pub fn timestamp(&self) -> (r: DateTime)
        ensures
            r.valid(),
            has_date(self.timestamp as int) ==> r == second(self.timestamp),
    {
        DateTime::from_timestamp_or_now(self.timestamp)
    }
}

fn not_decimal() -> (r: BinaryOptionsError)
    ensures
        r matches BinaryOptionsError::General(e) && e@ == "Couldn't parse f64 to Decimal"@,
{
    BinaryOptionsError::General("Couldn't parse f64 to Decimal".to_owned())
}

fn difference(a: Decimal, b: Decimal) -> (r: Decimal)
    requires
        differ_by_decimal(a, b),
    ensures
        decimal_difference(a, b) == Some(r),
        exact_difference(a, b) ==> r.units() == a.units() - b.units(),
{
    match a.checked_sub(b) {
        Some(d) => d,
        None => Decimal::zero(),
    }
}

/// The price that a JSON text is, none where it is no number.
pub open spec fn json_price(text: Seq<char>) -> Option<Number> {
    number_of(price_reading(text))
}

/// The time that a JSON text is, none where it is no number.
pub open spec fn json_time(text: Seq<char>) -> Option<Number> {
    number_of(time_reading(text))
}

/// The entry of a price history that two or three JSON texts are.
pub open spec fn history_item_of(values: Seq<Seq<char>>) -> Option<HistoryItem> {
    if values.len() == 2 {
        Some(HistoryItem::Tick([json_time(values[0]), json_price(values[1])]))
    } else if values.len() == 3 {
        Some(
            HistoryItem::TickWithNull(
                [json_time(values[0]), json_price(values[1]), json_price(values[2])],
            ),
        )
    } else {
        None
    }
}

impl HistoryItem {
    /// The entry of a price history that two or three JSON texts are.
    pub fn from_values(values: &Vec<String>) -> (r: Option<HistoryItem>)
        ensures
            r == history_item_of(texts(values@)),
    {
        if values.len() == 2 {
            assert(texts(values@)[0] == values@[0]@);
            assert(texts(values@)[1] == values@[1]@);
            let item = [read_time(values[0].as_str()), read_price(values[1].as_str())];
            assert(item@ =~= [json_time(values@[0]@), json_price(values@[1]@)]@);
            Some(HistoryItem::Tick(item))
        } else if values.len() == 3 {
            assert(texts(values@)[0] == values@[0]@);
            assert(texts(values@)[1] == values@[1]@);
            assert(texts(values@)[2] == values@[2]@);
            let item = [
                read_time(values[0].as_str()),
                read_price(values[1].as_str()),
                read_price(values[2].as_str()),
            ];
            Some(HistoryItem::TickWithNull(item))
        } else {
            None
        }
    }
}

/// The candle that some readings make up, none where one is no number. The volume may be left
/// out.
pub open spec fn candle_of_readings(
    time: Option<Number>,
    open: Option<Number>,
    close: Option<Number>,
    high: Option<Number>,
    low: Option<Number>,
    volume: Option<Option<Number>>,
) -> Option<BaseCandle> {
    if time is Some && open is Some && close is Some && high is Some && low is Some && volume
        != Some(None::<Number>) {
        Some(
            BaseCandle {
                timestamp: truncate_i64(time->0),
                open: open->0,
                close: close->0,
                high: high->0,
                low: low->0,
                volume: match volume {
                    Some(v) => v,
                    None => None,
                },
            },
        )
    } else {
        None
    }
}

/// The volume that ends a row of JSON texts, none where it is left out or null.
pub open spec fn json_volume(list: Seq<Seq<char>>) -> Option<Option<Number>> {
    if list.len() == 5 || json_outline(list[5]) == Some(JsonView::Null) {
        None
    } else {
        Some(json_price(list[5]))
    }
}

/// The candle that a JSON text is: an array of a time, the open, the close, the high and the
/// low, and perhaps a volume, which may be null.
pub open spec fn base_candle_of(text: Seq<char>) -> Option<BaseCandle> {
    match json_array(text) {
        Some(list) => if list.len() == 5 || list.len() == 6 {
            candle_of_readings(
                json_time(list[0]),
                json_price(list[1]),
                json_price(list[2]),
                json_price(list[3]),
                json_price(list[4]),
                json_volume(list),
            )
        } else {
            None
        },
        None => None,
    }
}

impl BaseCandle {
    /// The candle that some readings make up, none where one is no number. The volume may be
    /// left out.
    pub fn from_readings(
        time: Option<Number>,
        open: Option<Number>,
        close: Option<Number>,
        high: Option<Number>,
        low: Option<Number>,
        volume: Option<Option<Number>>,
    ) -> (r: Option<BaseCandle>)
        ensures
            r == candle_of_readings(time, open, close, high, low, volume),
    {
        let volume = match volume {
            Some(v) => Some(v?),
            None => None,
        };
        Some(
            BaseCandle {
                timestamp: time?.truncate_to_i64(),
                open: open?,
                close: close?,
                high: high?,
                low: low?,
                volume,
            },
        )
    }

    /// Reads a candle from JSON text.
    pub fn from_json(text: &str) -> (r: Option<BaseCandle>)
        ensures
            r == base_candle_of(text@),
    {
        let list = read_array(text)?;
        if list.len() != 5 && list.len() != 6 {
            return None;
        }
        assert(forall|i: int| 0 <= i < list@.len() ==> #[trigger] texts(list@)[i] == list@[i]@);
        let volume = if list.len() == 5 {
            None
        } else {
            match outline(list[5].as_str()) {
                Some(Json::Null) => None,
                _ => Some(read_price(list[5].as_str())),
            }
        };
        BaseCandle::from_readings(
            read_time(list[0].as_str()),
            read_price(list[1].as_str()),
            read_price(list[2].as_str()),
            read_price(list[3].as_str()),
            read_price(list[4].as_str()),
            volume,
        )
    }
}

} // verus!
