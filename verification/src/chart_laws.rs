//! What streams of chart prices are for: which stream a history is for, what it is told of the
//! history, and what it is told of live prices.

use crate::candle::merged_points;
use crate::candle::BaseCandle;
use crate::candle::CandleItem;
use crate::candle::HistoryItem;
use crate::chart_stream::activated;
use crate::chart_stream::chart_points;
use crate::chart_stream::first_waiting;
use crate::chart_stream::history_events;
use crate::chart_stream::row_of_readings;
use crate::chart_stream::row_step;
use crate::chart_stream::rows_step;
use crate::chart_stream::stream_row;
use crate::chart_stream::stream_rows_of;
use crate::chart_stream::ActiveStreamView;
use crate::chart_stream::ChartHistory;
use crate::chart_stream::DeliveryView;
use crate::chart_stream::HistoryStreamMode;
use crate::chart_stream::Instants;
use crate::chart_stream::PendingStreamView;
use crate::chart_stream::RowEvent;
use crate::chart_stream::StreamEventView;
use crate::chart_stream::StreamRowView;
use crate::clock::DateTime;
use crate::decimal::Decimal;
use crate::json::json_array;
use crate::json::json_text;
use crate::number::floor_i64;
use crate::number::Number;
use crate::subscription::subscription_step;
use crate::subscription::SubscriptionType;
use crate::subscription::Update;
use vstd::prelude::*;

verus! {

/// A history is for the first stream that waits for its asset and its period: the stream found
/// has both, none before it has both, and none is found exactly if no stream has both.
pub proof fn law_history_finds_its_stream(pending: Seq<PendingStreamView>, history: ChartHistory)
    ensures
        match first_waiting(pending, history) {
            Some(i) => {
                &&& 0 <= i < pending.len()
                &&& pending[i].asset == history.asset@
                &&& pending[i].period == history.period
                &&& forall|j: int|
                    0 <= j < i ==> (#[trigger] pending[j]).asset != history.asset@
                        || pending[j].period != history.period
            },
            None => forall|j: int|
                0 <= j < pending.len() ==> (#[trigger] pending[j]).asset != history.asset@
                    || pending[j].period != history.period,
        },
    decreases pending.len(),
{
    if pending.len() > 0 {
        let earlier = pending.drop_last();
        law_history_finds_its_stream(earlier, history);
        assert forall|j: int|
            0 <= j < earlier.len() && (earlier[j].asset != history.asset@ || earlier[j].period
                != history.period) implies (#[trigger] pending[j]).asset != history.asset@
            || pending[j].period != history.period by {
            assert(pending[j] == earlier[j]);
        }
    }
}

/// A stream of points begins with the points of the history, in order, each with the time and the
/// price that it has there, under the name of the asset.
pub proof fn law_points_are_told_in_order(
    history: ChartHistory,
    items: Vec<HistoryItem>,
    candles: Vec<CandleItem>,
)
    requires
        history.history == Some(items),
        history.candles == Some(candles),
    ensures
        ({
            let points = merged_points(history.period, items@, candles@);
            let events = history_events(HistoryStreamMode::Points, history);
            &&& events.len() == points.len()
            &&& forall|i: int|
                0 <= i < points.len() ==> (#[trigger] events[i] matches StreamEventView::Point(p)
                    && p.asset == history.asset@ && p.time == points[i].time && p.price
                    == points[i].price)
        }),
{
}

/// A history without candles is made of its entries alone, and one without entries of its candles
/// alone.
pub proof fn law_missing_lists_are_empty(history: ChartHistory)
    ensures
        history.history is None && history.candles is None ==> chart_points(history)
            == merged_points(history.period, Seq::empty(), Seq::empty()),
        forall|items: Vec<HistoryItem>|
            history.history == Some(items) && history.candles is None ==> chart_points(history)
                == #[trigger] merged_points(history.period, items@, Seq::empty()),
        forall|candles: Vec<CandleItem>|
            history.history is None && history.candles == Some(candles) ==> chart_points(history)
                == #[trigger] merged_points(history.period, Seq::empty(), candles@),
{
}

/// A stream that has had its history is of the asset and the kind that were asked for, tells the
/// one that asked, and makes live candles as long as the period of the history, the first of which
/// has not begun.
pub proof fn law_active_streams_are_those_asked_for(
    pending: PendingStreamView,
    history: ChartHistory,
)
    ensures
        ({
            let stream = activated(pending, history);
            &&& stream.asset == pending.asset
            &&& stream.mode == pending.mode
            &&& stream.sender == pending.sender
            &&& stream.live_ohlc matches SubscriptionType::Time { start_time, duration, .. }
                && start_time is None && duration.secs == history.period && duration.nanos == 0
        }),
{
}

/// A price of another asset, or one that is no newer than the newest that a stream knows, leaves
/// the stream as it is and brings nothing.
pub proof fn law_old_and_foreign_prices_bring_nothing(
    stream: ActiveStreamView,
    row: StreamRowView,
    start: DateTime,
    at: DateTime,
)
    requires
        row.asset != stream.asset || (stream.edge_time is Some && row.timestamp.units()
            <= stream.edge_time->0.units()),
    ensures
        row_step(stream, row, start, at) == (stream, RowEvent::Nothing),
{
}

/// A newer price of its asset is told to a stream of points as it is, and becomes the newest that
/// the stream knows. Nothing else of the stream changes.
pub proof fn law_news_are_told_to_streams_of_points(
    stream: ActiveStreamView,
    row: StreamRowView,
    start: DateTime,
    at: DateTime,
)
    requires
        stream.mode == HistoryStreamMode::Points,
        row.asset == stream.asset,
        stream.edge_time is Some ==> stream.edge_time->0.units() < row.timestamp.units(),
    ensures
        row_step(stream, row, start, at).1 matches RowEvent::Event(StreamEventView::Point(p))
            && p.asset == row.asset && p.time == row.timestamp && p.price == Number::Exact(
            row.price,
        ),
        row_step(stream, row, start, at).0 == (ActiveStreamView {
            edge_time: Some(row.timestamp),
            ..stream
        }),
{
}

/// A newer price of its asset goes into the live candle of a stream of candles: as a candle of the
/// second in which it lies, all of whose prices are this one. A finished candle is told under the
/// name of the asset, with the second and the prices that it has.
pub proof fn law_news_go_into_the_live_candle(
    stream: ActiveStreamView,
    row: StreamRowView,
    start: DateTime,
    at: DateTime,
    part: BaseCandle,
)
    requires
        stream.mode == HistoryStreamMode::Ohlc,
        row.asset == stream.asset,
        stream.edge_time is Some ==> stream.edge_time->0.units() < row.timestamp.units(),
        part.timestamp == floor_i64(row.timestamp),
        part.open == Number::Exact(row.price),
        part.high == Number::Exact(row.price),
        part.low == Number::Exact(row.price),
        part.close == Number::Exact(row.price),
        part.volume is None,
    ensures
        ({
            let (after, event) = row_step(stream, row, start, at);
            let (live, update) = subscription_step(stream.live_ohlc, part, start, at);
            &&& after == (ActiveStreamView {
                edge_time: Some(row.timestamp),
                live_ohlc: live,
                ..stream
            })
            &&& update is Pending ==> event is Nothing
            &&& update is TimeError ==> event is TimeError
            &&& update matches Update::Finished(base) ==> {
                &&& base.open is Exact && base.high is Exact && base.low is Exact
                    && base.close is Exact ==> (event matches RowEvent::Event(
                    StreamEventView::Candle(c),
                ) && c.symbol == stream.asset && c.timestamp == base.timestamp && Number::Exact(
                    c.open,
                ) == base.open && Number::Exact(c.high) == base.high && Number::Exact(c.low)
                    == base.low && Number::Exact(c.close) == base.close)
                &&& !(base.open is Exact && base.high is Exact && base.low is Exact
                    && base.close is Exact) ==> event is Nothing
            }
        }),
{
}

/// A live price goes to every stream in turn: each is moved on by what the price does to it, and
/// what it is told goes to the one that asked for it. Whoever asked for a stream that has something
/// to tell hears it, and nobody hears anything else.
pub proof fn law_everyone_hears_their_streams(
    active: Seq<ActiveStreamView>,
    row: StreamRowView,
    instants: Seq<Instants>,
)
    requires
        instants.len() == active.len(),
    ensures
        ({
            let (after, told) = rows_step(active, row, instants);
            let step = |i: int| row_step(active[i], row, instants[i].0, instants[i].1);
            &&& after.len() == active.len()
            &&& forall|i: int| 0 <= i < active.len() ==> #[trigger] after[i] == step(i).0
            &&& forall|i: int|
                #![trigger active[i]]
                0 <= i < active.len() ==> match step(i).1 {
                    RowEvent::Event(e) => told.contains(DeliveryView::Event(active[i].sender, e)),
                    RowEvent::TimeError => told.contains(DeliveryView::TimeError(active[i].sender)),
                    RowEvent::Nothing => true,
                }
            &&& forall|n: int|
                #![trigger told[n]]
                0 <= n < told.len() ==> exists|i: int|
                    #![trigger active[i]]
                    0 <= i < active.len() && match told[n] {
                        DeliveryView::Event(to, e) => to == active[i].sender && step(i).1
                            == RowEvent::Event(e),
                        DeliveryView::TimeError(to) => to == active[i].sender && step(
                            i,
                        ).1 is TimeError,
                    }
            &&& told.len() <= active.len()
        }),
    decreases active.len(),
{
    if active.len() > 0 {
        let earlier = active.drop_last();
        let past = instants.drop_last();
        law_everyone_hears_their_streams(earlier, row, past);
        let (before, heard) = rows_step(earlier, row, past);
        let (after, told) = rows_step(active, row, instants);
        let step = |i: int| row_step(active[i], row, instants[i].0, instants[i].1);
        let earlier_step = |i: int| row_step(earlier[i], row, past[i].0, past[i].1);
        let n = active.len() - 1;
        assert forall|i: int| 0 <= i < earlier.len() implies #[trigger] earlier_step(i) == step(
            i,
        ) by {
            assert(earlier[i] == active[i]);
            assert(past[i] == instants[i]);
        }
        assert forall|i: int| 0 <= i < active.len() implies #[trigger] after[i] == step(i).0 by {
            if i < n {
                assert(before[i] == earlier_step(i).0);
            }
        }
        assert forall|d: DeliveryView| heard.contains(d) implies #[trigger] told.contains(d) by {
            let k = choose|k: int| 0 <= k < heard.len() && heard[k] == d;
            assert(told[k] == d);
        }
        assert forall|i: int| #![trigger active[i]] 0 <= i < active.len() implies match step(i).1 {
            RowEvent::Event(e) => told.contains(DeliveryView::Event(active[i].sender, e)),
            RowEvent::TimeError => told.contains(DeliveryView::TimeError(active[i].sender)),
            RowEvent::Nothing => true,
        } by {
            if i < n {
                assert(earlier[i] == active[i]);
                assert(earlier_step(i) == step(i));
            } else {
                match step(n).1 {
                    RowEvent::Nothing => {},
                    _ => {
                        assert(told[heard.len() as int] == told.last());
                    },
                }
            }
        }
        assert forall|k: int| #![trigger told[k]] 0 <= k < told.len() implies exists|i: int|
            #![trigger active[i]]
            0 <= i < active.len() && match told[k] {
                DeliveryView::Event(to, e) => to == active[i].sender && step(i).1
                    == RowEvent::Event(e),
                DeliveryView::TimeError(to) => to == active[i].sender && step(i).1 is TimeError,
            } by {
            if k < heard.len() {
                assert(told[k] == heard[k]);
                let i = choose|i: int|
                    #![trigger earlier[i]]
                    0 <= i < earlier.len() && match heard[k] {
                        DeliveryView::Event(to, e) => to == earlier[i].sender && earlier_step(i).1
                            == RowEvent::Event(e),
                        DeliveryView::TimeError(to) => to == earlier[i].sender && earlier_step(
                            i,
                        ).1 is TimeError,
                    };
                assert(earlier_step(i) == step(i));
                assert(active[i] == earlier[i]);
            } else {
                assert(active[n] == active.last());
            }
        }
    }
}

/// What is told of a price is told in the order of the streams: that of the streams in front comes
/// before that of the last.
pub proof fn law_streams_are_told_in_order(
    active: Seq<ActiveStreamView>,
    last: ActiveStreamView,
    row: StreamRowView,
    instants: Seq<Instants>,
    at: Instants,
)
    ensures
        ({
            let front = rows_step(active, row, instants).1;
            let told = rows_step(active.push(last), row, instants.push(at)).1;
            match row_step(last, row, at.0, at.1).1 {
                RowEvent::Nothing => told == front,
                RowEvent::Event(e) => told == front.push(DeliveryView::Event(last.sender, e)),
                RowEvent::TimeError => told == front.push(DeliveryView::TimeError(last.sender)),
            }
        }),
{
    assert(active.push(last).drop_last() =~= active);
    assert(instants.push(at).drop_last() =~= instants);
}

/// The live prices of a list are those of its parts, in order; an entry that is no live price is
/// passed over.
pub proof fn law_rows_are_read_in_order(a: Seq<Seq<char>>, b: Seq<Seq<char>>, x: Seq<char>)
    ensures
        stream_rows_of(a + b) == stream_rows_of(a) + stream_rows_of(b),
        stream_rows_of(seq![x]) == match stream_row(x) {
            Some(row) => seq![row],
            None => Seq::<StreamRowView>::empty(),
        },
    decreases b.len(),
{
    reveal_with_fuel(stream_rows_of, 2);
    assert(seq![x].drop_last() =~= Seq::<Seq<char>>::empty());
    if b.len() == 0 {
        assert(a + b =~= a);
        assert(stream_rows_of(a) + stream_rows_of(b) =~= stream_rows_of(a));
    } else {
        law_rows_are_read_in_order(a, b.drop_last(), x);
        assert((a + b).drop_last() =~= a + b.drop_last());
    }
}

/// A live price is read from an array of an asset, a time and a price, in this order; what stands
/// behind them does not matter, and where one of them is missing there is none.
pub proof fn law_rows_are_asset_time_price(text: Seq<char>)
    ensures
        json_array(text) is None ==> stream_row(text) is None,
        json_array(text) matches Some(row) ==> row.len() < 3 ==> stream_row(text) is None,
        stream_row(text) matches Some(r) ==> json_array(text) is Some && json_text(
            json_array(text)->0[0],
        ) == Some(r.asset),
        json_array(text) matches Some(row) ==> row.len() >= 3 && json_text(row[0]) is None
            ==> stream_row(text) is None,
{
}

/// Three readings make up a live price: each is the reading it stands for.
pub proof fn law_readings_make_a_row(asset: Seq<char>, timestamp: Number, price: Decimal)
    ensures
        row_of_readings(Some(asset), Some(timestamp), Some(price)) matches Some(r) && r.asset
            == asset && r.timestamp == timestamp && r.price == price,
        row_of_readings(None, Some(timestamp), Some(price)) is None,
        row_of_readings(Some(asset), None, Some(price)) is None,
        row_of_readings(Some(asset), Some(timestamp), None) is None,
{
}

} // verus!
