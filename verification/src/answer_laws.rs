//! What answers to requests for historical data hold, said of what the exchange sends.

use crate::candle::all_but_last;
use crate::candle::candle_of;
use crate::candle::candles_view;
use crate::candle::floored_points;
use crate::candle::held;
use crate::candle::item_ticks;
use crate::candle::merged_points;
use crate::candle::point_candles;
use crate::candle::spans_held;
use crate::candle::tick_candles;
use crate::candle::BaseCandle;
use crate::candle::CandleItem;
use crate::candle::CandleView;
use crate::candle::HistoryItem;
use crate::candle::Tick;
use crate::chart_stream::history_events;
use crate::chart_stream::ChartHistory;
use crate::chart_stream::HistoryStreamMode;
use crate::chart_stream::StreamEventView;
use crate::historical_data::call_steps;
use crate::historical_data::frame_of_event;
use crate::historical_data::history_frame;
use crate::historical_data::item_candle;
use crate::historical_data::list_candle;
use crate::historical_data::lists_len;
use crate::historical_data::requested;
use crate::historical_data::response_step;
use crate::historical_data::CallEvent;
use crate::historical_data::CallStep;
use crate::historical_data::CallView;
use crate::historical_data::Command;
use crate::historical_data::CommandResponse;
use crate::historical_data::CommandResponseView;
use crate::historical_data::HistoryFrameView;
use crate::historical_data::HistoryResponse;
use crate::historical_data::PendingView;
use crate::historical_data::RequestType;
use crate::historical_data::ServerResponse;
use crate::error::PocketError;
use crate::json::framed_array;
use crate::json::json_has_key;
use crate::json::json_text;
use crate::number::truncate_i64;
use crate::number::Number;
use crate::span_laws::in_span_towards_epoch;
use crate::span_laws::law_every_tick_is_held;
use crate::span_laws::law_held_closed_candles_are_over;
use crate::span_laws::law_held_point_candles_sum_up;
use crate::span_laws::law_held_tick_candles_sum_up;
use crate::span_laws::law_points_of_the_past_are_held;
use crate::span_laws::sums_up_span;
use crate::span_laws::sums_up_span_towards_epoch;
use crate::text::begins_with;
use crate::text::occurs_at;
use crate::trades::trade_payload;
use vstd::prelude::*;

verus! {

/// Whether a candle of an asset is made of a time and four prices.
pub open spec fn is_candle_of(
    c: CandleView,
    asset: Seq<char>,
    time: Number,
    open: Number,
    high: Number,
    low: Number,
    close: Number,
) -> bool {
    &&& c.symbol == asset
    &&& c.timestamp == truncate_i64(time)
    &&& Number::Exact(c.open) == open
    &&& Number::Exact(c.high) == high
    &&& Number::Exact(c.low) == low
    &&& Number::Exact(c.close) == close
    &&& c.volume is None
}

/// The candles of a list that can be held are those of its parts, in order. A candle can be held
/// exactly if its four prices are decimals, and keeps its time and its prices.
pub proof fn law_held_candles_stay_in_order(
    a: Seq<BaseCandle>,
    b: Seq<BaseCandle>,
    c: BaseCandle,
    symbol: Seq<char>,
)
    ensures
        held(a + b, symbol) == held(a, symbol) + held(b, symbol),
        c.open is Exact && c.high is Exact && c.low is Exact && c.close is Exact ==> held(
            seq![c],
            symbol,
        ) == seq![
            CandleView {
                symbol,
                timestamp: c.timestamp,
                open: c.open->Exact_0,
                high: c.high->Exact_0,
                low: c.low->Exact_0,
                close: c.close->Exact_0,
                volume: None,
            },
        ],
        !(c.open is Exact && c.high is Exact && c.low is Exact && c.close is Exact) ==> held(
            seq![c],
            symbol,
        ).len() == 0,
    decreases b.len(),
{
    reveal_with_fuel(held, 2);
    assert(seq![c].drop_last() =~= Seq::<BaseCandle>::empty());
    if b.len() == 0 {
        assert(a + b =~= a);
        assert(held(a, symbol) + held(b, symbol) =~= held(a, symbol));
    } else {
        law_held_candles_stay_in_order(a, b.drop_last(), c, symbol);
        assert((a + b).drop_last() =~= a + b.drop_last());
        assert(held(a + b, symbol) =~= held(a, symbol) + held(b, symbol));
    }
}

proof fn lemma_all_held(raw: Seq<BaseCandle>, symbol: Seq<char>)
    requires
        forall|i: int|
            0 <= i < raw.len() ==> (#[trigger] raw[i]).open is Exact && raw[i].high is Exact
                && raw[i].low is Exact && raw[i].close is Exact,
    ensures
        held(raw, symbol).len() == raw.len(),
        forall|i: int|
            0 <= i < raw.len() ==> Ok::<CandleView, Seq<char>>(#[trigger] held(raw, symbol)[i])
                == candle_of(raw[i], symbol),
    decreases raw.len(),
{
    if raw.len() > 0 {
        let front = raw.drop_last();
        assert forall|i: int| 0 <= i < front.len() implies (#[trigger] front[i]).open is Exact
            && front[i].high is Exact && front[i].low is Exact && front[i].close is Exact by {
            assert(front[i] == raw[i]);
        }
        lemma_all_held(front, symbol);
        let last = raw[raw.len() - 1];
        assert(last.open is Exact);
        assert forall|i: int| 0 <= i < raw.len() implies Ok::<CandleView, Seq<char>>(
            #[trigger] held(raw, symbol)[i],
        ) == candle_of(raw[i], symbol) by {
            if i < front.len() {
                assert(held(front, symbol)[i] == held(raw, symbol)[i]);
                assert(front[i] == raw[i]);
            }
        }
    }
}

/// A request for candles that a history answers by separate lists: there are as many candles as
/// the shortest list has entries, and the candle at each place has the entries at that place of
/// the opens, the highs, the lows, the closes and the times. So where at every place the low is
/// the lowest and the high the highest, it is so in every candle.
pub proof fn law_lists_become_candles(
    pending: PendingView,
    h: HistoryResponse,
    times: Vec<Number>,
    opens: Vec<Number>,
    highs: Vec<Number>,
    lows: Vec<Number>,
    closes: Vec<Number>,
)
    requires
        pending.kind == RequestType::Candles,
        h.asset@ == pending.asset,
        h.period == pending.period,
        h.candles matches Some(v) ==> v@.len() == 0,
        h.history is None,
        h.timestamps == Some(times),
        h.o == Some(opens),
        h.h == Some(highs),
        h.l == Some(lows),
        h.c == Some(closes),
        forall|i: int| 0 <= i < opens@.len() ==> (#[trigger] opens@[i]) is Exact,
        forall|i: int| 0 <= i < highs@.len() ==> (#[trigger] highs@[i]) is Exact,
        forall|i: int| 0 <= i < lows@.len() ==> (#[trigger] lows@[i]) is Exact,
        forall|i: int| 0 <= i < closes@.len() ==> (#[trigger] closes@[i]) is Exact,
    ensures
        response_step(Some(pending), ServerResponse::History(h)).0 is None,
        response_step(Some(pending), ServerResponse::History(h)).1 matches Some(
            CommandResponseView::Candles(id, candles),
        ) && {
            let n = candles.len();
            &&& id == pending.req_id
            &&& n <= times@.len() && n <= opens@.len() && n <= highs@.len() && n <= lows@.len()
                && n <= closes@.len()
            &&& n == times@.len() || n == opens@.len() || n == highs@.len() || n == lows@.len() || n
                == closes@.len()
            &&& forall|i: int|
                #![trigger candles[i]]
                0 <= i < n ==> is_candle_of(
                    candles[i],
                    pending.asset,
                    times@[i],
                    opens@[i],
                    highs@[i],
                    lows@[i],
                    closes@[i],
                )
            &&& (forall|i: int|
                #![trigger lows@[i]]
                #![trigger highs@[i]]
                0 <= i < n ==> lows@[i].units() <= opens@[i].units() <= highs@[i].units()
                    && lows@[i].units() <= closes@[i].units() <= highs@[i].units()) ==> forall|i: int|
                #![trigger candles[i]]
                0 <= i < n ==> candles[i].low.units() <= candles[i].open.units()
                    && candles[i].open.units() <= candles[i].high.units() && candles[i].low.units()
                    <= candles[i].close.units() && candles[i].close.units()
                    <= candles[i].high.units()
        },
{
    let raw = Seq::new(lists_len(h) as nat, |i: int| list_candle(h, i));
    assert forall|i: int| 0 <= i < raw.len() implies (#[trigger] raw[i]).open is Exact
        && raw[i].high is Exact && raw[i].low is Exact && raw[i].close is Exact by {
        assert(opens@[i] is Exact && highs@[i] is Exact && lows@[i] is Exact && closes@[i] is Exact);
    }
    lemma_all_held(raw, h.asset@);
    let candles = held(raw, h.asset@);
    assert forall|i: int| #![trigger candles[i]] 0 <= i < raw.len() implies is_candle_of(
        candles[i],
        pending.asset,
        times@[i],
        opens@[i],
        highs@[i],
        lows@[i],
        closes@[i],
    ) by {
        assert(raw[i].open == opens@[i]);
        assert(Ok::<CandleView, Seq<char>>(candles[i]) == candle_of(raw[i], h.asset@));
    }
    assert(response_step(Some(pending), ServerResponse::History(h)).1 == Some(
        CommandResponseView::Candles(pending.req_id, candles),
    ));
    if forall|i: int|
        #![trigger lows@[i]]
        #![trigger highs@[i]]
        0 <= i < candles.len() ==> lows@[i].units() <= opens@[i].units() <= highs@[i].units()
            && lows@[i].units() <= closes@[i].units() <= highs@[i].units() {
        assert forall|i: int| #![trigger candles[i]] 0 <= i < candles.len() implies candles[i].low.units()
            <= candles[i].open.units() && candles[i].open.units() <= candles[i].high.units()
            && candles[i].low.units() <= candles[i].close.units() && candles[i].close.units()
            <= candles[i].high.units() by {
            assert(is_candle_of(
                candles[i],
                pending.asset,
                times@[i],
                opens@[i],
                highs@[i],
                lows@[i],
                closes@[i],
            ));
            assert(lows@[i].units() <= opens@[i].units());
            assert(Number::Exact(candles[i].low).units() == candles[i].low.units());
        }
    }
}

/// A request for candles that a history with candles answers: the candle at each place has the
/// time, the open, the close, the high and the low of the entry at that place.
pub proof fn law_candle_entries_become_candles(
    pending: PendingView,
    h: HistoryResponse,
    entries: Vec<CandleItem>,
)
    requires
        pending.kind == RequestType::Candles,
        h.asset@ == pending.asset,
        h.period == pending.period,
        h.candles == Some(entries),
        entries@.len() > 0,
        forall|i: int|
            #![trigger entries@[i]]
            0 <= i < entries@.len() ==> {
                let CandleItem(_, open, close, high, low, _) = entries@[i];
                open is Exact && close is Exact && high is Exact && low is Exact
            },
    ensures
        response_step(Some(pending), ServerResponse::History(h)).0 is None,
        response_step(Some(pending), ServerResponse::History(h)).1 matches Some(
            CommandResponseView::Candles(id, candles),
        ) && id == pending.req_id && candles.len() == entries@.len() && forall|i: int|
            #![trigger candles[i]]
            0 <= i < candles.len() ==> {
                let CandleItem(time, open, close, high, low, _) = entries@[i];
                is_candle_of(candles[i], pending.asset, time, open, high, low, close)
            },
{
    let raw = entries@.map_values(|i: CandleItem| item_candle(i));
    assert forall|i: int| 0 <= i < raw.len() implies (#[trigger] raw[i]).open is Exact
        && raw[i].high is Exact && raw[i].low is Exact && raw[i].close is Exact by {
        assert(raw[i] == item_candle(entries@[i]));
    }
    lemma_all_held(raw, h.asset@);
    let candles = held(raw, h.asset@);
    assert forall|i: int| #![trigger candles[i]] 0 <= i < raw.len() implies ({
        let CandleItem(time, open, close, high, low, _) = entries@[i];
        is_candle_of(candles[i], pending.asset, time, open, high, low, close)
    }) by {
        assert(raw[i] == item_candle(entries@[i]));
        assert(Ok::<CandleView, Seq<char>>(candles[i]) == candle_of(raw[i], h.asset@));
    }
}

/// A history that holds neither candles nor entries nor all of the separate lists answers a
/// request for candles with none.
pub proof fn law_nothing_becomes_no_candles(pending: PendingView, h: HistoryResponse)
    requires
        pending.kind == RequestType::Candles,
        h.asset@ == pending.asset,
        h.period == pending.period,
        h.candles matches Some(v) ==> v@.len() == 0,
        h.history is None,
        h.timestamps is None || h.o is None || h.h is None || h.l is None || h.c is None,
    ensures
        response_step(Some(pending), ServerResponse::History(h)).1 == Some(
            CommandResponseView::Candles(pending.req_id, Seq::empty()),
        ),
{
}

/// A request for ticks is answered by the entries of a history, each at the whole second of its
/// time and with its price.
pub proof fn law_entries_become_ticks(
    pending: PendingView,
    h: HistoryResponse,
    entries: Vec<HistoryItem>,
)
    requires
        pending.kind == RequestType::Ticks,
        h.asset@ == pending.asset,
        h.period == pending.period,
        h.history == Some(entries),
        entries@.len() > 0,
    ensures
        response_step(Some(pending), ServerResponse::History(h)).0 is None,
        response_step(Some(pending), ServerResponse::History(h)).1 matches Some(
            CommandResponseView::Ticks(id, ticks),
        ) && id == pending.req_id && ticks.len() == entries@.len() && forall|i: int|
            #![trigger ticks[i]]
            0 <= i < ticks.len() ==> ticks[i] == (
                truncate_i64(entries@[i].point().time),
                entries@[i].point().price,
            ),
{
}

/// A history without entries answers a request for ticks by the closes of its candles, each at
/// the time of its candle; one without candles by the closes of its lists, each at the time at its
/// place; and one without these by none.
pub proof fn law_closes_become_ticks(
    pending: PendingView,
    h: HistoryResponse,
    candles: Vec<CandleItem>,
    times: Vec<Number>,
    closes: Vec<Number>,
)
    requires
        pending.kind == RequestType::Ticks,
        h.asset@ == pending.asset,
        h.period == pending.period,
        h.history matches Some(v) ==> v@.len() == 0,
    ensures
        ({
            let answer = response_step(Some(pending), ServerResponse::History(h)).1;
            &&& h.candles == Some(candles) ==> (answer matches Some(
                CommandResponseView::Ticks(id, ticks),
            ) && id == pending.req_id && ticks.len() == candles@.len() && forall|i: int|
                #![trigger ticks[i]]
                0 <= i < ticks.len() ==> {
                    let CandleItem(time, _, close, _, _, _) = candles@[i];
                    ticks[i] == (truncate_i64(time), close)
                })
            &&& h.candles is None && h.timestamps == Some(times) && h.c == Some(closes) ==> (
            answer matches Some(CommandResponseView::Ticks(id, ticks)) && id == pending.req_id
                && ticks.len() <= times@.len() && ticks.len() <= closes@.len() && (ticks.len()
                == times@.len() || ticks.len() == closes@.len()) && forall|i: int|
                #![trigger ticks[i]]
                0 <= i < ticks.len() ==> ticks[i] == (truncate_i64(times@[i]), closes@[i]))
            &&& h.candles is None && (h.timestamps is None || h.c is None) ==> answer == Some(
                CommandResponseView::Ticks(pending.req_id, Seq::empty()),
            )
        }),
{
    assert(item_count(h) == 0);
}

spec fn item_count(h: HistoryResponse) -> nat {
    crate::candle::item_ticks(crate::historical_data::or_empty(h.history)).len()
}

/// A request for chart points is answered by the merged points of the history, in order, under the
/// name of the asset.
pub proof fn law_points_are_answered_in_order(
    pending: PendingView,
    h: HistoryResponse,
    entries: Vec<HistoryItem>,
    candles: Vec<CandleItem>,
)
    requires
        pending.kind == RequestType::HistoryPoints,
        h.asset@ == pending.asset,
        h.period == pending.period,
        h.history == Some(entries),
        h.candles == Some(candles),
    ensures
        response_step(Some(pending), ServerResponse::History(h)).0 is None,
        response_step(Some(pending), ServerResponse::History(h)).1 matches Some(
            CommandResponseView::HistoryPoints(id, answer),
        ) && {
            let points = merged_points(pending.period, entries@, candles@);
            &&& id == pending.req_id
            &&& answer.len() == points.len()
            &&& forall|i: int|
                #![trigger answer[i]]
                0 <= i < points.len() ==> answer[i].asset == pending.asset && answer[i].time
                    == points[i].time && answer[i].price == points[i].price
        },
{
}

/// Finished candles answer every kind of request: as they are where candles are asked for, and by
/// the close of each at its time where ticks or chart points are.
pub proof fn law_finished_candles_answer(
    pending: PendingView,
    list: Vec<crate::candle::Candle>,
)
    ensures
        ({
            let candles = candles_view(list@);
            let (after, answer) = response_step(Some(pending), ServerResponse::Success(list));
            &&& after is None
            &&& pending.kind == RequestType::Candles ==> answer == Some(
                CommandResponseView::Candles(pending.req_id, candles),
            )
            &&& pending.kind == RequestType::HistoryOhlc ==> answer == Some(
                CommandResponseView::HistoryOhlc(pending.req_id, candles),
            )
            &&& pending.kind == RequestType::Ticks ==> (answer matches Some(
                CommandResponseView::Ticks(id, ticks),
            ) && id == pending.req_id && ticks.len() == candles.len() && forall|i: int|
                #![trigger ticks[i]]
                0 <= i < ticks.len() ==> ticks[i] == (
                    candles[i].timestamp,
                    Number::Exact(candles[i].close),
                ))
            &&& pending.kind == RequestType::HistoryPoints ==> (answer matches Some(
                CommandResponseView::HistoryPoints(id, points),
            ) && id == pending.req_id && points.len() == candles.len() && forall|i: int|
                #![trigger points[i]]
                0 <= i < points.len() ==> points[i].asset == pending.asset
                    && points[i].time.units() == candles[i].timestamp
                    * crate::decimal::one_units() && points[i].price == Number::Exact(
                    candles[i].close,
                ))
        }),
{
    let candles = candles_view(list@);
    assert forall|i: int| 0 <= i < candles.len() implies crate::number::integer(
        #[trigger] candles[i].timestamp as int,
    ).units() == candles[i].timestamp * crate::decimal::one_units() by {
        crate::decimal::lemma_integer(candles[i].timestamp);
    }
}

/// An error of the exchange ends every request, and is handed on as it is.
pub proof fn law_errors_end_requests(pending: Option<PendingView>, text: String)
    ensures
        response_step(pending, ServerResponse::Fail(text)) == (
            None::<PendingView>,
            Some(CommandResponseView::Error(text@)),
        ),
{
}

/// Each command asks for its own kind of data of its asset and period, under its identifier.
pub proof fn law_commands_ask_for_their_kind(asset: String, period: u32, req_id: u128)
    ensures
        ({
            let asks = |cmd: Command, kind: RequestType|
                {
                    let r = requested(cmd);
                    r.req_id == req_id && r.asset == asset@ && r.period == period && r.kind == kind
                };
            &&& asks(Command::GetTicks { asset, period, req_id }, RequestType::Ticks)
            &&& asks(Command::GetCandles { asset, period, req_id }, RequestType::Candles)
            &&& asks(
                Command::GetHistoryPoints { asset, period, req_id },
                RequestType::HistoryPoints,
            )
            &&& asks(Command::GetHistoryOhlc { asset, period, req_id }, RequestType::HistoryOhlc)
        }),
{
}

/// An event carries a history exactly if its name is `updateHistory` with something behind it: the
/// payload, or the announcement of one.
pub proof fn law_history_events(rest: Seq<char>, name: Seq<char>, payload: Seq<char>)
    ensures
        frame_of_event(Some("updateHistory"@ + rest), false, payload) == HistoryFrameView::Payload(
            payload,
        ),
        frame_of_event(Some("updateHistory"@ + rest), true, payload)
            == HistoryFrameView::Placeholder,
        (forall|r: Seq<char>| name != #[trigger] ("updateHistory"@ + r)) ==> frame_of_event(
            Some(name),
            false,
            payload,
        ) == HistoryFrameView::Nothing && frame_of_event(Some(name), true, payload)
            == HistoryFrameView::Nothing,
        frame_of_event(None, false, payload) == HistoryFrameView::Nothing,
        frame_of_event(None, true, payload) == HistoryFrameView::Nothing,
{
    let p = "updateHistory"@;
    assert((p + rest).subrange(0, p.len() as int) =~= p);
    if begins_with(name, p) {
        assert(occurs_at(name, p, 0));
        assert(name =~= p + name.skip(p.len() as int)) by {
            assert forall|i: int| 0 <= i < p.len() implies name[i] == p[i] by {
                assert(name.subrange(0, p.len() as int)[i] == name[i]);
            }
        }
    }
}

/// A call is ended by the answer of its kind under its identifier, which it hands on; by an error,
/// which it hands on; and when it has waited half a minute. An answer of another kind does not
/// touch it. Of the answers of its kind to others, four are passed over, and the fifth ends it.
pub proof fn law_calls_end(
    before: CallView,
    after: CallView,
    response: CommandResponse,
    step: CallStep,
    kind: RequestType,
    id: u128,
)
    requires
        call_steps(before, after, CallEvent::Response(response), step),
        match response {
            CommandResponse::Ticks { req_id, .. } => kind == RequestType::Ticks && id == req_id,
            CommandResponse::Candles { req_id, .. } => kind == RequestType::Candles && id
                == req_id,
            CommandResponse::HistoryPoints { req_id, .. } => kind == RequestType::HistoryPoints
                && id == req_id,
            CommandResponse::HistoryOhlc { req_id, .. } => kind == RequestType::HistoryOhlc && id
                == req_id,
            CommandResponse::Error(_) => true,
        },
    ensures
        response matches CommandResponse::Error(t) ==> (step matches CallStep::Finish(
            Err(PocketError::General(e)),
        ) && e@ == t@),
        !(response is Error) && kind != before.kind ==> after == before && step is Wait,
        !(response is Error) && kind == before.kind && id == before.id ==> step
            == CallStep::Finish(Ok(response)),
        !(response is Error) && kind == before.kind && id != before.id ==> {
            &&& after.mismatches == before.mismatches + 1
            &&& after.kind == before.kind && after.id == before.id && after.asset == before.asset
                && after.period == before.period
            &&& before.mismatches < 4 ==> step is Wait
            &&& before.mismatches >= 4 ==> (step matches CallStep::Finish(
                Err(PocketError::Timeout { duration, .. }),
            ) && duration.secs == 30 && duration.nanos == 0)
        },
{
}

/// A call that has waited too long ends with the error that says so: what was asked for, of which
/// asset and period, and how long it was waited for.
pub proof fn law_calls_time_out(before: CallView, after: CallView, step: CallStep)
    requires
        call_steps(before, after, CallEvent::TimedOut, step),
    ensures
        after == before,
        step matches CallStep::Finish(Err(PocketError::Timeout { task, context, duration })) && {
            &&& duration.secs == 30 && duration.nanos == 0
            &&& task@ == if before.kind == RequestType::Ticks {
                "ticks"@
            } else if before.kind == RequestType::Candles {
                "candles"@
            } else if before.kind == RequestType::HistoryPoints {
                "history_points"@
            } else {
                "history_ohlc"@
            }
            &&& context@ == "asset: "@ + before.asset + ", period: "@ + crate::wire::digits(
                before.period as nat,
            )
        },
{
}

/// Whether candles of an asset are those of some ticks: every candle sums up the ticks of its span,
/// and where all prices are decimals every tick lies in the span of a candle.
#[verifier::opaque]
pub open spec fn are_candles_of_ticks(
    candles: Seq<CandleView>,
    asset: Seq<char>,
    ticks: Seq<Tick>,
    period: int,
) -> bool {
    &&& forall|i: int|
        0 <= i < candles.len() ==> sums_up_span_towards_epoch(
            #[trigger] candles[i],
            asset,
            ticks,
            period,
        )
    &&& (forall|n: int| 0 <= n < ticks.len() ==> (#[trigger] ticks[n]).price is Exact)
        ==> forall|n: int|
        #![trigger ticks[n]]
        0 <= n < ticks.len() ==> exists|i: int|
            #![trigger candles[i]]
            0 <= i < candles.len() && in_span_towards_epoch(
                candles[i].timestamp as int,
                ticks[n].time as int,
                period,
            )
}

proof fn lemma_candles_of_ticks(ticks: Seq<Tick>, period: int, asset: Seq<char>)
    requires
        period > 0,
    ensures
        are_candles_of_ticks(held(tick_candles(ticks, period), asset), asset, ticks, period),
{
    reveal(are_candles_of_ticks);
    let candles = held(tick_candles(ticks, period), asset);
    law_held_tick_candles_sum_up(ticks, period, asset);
    if forall|n: int| 0 <= n < ticks.len() ==> (#[trigger] ticks[n]).price is Exact {
        assert forall|n: int| #![trigger ticks[n]] 0 <= n < ticks.len() implies exists|i: int|
            #![trigger candles[i]]
            0 <= i < candles.len() && in_span_towards_epoch(
                candles[i].timestamp as int,
                ticks[n].time as int,
                period,
            ) by {
            law_every_tick_is_held(ticks, period, asset, n);
        }
    }
}

/// A request for candles that a history answers by its entries: the candles are those of the
/// entries, each at the integer part of its time.
pub proof fn law_entries_become_candles(
    pending: PendingView,
    h: HistoryResponse,
    entries: Vec<HistoryItem>,
)
    requires
        pending.kind == RequestType::Candles,
        h.asset@ == pending.asset,
        h.period == pending.period,
        h.candles matches Some(v) ==> v@.len() == 0,
        h.history == Some(entries),
    ensures
        response_step(Some(pending), ServerResponse::History(h)).1 matches Some(
            CommandResponseView::Candles(id, candles),
        ) && {
            &&& id == pending.req_id
            &&& pending.period == 0 ==> candles.len() == 0
            &&& pending.period > 0 ==> are_candles_of_ticks(
                candles,
                pending.asset,
                item_ticks(entries@),
                pending.period as int,
            )
        },
{
    if pending.period > 0 {
        lemma_candles_of_ticks(item_ticks(entries@), pending.period as int, pending.asset);
    }
}

/// Whether candles of an asset are the closed candles of some points: every candle sums up the
/// points of its span and is over, since there is a point a period later; and where all prices are
/// decimals every point with another one a period later lies in the span of a candle.
#[verifier::opaque]
pub open spec fn are_closed_candles(
    candles: Seq<CandleView>,
    asset: Seq<char>,
    points: Seq<Tick>,
    period: int,
) -> bool {
    &&& forall|i: int|
        0 <= i < candles.len() ==> sums_up_span(#[trigger] candles[i], asset, points, period)
    &&& forall|i: int|
        #![trigger candles[i]]
        0 <= i < candles.len() ==> exists|n: int|
            0 <= n < points.len() && (#[trigger] points[n]).time >= candles[i].timestamp + period
    &&& (forall|n: int| 0 <= n < points.len() ==> (#[trigger] points[n]).price is Exact)
        ==> forall|n: int, m: int|
        #![trigger points[n], points[m]]
        0 <= n < points.len() && 0 <= m < points.len() && points[m].time >= points[n].time + period
            ==> exists|i: int|
            #![trigger candles[i]]
            0 <= i < candles.len() && candles[i].timestamp <= points[n].time < candles[i].timestamp
                + period
}

proof fn lemma_closed(points: Seq<Tick>, period: int, asset: Seq<char>)
    requires
        period > 0,
        spans_held(points, period),
    ensures
        are_closed_candles(
            held(all_but_last(point_candles(points, period)), asset),
            asset,
            points,
            period,
        ),
{
    reveal(are_closed_candles);
    let candles = held(all_but_last(point_candles(points, period)), asset);
    law_held_point_candles_sum_up(points, period, asset);
    assert forall|i: int| #![trigger candles[i]] 0 <= i < candles.len() implies exists|n: int|
        0 <= n < points.len() && (#[trigger] points[n]).time >= candles[i].timestamp + period by {
        law_held_closed_candles_are_over(points, period, asset, i);
    }
    if forall|n: int| 0 <= n < points.len() ==> (#[trigger] points[n]).price is Exact {
        assert forall|n: int, m: int|
            #![trigger points[n], points[m]]
            0 <= n < points.len() && 0 <= m < points.len() && points[m].time >= points[n].time
                + period implies exists|i: int|
            #![trigger candles[i]]
            0 <= i < candles.len() && candles[i].timestamp <= points[n].time < candles[i].timestamp
                + period by {
            law_points_of_the_past_are_held(points, period, asset, n, m);
        }
    }
}

/// A request for closed candles is answered by the closed candles of the merged points, each at the
/// floor of its time.
pub proof fn law_closed_candles_are_answered(
    pending: PendingView,
    h: HistoryResponse,
    entries: Vec<HistoryItem>,
    list: Vec<CandleItem>,
)
    requires
        pending.kind == RequestType::HistoryOhlc,
        h.asset@ == pending.asset,
        h.period == pending.period,
        h.history == Some(entries),
        h.candles == Some(list),
        spans_held(
            floored_points(merged_points(pending.period, entries@, list@)),
            pending.period as int,
        ),
    ensures
        response_step(Some(pending), ServerResponse::History(h)).1 matches Some(
            CommandResponseView::HistoryOhlc(id, candles),
        ) && {
            &&& id == pending.req_id
            &&& pending.period == 0 ==> candles.len() == 0
            &&& pending.period > 0 ==> are_closed_candles(
                candles,
                pending.asset,
                floored_points(merged_points(pending.period, entries@, list@)),
                pending.period as int,
            )
        },
{
    if pending.period > 0 {
        lemma_closed(
            floored_points(merged_points(pending.period, entries@, list@)),
            pending.period as int,
            pending.asset,
        );
    }
}

/// A stream of candles begins with the closed candles of its history, in order: they are what a
/// request for closed candles of the same history is answered with.
pub proof fn law_streams_begin_with_closed_candles(
    history: ChartHistory,
    pending: PendingView,
    h: HistoryResponse,
)
    requires
        pending.kind == RequestType::HistoryOhlc,
        h.asset@ == pending.asset,
        h.period == pending.period,
        history.asset@ == pending.asset,
        history.period == pending.period,
        history.history == h.history,
        history.candles == h.candles,
    ensures
        ({
            let events = history_events(HistoryStreamMode::Ohlc, history);
            &&& response_step(Some(pending), ServerResponse::History(h)).1 matches Some(
                CommandResponseView::HistoryOhlc(_, candles),
            ) && events.len() == candles.len() && forall|i: int|
                #![trigger events[i]]
                0 <= i < events.len() ==> events[i] == StreamEventView::Candle(candles[i])
        }),
{
}

/// A stream of points begins with what a request for chart points of the same history is answered
/// with, whether the history has entries and candles or not.
pub proof fn law_streams_begin_with_chart_points(
    history: ChartHistory,
    pending: PendingView,
    h: HistoryResponse,
)
    requires
        pending.kind == RequestType::HistoryPoints,
        h.asset@ == pending.asset,
        h.period == pending.period,
        history.asset@ == pending.asset,
        history.period == pending.period,
        history.history == h.history,
        history.candles == h.candles,
    ensures
        ({
            let events = history_events(HistoryStreamMode::Points, history);
            &&& response_step(Some(pending), ServerResponse::History(h)).1 matches Some(
                CommandResponseView::HistoryPoints(_, points),
            ) && events.len() == points.len() && forall|i: int|
                #![trigger events[i]]
                0 <= i < events.len() ==> events[i] == StreamEventView::Point(points[i])
        }),
{
}

/// What a text carries is what its event carries: the name is the first item of its array, the
/// payload the second, and a payload with the mark of a placeholder announces a binary message.
pub proof fn law_frames_carry_events(text: Seq<char>)
    ensures
        framed_array(text) matches Some(items) ==> {
            &&& items.len() >= 2 ==> history_frame(text) == frame_of_event(
                json_text(items[0]),
                json_has_key(items[1], "_placeholder"@),
                items[1],
            )
            &&& items.len() < 2 ==> history_frame(text) is Nothing
        },
        framed_array(text) is None ==> history_frame(text) is Nothing,
{
}

/// A text carries the report on an order exactly if it is an array that begins with the name of
/// such a report, and the report is what stands behind the name.
pub proof fn law_reports_stand_behind_names(text: Seq<char>, report: Seq<char>)
    ensures
        trade_payload(text) == Some(report) <==> (framed_array(text) matches Some(items)
            && items.len() >= 2 && items[1] == report && (json_text(items[0]) == Some(
            "successopenOrder"@,
        ) || json_text(items[0]) == Some("failopenOrder"@))),
{
}

/// A raw candle cannot be held because of the first of its prices that is no decimal, in the order
/// of open, high, low and close.
pub proof fn law_why_candles_are_not_held(c: BaseCandle, symbol: Seq<char>)
    ensures
        candle_of(c, symbol) is Err <==> !(c.open is Exact && c.high is Exact && c.low is Exact
            && c.close is Exact),
        candle_of(c, symbol) matches Err(e) ==> e == if !(c.open is Exact) {
            "Couldn't parse open"@
        } else if !(c.high is Exact) {
            "Couldn't parse high"@
        } else if !(c.low is Exact) {
            "Couldn't parse low"@
        } else {
            "Couldn't parse close"@
        },
{
}

} // verus!
