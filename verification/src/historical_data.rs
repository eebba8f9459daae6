//! Historical prices and candles: one request at a time is matched with what the exchange sends.

use crate::candle::all_but_last;
use crate::candle::candle_of;
use crate::candle::candles_view;
use crate::candle::compile_candles_from_ticks;
use crate::candle::floored;
use crate::candle::floored_points;
use crate::candle::held;
use crate::candle::item_ticks;
use crate::candle::items;
use crate::candle::merge_history_ohlc;
use crate::candle::merge_history_points;
use crate::candle::merged_points;
use crate::candle::point_candles;
use crate::candle::spans_fit;
use crate::candle::spans_held;
use crate::candle::tick_candles;
use crate::candle::BaseCandle;
use crate::candle::Candle;
use crate::candle::CandleItem;
use crate::candle::CandleView;
use crate::candle::HistoryItem;
use crate::candle::HistoryPoint;
use crate::candle::Point;
use crate::candle::Tick;
use crate::clock::Duration;
use crate::error::PocketError;
use crate::error::PocketResult;
use crate::json::framed_array;
use crate::json::json_has_key;
use crate::json::json_text;
use crate::json::message_readings;
use crate::json::object_has_key;
use crate::json::read_framed_array;
use crate::json::read_text;
use crate::json::readings_of;
use crate::message::Message;
use crate::message::MessageView;
use crate::number::integer;
use crate::number::truncate_i64;
use crate::number::Number;
use crate::text::begins_with;
use crate::text::same_text;
use crate::text::starts_with;
use crate::text::text_view;
use crate::text::texts;
use crate::wire::asset_context;
use crate::wire::asset_context_text;
use crate::wire::change_symbol;
use crate::wire::change_symbol_text;
use crate::wire::new_uuid;
use vstd::prelude::*;
use vstd::string::StringExecFns;

verus! {

/// How long an answer is waited for, in seconds.
pub const HISTORICAL_DATA_TIMEOUT: u64 = 30;

/// How many answers to other requests are passed over.
pub const MAX_MISMATCH_RETRIES: usize = 5;

/// What can be asked for.
#[derive(Debug, Clone, Copy, PartialEq, Eq, Structural)]
pub enum RequestType {
    Ticks,
    Candles,
    HistoryPoints,
    HistoryOhlc,
}

/// A request to the module.
#[derive(Debug)]
pub enum Command {
    GetTicks { asset: String, period: u32, req_id: u128 },
    GetCandles { asset: String, period: u32, req_id: u128 },
    GetHistoryPoints { asset: String, period: u32, req_id: u128 },
    GetHistoryOhlc { asset: String, period: u32, req_id: u128 },
}

/// The module's answer to a request.
#[derive(Debug)]
pub enum CommandResponse {
    Ticks { req_id: u128, ticks: Vec<(i64, Number)> },
    Candles { req_id: u128, candles: Vec<Candle> },
    HistoryPoints { req_id: u128, points: Vec<HistoryPoint> },
    HistoryOhlc { req_id: u128, candles: Vec<Candle> },
    Error(String),
}

/// What the exchange sends of an asset's past.
#[derive(Debug)]
pub struct HistoryResponse {
    pub asset: String,
    pub period: u32,
    pub history: Option<Vec<HistoryItem>>,
    pub candles: Option<Vec<CandleItem>>,
    /// Separate lists of opens, highs, lows, closes, times and volumes.
    pub o: Option<Vec<Number>>,
    pub h: Option<Vec<Number>>,
    pub l: Option<Vec<Number>>,
    pub c: Option<Vec<Number>>,
    pub timestamps: Option<Vec<Number>>,
    pub v: Option<Vec<Number>>,
}

/// A message of the exchange.
#[derive(Debug)]
pub enum ServerResponse {
    Success(Vec<Candle>),
    History(HistoryResponse),
    Fail(String),
}

/// A request that is not answered yet.
pub struct PendingView {
    pub req_id: u128,
    pub asset: Seq<char>,
    pub period: u32,
    pub kind: RequestType,
}

#[derive(Debug)]
struct Pending {
    req_id: u128,
    asset: String,
    period: u32,
    kind: RequestType,
}

impl Pending {
    spec fn view(&self) -> PendingView {
        PendingView {
            req_id: self.req_id,
            asset: self.asset@,
            period: self.period,
            kind: self.kind,
        }
    }
}

/// A price of an asset at a time.
pub struct HistoryPointView {
    pub asset: Seq<char>,
    pub time: Number,
    pub price: Number,
}

pub open spec fn history_points_view(points: Seq<HistoryPoint>) -> Seq<HistoryPointView> {
    points.map_values(
        |p: HistoryPoint| HistoryPointView { asset: p.asset@, time: p.time, price: p.price },
    )
}

/// The points of an asset.
pub open spec fn asset_points(asset: Seq<char>, points: Seq<Point>) -> Seq<HistoryPointView> {
    points.map_values(|p: Point| HistoryPointView { asset, time: p.time, price: p.price })
}

pub enum CommandResponseView {
    Ticks(u128, Seq<(i64, Number)>),
    Candles(u128, Seq<CandleView>),
    HistoryPoints(u128, Seq<HistoryPointView>),
    HistoryOhlc(u128, Seq<CandleView>),
    Error(Seq<char>),
}

impl View for CommandResponse {
    type V = CommandResponseView;

    open spec fn view(&self) -> CommandResponseView {
        match self {
            CommandResponse::Ticks { req_id, ticks } => CommandResponseView::Ticks(*req_id, ticks@),
            CommandResponse::Candles { req_id, candles } => CommandResponseView::Candles(
                *req_id,
                candles_view(candles@),
            ),
            CommandResponse::HistoryPoints { req_id, points } => CommandResponseView::HistoryPoints(
                *req_id,
                history_points_view(points@),
            ),
            CommandResponse::HistoryOhlc { req_id, candles } => CommandResponseView::HistoryOhlc(
                *req_id,
                candles_view(candles@),
            ),
            CommandResponse::Error(e) => CommandResponseView::Error(e@),
        }
    }
}

pub open spec fn response_view(r: Option<CommandResponse>) -> Option<CommandResponseView> {
    match r {
        Some(c) => Some(c@),
        None => None,
    }
}

/// The elements of an optional list.
pub open spec fn or_empty<T>(list: Option<Vec<T>>) -> Seq<T> {
    match list {
        Some(v) => v@,
        None => Seq::empty(),
    }
}

/// The smaller of two numbers.
pub open spec fn least(a: int, b: int) -> int {
    if a < b {
        a
    } else {
        b
    }
}

/// The close of each candle at its time.
pub open spec fn candle_ticks(candles: Seq<CandleItem>) -> Seq<(i64, Number)> {
    candles.map_values(|c: CandleItem| (truncate_i64(c.0), c.2))
}

/// The close of each pair of a time and a close.
pub open spec fn close_ticks(times: Seq<Number>, closes: Seq<Number>) -> Seq<(i64, Number)> {
    Seq::new(
        least(times.len() as int, closes.len() as int) as nat,
        |i: int| (truncate_i64(times[i]), closes[i]),
    )
}

/// The ticks that a history holds: its entries, or the closes of its candles or lists where
/// there are no entries.
pub open spec fn ticks_of(response: HistoryResponse) -> Seq<(i64, Number)> {
    let entries = item_ticks(or_empty(response.history));
    if entries.len() > 0 {
        entries.map_values(|t: Tick| (t.time, t.price))
    } else if response.candles is Some {
        candle_ticks(response.candles->0@)
    } else if response.timestamps is Some && response.c is Some {
        close_ticks(response.timestamps->0@, response.c->0@)
    } else {
        Seq::empty()
    }
}

/// The candle that one entry of a list of candles is.
pub open spec fn item_candle(item: CandleItem) -> BaseCandle {
    BaseCandle {
        timestamp: truncate_i64(item.0),
        open: item.1,
        close: item.2,
        high: item.3,
        low: item.4,
        volume: Some(item.5),
    }
}

/// How many candles the separate lists hold.
pub open spec fn lists_len(response: HistoryResponse) -> int {
    least(
        least(
            least(
                least(response.timestamps->0@.len() as int, response.o->0@.len() as int),
                response.h->0@.len() as int,
            ),
            response.l->0@.len() as int,
        ),
        response.c->0@.len() as int,
    )
}

/// The candle at one place of the separate lists.
pub open spec fn list_candle(response: HistoryResponse, i: int) -> BaseCandle {
    BaseCandle {
        timestamp: truncate_i64(response.timestamps->0@[i]),
        open: response.o->0@[i],
        close: response.c->0@[i],
        high: response.h->0@[i],
        low: response.l->0@[i],
        volume: if response.v is Some && i < response.v->0@.len() {
            Some(response.v->0@[i])
        } else {
            None
        },
    }
}

pub open spec fn has_lists(response: HistoryResponse) -> bool {
    response.timestamps is Some && response.o is Some && response.h is Some && response.l is Some
        && response.c is Some
}

/// The candles that a history holds: its candles, or else those that its entries make up, or
/// else those of its separate lists. What no decimal can hold is left out.
pub open spec fn candles_of(response: HistoryResponse) -> Seq<CandleView> {
    if or_empty(response.candles).len() > 0 {
        held(
            or_empty(response.candles).map_values(|i: CandleItem| item_candle(i)),
            response.asset@,
        )
    } else if response.history is Some {
        if response.period == 0 {
            Seq::empty()
        } else {
            held(
                tick_candles(item_ticks(response.history->0@), response.period as int),
                response.asset@,
            )
        }
    } else if has_lists(response) {
        held(
            Seq::new(lists_len(response) as nat, |i: int| list_candle(response, i)),
            response.asset@,
        )
    } else {
        Seq::empty()
    }
}

/// The chart points of a history.
pub open spec fn response_points(response: HistoryResponse) -> Seq<Point> {
    merged_points(response.period, or_empty(response.history), or_empty(response.candles))
}

/// What a history answers to a request of a kind.
pub open spec fn history_answer(req_id: u128, kind: RequestType, response: HistoryResponse) -> CommandResponseView {
    match kind {
        RequestType::Ticks => CommandResponseView::Ticks(req_id, ticks_of(response)),
        RequestType::Candles => CommandResponseView::Candles(req_id, candles_of(response)),
        RequestType::HistoryPoints => CommandResponseView::HistoryPoints(
            req_id,
            asset_points(response.asset@, response_points(response)),
        ),
        RequestType::HistoryOhlc => CommandResponseView::HistoryOhlc(
            req_id,
            if response.period == 0 {
                Seq::empty()
            } else {
                held(
                    all_but_last(
                        point_candles(
                            floored_points(response_points(response)),
                            response.period as int,
                        ),
                    ),
                    response.asset@,
                )
            },
        ),
    }
}

/// What finished candles answer to a request of a kind.
pub open spec fn candles_answer(
    req_id: u128,
    asset: Seq<char>,
    kind: RequestType,
    candles: Seq<CandleView>,
) -> CommandResponseView {
    match kind {
        RequestType::Ticks => CommandResponseView::Ticks(
            req_id,
            candles.map_values(|c: CandleView| (c.timestamp, Number::Exact(c.close))),
        ),
        RequestType::Candles => CommandResponseView::Candles(req_id, candles),
        RequestType::HistoryPoints => CommandResponseView::HistoryPoints(
            req_id,
            candles.map_values(
                |c: CandleView|
                    HistoryPointView {
                        asset,
                        time: integer(c.timestamp as int),
                        price: Number::Exact(c.close),
                    },
            ),
        ),
        RequestType::HistoryOhlc => CommandResponseView::HistoryOhlc(req_id, candles),
    }
}

/// What becomes of the pending request when the exchange sends something, and what is answered.
/// A history of another asset or period is passed over; without a request nothing is answered,
/// except an error.
pub open spec fn response_step(pending: Option<PendingView>, response: ServerResponse) -> (
    Option<PendingView>,
    Option<CommandResponseView>,
) {
    match response {
        ServerResponse::Success(candles) => match pending {
            Some(p) => (
                None,
                Some(candles_answer(p.req_id, p.asset, p.kind, candles_view(candles@))),
            ),
            None => (None, None),
        },
        ServerResponse::History(history) => match pending {
            Some(p) => if history.asset@ == p.asset && history.period == p.period {
                (None, Some(history_answer(p.req_id, p.kind, history)))
            } else {
                (pending, None)
            },
            None => (None, None),
        },
        ServerResponse::Fail(e) => (None, Some(CommandResponseView::Error(e@))),
    }
}

/// Whether the answer can be computed: the spans of its points can be held.
pub open spec fn response_defined(pending: Option<PendingView>, response: ServerResponse) -> bool {
    match (pending, response) {
        (Some(p), ServerResponse::History(history)) => p.kind == RequestType::HistoryOhlc
            && history.asset@ == p.asset && history.period == p.period && history.period > 0
            ==> spans_held(floored_points(response_points(history)), history.period as int),
        _ => true,
    }
}

/// What a text that is no response by itself carries.
#[derive(Debug)]
pub enum HistoryFrame {
    /// The response follows in a binary message.
    Placeholder,
    /// A response, as JSON text.
    Payload(String),
    Nothing,
}

pub enum HistoryFrameView {
    Placeholder,
    Payload(Seq<char>),
    Nothing,
}

impl View for HistoryFrame {
    type V = HistoryFrameView;

    open spec fn view(&self) -> HistoryFrameView {
        match self {
            HistoryFrame::Placeholder => HistoryFrameView::Placeholder,
            HistoryFrame::Payload(t) => HistoryFrameView::Payload(t@),
            HistoryFrame::Nothing => HistoryFrameView::Nothing,
        }
    }
}

/// What an event carries: its payload, if its name begins with `updateHistory`.
pub open spec fn frame_of_event(
    event: Option<Seq<char>>,
    placeholder: bool,
    payload: Seq<char>,
) -> HistoryFrameView {
    if event is Some && begins_with(event->0, "updateHistory"@) {
        if placeholder {
            HistoryFrameView::Placeholder
        } else {
            HistoryFrameView::Payload(payload)
        }
    } else {
        HistoryFrameView::Nothing
    }
}

/// A text carries what the event in it does.
pub open spec fn history_frame(text: Seq<char>) -> HistoryFrameView {
    match framed_array(text) {
        Some(items) => if items.len() >= 2 {
            frame_of_event(
                json_text(items[0]),
                json_has_key(items[1], "_placeholder"@),
                items[1],
            )
        } else {
            HistoryFrameView::Nothing
        },
        None => HistoryFrameView::Nothing,
    }
}

/// What an event carries, of which the name, the payload, and whether the payload is a
/// placeholder, are read.
pub fn event_frame(event: Option<String>, placeholder: bool, payload: &str) -> (r: HistoryFrame)
    ensures
        r@ == frame_of_event(text_view(event), placeholder, payload@),
{
    match event {
        Some(name) => if starts_with(name.as_str(), "updateHistory") {
            if placeholder {
                HistoryFrame::Placeholder
            } else {
                HistoryFrame::Payload(payload.to_owned())
            }
        } else {
            HistoryFrame::Nothing
        },
        None => HistoryFrame::Nothing,
    }
}

/// Reads what a text that is no response by itself carries.
pub fn read_history_frame(text: &str) -> (r: HistoryFrame)
    ensures
        r@ == history_frame(text@),
{
    match read_framed_array(text) {
        Some(items) => {
            if items.len() < 2 {
                return HistoryFrame::Nothing;
            }
            assert(texts(items@)[0] == items@[0]@);
            assert(texts(items@)[1] == items@[1]@);
            event_frame(
                read_text(items[0].as_str()),
                object_has_key(items[1].as_str(), "_placeholder"),
                items[1].as_str(),
            )
        },
        None => HistoryFrame::Nothing,
    }
}

fn history_slice<T>(list: &Option<Vec<T>>) -> (r: Option<&[T]>)
    ensures
        items(r) == or_empty(*list),
        r is Some <==> list is Some,
{
    match list {
        Some(v) => Some(v.as_slice()),
        None => None,
    }
}

fn points_answer(asset: &str, response: &HistoryResponse) -> (r: Vec<HistoryPoint>)
    ensures
        history_points_view(r@) == asset_points(asset@, response_points(*response)),
{
    let points = merge_history_points(
        asset,
        response.period,
        history_slice(&response.history),
        history_slice(&response.candles),
    );
    assert(history_points_view(points@) =~= asset_points(asset@, response_points(*response)));
    points
}

fn ticks_answer(response: &HistoryResponse) -> (r: Vec<(i64, Number)>)
    ensures
        r@ == ticks_of(*response),
{
    let mut ticks: Vec<(i64, Number)> = Vec::new();
    if let Some(history) = &response.history {
        let ghost entries = item_ticks(history@).map_values(|t: Tick| (t.time, t.price));
        let mut i: usize = 0;
        while i < history.len()
            invariant
                i <= history@.len(),
                entries == item_ticks(history@).map_values(|t: Tick| (t.time, t.price)),
                ticks@ =~= entries.take(i as int),
            decreases history@.len() - i,
        {
            ticks.push(history[i].to_tick());
            assert(entries[i as int] == (history@[i as int].tick().time, history@[i as int].tick().price));
            i += 1;
        }
        assert(entries.take(i as int) =~= entries);
    }
    if ticks.len() > 0 {
        return ticks;
    }
    if let Some(candles) = &response.candles {
        let mut i: usize = 0;
        while i < candles.len()
            invariant
                i <= candles@.len(),
                ticks@ =~= candle_ticks(candles@).take(i as int),
            decreases candles@.len() - i,
        {
            ticks.push((candles[i].0.truncate_to_i64(), candles[i].2));
            i += 1;
        }
        assert(candle_ticks(candles@).take(i as int) =~= candle_ticks(candles@));
    } else if let (Some(timestamps), Some(c)) = (&response.timestamps, &response.c) {
        let mut i: usize = 0;
        while i < timestamps.len() && i < c.len()
            invariant
                i <= timestamps@.len(),
                i <= c@.len(),
                ticks@ =~= close_ticks(timestamps@, c@).take(i as int),
            decreases timestamps@.len() - i,
        {
            ticks.push((timestamps[i].truncate_to_i64(), c[i]));
            i += 1;
        }
        assert(close_ticks(timestamps@, c@).take(i as int) =~= close_ticks(timestamps@, c@));
    }
    ticks
}

fn push_held(candles: &mut Vec<Candle>, base: BaseCandle, symbol: &str)
    ensures
        candles_view(final(candles)@) == match candle_of(base, symbol@) {
            Ok(c) => candles_view(old(candles)@).push(c),
            Err(_) => candles_view(old(candles)@),
        },
{
    let ghost before = candles@;
    match Candle::try_from((base, symbol.to_owned())) {
        Ok(c) => {
            candles.push(c);
            assert(candles_view(candles@) =~= candles_view(before).push(c@));
        },
        Err(_) => {},
    }
}

fn item_candles(list: &Vec<CandleItem>, symbol: &str) -> (r: Vec<Candle>)
    ensures
        candles_view(r@) == held(list@.map_values(|i: CandleItem| item_candle(i)), symbol@),
{
    let ghost raw = list@.map_values(|i: CandleItem| item_candle(i));
    let mut candles: Vec<Candle> = Vec::new();
    let mut i: usize = 0;
    assert(candles_view(candles@) =~= held(raw.take(0), symbol@));
    while i < list.len()
        invariant
            i <= list@.len(),
            raw == list@.map_values(|i: CandleItem| item_candle(i)),
            candles_view(candles@) == held(raw.take(i as int), symbol@),
        decreases list@.len() - i,
    {
        let item = list[i];
        let base = BaseCandle {
            timestamp: item.0.truncate_to_i64(),
            open: item.1,
            close: item.2,
            high: item.3,
            low: item.4,
            volume: Some(item.5),
        };
        assert(raw.take(i + 1).drop_last() =~= raw.take(i as int));
        assert(raw.take(i + 1).last() == base);
        push_held(&mut candles, base, symbol);
        i += 1;
    }
    assert(raw.take(i as int) =~= raw);
    candles
}

fn list_candles(response: &HistoryResponse, symbol: &str) -> (r: Vec<Candle>)
    requires
        has_lists(*response),
    ensures
        candles_view(r@) == held(
            Seq::new(lists_len(*response) as nat, |i: int| list_candle(*response, i)),
            symbol@,
        ),
{
    let ghost raw = Seq::new(lists_len(*response) as nat, |i: int| list_candle(*response, i));
    let mut candles: Vec<Candle> = Vec::new();
    assert(candles_view(candles@) =~= held(raw.take(0), symbol@));
    if let (Some(timestamps), Some(o), Some(h), Some(l), Some(c)) = (
        &response.timestamps,
        &response.o,
        &response.h,
        &response.l,
        &response.c,
    ) {
        let mut i: usize = 0;
        while i < timestamps.len() && i < o.len() && i < h.len() && i < l.len() && i < c.len()
            invariant
                has_lists(*response),
                timestamps@ == response.timestamps->0@,
                o@ == response.o->0@,
                h@ == response.h->0@,
                l@ == response.l->0@,
                c@ == response.c->0@,
                i <= lists_len(*response) == raw.len(),
                raw == Seq::new(
                    lists_len(*response) as nat,
                    |i: int| list_candle(*response, i),
                ),
                candles_view(candles@) == held(raw.take(i as int), symbol@),
            decreases timestamps@.len() - i,
        {
            let volume = match &response.v {
                Some(v) => if i < v.len() {
                    Some(v[i])
                } else {
                    None
                },
                None => None,
            };
            let base = BaseCandle {
                timestamp: timestamps[i].truncate_to_i64(),
                open: o[i],
                close: c[i],
                high: h[i],
                low: l[i],
                volume,
            };
            assert(raw.take(i + 1).drop_last() =~= raw.take(i as int));
            assert(raw.take(i + 1).last() == base);
            push_held(&mut candles, base, symbol);
            i += 1;
        }
        assert(raw.take(i as int) =~= raw);
    }
    candles
}

fn response_candles(response: &HistoryResponse) -> (r: Vec<Candle>)
    ensures
        candles_view(r@) == candles_of(*response),
{
    let symbol = response.asset.as_str();
    if let Some(list) = &response.candles {
        if list.len() > 0 {
            return item_candles(list, symbol);
        }
    }
    match &response.history {
        Some(history) => {
            let r = compile_candles_from_ticks(history.as_slice(), response.period, symbol);
            assert(response.period == 0 ==> candles_view(r@) =~= Seq::<CandleView>::empty());
            r
        },
        None => {
            if response.timestamps.is_some() && response.o.is_some() && response.h.is_some()
                && response.l.is_some() && response.c.is_some() {
                list_candles(response, symbol)
            } else {
                let r: Vec<Candle> = Vec::new();
                assert(candles_view(r@) =~= Seq::<CandleView>::empty());
                r
            }
        },
    }
}

fn ticks_from_candles(candles: &Vec<Candle>) -> (r: Vec<(i64, Number)>)
    ensures
        r@ == candles_view(candles@).map_values(
            |c: CandleView| (c.timestamp, Number::Exact(c.close)),
        ),
{
    let ghost all = candles_view(candles@).map_values(
        |c: CandleView| (c.timestamp, Number::Exact(c.close)),
    );
    let mut ticks: Vec<(i64, Number)> = Vec::new();
    let mut i: usize = 0;
    while i < candles.len()
        invariant
            i <= candles@.len(),
            all == candles_view(candles@).map_values(
                |c: CandleView| (c.timestamp, Number::Exact(c.close)),
            ),
            ticks@ =~= all.take(i as int),
        decreases candles@.len() - i,
    {
        ticks.push((candles[i].timestamp, Number::Exact(candles[i].close)));
        i += 1;
    }
    assert(all.take(i as int) =~= all);
    ticks
}

fn points_from_candles(asset: &str, candles: &Vec<Candle>) -> (r: Vec<HistoryPoint>)
    ensures
        history_points_view(r@) == candles_view(candles@).map_values(
            |c: CandleView|
                HistoryPointView {
                    asset: asset@,
                    time: integer(c.timestamp as int),
                    price: Number::Exact(c.close),
                },
        ),
{
    let ghost all = candles_view(candles@).map_values(
        |c: CandleView|
            HistoryPointView {
                asset: asset@,
                time: integer(c.timestamp as int),
                price: Number::Exact(c.close),
            },
    );
    let mut points: Vec<HistoryPoint> = Vec::new();
    let mut i: usize = 0;
    while i < candles.len()
        invariant
            i <= candles@.len(),
            all == candles_view(candles@).map_values(
                |c: CandleView|
                    HistoryPointView {
                        asset: asset@,
                        time: integer(c.timestamp as int),
                        price: Number::Exact(c.close),
                    },
            ),
            history_points_view(points@) =~= all.take(i as int),
        decreases candles@.len() - i,
    {
        let ghost before = points@;
        points.push(
            HistoryPoint {
                asset: asset.to_owned(),
                time: Number::from_integer(candles[i].timestamp),
                price: Number::Exact(candles[i].close),
            },
        );
        assert(history_points_view(points@).drop_last() =~= history_points_view(before));
        assert(history_points_view(points@).last() == all[i as int]);
        i += 1;
    }
    assert(all.take(i as int) =~= all);
    points
}

/// Matches requests for historical data with what the exchange sends. The exchange does not say
/// which request it answers, so that only one is open at a time: a new one takes the place of
/// the one before.
pub struct HistoricalDataApiModule {
    pending_request: Option<Pending>,
}

impl HistoricalDataApiModule {
    /// The request that is open.
    pub closed spec fn pending(&self) -> Option<PendingView> {
        match self.pending_request {
            Some(p) => Some(p.view()),
            None => None,
        }
    }

    pub fn new() -> (r: HistoricalDataApiModule)
        ensures
            r.pending() is None,
    {
        HistoricalDataApiModule { pending_request: None }
    }

    /// The JSON texts that may be a response, in the order in which they are tried.
    pub fn readings(msg: &Message) -> (r: Vec<String>)
        ensures
            texts(r@) == readings_of(
                msg@,
                match msg@ {
                    MessageView::Text(text) => match history_frame(text) {
                        HistoryFrameView::Payload(p) => Some(p),
                        _ => None,
                    },
                    _ => None,
                },
            ),
    {
        let payload = match msg {
            Message::Text(text) => match read_history_frame(text.as_str()) {
                HistoryFrame::Payload(p) => Some(p),
                _ => None,
            },
            _ => None,
        };
        message_readings(msg, payload)
    }

    /// Takes a request and gives the message that is sent for it.
    pub fn request(&mut self, cmd: Command) -> (r: String)
        ensures
            final(self).pending() == Some(requested(cmd)),
            r@ == change_symbol_text(requested(cmd).asset, requested(cmd).period),
    {
        let pending = match cmd {
            Command::GetTicks { asset, period, req_id } => Pending {
                req_id,
                asset,
                period,
                kind: RequestType::Ticks,
            },
            Command::GetCandles { asset, period, req_id } => Pending {
                req_id,
                asset,
                period,
                kind: RequestType::Candles,
            },
            Command::GetHistoryPoints { asset, period, req_id } => Pending {
                req_id,
                asset,
                period,
                kind: RequestType::HistoryPoints,
            },
            Command::GetHistoryOhlc { asset, period, req_id } => Pending {
                req_id,
                asset,
                period,
                kind: RequestType::HistoryOhlc,
            },
        };
        let msg = change_symbol(pending.asset.as_str(), pending.period);
        self.pending_request = Some(pending);
        msg
    }

    /// Takes a response of the exchange and gives the answer to the open request, if it is one.
    pub fn receive(&mut self, response: ServerResponse) -> (r: Option<CommandResponse>)
        requires
            response_defined(old(self).pending(), response),
        ensures
            (final(self).pending(), response_view(r)) == response_step(
                old(self).pending(),
                response,
            ),
    {
        match response {
            ServerResponse::Success(candles) => match self.pending_request.take() {
                Some(p) => {
                    let req_id = p.req_id;
                    Some(
                        match p.kind {
                            RequestType::Candles => CommandResponse::Candles { req_id, candles },
                            RequestType::Ticks => CommandResponse::Ticks {
                                req_id,
                                ticks: ticks_from_candles(&candles),
                            },
                            RequestType::HistoryPoints => CommandResponse::HistoryPoints {
                                req_id,
                                points: points_from_candles(p.asset.as_str(), &candles),
                            },
                            RequestType::HistoryOhlc => CommandResponse::HistoryOhlc {
                                req_id,
                                candles,
                            },
                        },
                    )
                },
                None => None,
            },
            ServerResponse::History(history) => {
                let matching = match &self.pending_request {
                    Some(p) => same_text(history.asset.as_str(), p.asset.as_str())
                        && history.period == p.period,
                    None => false,
                };
                if !matching {
                    return None;
                }
                match self.pending_request.take() {
                    Some(p) => {
                        let req_id = p.req_id;
                        Some(
                            match p.kind {
                                RequestType::HistoryPoints => CommandResponse::HistoryPoints {
                                    req_id,
                                    points: points_answer(history.asset.as_str(), &history),
                                },
                                RequestType::HistoryOhlc => {
                                    let candles = merge_history_ohlc(
                                        history.asset.as_str(),
                                        history.period,
                                        history_slice(&history.history),
                                        history_slice(&history.candles),
                                    );
                                    assert(history.period == 0 ==> candles_view(candles@)
                                        =~= Seq::<CandleView>::empty());
                                    CommandResponse::HistoryOhlc { req_id, candles }
                                },
                                RequestType::Ticks => CommandResponse::Ticks {
                                    req_id,
                                    ticks: ticks_answer(&history),
                                },
                                RequestType::Candles => CommandResponse::Candles {
                                    req_id,
                                    candles: response_candles(&history),
                                },
                            },
                        )
                    },
                    None => None,
                }
            },
            ServerResponse::Fail(e) => {
                self.pending_request = None;
                Some(CommandResponse::Error(e))
            },
        }
    }
}

/// The request that a command makes.
pub open spec fn requested(cmd: Command) -> PendingView {
    match cmd {
        Command::GetTicks { asset, period, req_id } => PendingView {
            req_id,
            asset: asset@,
            period,
            kind: RequestType::Ticks,
        },
        Command::GetCandles { asset, period, req_id } => PendingView {
            req_id,
            asset: asset@,
            period,
            kind: RequestType::Candles,
        },
        Command::GetHistoryPoints { asset, period, req_id } => PendingView {
            req_id,
            asset: asset@,
            period,
            kind: RequestType::HistoryPoints,
        },
        Command::GetHistoryOhlc { asset, period, req_id } => PendingView {
            req_id,
            asset: asset@,
            period,
            kind: RequestType::HistoryOhlc,
        },
    }
}

impl HistoricalDataApiModule {
    /// Whether the answer to a response can be computed.
    pub fn can_receive(&self, response: &ServerResponse) -> (r: bool)
        ensures
            r == response_defined(self.pending(), *response),
    {
        match (&self.pending_request, response) {
            (Some(p), ServerResponse::History(history)) => {
                if p.kind == RequestType::HistoryOhlc && same_text(
                    history.asset.as_str(),
                    p.asset.as_str(),
                ) && history.period == p.period && history.period > 0 {
                    let points = merge_history_points(
                        history.asset.as_str(),
                        history.period,
                        history_slice(&history.history),
                        history_slice(&history.candles),
                    );
                    assert(floored(points@) =~= floored_points(response_points(*history)));
                    spans_fit(points.as_slice(), history.period)
                } else {
                    true
                }
            },
            _ => true,
        }
    }
}

/// A call for historical data that waits for its answer.
pub struct HistoryCall {
    kind: RequestType,
    id: u128,
    asset: String,
    period: u32,
    mismatches: usize,
}

/// What a waiting call hears.
pub enum CallEvent {
    Response(CommandResponse),
    /// Nothing came in time.
    TimedOut,
}

/// What a waiting call does next.
pub enum CallStep {
    /// It waits on.
    Wait,
    Finish(PocketResult<CommandResponse>),
}

pub struct CallView {
    pub kind: RequestType,
    pub id: u128,
    pub asset: Seq<char>,
    pub period: u32,
    pub mismatches: int,
}

/// The name of a kind of request in errors.
pub open spec fn task_name(kind: RequestType) -> Seq<char> {
    match kind {
        RequestType::Ticks => "ticks"@,
        RequestType::Candles => "candles"@,
        RequestType::HistoryPoints => "history_points"@,
        RequestType::HistoryOhlc => "history_ohlc"@,
    }
}

/// The kind of request that a response answers, and which request.
pub open spec fn answered(response: CommandResponse) -> Option<(RequestType, u128)> {
    match response {
        CommandResponse::Ticks { req_id, .. } => Some((RequestType::Ticks, req_id)),
        CommandResponse::Candles { req_id, .. } => Some((RequestType::Candles, req_id)),
        CommandResponse::HistoryPoints { req_id, .. } => Some((RequestType::HistoryPoints, req_id)),
        CommandResponse::HistoryOhlc { req_id, .. } => Some((RequestType::HistoryOhlc, req_id)),
        CommandResponse::Error(_) => None,
    }
}

/// Whether an error says that a call for an asset and a period was given up.
pub open spec fn is_timeout(e: PocketError, kind: RequestType, context: Seq<char>) -> bool {
    e matches PocketError::Timeout { task, context: c, duration } && task@ == task_name(kind) && c@
        == context && duration == (Duration { secs: HISTORICAL_DATA_TIMEOUT, nanos: 0 })
}

/// Whether a call takes the step that it should, and is then as it should be: its own answer
/// ends it, an error ends it, an answer of another kind is passed over, and so are the first
/// four answers of its kind to other calls.
pub open spec fn call_steps(
    before: CallView,
    after: CallView,
    event: CallEvent,
    step: CallStep,
) -> bool {
    match event {
        CallEvent::TimedOut => after == before && (step matches CallStep::Finish(Err(e))
            && is_timeout(e, before.kind, asset_context(before.asset, before.period))),
        CallEvent::Response(response) => match answered(response) {
            None => after == before && (step matches CallStep::Finish(
                Err(PocketError::General(e)),
            ) && response matches CommandResponse::Error(t) && e@ == t@),
            Some((kind, id)) => if kind != before.kind {
                after == before && step is Wait
            } else if id == before.id {
                after == before && step == CallStep::Finish(Ok(response))
            } else {
                &&& after == CallView { mismatches: before.mismatches + 1, ..before }
                &&& if before.mismatches + 1 >= MAX_MISMATCH_RETRIES {
                    step matches CallStep::Finish(Err(e)) && is_timeout(
                        e,
                        before.kind,
                        asset_context(before.asset, before.period) + ", exceeded mismatch retries"@,
                    )
                } else {
                    step is Wait
                }
            },
        },
    }
}

impl HistoryCall {
    pub closed spec fn view(&self) -> CallView {
        CallView {
            kind: self.kind,
            id: self.id,
            asset: self.asset@,
            period: self.period,
            mismatches: self.mismatches as int,
        }
    }

    /// The call has not been given up.
    pub open spec fn waiting(&self) -> bool {
        self.view().mismatches < MAX_MISMATCH_RETRIES
    }

    fn start(kind: RequestType, asset: String, period: u32, id: u128) -> (r: HistoryCall)
        ensures
            r.view() == (CallView { kind, id, asset: asset@, period, mismatches: 0 }),
    {
        HistoryCall { kind, id, asset, period, mismatches: 0 }
    }

    /// Asks for ticks. Gives the call and the command that is sent for it.
    pub fn ticks(asset: String, period: u32, id: u128) -> (r: (HistoryCall, Command))
        ensures
            r.0.view() == (CallView {
                kind: RequestType::Ticks,
                id,
                asset: asset@,
                period,
                mismatches: 0,
            }),
            requested(r.1) == (PendingView {
                req_id: id,
                asset: asset@,
                period,
                kind: RequestType::Ticks,
            }),
    {
        let command = Command::GetTicks { asset: asset.clone(), period, req_id: id };
        (HistoryCall::start(RequestType::Ticks, asset, period, id), command)
    }

    /// Asks for candles. Gives the call and the command that is sent for it.
    pub fn candles(asset: String, period: u32, id: u128) -> (r: (HistoryCall, Command))
        ensures
            r.0.view() == (CallView {
                kind: RequestType::Candles,
                id,
                asset: asset@,
                period,
                mismatches: 0,
            }),
            requested(r.1) == (PendingView {
                req_id: id,
                asset: asset@,
                period,
                kind: RequestType::Candles,
            }),
    {
        let command = Command::GetCandles { asset: asset.clone(), period, req_id: id };
        (HistoryCall::start(RequestType::Candles, asset, period, id), command)
    }

    /// Asks for chart points. Gives the call and the command that is sent for it.
    pub fn history_points(asset: String, period: u32, id: u128) -> (r: (HistoryCall, Command))
        ensures
            r.0.view() == (CallView {
                kind: RequestType::HistoryPoints,
                id,
                asset: asset@,
                period,
                mismatches: 0,
            }),
            requested(r.1) == (PendingView {
                req_id: id,
                asset: asset@,
                period,
                kind: RequestType::HistoryPoints,
            }),
    {
        let command = Command::GetHistoryPoints { asset: asset.clone(), period, req_id: id };
        (HistoryCall::start(RequestType::HistoryPoints, asset, period, id), command)
    }

    /// Asks for closed candles. Gives the call and the command that is sent for it.
    pub fn history_ohlc(asset: String, period: u32, id: u128) -> (r: (HistoryCall, Command))
        ensures
            r.0.view() == (CallView {
                kind: RequestType::HistoryOhlc,
                id,
                asset: asset@,
                period,
                mismatches: 0,
            }),
            requested(r.1) == (PendingView {
                req_id: id,
                asset: asset@,
                period,
                kind: RequestType::HistoryOhlc,
            }),
    {
        let command = Command::GetHistoryOhlc { asset: asset.clone(), period, req_id: id };
        (HistoryCall::start(RequestType::HistoryOhlc, asset, period, id), command)
    }

    fn task(&self) -> (r: String)
        ensures
            r@ == task_name(self.view().kind),
    {
        match self.kind {
            RequestType::Ticks => "ticks".to_owned(),
            RequestType::Candles => "candles".to_owned(),
            RequestType::HistoryPoints => "history_points".to_owned(),
            RequestType::HistoryOhlc => "history_ohlc".to_owned(),
        }
    }

    fn given_up(&self, context: String) -> (r: PocketError)
        ensures
            is_timeout(r, self.view().kind, context@),
    {
        PocketError::Timeout {
            task: self.task(),
            context,
            duration: Duration::from_secs(HISTORICAL_DATA_TIMEOUT),
        }
    }

    /// Takes what the call hears and says what it does next.
    pub fn hear(&mut self, event: CallEvent) -> (step: CallStep)
        requires
            old(self).waiting(),
        ensures
            call_steps(old(self).view(), final(self).view(), event, step),
            step is Wait ==> final(self).waiting(),
    {
        let response = match event {
            CallEvent::Response(response) => response,
            CallEvent::TimedOut => {
                let context = asset_context_text(self.asset.as_str(), self.period);
                return CallStep::Finish(Err(self.given_up(context)));
            },
        };
        let (kind, id): (RequestType, u128) = match &response {
            CommandResponse::Ticks { req_id, .. } => (RequestType::Ticks, *req_id),
            CommandResponse::Candles { req_id, .. } => (RequestType::Candles, *req_id),
            CommandResponse::HistoryPoints { req_id, .. } => (RequestType::HistoryPoints, *req_id),
            CommandResponse::HistoryOhlc { req_id, .. } => (RequestType::HistoryOhlc, *req_id),
            CommandResponse::Error(e) => {
                return CallStep::Finish(Err(PocketError::General(e.clone())));
            },
        };
        if kind != self.kind {
            return CallStep::Wait;
        }
        if id == self.id {
            return CallStep::Finish(Ok(response));
        }
        self.mismatches = self.mismatches + 1;
        if self.mismatches >= MAX_MISMATCH_RETRIES {
            let mut context = asset_context_text(self.asset.as_str(), self.period);
            context.append(", exceeded mismatch retries");
            return CallStep::Finish(Err(self.given_up(context)));
        }
        CallStep::Wait
    }
}

/// Whether a call and a command belong together: both are for the same data of an asset, under
/// the same identifier.
pub open spec fn call_started(
    started: (HistoryCall, Command),
    kind: RequestType,
    asset: Seq<char>,
    period: u32,
    id: u128,
) -> bool {
    &&& started.0.view() == (CallView { kind, id, asset, period, mismatches: 0 })
    &&& requested(started.1) == (PendingView { req_id: id, asset, period, kind })
}

/// Asks for historical data, each time under a new identifier. Gives the call that waits for
/// the answer, and the command that is sent for it.
pub struct HistoricalDataHandle;

impl HistoricalDataHandle {
    pub fn ticks(asset: String, period: u32) -> (r: (HistoryCall, Command))
        ensures
            exists|id: u128| #[trigger] call_started(r, RequestType::Ticks, asset@, period, id),
    {
        let id = new_uuid();
        let r = HistoryCall::ticks(asset, period, id);
        assert(call_started(r, RequestType::Ticks, asset@, period, id));
        r
    }

    pub fn candles(asset: String, period: u32) -> (r: (HistoryCall, Command))
        ensures
            exists|id: u128| #[trigger] call_started(r, RequestType::Candles, asset@, period, id),
    {
        let id = new_uuid();
        let r = HistoryCall::candles(asset, period, id);
        assert(call_started(r, RequestType::Candles, asset@, period, id));
        r
    }

    pub fn history_points(asset: String, period: u32) -> (r: (HistoryCall, Command))
        ensures
            exists|id: u128| #[trigger]
                call_started(r, RequestType::HistoryPoints, asset@, period, id),
    {
        let id = new_uuid();
        let r = HistoryCall::history_points(asset, period, id);
        assert(call_started(r, RequestType::HistoryPoints, asset@, period, id));
        r
    }

    pub fn history_ohlc(asset: String, period: u32) -> (r: (HistoryCall, Command))
        ensures
            exists|id: u128| #[trigger]
                call_started(r, RequestType::HistoryOhlc, asset@, period, id),
    {
        let id = new_uuid();
        let r = HistoryCall::history_ohlc(asset, period, id);
        assert(call_started(r, RequestType::HistoryOhlc, asset@, period, id));
        r
    }

    /// Asks for candles.
    pub fn get_history(asset: String, period: u32) -> (r: (HistoryCall, Command))
        ensures
            exists|id: u128| #[trigger] call_started(r, RequestType::Candles, asset@, period, id),
    {
        HistoricalDataHandle::candles(asset, period)
    }
}

/// A response that finds no request leaves everything as it is, unless it is an error.
pub proof fn law_unasked_data_is_discarded(response: ServerResponse)
    requires
        !(response is Fail),
    ensures
        response_step(None, response) == (None::<PendingView>, None::<CommandResponseView>),
{
}

/// A history of another asset or period leaves the request open, and the history that it asks
/// for is answered all the same.
pub proof fn law_mismatch_keeps_request(
    pending: PendingView,
    other: HistoryResponse,
    own: HistoryResponse,
)
    requires
        other.asset@ != pending.asset || other.period != pending.period,
        own.asset@ == pending.asset,
        own.period == pending.period,
    ensures
        response_step(Some(pending), ServerResponse::History(other)) == (
            Some(pending),
            None::<CommandResponseView>,
        ),
        response_step(
            response_step(Some(pending), ServerResponse::History(other)).0,
            ServerResponse::History(own),
        ) == (
            None::<PendingView>,
            Some(history_answer(pending.req_id, pending.kind, own)),
        ),
{
}

/// A request is answered once: whatever the exchange sends next, nothing but an error follows.
pub proof fn law_request_is_answered_once(
    pending: PendingView,
    first: ServerResponse,
    next: ServerResponse,
)
    requires
        response_step(Some(pending), first).1 is Some,
        !(next is Fail),
    ensures
        response_step(response_step(Some(pending), first).0, next).1 is None,
{
}

/// The answer to a request carries its identifier and is of its kind, or is an error.
pub proof fn law_answer_fits_request(pending: PendingView, response: ServerResponse)
    requires
        response_step(Some(pending), response).1 is Some,
    ensures
        match response_step(Some(pending), response).1->0 {
            CommandResponseView::Ticks(id, _) => id == pending.req_id && pending.kind
                == RequestType::Ticks,
            CommandResponseView::Candles(id, _) => id == pending.req_id && pending.kind
                == RequestType::Candles,
            CommandResponseView::HistoryPoints(id, _) => id == pending.req_id && pending.kind
                == RequestType::HistoryPoints,
            CommandResponseView::HistoryOhlc(id, _) => id == pending.req_id && pending.kind
                == RequestType::HistoryOhlc,
            CommandResponseView::Error(_) => response is Fail,
        },
{
}

} // verus!
