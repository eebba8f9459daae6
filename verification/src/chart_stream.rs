//! Chart streams: the history of an asset, followed by its live prices.

use crate::candle::additions;
use crate::candle::all_but_last;
use crate::candle::all_candle_points;
use crate::candle::candle_of;
use crate::candle::candles_view;
use crate::candle::floored;
use crate::candle::floored_points;
use crate::candle::held;
use crate::candle::history_points;
use crate::candle::items;
use crate::candle::merge_history_ohlc;
use crate::candle::merge_history_points;
use crate::candle::merged_points;
use crate::candle::point_candles;
use crate::candle::single_price;
use crate::candle::spans_fit;
use crate::candle::spans_held;
use crate::candle::BaseCandle;
use crate::candle::Candle;
use crate::candle::CandleItem;
use crate::candle::CandleView;
use crate::candle::HistoryItem;
use crate::candle::HistoryPoint;
use crate::candle::Point;
use crate::chart_laws::law_history_finds_its_stream;
use crate::clock::second;
use crate::clock::DateTime;
use crate::clock::Duration;
use crate::decimal::price_reading;
use crate::decimal::time_reading;
use crate::decimal::Decimal;
use crate::error::is_general;
use crate::error::PocketError;
use crate::error::PocketResult;
use crate::historical_data::asset_points;
use crate::historical_data::history_points_view;
use crate::historical_data::or_empty;
use crate::historical_data::HistoryPointView;
use crate::json::json_array;
use crate::json::json_has_key;
use crate::json::json_text;
use crate::json::message_json;
use crate::json::number_of;
use crate::json::object_has_key;
use crate::json::read_array;
use crate::json::read_message_json;
use crate::json::read_text;
use crate::json::read_time;
use crate::message::Message;
use crate::message::MessageView;
use crate::number::floor_i64;
use crate::number::Number;
use crate::sort::law_by_time_in_order;
use crate::sort::Timed;
use crate::subscription::dates_known;
use crate::subscription::empty_candle;
use crate::subscription::started;
use crate::subscription::subscription_step;
use crate::subscription::SubscriptionType;
use crate::subscription::Update;
use crate::text::begins_with;
use crate::text::same_text;
use crate::text::starts_with;
use crate::text::text_view;
use crate::text::texts;
use crate::wire::change_symbol;
use crate::wire::change_symbol_text;
use crate::wire::new_uuid;
use vstd::prelude::*;

verus! {

/// How many events a stream holds that nobody has taken yet.
pub const STREAM_CHANNEL_CAPACITY: usize = 64;

/// What a stream carries.
#[derive(Clone, Copy, Debug, Eq, PartialEq, Structural)]
pub enum HistoryStreamMode {
    Points,
    Ohlc,
}

/// An event of a stream.
#[derive(Debug)]
pub enum HistoryStreamEvent {
    Point(HistoryPoint),
    Candle(Candle),
}

pub enum StreamEventView {
    Point(HistoryPointView),
    Candle(CandleView),
}

impl View for HistoryStreamEvent {
    type V = StreamEventView;

    open spec fn view(&self) -> StreamEventView {
        match self {
            HistoryStreamEvent::Point(p) => StreamEventView::Point(
                HistoryPointView { asset: p.asset@, time: p.time, price: p.price },
            ),
            HistoryStreamEvent::Candle(c) => StreamEventView::Candle(c@),
        }
    }
}

/// A command to the module.
#[derive(Debug)]
pub enum Command {
    SubscribeWithHistory { asset: String, period: u32, mode: HistoryStreamMode, command_id: u128 },
}

/// The module's answer to a subscription. Where its events come from is known by a number.
#[derive(Debug)]
pub enum CommandResponse {
    Subscribed { command_id: u128, stream_receiver: u64 },
    Failed { command_id: u128, error: PocketError },
}

/// What the exchange sends of an asset's past.
#[derive(Debug)]
pub struct ChartHistory {
    pub asset: String,
    pub period: u32,
    pub history: Option<Vec<HistoryItem>>,
    pub candles: Option<Vec<CandleItem>>,
}

/// A live price.
#[derive(Debug)]
pub struct StreamRow {
    pub asset: String,
    pub timestamp: Number,
    pub price: Decimal,
}

pub struct StreamRowView {
    pub asset: Seq<char>,
    pub timestamp: Number,
    pub price: Decimal,
}

impl View for StreamRow {
    type V = StreamRowView;

    open spec fn view(&self) -> StreamRowView {
        StreamRowView { asset: self.asset@, timestamp: self.timestamp, price: self.price }
    }
}

/// A stream that waits for its history. Where its events go is known by a number.
#[derive(Debug)]
struct PendingStream {
    asset: String,
    period: u32,
    mode: HistoryStreamMode,
    sender: u64,
}

pub struct PendingStreamView {
    pub asset: Seq<char>,
    pub period: u32,
    pub mode: HistoryStreamMode,
    pub sender: u64,
}

impl PendingStream {
    spec fn view(&self) -> PendingStreamView {
        PendingStreamView {
            asset: self.asset@,
            period: self.period,
            mode: self.mode,
            sender: self.sender,
        }
    }
}

/// A stream that has had its history.
#[derive(Debug)]
pub struct ActiveStream {
    asset: String,
    mode: HistoryStreamMode,
    /// The time of the newest price, none where there is none yet.
    edge_time: Option<Number>,
    sender: u64,
    live_ohlc: SubscriptionType,
}

pub struct ActiveStreamView {
    pub asset: Seq<char>,
    pub mode: HistoryStreamMode,
    pub edge_time: Option<Number>,
    pub sender: u64,
    pub live_ohlc: SubscriptionType,
}

/// The live candle of a stream is a subscription by time, and its prices are decimals.
pub open spec fn live_wf(live: SubscriptionType) -> bool {
    &&& live.wf()
    &&& live matches SubscriptionType::Time { candle, .. } && decimal_candle(candle)
}

/// All prices of a candle are decimals.
pub open spec fn decimal_candle(c: BaseCandle) -> bool {
    c.open is Exact && c.close is Exact && c.high is Exact && c.low is Exact
}

impl ActiveStream {
    pub closed spec fn view(&self) -> ActiveStreamView {
        ActiveStreamView {
            asset: self.asset@,
            mode: self.mode,
            edge_time: self.edge_time,
            sender: self.sender,
            live_ohlc: self.live_ohlc,
        }
    }

    pub open spec fn wf(&self) -> bool {
        live_wf(self.view().live_ohlc)
    }
}

/// What a stream begins with: its state once the history is sent, the events of the history, and
/// where they go.
#[derive(Debug)]
pub struct Bootstrap {
    pub stream: ActiveStream,
    pub sender: u64,
    pub events: Vec<HistoryStreamEvent>,
}

pub open spec fn events_view(events: Seq<HistoryStreamEvent>) -> Seq<StreamEventView> {
    events.map_values(|e: HistoryStreamEvent| e@)
}

/// The chart points of a history.
pub open spec fn chart_points(history: ChartHistory) -> Seq<Point> {
    merged_points(history.period, or_empty(history.history), or_empty(history.candles))
}

/// The closed candles of a history.
pub open spec fn chart_candles(history: ChartHistory) -> Seq<CandleView> {
    if history.period == 0 {
        Seq::empty()
    } else {
        held(
            all_but_last(
                point_candles(floored_points(chart_points(history)), history.period as int),
            ),
            history.asset@,
        )
    }
}

/// The events with which a stream begins.
pub open spec fn history_events(mode: HistoryStreamMode, history: ChartHistory) -> Seq<
    StreamEventView,
> {
    match mode {
        HistoryStreamMode::Points => asset_points(
            history.asset@,
            chart_points(history),
        ).map_values(|p: HistoryPointView| StreamEventView::Point(p)),
        HistoryStreamMode::Ohlc => chart_candles(history).map_values(
            |c: CandleView| StreamEventView::Candle(c),
        ),
    }
}

/// The time of the newest point.
pub open spec fn edge_of(points: Seq<Point>) -> Option<Number> {
    if points.len() == 0 {
        None
    } else {
        Some(points.last().time)
    }
}

/// Whether a history is what a stream waits for.
pub open spec fn waits_for(pending: PendingStreamView, history: ChartHistory) -> bool {
    pending.asset == history.asset@ && pending.period == history.period
}

/// The place of the first stream that waits for a history, none where no stream does.
pub open spec fn first_waiting(pending: Seq<PendingStreamView>, history: ChartHistory) -> Option<
    int,
>
    decreases pending.len(),
{
    if pending.len() == 0 {
        None
    } else {
        match first_waiting(pending.drop_last(), history) {
            Some(i) => Some(i),
            None => if waits_for(pending.last(), history) {
                Some(pending.len() - 1)
            } else {
                None
            },
        }
    }
}

/// The stream that a pending one becomes with its history.
pub open spec fn activated(pending: PendingStreamView, history: ChartHistory) -> ActiveStreamView {
    ActiveStreamView {
        asset: pending.asset,
        mode: pending.mode,
        edge_time: edge_of(chart_points(history)),
        sender: pending.sender,
        live_ohlc: SubscriptionType::Time {
            start_time: None,
            duration: Duration { secs: history.period as u64, nanos: 0 },
            candle: empty_candle(),
        },
    }
}

/// Whether the history of a stream can be computed: the spans of its points can be held.
pub open spec fn history_defined(pending: Seq<PendingStreamView>, history: ChartHistory) -> bool {
    first_waiting(pending, history) matches Some(i) ==> pending[i].mode == HistoryStreamMode::Ohlc
        && history.period > 0 ==> spans_held(
        floored_points(chart_points(history)),
        history.period as int,
    )
}

/// What a live price brings to a stream.
pub enum RowEvent {
    Nothing,
    Event(StreamEventView),
    TimeError,
}

/// Whether a live price is news to a stream: it is of its asset and newer than all it has had.
pub open spec fn is_news(stream: ActiveStreamView, row: StreamRowView) -> bool {
    &&& row.asset == stream.asset
    &&& stream.edge_time matches Some(edge) ==> edge.units() < row.timestamp.units()
}

/// The candle of a single live price.
pub open spec fn row_candle(row: StreamRowView) -> BaseCandle {
    single_price(floor_i64(row.timestamp), Number::Exact(row.price))
}

/// What a live price makes of a stream, and what it brings. `start` and `at` are the instants
/// of the first price of the live candle and of this one.
pub open spec fn row_step(
    stream: ActiveStreamView,
    row: StreamRowView,
    start: DateTime,
    at: DateTime,
) -> (ActiveStreamView, RowEvent) {
    if !is_news(stream, row) {
        (stream, RowEvent::Nothing)
    } else {
        let moved = ActiveStreamView { edge_time: Some(row.timestamp), ..stream };
        match stream.mode {
            HistoryStreamMode::Points => (
                moved,
                RowEvent::Event(
                    StreamEventView::Point(
                        HistoryPointView {
                            asset: stream.asset,
                            time: row.timestamp,
                            price: Number::Exact(row.price),
                        },
                    ),
                ),
            ),
            HistoryStreamMode::Ohlc => {
                let (live, update) = subscription_step(
                    stream.live_ohlc,
                    row_candle(row),
                    start,
                    at,
                );
                (
                    ActiveStreamView { live_ohlc: live, ..moved },
                    match update {
                        Update::Finished(base) => match candle_of(base, stream.asset) {
                            Ok(c) => RowEvent::Event(StreamEventView::Candle(c)),
                            Err(_) => RowEvent::Nothing,
                        },
                        Update::Pending => RowEvent::Nothing,
                        Update::TimeError => RowEvent::TimeError,
                    },
                )
            },
        }
    }
}

/// Whether a result is what a live price brings.
pub open spec fn event_is(r: Option<PocketResult<HistoryStreamEvent>>, event: RowEvent) -> bool {
    match (r, event) {
        (None, RowEvent::Nothing) => true,
        (Some(Ok(e)), RowEvent::Event(v)) => e@ == v,
        (Some(Err(e)), RowEvent::TimeError) => is_general(
            e,
            "Time calculation error in conditional update"@,
        ),
        _ => false,
    }
}

/// The dates that decide what a live price does to a stream are known.
pub open spec fn row_dates_known(stream: ActiveStreamView, row: StreamRowView) -> bool {
    dates_known(stream.live_ohlc, row_candle(row))
}

impl ActiveStream {
    /// Takes a live price in. A price whose second has no date counts as of the present.
    fn take_row(&mut self, row: &StreamRow) -> (r: Option<PocketResult<HistoryStreamEvent>>)
        requires
            old(self).wf(),
        ensures
            final(self).wf(),
            exists|s: DateTime, n: DateTime|
                #![trigger row_step(old(self).view(), row@, s, n)]
                final(self).view() == row_step(old(self).view(), row@, s, n).0 && event_is(
                    r,
                    row_step(old(self).view(), row@, s, n).1,
                ),
            row_dates_known(old(self).view(), row@) ==> final(self).view() == row_step(
                old(self).view(),
                row@,
                dated(old(self).view(), row@).0,
                dated(old(self).view(), row@).1,
            ).0 && event_is(
                r,
                row_step(
                    old(self).view(),
                    row@,
                    dated(old(self).view(), row@).0,
                    dated(old(self).view(), row@).1,
                ).1,
            ),
    {
        let newer = match self.edge_time {
            Some(edge) => Number::less(edge, row.timestamp),
            None => true,
        };
        let ghost before = self.view();
        let ghost none = second(0);
        if !newer || !same_text(row.asset.as_str(), self.asset.as_str()) {
            assert(row_step(before, row@, none, none).1 is Nothing);
            return None;
        }
        self.edge_time = Some(row.timestamp);
        match self.mode {
            HistoryStreamMode::Points => {
                assert(row_step(before, row@, none, none).1 is Event);
                Some(
                    Ok(
                        HistoryStreamEvent::Point(
                            HistoryPoint {
                                asset: self.asset.clone(),
                                time: row.timestamp,
                                price: Number::Exact(row.price),
                            },
                        ),
                    ),
                )
            },
            HistoryStreamMode::Ohlc => {
                let candle = BaseCandle::from_price(
                    row.timestamp.floor_to_i64(),
                    Number::Exact(row.price),
                );
                let mut live = self.live_ohlc;
                let ghost old_live = live;
                let updated = live.update(&candle);
                self.live_ohlc = live;
                proof {
                    assert(candle == row_candle(row@));
                    let (s, n) = choose|s: DateTime, n: DateTime|
                        #![trigger subscription_step(old_live, candle, s, n)]
                        live == subscription_step(old_live, candle, s, n).0
                            && crate::subscription::update_is(
                            updated,
                            subscription_step(old_live, candle, s, n).1,
                        );
                    assert(row_step(before, row@, s, n).0 == self.view());
                }
                match updated {
                    Ok(Some(base)) => match Candle::try_from((base, self.asset.clone())) {
                        Ok(c) => Some(Ok(HistoryStreamEvent::Candle(c))),
                        Err(_) => None,
                    },
                    Ok(None) => None,
                    Err(e) => Some(Err(e)),
                }
            },
        }
    }
}

spec fn pending_view(pending: Seq<PendingStream>) -> Seq<PendingStreamView> {
    pending.map_values(|p: PendingStream| p.view())
}

pub open spec fn active_view(active: Seq<ActiveStream>) -> Seq<ActiveStreamView> {
    active.map_values(|a: ActiveStream| a.view())
}

/// Where an event goes, and the event.
pub type Delivery = (u64, PocketResult<HistoryStreamEvent>);

pub enum DeliveryView {
    Event(u64, StreamEventView),
    TimeError(u64),
}

/// Whether deliveries are what they should be.
pub open spec fn deliveries_are(r: Seq<Delivery>, wanted: Seq<DeliveryView>) -> bool {
    &&& r.len() == wanted.len()
    &&& forall|i: int|
        0 <= i < r.len() ==> match (#[trigger] r[i], wanted[i]) {
            ((to, Ok(e)), DeliveryView::Event(n, v)) => to == n && e@ == v,
            ((to, Err(e)), DeliveryView::TimeError(n)) => to == n && is_general(
                e,
                "Time calculation error in conditional update"@,
            ),
            _ => false,
        }
}

/// What is delivered of what a live price brings to a stream.
pub open spec fn delivered(sender: u64, event: RowEvent) -> Seq<DeliveryView> {
    match event {
        RowEvent::Nothing => Seq::empty(),
        RowEvent::Event(e) => seq![DeliveryView::Event(sender, e)],
        RowEvent::TimeError => seq![DeliveryView::TimeError(sender)],
    }
}

/// The instants that decide what a live price does to a stream: that of the first price of
/// its live candle, and that of this price.
pub type Instants = (DateTime, DateTime);

/// The instants of a stream and a live price whose dates are known.
pub open spec fn dated(stream: ActiveStreamView, row: StreamRowView) -> Instants {
    (started(stream.live_ohlc, second(0)), second(floor_i64(row.timestamp)))
}

/// What a live price makes of all streams, and what is delivered.
pub open spec fn rows_step(
    active: Seq<ActiveStreamView>,
    row: StreamRowView,
    instants: Seq<Instants>,
) -> (Seq<ActiveStreamView>, Seq<DeliveryView>)
    decreases active.len(),
{
    if active.len() == 0 {
        (active, Seq::empty())
    } else {
        let (before, deliveries) = rows_step(active.drop_last(), row, instants.drop_last());
        let (stream, event) = row_step(
            active.last(),
            row,
            instants.last().0,
            instants.last().1,
        );
        (before.push(stream), deliveries + delivered(active.last().sender, event))
    }
}

/// The streams of a chart: those that wait for their history, and those that have had it.
pub struct ChartStreamApiModule {
    pending: Vec<PendingStream>,
    active: Vec<ActiveStream>,
}

impl ChartStreamApiModule {
    pub closed spec fn spec_pending(&self) -> Seq<PendingStreamView> {
        pending_view(self.pending@)
    }

    pub closed spec fn spec_active(&self) -> Seq<ActiveStreamView> {
        active_view(self.active@)
    }

    pub open spec fn wf(&self) -> bool {
        forall|i: int|
            0 <= i < self.spec_active().len() ==> live_wf(
                (#[trigger] self.spec_active()[i]).live_ohlc,
            )
    }

    pub fn new() -> (r: ChartStreamApiModule)
        ensures
            r.wf(),
            r.spec_pending() == Seq::<PendingStreamView>::empty(),
            r.spec_active() == Seq::<ActiveStreamView>::empty(),
    {
        let r = ChartStreamApiModule { pending: Vec::new(), active: Vec::new() };
        assert(r.spec_pending() =~= Seq::<PendingStreamView>::empty());
        assert(r.spec_active() =~= Seq::<ActiveStreamView>::empty());
        r
    }

    /// The message that is sent for a subscription.
    pub fn request(cmd: &Command) -> (r: String)
        ensures
            match cmd {
                Command::SubscribeWithHistory { asset, period, .. } => r@ == change_symbol_text(
                    asset@,
                    *period,
                ),
            },
    {
        let Command::SubscribeWithHistory { asset, period, .. } = cmd;
        change_symbol(asset.as_str(), *period)
    }

    /// Starts a stream once its request is sent: it waits for its history, and the subscription
    /// is answered. A request that could not be sent is answered with the error, and no stream
    /// waits. The number says where the events of the stream go.
    pub fn start_stream(&mut self, cmd: Command, sender: u64, sent: PocketResult<()>) -> (r:
        CommandResponse)
        ensures
            final(self).spec_active() == old(self).spec_active(),
            match (cmd, sent) {
                (
                    Command::SubscribeWithHistory { asset, period, mode, command_id },
                    Ok(_),
                ) => {
                    &&& final(self).spec_pending() == old(self).spec_pending().push(
                        PendingStreamView { asset: asset@, period, mode, sender },
                    )
                    &&& r == CommandResponse::Subscribed { command_id, stream_receiver: sender }
                },
                (Command::SubscribeWithHistory { command_id, .. }, Err(error)) => {
                    &&& final(self).spec_pending() == old(self).spec_pending()
                    &&& r == CommandResponse::Failed { command_id, error }
                },
            },
    {
        let Command::SubscribeWithHistory { asset, period, mode, command_id } = cmd;
        match sent {
            Ok(_) => {
                let ghost before = *self;
                self.pending.push(PendingStream { asset, period, mode, sender });
                assert(self.spec_pending() =~= before.spec_pending().push(
                    PendingStreamView { asset: asset@, period, mode, sender },
                ));
                CommandResponse::Subscribed { command_id, stream_receiver: sender }
            },
            Err(error) => CommandResponse::Failed { command_id, error },
        }
    }

    fn position(&self, history: &ChartHistory) -> (r: Option<usize>)
        ensures
            match r {
                Some(i) => i < self.pending@.len() && first_waiting(self.spec_pending(), *history)
                    == Some(i as int),
                None => first_waiting(self.spec_pending(), *history) is None,
            },
            match r {
                Some(i) => {
                    let found = self.spec_pending()[i as int];
                    &&& found.asset == history.asset@
                    &&& found.period == history.period
                    &&& forall|j: int|
                        0 <= j < i ==> (#[trigger] self.spec_pending()[j]).asset != history.asset@
                            || self.spec_pending()[j].period != history.period
                },
                None => forall|j: int|
                    0 <= j < self.spec_pending().len() ==> (#[trigger] self.spec_pending()[j]).asset
                        != history.asset@ || self.spec_pending()[j].period != history.period,
            },
    {
        proof {
            law_history_finds_its_stream(self.spec_pending(), *history);
        }
        let ghost all = self.spec_pending();
        let mut i: usize = 0;
        assert(all.take(0) =~= Seq::<PendingStreamView>::empty());
        while i < self.pending.len()
            invariant
                i <= self.pending@.len() == all.len(),
                all == self.spec_pending(),
                first_waiting(all.take(i as int), *history) is None,
            decreases self.pending@.len() - i,
        {
            proof {
                assert(all.take(i + 1).drop_last() =~= all.take(i as int));
                assert(all.take(i + 1).last() == self.pending@[i as int].view());
            }
            if same_text(self.pending[i].asset.as_str(), history.asset.as_str())
                && self.pending[i].period == history.period {
                proof {
                    lemma_first_waiting(all, *history, i as int);
                    law_history_finds_its_stream(all, *history);
                }
                return Some(i);
            }
            i += 1;
        }
        assert(all.take(i as int) =~= all);
        None
    }

    /// Whether the history of a stream can be computed.
    pub fn can_take_history(&self, history: &ChartHistory) -> (r: bool)
        ensures
            r == history_defined(self.spec_pending(), *history),
    {
        match self.position(history) {
            Some(i) => {
                assert(self.spec_pending()[i as int] == self.pending@[i as int].view());
                if self.pending[i].mode == HistoryStreamMode::Ohlc && history.period > 0 {
                    let points = merge_history_points(
                        history.asset.as_str(),
                        history.period,
                        slice_of(&history.history),
                        slice_of(&history.candles),
                    );
                    assert(floored(points@) =~= floored_points(chart_points(*history)));
                    spans_fit(points.as_slice(), history.period)
                } else {
                    true
                }
            },
            None => true,
        }
    }

    /// Takes a history. The first stream that waits for it waits no longer; it is handed back
    /// with the events of its history, to be made active once these are delivered. A stream
    /// whose events cannot be delivered is dropped.
    pub fn take_history(&mut self, history: &ChartHistory) -> (r: Option<Bootstrap>)
        requires
            history_defined(old(self).spec_pending(), *history),
        ensures
            final(self).spec_active() == old(self).spec_active(),
            match first_waiting(old(self).spec_pending(), *history) {
                Some(i) => {
                    let pending = old(self).spec_pending()[i];
                    &&& final(self).spec_pending() == old(self).spec_pending().remove(i)
                    &&& r is Some
                    &&& r->0.stream.view() == activated(pending, *history)
                    &&& r->0.stream.wf()
                    &&& r->0.sender == pending.sender
                    &&& events_view(r->0.events@) == history_events(pending.mode, *history)
                },
                None => final(self).spec_pending() == old(self).spec_pending() && r is None,
            },
            r is Some <==> exists|i: int|
                0 <= i < old(self).spec_pending().len() && (
                #[trigger] old(self).spec_pending()[i]).asset == history.asset@
                    && old(self).spec_pending()[i].period == history.period,
            r matches Some(b) ==> b.stream.view().asset == history.asset@,
    {
        let index = match self.position(history) {
            Some(i) => i,
            None => return None,
        };
        let ghost before = *self;
        assert(self.spec_pending()[index as int] == self.pending@[index as int].view());
        let pending = self.pending.remove(index);
        assert(self.spec_pending() =~= before.spec_pending().remove(index as int));
        let points = merge_history_points(
            history.asset.as_str(),
            history.period,
            slice_of(&history.history),
            slice_of(&history.candles),
        );
        let edge_time = if points.len() == 0 {
            None
        } else {
            Some(points[points.len() - 1].time)
        };
        let events = match pending.mode {
            HistoryStreamMode::Points => {
                assert(history_points_view(points@) =~= asset_points(
                    history.asset@,
                    chart_points(*history),
                ));
                point_events(points)
            },
            HistoryStreamMode::Ohlc => {
                let candles = merge_history_ohlc(
                    history.asset.as_str(),
                    history.period,
                    slice_of(&history.history),
                    slice_of(&history.candles),
                );
                assert(history.period == 0 ==> candles_view(candles@) =~= Seq::<
                    CandleView,
                >::empty());
                candle_events(candles)
            },
        };
        let stream = ActiveStream {
            asset: pending.asset,
            mode: pending.mode,
            edge_time,
            sender: pending.sender,
            live_ohlc: SubscriptionType::time(Duration::from_secs(history.period as u64)),
        };
        Some(Bootstrap { stream, sender: pending.sender, events })
    }

    /// Makes a stream active.
    pub fn activate(&mut self, stream: ActiveStream)
        requires
            old(self).wf(),
            stream.wf(),
        ensures
            final(self).wf(),
            final(self).spec_active() == old(self).spec_active().push(stream.view()),
            final(self).spec_pending() == old(self).spec_pending(),
    {
        let ghost before = *self;
        self.active.push(stream);
        proof {
            let now = self.spec_active();
            assert(now =~= before.spec_active().push(stream.view()));
            assert forall|i: int| 0 <= i < now.len() implies live_wf((#[trigger] now[i]).live_ohlc) by {
                if i < before.spec_active().len() {
                    assert(live_wf(before.spec_active()[i].live_ohlc));
                }
            }
        }
    }

    /// Takes a live price and gives what is delivered of it. A price whose second has no date
    /// counts as of the present, so that what it does to live candles depends on the clock.
    pub fn take_row(&mut self, row: &StreamRow) -> (r: Vec<Delivery>)
        requires
            old(self).wf(),
        ensures
            final(self).wf(),
            final(self).spec_pending() == old(self).spec_pending(),
            exists|instants: Seq<Instants>|
                #![trigger rows_step(old(self).spec_active(), row@, instants)]
                instants.len() == old(self).spec_active().len() && final(self).spec_active()
                    == rows_step(old(self).spec_active(), row@, instants).0 && deliveries_are(
                    r@,
                    rows_step(old(self).spec_active(), row@, instants).1,
                ) && forall|i: int|
                    0 <= i < instants.len() && row_dates_known(
                        old(self).spec_active()[i],
                        row@,
                    ) ==> #[trigger] instants[i] == dated(old(self).spec_active()[i], row@),
    {
        let ghost start = self.spec_active();
        let ghost mut instants: Seq<Instants> = Seq::empty();
        let mut deliveries: Vec<Delivery> = Vec::new();
        let mut i: usize = 0;
        assert(start.take(0) =~= Seq::<ActiveStreamView>::empty());
        while i < self.active.len()
            invariant
                i <= self.active@.len() == start.len(),
                start == old(self).spec_active(),
                old(self).wf(),
                self.pending@ == old(self).pending@,
                forall|j: int| i <= j < start.len() ==> self.spec_active()[j] == start[j],
                forall|j: int|
                    0 <= j < i ==> live_wf((#[trigger] self.spec_active()[j]).live_ohlc),
                instants.len() == i,
                self.spec_active().take(i as int) == rows_step(
                    start.take(i as int),
                    row@,
                    instants,
                ).0,
                deliveries_are(deliveries@, rows_step(start.take(i as int), row@, instants).1),
                forall|j: int|
                    0 <= j < i && row_dates_known(start[j], row@) ==> #[trigger] instants[j]
                        == dated(start[j], row@),
            decreases self.active@.len() - i,
        {
            let ghost earlier = self.spec_active();
            let ghost so_far = deliveries@;
            proof {
                assert(self.active@[i as int].view() == start[i as int]) by {
                    assert(self.spec_active()[i as int] == start[i as int]);
                }
                assert(live_wf(start[i as int].live_ohlc));
            }
            let sender = self.active[i].sender;
            let event = self.active[i].take_row(row);
            let ghost now = self.spec_active();
            let ghost at: Instants = if row_dates_known(start[i as int], row@) {
                dated(start[i as int], row@)
            } else {
                choose|at: Instants|
                    #![trigger row_step(start[i as int], row@, at.0, at.1)]
                    now[i as int] == row_step(start[i as int], row@, at.0, at.1).0 && event_is(
                        event,
                        row_step(start[i as int], row@, at.0, at.1).1,
                    )
            };
            proof {
                assert(now =~= earlier.update(i as int, self.active@[i as int].view()));
                if !row_dates_known(start[i as int], row@) {
                    let (s, n) = choose|s: DateTime, n: DateTime|
                        #![trigger row_step(start[i as int], row@, s, n)]
                        now[i as int] == row_step(start[i as int], row@, s, n).0 && event_is(
                            event,
                            row_step(start[i as int], row@, s, n).1,
                        );
                    let pair: Instants = (s, n);
                    assert(now[i as int] == row_step(start[i as int], row@, pair.0, pair.1).0);
                }
                assert(now[i as int] == row_step(start[i as int], row@, at.0, at.1).0);
                assert(event_is(event, row_step(start[i as int], row@, at.0, at.1).1));
                assert(now.take(i + 1) =~= earlier.take(i as int).push(now[i as int]));
                assert(start.take(i + 1).drop_last() =~= start.take(i as int));
                assert(start.take(i + 1).last() == start[i as int]);
                assert(instants.push(at).drop_last() =~= instants);
            }
            if let Some(result) = event {
                deliveries.push((sender, result));
            }
            proof {
                assert forall|j: int| 0 <= j < i + 1 implies live_wf(
                    (#[trigger] now[j]).live_ohlc,
                ) by {
                    if j < i {
                        assert(live_wf(earlier[j].live_ohlc));
                    }
                }
                let added = delivered(sender, row_step(start[i as int], row@, at.0, at.1).1);
                assert(deliveries@.take(so_far.len() as int) =~= so_far);
                lemma_deliveries(
                    so_far,
                    rows_step(start.take(i as int), row@, instants).1,
                    deliveries@,
                    added,
                );
                instants = instants.push(at);
            }
            i += 1;
        }
        proof {
            assert(start.take(i as int) =~= start);
            assert(self.spec_active().take(i as int) =~= self.spec_active());
        }
        deliveries
    }
}

proof fn lemma_deliveries(
    before: Seq<Delivery>,
    wanted: Seq<DeliveryView>,
    after: Seq<Delivery>,
    added: Seq<DeliveryView>,
)
    requires
        deliveries_are(before, wanted),
        added.len() <= 1,
        after.len() == before.len() + added.len(),
        after.take(before.len() as int) == before,
        added.len() == 1 ==> match (after[before.len() as int], added[0]) {
            ((to, Ok(e)), DeliveryView::Event(n, v)) => to == n && e@ == v,
            ((to, Err(e)), DeliveryView::TimeError(n)) => to == n && is_general(
                e,
                "Time calculation error in conditional update"@,
            ),
            _ => false,
        },
    ensures
        deliveries_are(after, wanted + added),
{
    assert forall|i: int| 0 <= i < after.len() implies match (
        #[trigger] after[i],
        (wanted + added)[i],
    ) {
        ((to, Ok(e)), DeliveryView::Event(n, v)) => to == n && e@ == v,
        ((to, Err(e)), DeliveryView::TimeError(n)) => to == n && is_general(
            e,
            "Time calculation error in conditional update"@,
        ),
        _ => false,
    } by {
        if i < before.len() {
            assert(after[i] == after.take(before.len() as int)[i]);
            assert(before[i] == after[i]);
        }
    }
}

proof fn lemma_first_waiting(all: Seq<PendingStreamView>, history: ChartHistory, at: int)
    requires
        0 <= at < all.len(),
        first_waiting(all.take(at), history) is None,
        waits_for(all[at], history),
    ensures
        first_waiting(all, history) == Some(at),
    decreases all.len(),
{
    let t = all.drop_last();
    if at == t.len() {
        assert(all.take(at) =~= t);
    } else {
        assert(t.take(at) =~= all.take(at));
        lemma_first_waiting(t, history, at);
    }
}

fn slice_of<T>(list: &Option<Vec<T>>) -> (r: Option<&[T]>)
    ensures
        items(r) == or_empty(*list),
{
    match list {
        Some(v) => Some(v.as_slice()),
        None => None,
    }
}

fn point_events(points: Vec<HistoryPoint>) -> (r: Vec<HistoryStreamEvent>)
    ensures
        events_view(r@) == history_points_view(points@).map_values(
            |p: HistoryPointView| StreamEventView::Point(p),
        ),
{
    let ghost all = history_points_view(points@).map_values(
        |p: HistoryPointView| StreamEventView::Point(p),
    );
    let mut events: Vec<HistoryStreamEvent> = Vec::new();
    let mut i: usize = 0;
    while i < points.len()
        invariant
            i <= points@.len(),
            all == history_points_view(points@).map_values(
                |p: HistoryPointView| StreamEventView::Point(p),
            ),
            events_view(events@) =~= all.take(i as int),
        decreases points@.len() - i,
    {
        let ghost before = events@;
        let event = HistoryStreamEvent::Point(
            HistoryPoint {
                asset: points[i].asset.clone(),
                time: points[i].time,
                price: points[i].price,
            },
        );
        events.push(event);
        assert(events_view(events@) =~= events_view(before).push(event@));
        assert(all[i as int] == event@);
        i += 1;
    }
    assert(all.take(i as int) =~= all);
    events
}

fn candle_events(candles: Vec<Candle>) -> (r: Vec<HistoryStreamEvent>)
    ensures
        events_view(r@) == candles_view(candles@).map_values(
            |c: CandleView| StreamEventView::Candle(c),
        ),
{
    let ghost all = candles_view(candles@).map_values(|c: CandleView| StreamEventView::Candle(c));
    let mut events: Vec<HistoryStreamEvent> = Vec::new();
    let mut i: usize = 0;
    while i < candles.len()
        invariant
            i <= candles@.len(),
            all == candles_view(candles@).map_values(|c: CandleView| StreamEventView::Candle(c)),
            events_view(events@) =~= all.take(i as int),
        decreases candles@.len() - i,
    {
        let ghost before = events@;
        let event = HistoryStreamEvent::Candle(candles[i].copied());
        events.push(event);
        assert(events_view(events@) =~= events_view(before).push(event@));
        assert(all[i as int] == event@);
        i += 1;
    }
    assert(all.take(i as int) =~= all);
    events
}

/// The history that a message carries, as JSON text: an object with an asset and a period, or
/// the payload of an event whose name begins with `updateHistory`.
pub open spec fn history_payload(msg: MessageView) -> Option<Seq<char>> {
    match message_json(msg) {
        Some(text) => if json_has_key(text, "asset"@) && json_has_key(text, "period"@) {
            Some(text)
        } else {
            match json_array(text) {
                Some(list) => if list.len() >= 2 && json_text(list[0]) is Some && begins_with(
                    json_text(list[0])->0,
                    "updateHistory"@,
                ) {
                    Some(list[1])
                } else {
                    None
                },
                None => None,
            }
        },
        None => None,
    }
}

/// Reads the history that a message carries, as JSON text.
pub fn read_history_payload(msg: &Message) -> (r: Option<String>)
    ensures
        text_view(r) == history_payload(msg@),
{
    let text = read_message_json(msg)?;
    if object_has_key(text.as_str(), "asset") && object_has_key(text.as_str(), "period") {
        return Some(text);
    }
    let list = read_array(text.as_str())?;
    if list.len() < 2 {
        return None;
    }
    assert(texts(list@)[0] == list@[0]@);
    assert(texts(list@)[1] == list@[1]@);
    let event = read_text(list[0].as_str())?;
    if starts_with(event.as_str(), "updateHistory") {
        Some(list[1].clone())
    } else {
        None
    }
}

/// The live price that some readings make up, none where one is missing.
pub open spec fn row_of_readings(
    asset: Option<Seq<char>>,
    timestamp: Option<Number>,
    price: Option<Decimal>,
) -> Option<StreamRowView> {
    if asset is Some && timestamp is Some && price is Some {
        Some(StreamRowView { asset: asset->0, timestamp: timestamp->0, price: price->0 })
    } else {
        None
    }
}

/// The decimal among the readings of a price.
pub open spec fn reading_decimal(reading: Option<(Option<Decimal>, bool)>) -> Option<Decimal> {
    match reading {
        Some((d, _)) => d,
        None => None,
    }
}

/// The live price that a JSON text is: an array that begins with an asset, a time and a price.
pub open spec fn stream_row(text: Seq<char>) -> Option<StreamRowView> {
    match json_array(text) {
        Some(row) => if row.len() >= 3 {
            row_of_readings(
                json_text(row[0]),
                number_of(time_reading(row[1])),
                reading_decimal(price_reading(row[2])),
            )
        } else {
            None
        },
        None => None,
    }
}

/// The live prices among some JSON texts.
pub open spec fn stream_rows_of(list: Seq<Seq<char>>) -> Seq<StreamRowView>
    decreases list.len(),
{
    if list.len() == 0 {
        Seq::empty()
    } else {
        match stream_row(list.last()) {
            Some(row) => stream_rows_of(list.drop_last()).push(row),
            None => stream_rows_of(list.drop_last()),
        }
    }
}

/// The live prices that a message carries: the items of its array, or of the payload of an
/// `updateStream` event.
pub open spec fn stream_rows(msg: MessageView) -> Seq<StreamRowView> {
    match message_json(msg) {
        Some(text) => match json_array(text) {
            Some(list) => if list.len() > 0 && json_text(list[0]) == Some("updateStream"@) {
                if list.len() > 1 && json_array(list[1]) is Some {
                    stream_rows_of(json_array(list[1])->0)
                } else {
                    Seq::empty()
                }
            } else {
                stream_rows_of(list)
            },
            None => Seq::empty(),
        },
        None => Seq::empty(),
    }
}

pub open spec fn rows_view(rows: Seq<StreamRow>) -> Seq<StreamRowView> {
    rows.map_values(|r: StreamRow| r@)
}

pub open spec fn row_view(row: Option<StreamRow>) -> Option<StreamRowView> {
    match row {
        Some(r) => Some(r@),
        None => None,
    }
}

impl StreamRow {
    /// The live price that some readings make up, none where one is missing.
    pub fn from_readings(
        asset: Option<String>,
        timestamp: Option<Number>,
        price: Option<Decimal>,
    ) -> (r: Option<StreamRow>)
        ensures
            row_view(r) == row_of_readings(text_view(asset), timestamp, price),
    {
        Some(StreamRow { asset: asset?, timestamp: timestamp?, price: price? })
    }
}

fn read_stream_row(text: &str) -> (r: Option<StreamRow>)
    ensures
        row_view(r) == stream_row(text@),
{
    let row = read_array(text)?;
    if row.len() < 3 {
        return None;
    }
    assert(texts(row@)[0] == row@[0]@);
    assert(texts(row@)[1] == row@[1]@);
    assert(texts(row@)[2] == row@[2]@);
    let price = match Decimal::read_price(row[2].as_str()) {
        Some((d, _)) => d,
        None => None,
    };
    StreamRow::from_readings(read_text(row[0].as_str()), read_time(row[1].as_str()), price)
}

fn read_stream_rows_of(list: &Vec<String>) -> (r: Vec<StreamRow>)
    ensures
        rows_view(r@) == stream_rows_of(texts(list@)),
{
    let ghost all = texts(list@);
    let mut rows: Vec<StreamRow> = Vec::new();
    let mut i: usize = 0;
    assert(rows_view(rows@) =~= stream_rows_of(all.take(0)));
    while i < list.len()
        invariant
            i <= list@.len(),
            all == texts(list@),
            rows_view(rows@) == stream_rows_of(all.take(i as int)),
        decreases list@.len() - i,
    {
        let ghost before = rows@;
        assert(all.take(i + 1).drop_last() =~= all.take(i as int));
        assert(all.take(i + 1).last() == list@[i as int]@);
        if let Some(row) = read_stream_row(list[i].as_str()) {
            rows.push(row);
            assert(rows_view(rows@) =~= rows_view(before).push(row@));
        }
        i += 1;
    }
    assert(all.take(i as int) =~= all);
    rows
}

/// Reads the live prices that a message carries.
pub fn read_stream_rows(msg: &Message) -> (r: Vec<StreamRow>)
    ensures
        rows_view(r@) == stream_rows(msg@),
{
    let empty: Vec<StreamRow> = Vec::new();
    assert(rows_view(empty@) =~= Seq::<StreamRowView>::empty());
    let text = match read_message_json(msg) {
        Some(text) => text,
        None => return empty,
    };
    let list = match read_array(text.as_str()) {
        Some(list) => list,
        None => return empty,
    };
    if list.len() > 0 {
        assert(texts(list@)[0] == list@[0]@);
        if let Some(event) = read_text(list[0].as_str()) {
            if same_text(event.as_str(), "updateStream") {
                if list.len() < 2 {
                    return empty;
                }
                assert(texts(list@)[1] == list@[1]@);
                return match read_array(list[1].as_str()) {
                    Some(rows) => read_stream_rows_of(&rows),
                    None => empty,
                };
            }
        }
    }
    read_stream_rows_of(&list)
}

/// A stream is told only of prices of its asset that are newer than all it has had, and each
/// price that it is told of becomes the newest.
pub proof fn law_streams_hear_only_news(
    stream: ActiveStreamView,
    row: StreamRowView,
    start: DateTime,
    at: DateTime,
)
    ensures
        !is_news(stream, row) ==> row_step(stream, row, start, at) == (stream, RowEvent::Nothing),
        is_news(stream, row) ==> row_step(stream, row, start, at).0.edge_time == Some(
            row.timestamp,
        ),
        !is_news(row_step(stream, row, start, at).0, row),
{
}

/// Every live candle that is finished is delivered: all its prices are decimals.
pub proof fn law_finished_candles_are_delivered(
    stream: ActiveStreamView,
    row: StreamRowView,
    start: DateTime,
    at: DateTime,
)
    requires
        live_wf(stream.live_ohlc),
        stream.mode == HistoryStreamMode::Ohlc,
        is_news(stream, row),
    ensures
        live_wf(row_step(stream, row, start, at).0.live_ohlc),
        subscription_step(stream.live_ohlc, row_candle(row), start, at).1 is Finished ==> row_step(
            stream,
            row,
            start,
            at,
        ).1 is Event,
{
}

/// The newest point of a history is the edge of its stream: no point is later.
pub proof fn law_edge_is_newest(history: ChartHistory, n: int)
    requires
        0 <= n < chart_points(history).len(),
    ensures
        edge_of(chart_points(history)) is Some,
        chart_points(history)[n].time.units() <= edge_of(chart_points(history))->0.units(),
{
    let known = history_points(or_empty(history.history));
    let all = known + if history.period >= 5 {
        additions(known, all_candle_points(or_empty(history.candles), history.period))
    } else {
        Seq::empty()
    };
    law_by_time_in_order(all);
    let points = chart_points(history);
    if n < points.len() - 1 {
        assert(points[n].time_key() <= points[points.len() - 1].time_key());
    }
}

/// A stream that has had its history is told of no price that is as old as a point of it.
pub proof fn law_history_is_not_repeated(
    pending: PendingStreamView,
    history: ChartHistory,
    n: int,
    row: StreamRowView,
    start: DateTime,
    at: DateTime,
)
    requires
        0 <= n < chart_points(history).len(),
        row.timestamp.units() <= chart_points(history)[n].time.units(),
    ensures
        row_step(activated(pending, history), row, start, at) == (
            activated(pending, history),
            RowEvent::Nothing,
        ),
{
    law_edge_is_newest(history, n);
}

/// A price that is news to no stream changes nothing, and nothing is delivered.
pub proof fn law_no_news_changes_nothing(
    active: Seq<ActiveStreamView>,
    row: StreamRowView,
    instants: Seq<Instants>,
)
    requires
        forall|i: int| 0 <= i < active.len() ==> !is_news(#[trigger] active[i], row),
    ensures
        rows_step(active, row, instants) == (active, Seq::<DeliveryView>::empty()),
    decreases active.len(),
{
    if active.len() > 0 {
        let earlier = active.drop_last();
        assert forall|i: int| 0 <= i < earlier.len() implies !is_news(
            #[trigger] earlier[i],
            row,
        ) by {
            assert(earlier[i] == active[i]);
        }
        law_no_news_changes_nothing(earlier, row, instants.drop_last());
        assert(!is_news(active[active.len() - 1], row));
        assert(earlier.push(active.last()) =~= active);
        assert(Seq::<DeliveryView>::empty() + Seq::<DeliveryView>::empty() =~= Seq::<
            DeliveryView,
        >::empty());
    }
}

/// Waits for a subscription.
pub struct ChartStreamHandle;

impl ChartStreamHandle {
    /// The command that subscribes under a new identifier, and the identifier.
    pub fn subscribe_with_history_mode(asset: String, period: u32, mode: HistoryStreamMode) -> (r: (
        u128,
        Command,
    ))
        ensures
            match r.1 {
                Command::SubscribeWithHistory { asset: a, period: p, mode: m, command_id } => {
                    &&& a@ == asset@
                    &&& p == period
                    &&& m == mode
                    &&& command_id == r.0
                },
            },
    {
        let command_id = new_uuid();
        (command_id, Command::SubscribeWithHistory { asset, period, mode, command_id })
    }

    /// What a response is to the subscription that waits for it, none where it is to another.
    pub fn hear(command_id: u128, response: CommandResponse) -> (r: Option<PocketResult<u64>>)
        ensures
            match response {
                CommandResponse::Subscribed { command_id: id, stream_receiver } => r == if id
                    == command_id {
                    Some(Ok::<u64, PocketError>(stream_receiver))
                } else {
                    None
                },
                CommandResponse::Failed { command_id: id, error } => r == if id == command_id {
                    Some(Err::<u64, PocketError>(error))
                } else {
                    None
                },
            },
    {
        match response {
            CommandResponse::Subscribed { command_id: id, stream_receiver } => {
                if id == command_id {
                    Some(Ok(stream_receiver))
                } else {
                    None
                }
            },
            CommandResponse::Failed { command_id: id, error } => {
                if id == command_id {
                    Some(Err(error))
                } else {
                    None
                }
            },
        }
    }
}

} // verus!
