//! Orders: each is matched with the success or the failure that the exchange reports.
//!
//! A success names the request by its identifier or by its number on the wire. A failure names
//! only the asset and the amount, and so does a success now and then: it is taken to be of the
//! oldest order of that asset and amount.

use crate::decimal::Decimal;
use crate::error::is_general;
use crate::error::PocketError;
use crate::error::PocketResult;
use crate::json::framed_array;
use crate::json::json_text;
use crate::json::message_readings;
use crate::json::read_framed_array;
use crate::json::read_text;
use crate::json::readings_of;
use crate::message::Message;
use crate::message::MessageView;
use crate::text::same_text;
use crate::text::text_view;
use crate::text::texts;
use crate::types::Action;
use crate::types::Deal;
use crate::types::DealView;
use crate::types::RequestId;
use crate::wire::new_uuid;
use std::collections::HashMap;
use vstd::prelude::*;

verus! {

broadcast use vstd::std_specs::hash::group_hash_axioms;

/// A command to the module. Whoever waits for the outcome is known by a number.
#[derive(Debug)]
pub enum Command {
    /// To place a new trade.
    OpenOrder {
        asset: String,
        action: Action,
        amount: Decimal,
        time: u32,
        req_id: u128,
        wire_req_id: u64,
        responder: u64,
    },
}

/// An order as it is sent to the exchange.
#[derive(Debug)]
pub struct OrderRequest {
    pub asset: String,
    pub action: Action,
    pub amount: Decimal,
    pub time: u32,
    pub is_demo: u32,
    pub wire_req_id: u64,
}

/// What the exchange says of an order that it refused.
#[derive(Debug)]
pub struct FailOpenOrder {
    pub error: String,
    pub amount: Decimal,
    pub asset: String,
}

#[derive(Debug)]
struct PendingOrderTracker {
    asset: String,
    amount: Decimal,
    responder: u64,
}

#[derive(Debug)]
struct QueuedOrder {
    asset: String,
    amount: Decimal,
    req_id: u128,
}

/// An order that is not answered yet.
pub struct TrackerView {
    pub asset: Seq<char>,
    pub amount: Decimal,
    pub responder: u64,
}

/// An order in the line of those that a failure may be about.
pub struct QueuedView {
    pub asset: Seq<char>,
    pub amount: Decimal,
    pub req_id: u128,
}

impl PendingOrderTracker {
    spec fn view(&self) -> TrackerView {
        TrackerView { asset: self.asset@, amount: self.amount, responder: self.responder }
    }
}

impl QueuedOrder {
    spec fn view(&self) -> QueuedView {
        QueuedView { asset: self.asset@, amount: self.amount, req_id: self.req_id }
    }
}

/// Matches orders with the reports of the exchange. Whoever waits for an answer is known by a
/// number.
pub struct TradesApiModule {
    pending_orders: HashMap<u128, PendingOrderTracker>,
    wire_to_internal: HashMap<u64, u128>,
    queue: Vec<QueuedOrder>,
}

pub struct TradesView {
    /// The orders that are not answered yet, by their identifiers.
    pub pending: Map<u128, TrackerView>,
    /// The identifiers of orders by their numbers on the wire.
    pub wire: Map<u64, u128>,
    /// The orders that a failure may be about, oldest first.
    pub queue: Seq<QueuedView>,
}

/// Whether an order in the line is of an asset and an amount.
pub open spec fn is_of(order: QueuedView, asset: Seq<char>, amount: Decimal) -> bool {
    order.asset == asset && order.amount.units() == amount.units()
}

/// The identifiers of the orders of an asset and an amount, oldest first.
pub open spec fn line(queue: Seq<QueuedView>, asset: Seq<char>, amount: Decimal) -> Seq<u128>
    decreases queue.len(),
{
    if queue.len() == 0 {
        Seq::empty()
    } else if is_of(queue.last(), asset, amount) {
        line(queue.drop_last(), asset, amount).push(queue.last().req_id)
    } else {
        line(queue.drop_last(), asset, amount)
    }
}

/// The line without one identifier among the orders of an asset and an amount.
pub open spec fn without(
    queue: Seq<QueuedView>,
    asset: Seq<char>,
    amount: Decimal,
    req_id: u128,
) -> Seq<QueuedView>
    decreases queue.len(),
{
    if queue.len() == 0 {
        queue
    } else if is_of(queue.last(), asset, amount) && queue.last().req_id == req_id {
        without(queue.drop_last(), asset, amount, req_id)
    } else {
        without(queue.drop_last(), asset, amount, req_id).push(queue.last())
    }
}

/// Whether the line has an order of an asset and an amount.
pub open spec fn has_order(queue: Seq<QueuedView>, asset: Seq<char>, amount: Decimal) -> bool {
    exists|i: int| 0 <= i < queue.len() && is_of(#[trigger] queue[i], asset, amount)
}

/// Whether `at` is the place of the oldest order of an asset and an amount.
pub open spec fn is_oldest(queue: Seq<QueuedView>, asset: Seq<char>, amount: Decimal, at: int) -> bool {
    &&& 0 <= at < queue.len()
    &&& is_of(queue[at], asset, amount)
    &&& forall|i: int| 0 <= i < at ==> !is_of(#[trigger] queue[i], asset, amount)
}

/// The line once the oldest order of an asset and an amount has left it, and that order.
pub open spec fn popped(queue: Seq<QueuedView>, asset: Seq<char>, amount: Decimal) -> (
    Seq<QueuedView>,
    Option<u128>,
) {
    if has_order(queue, asset, amount) {
        let at = choose|at: int| is_oldest(queue, asset, amount, at);
        (queue.remove(at), Some(queue[at].req_id))
    } else {
        (queue, None)
    }
}

/// Whether a command asks for an order.
pub open spec fn asks_for(
    cmd: Command,
    asset: Seq<char>,
    action: Action,
    amount: Decimal,
    time: u32,
    req_id: u128,
    wire_req_id: u64,
    responder: u64,
) -> bool {
    match cmd {
        Command::OpenOrder {
            asset: a,
            action: b,
            amount: c,
            time: d,
            req_id: e,
            wire_req_id: f,
            responder: g,
        } => a@ == asset && b == action && c == amount && d == time && e == req_id && f
            == wire_req_id && g == responder,
    }
}

/// The module once an order is sent.
pub open spec fn ordered(
    trades: TradesView,
    asset: Seq<char>,
    amount: Decimal,
    req_id: u128,
    wire_req_id: u64,
    responder: u64,
) -> TradesView {
    TradesView {
        pending: trades.pending.insert(req_id, TrackerView { asset, amount, responder }),
        wire: trades.wire.insert(wire_req_id, req_id),
        queue: trades.queue.push(QueuedView { asset, amount, req_id }),
    }
}

/// The module once an order could not be sent.
pub open spec fn unsent(
    trades: TradesView,
    asset: Seq<char>,
    amount: Decimal,
    req_id: u128,
    wire_req_id: u64,
) -> TradesView {
    TradesView {
        pending: trades.pending.remove(req_id),
        wire: trades.wire.remove(wire_req_id),
        queue: without(trades.queue, asset, amount, req_id),
    }
}

/// Which order a report is about, and who waits for it.
#[derive(Debug, Clone, Copy)]
pub struct Matched {
    pub req_id: Option<u128>,
    pub responder: Option<u64>,
}

/// Which order a success is about, and the module once it is looked up.
pub open spec fn correlated(trades: TradesView, deal: DealView) -> (TradesView, Option<u128>) {
    match deal.request_id {
        Some(RequestId::Uuid(id)) => (trades, Some(id)),
        Some(RequestId::Number(n)) => (
            TradesView { wire: trades.wire.remove(n), ..trades },
            if trades.wire.dom().contains(n) {
                Some(trades.wire[n])
            } else {
                None
            },
        ),
        None => {
            let (queue, id) = popped(trades.queue, deal.asset, deal.amount);
            (TradesView { queue, ..trades }, id)
        },
    }
}

/// Who waits for an order.
pub open spec fn waiter(trades: TradesView, req_id: Option<u128>) -> Option<u64> {
    if req_id is Some && trades.pending.dom().contains(req_id->0) {
        Some(trades.pending[req_id->0].responder)
    } else {
        None
    }
}

/// What a success does: its order is no longer pending and leaves the line.
pub open spec fn succeeded(trades: TradesView, deal: DealView) -> (TradesView, Matched) {
    let (found, req_id) = correlated(trades, deal);
    let responder = waiter(found, req_id);
    let after = if responder is Some {
        let tracker = found.pending[req_id->0];
        TradesView {
            pending: found.pending.remove(req_id->0),
            queue: without(found.queue, tracker.asset, tracker.amount, req_id->0),
            ..found
        }
    } else {
        found
    };
    (after, Matched { req_id, responder })
}

/// What a failure does: the oldest order of its asset and amount leaves the line and is no
/// longer pending.
pub open spec fn failed(trades: TradesView, asset: Seq<char>, amount: Decimal) -> (
    TradesView,
    Matched,
) {
    let (queue, req_id) = popped(trades.queue, asset, amount);
    let found = TradesView { queue, ..trades };
    let responder = waiter(found, req_id);
    let after = if responder is Some {
        TradesView { pending: found.pending.remove(req_id->0), ..found }
    } else {
        found
    };
    (after, Matched { req_id, responder })
}

/// Whether an event reports on an order.
pub open spec fn is_report_event(event: Option<Seq<char>>) -> bool {
    event == Some("successopenOrder"@) || event == Some("failopenOrder"@)
}

/// The report that a text carries which is no report by itself.
pub open spec fn trade_payload(text: Seq<char>) -> Option<Seq<char>> {
    match framed_array(text) {
        Some(items) => if items.len() >= 2 && is_report_event(json_text(items[0])) {
            Some(items[1])
        } else {
            None
        },
        None => None,
    }
}

/// Whether an event reports on an order.
pub fn reports_order(event: Option<String>) -> (r: bool)
    ensures
        r == is_report_event(text_view(event)),
{
    match event {
        Some(name) => same_text(name.as_str(), "successopenOrder") || same_text(
            name.as_str(),
            "failopenOrder",
        ),
        None => false,
    }
}

/// Reads the report that a text carries which is no report by itself.
pub fn read_trade_payload(text: &str) -> (r: Option<String>)
    ensures
        text_view(r) == trade_payload(text@),
{
    match read_framed_array(text) {
        Some(items) => {
            if items.len() < 2 {
                return None;
            }
            assert(texts(items@)[0] == items@[0]@);
            assert(texts(items@)[1] == items@[1]@);
            if reports_order(read_text(items[0].as_str())) {
                Some(items[1].clone())
            } else {
                None
            }
        },
        None => None,
    }
}

spec fn queue_view(queue: Seq<QueuedOrder>) -> Seq<QueuedView> {
    queue.map_values(|o: QueuedOrder| o.view())
}

fn order_is_of(order: &QueuedOrder, asset: &str, amount: Decimal) -> (r: bool)
    ensures
        r == is_of(order.view(), asset@, amount),
{
    same_text(order.asset.as_str(), asset) && !Decimal::less(order.amount, amount)
        && !Decimal::less(amount, order.amount)
}

proof fn lemma_oldest(queue: Seq<QueuedView>, asset: Seq<char>, amount: Decimal, at: int)
    requires
        is_oldest(queue, asset, amount, at),
    ensures
        popped(queue, asset, amount) == (queue.remove(at), Some(queue[at].req_id)),
{
    let other = choose|other: int| is_oldest(queue, asset, amount, other);
    assert(is_oldest(queue, asset, amount, other));
    assert(other == at) by {
        if other < at {
            assert(!is_of(queue[other], asset, amount));
        }
        if at < other {
            assert(!is_of(queue[at], asset, amount));
        }
    }
    assert(has_order(queue, asset, amount)) by {
        assert(is_of(queue[at], asset, amount));
    }
}

fn pop_oldest(queue: &mut Vec<QueuedOrder>, asset: &str, amount: Decimal) -> (r: Option<u128>)
    ensures
        (queue_view(final(queue)@), r) == popped(queue_view(old(queue)@), asset@, amount),
{
    let ghost before = queue_view(queue@);
    let mut i: usize = 0;
    while i < queue.len()
        invariant
            i <= queue@.len(),
            *queue == *old(queue),
            before == queue_view(queue@),
            forall|j: int| 0 <= j < i ==> !is_of(#[trigger] before[j], asset@, amount),
        decreases queue@.len() - i,
    {
        if order_is_of(&queue[i], asset, amount) {
            proof {
                assert(before[i as int] == queue@[i as int].view());
                assert(is_oldest(before, asset@, amount, i as int));
                lemma_oldest(before, asset@, amount, i as int);
            }
            let order = queue.remove(i);
            assert(queue_view(queue@) =~= before.remove(i as int));
            return Some(order.req_id);
        }
        assert(before[i as int] == queue@[i as int].view());
        i += 1;
    }
    assert(!has_order(before, asset@, amount));
    None
}

fn remove_order(queue: &mut Vec<QueuedOrder>, asset: &str, amount: Decimal, req_id: u128)
    ensures
        queue_view(final(queue)@) == without(queue_view(old(queue)@), asset@, amount, req_id),
{
    let ghost before = queue_view(queue@);
    let ghost mut done: int = 0;
    let mut i: usize = 0;
    assert(before.take(0) =~= Seq::<QueuedView>::empty());
    assert(before.skip(0) =~= before);
    while i < queue.len()
        invariant
            i <= queue@.len(),
            0 <= done <= before.len(),
            queue_view(queue@).take(i as int) == without(before.take(done), asset@, amount, req_id),
            queue_view(queue@).skip(i as int) == before.skip(done),
        decreases queue@.len() - i,
    {
        let ghost now = queue_view(queue@);
        proof {
            assert(now.skip(i as int)[0] == now[i as int]);
            assert(before.skip(done).len() == now.skip(i as int).len());
            assert(before.skip(done)[0] == before[done]);
            assert(before.take(done + 1).drop_last() =~= before.take(done));
            assert(before.take(done + 1).last() == now[i as int]);
            assert(before.skip(done).drop_first() =~= before.skip(done + 1));
        }
        if queue[i].req_id == req_id && order_is_of(&queue[i], asset, amount) {
            queue.remove(i);
            proof {
                let after = queue_view(queue@);
                assert(after =~= now.remove(i as int));
                assert(after.take(i as int) =~= now.take(i as int));
                assert(after.skip(i as int) =~= now.skip(i as int).drop_first());
            }
        } else {
            proof {
                assert(now.take(i + 1) =~= now.take(i as int).push(now[i as int]));
                assert(now.skip(i + 1) =~= now.skip(i as int).drop_first());
            }
            i += 1;
        }
        proof {
            done = done + 1;
        }
    }
    proof {
        assert(queue_view(queue@).skip(i as int).len() == 0);
        assert(done == before.len());
        assert(before.take(done) =~= before);
        assert(queue_view(queue@).take(i as int) =~= queue_view(queue@));
    }
}

impl TradesApiModule {
    pub closed spec fn view(&self) -> TradesView {
        TradesView {
            pending: self.pending_orders@.map_values(|t: PendingOrderTracker| t.view()),
            wire: self.wire_to_internal@,
            queue: queue_view(self.queue@),
        }
    }

    /// The JSON texts that may be a report, in the order in which they are tried.
    pub fn readings(msg: &Message) -> (r: Vec<String>)
        ensures
            texts(r@) == readings_of(
                msg@,
                match msg@ {
                    MessageView::Text(text) => trade_payload(text),
                    _ => None,
                },
            ),
    {
        let payload = match msg {
            Message::Text(text) => read_trade_payload(text.as_str()),
            _ => None,
        };
        message_readings(msg, payload)
    }

    pub fn new() -> (r: TradesApiModule)
        ensures
            r.view() == (TradesView {
                pending: Map::empty(),
                wire: Map::empty(),
                queue: Seq::empty(),
            }),
    {
        let r = TradesApiModule {
            pending_orders: HashMap::new(),
            wire_to_internal: HashMap::new(),
            queue: Vec::new(),
        };
        assert(r.view().pending =~= Map::<u128, TrackerView>::empty());
        assert(r.view().queue =~= Seq::<QueuedView>::empty());
        r
    }

    /// Takes an order and gives what is sent for it.
    pub fn open_order(&mut self, cmd: Command, is_demo: bool) -> (r: OrderRequest)
        ensures
            match cmd {
                Command::OpenOrder {
                    asset,
                    action,
                    amount,
                    time,
                    req_id,
                    wire_req_id,
                    responder,
                } => {
                    &&& final(self).view() == ordered(
                        old(self).view(),
                        asset@,
                        amount,
                        req_id,
                        wire_req_id,
                        responder,
                    )
                    &&& r.asset@ == asset@
                    &&& r.action == action
                    &&& r.amount == amount
                    &&& r.time == time
                    &&& r.is_demo == if is_demo {
                        1u32
                    } else {
                        0u32
                    }
                    &&& r.wire_req_id == wire_req_id
                },
            },
    {
        let Command::OpenOrder { asset, action, amount, time, req_id, wire_req_id, responder } =
            cmd;
        let ghost before = *self;
        let tracker = PendingOrderTracker { asset: asset.clone(), amount, responder };
        self.pending_orders.insert(req_id, tracker);
        self.wire_to_internal.insert(wire_req_id, req_id);
        self.queue.push(QueuedOrder { asset: asset.clone(), amount, req_id });
        proof {
            assert(self.view().pending =~= before.view().pending.insert(req_id, tracker.view()));
            assert(self.view().queue =~= before.view().queue.push(
                QueuedView { asset: asset@, amount, req_id },
            ));
        }
        OrderRequest {
            asset,
            action,
            amount,
            time,
            is_demo: if is_demo {
                1
            } else {
                0
            },
            wire_req_id,
        }
    }

    /// Takes back an order that could not be sent. Gives who is to be told.
    pub fn send_failed(&mut self, asset: &str, amount: Decimal, req_id: u128, wire_req_id: u64) -> (r:
        Option<u64>)
        ensures
            final(self).view() == unsent(old(self).view(), asset@, amount, req_id, wire_req_id),
            r == waiter(old(self).view(), Some(req_id)),
    {
        let ghost before = *self;
        let tracker = self.pending_orders.remove(&req_id);
        self.wire_to_internal.remove(&wire_req_id);
        remove_order(&mut self.queue, asset, amount, req_id);
        proof {
            assert(self.view().pending =~= before.view().pending.remove(req_id));
        }
        match tracker {
            Some(t) => Some(t.responder),
            None => None,
        }
    }

    /// Takes the report of an opened order. The order that it is about is looked up, and leaves
    /// the pending orders and the line.
    pub fn success(&mut self, deal: &Deal) -> (r: Matched)
        ensures
            (final(self).view(), r) == succeeded(old(self).view(), deal@),
    {
        let ghost before = *self;
        let req_id = match deal.request_id {
            Some(RequestId::Uuid(id)) => Some(id),
            Some(RequestId::Number(n)) => self.wire_to_internal.remove(&n),
            None => pop_oldest(&mut self.queue, deal.asset.as_str(), deal.amount),
        };
        let ghost found = *self;
        proof {
            assert(found.view() == correlated(before.view(), deal@).0);
            assert(req_id == correlated(before.view(), deal@).1);
        }
        let responder = match req_id {
            Some(id) => match self.pending_orders.remove(&id) {
                Some(tracker) => {
                    remove_order(&mut self.queue, tracker.asset.as_str(), tracker.amount, id);
                    proof {
                        assert(found.view().pending[id] == tracker.view());
                        assert(self.view().pending =~= found.view().pending.remove(id));
                    }
                    Some(tracker.responder)
                },
                None => {
                    assert(self.view().pending =~= found.view().pending);
                    None
                },
            },
            None => None,
        };
        Matched { req_id, responder }
    }

    /// Takes the report of a refused order. The oldest order of its asset and amount leaves the
    /// line and the pending orders.
    pub fn failure(&mut self, asset: &str, amount: Decimal) -> (r: Matched)
        ensures
            (final(self).view(), r) == failed(old(self).view(), asset@, amount),
    {
        let req_id = pop_oldest(&mut self.queue, asset, amount);
        let ghost found = *self;
        let responder = match req_id {
            Some(id) => match self.pending_orders.remove(&id) {
                Some(tracker) => {
                    proof {
                        assert(found.view().pending[id] == tracker.view());
                        assert(self.view().pending =~= found.view().pending.remove(id));
                    }
                    Some(tracker.responder)
                },
                None => {
                    assert(self.view().pending =~= found.view().pending);
                    None
                },
            },
            None => None,
        };
        Matched { req_id, responder }
    }

    /// What whoever waits for a refused order is told.
    pub fn refusal(fail: &FailOpenOrder) -> (r: PocketError)
        ensures
            r matches PocketError::FailOpenOrder { error, amount, asset } && error@ == fail.error@
                && amount == fail.amount && asset@ == fail.asset@,
    {
        PocketError::FailOpenOrder {
            error: fail.error.clone(),
            amount: fail.amount,
            asset: fail.asset.clone(),
        }
    }
}

/// Waits for the outcome of an order.
pub struct TradesHandle;

impl TradesHandle {
    /// The command that places a trade under given identifiers.
    pub fn trade_with_id(
        asset: String,
        action: Action,
        amount: Decimal,
        time: u32,
        req_id: u128,
        wire_req_id: u64,
        responder: u64,
    ) -> (r: Command)
        ensures
            asks_for(r, asset@, action, amount, time, req_id, wire_req_id, responder),
    {
        Command::OpenOrder { asset, action, amount, time, req_id, wire_req_id, responder }
    }

    /// The command that places a trade under a new identifier.
    pub fn trade(
        asset: String,
        action: Action,
        amount: Decimal,
        time: u32,
        wire_req_id: u64,
        responder: u64,
    ) -> (r: Command)
        ensures
            exists|req_id: u128| #[trigger]
                asks_for(r, asset@, action, amount, time, req_id, wire_req_id, responder),
    {
        TradesHandle::trade_with_id(
            asset,
            action,
            amount,
            time,
            new_uuid(),
            wire_req_id,
            responder,
        )
    }

    /// The command that bets on a rising price.
    pub fn buy(asset: String, amount: Decimal, time: u32, wire_req_id: u64, responder: u64) -> (r:
        Command)
        ensures
            exists|req_id: u128| #[trigger]
                asks_for(r, asset@, Action::Call, amount, time, req_id, wire_req_id, responder),
    {
        TradesHandle::trade(asset, Action::Call, amount, time, wire_req_id, responder)
    }

    /// The command that bets on a falling price.
    pub fn sell(asset: String, amount: Decimal, time: u32, wire_req_id: u64, responder: u64) -> (r:
        Command)
        ensures
            exists|req_id: u128| #[trigger]
                asks_for(r, asset@, Action::Put, amount, time, req_id, wire_req_id, responder),
    {
        TradesHandle::trade(asset, Action::Put, amount, time, wire_req_id, responder)
    }

    /// What an order comes to: the answer, or an error where the module is gone.
    pub fn trade_result(answer: Option<PocketResult<Deal>>) -> (r: PocketResult<Deal>)
        ensures
            match answer {
                Some(a) => r == a,
                None => r matches Err(e) && is_general(e, "TradesApiModule responder dropped"@),
            },
    {
        match answer {
            Some(a) => a,
            None => Err(PocketError::General("TradesApiModule responder dropped".to_owned())),
        }
    }
}

} // verus!
