//! What matching orders with reports is for, said of the orders themselves.

use crate::decimal::Decimal;
use crate::trades::failed;
use crate::trades::has_order;
use crate::trades::is_of;
use crate::trades::is_oldest;
use crate::trades::is_report_event;
use crate::trades::ordered;
use crate::trades::succeeded;
use crate::trades::unsent;
use crate::trades::without;
use crate::trades::QueuedView;
use crate::trades::TrackerView;
use crate::trades::TradesView;
use crate::types::DealView;
use crate::types::RequestId;
use vstd::prelude::*;

verus! {

/// A failure is of the order that has stood longest among those of its asset and its amount: this
/// order leaves the line, all others stay as they stand, and whoever waits for it is told.
pub proof fn law_failure_takes_the_oldest(
    trades: TradesView,
    asset: Seq<char>,
    amount: Decimal,
    at: int,
)
    requires
        0 <= at < trades.queue.len(),
        trades.queue[at].asset == asset,
        trades.queue[at].amount.units() == amount.units(),
        forall|i: int|
            0 <= i < at ==> (#[trigger] trades.queue[i]).asset != asset
                || trades.queue[i].amount.units() != amount.units(),
    ensures
        ({
            let id = trades.queue[at].req_id;
            let (after, matched) = failed(trades, asset, amount);
            &&& matched.req_id == Some(id)
            &&& after.queue == trades.queue.remove(at)
            &&& after.wire == trades.wire
            &&& trades.pending.dom().contains(id) ==> matched.responder == Some(
                trades.pending[id].responder,
            ) && after.pending == trades.pending.remove(id)
            &&& !trades.pending.dom().contains(id) ==> matched.responder is None && after.pending
                == trades.pending
        }),
{
    assert(is_of(trades.queue[at], asset, amount));
    assert(is_oldest(trades.queue, asset, amount, at));
    assert(has_order(trades.queue, asset, amount));
    let found = choose|found: int| is_oldest(trades.queue, asset, amount, found);
    assert(is_oldest(trades.queue, asset, amount, found));
    assert(found == at);
}

/// A failure of an asset and an amount of which there is no order changes nothing and is told to
/// nobody.
pub proof fn law_failure_of_no_order(trades: TradesView, asset: Seq<char>, amount: Decimal)
    requires
        forall|i: int|
            0 <= i < trades.queue.len() ==> (#[trigger] trades.queue[i]).asset != asset
                || trades.queue[i].amount.units() != amount.units(),
    ensures
        failed(trades, asset, amount).0 == trades,
        failed(trades, asset, amount).1.req_id is None,
        failed(trades, asset, amount).1.responder is None,
{
}

proof fn lemma_without_is_filter(
    queue: Seq<QueuedView>,
    asset: Seq<char>,
    amount: Decimal,
    req_id: u128,
)
    ensures
        without(queue, asset, amount, req_id) == queue.filter(
            |o: QueuedView|
                !(o.asset == asset && o.amount.units() == amount.units() && o.req_id == req_id),
        ),
    decreases queue.len(),
{
    reveal(Seq::filter);
    if queue.len() > 0 {
        lemma_without_is_filter(queue.drop_last(), asset, amount, req_id);
    }
}

/// What a success does to the order that it names by its identifier: whoever waits for the order
/// is told, it is no longer pending, and of the line exactly what stands there for it is left out.
/// A success of an order that nobody waits for changes nothing.
pub proof fn law_success_takes_its_order(trades: TradesView, deal: DealView, id: u128)
    requires
        deal.request_id == Some(RequestId::Uuid(id)),
    ensures
        ({
            let (after, matched) = succeeded(trades, deal);
            &&& matched.req_id == Some(id)
            &&& trades.pending.dom().contains(id) ==> {
                let order = trades.pending[id];
                &&& matched.responder == Some(order.responder)
                &&& after.pending == trades.pending.remove(id)
                &&& after.wire == trades.wire
                &&& after.queue == trades.queue.filter(
                    |o: QueuedView|
                        !(o.asset == order.asset && o.amount.units() == order.amount.units()
                            && o.req_id == id),
                )
            }
            &&& !trades.pending.dom().contains(id) ==> matched.responder is None && after == trades
        }),
{
    if trades.pending.dom().contains(id) {
        let order = trades.pending[id];
        lemma_without_is_filter(trades.queue, order.asset, order.amount, id);
    }
}

/// A success that names an order by its number on the wire is one that names it by the identifier
/// that was sent under this number, which then stands for nothing. A number under which nothing was
/// sent is told to nobody.
pub proof fn law_success_by_number(trades: TradesView, deal: DealView, by_id: DealView, n: u64)
    requires
        deal.request_id == Some(RequestId::Number(n)),
        trades.wire.dom().contains(n) ==> by_id.request_id == Some(
            RequestId::Uuid(trades.wire[n]),
        ),
    ensures
        ({
            let (after, matched) = succeeded(trades, deal);
            let (after_id, matched_id) = succeeded(
                TradesView { wire: trades.wire.remove(n), ..trades },
                by_id,
            );
            &&& !after.wire.dom().contains(n)
            &&& trades.wire.dom().contains(n) ==> after == after_id && matched == matched_id
            &&& !trades.wire.dom().contains(n) ==> matched.req_id is None
                && matched.responder is None && after.pending == trades.pending && after.queue
                == trades.queue
        }),
{
}

/// A success that names no order is of the order that has stood longest among those of its asset
/// and its amount.
pub proof fn law_nameless_success_takes_the_oldest(trades: TradesView, deal: DealView, at: int)
    requires
        deal.request_id is None,
        0 <= at < trades.queue.len(),
        trades.queue[at].asset == deal.asset,
        trades.queue[at].amount.units() == deal.amount.units(),
        forall|i: int|
            0 <= i < at ==> (#[trigger] trades.queue[i]).asset != deal.asset
                || trades.queue[i].amount.units() != deal.amount.units(),
    ensures
        ({
            let id = trades.queue[at].req_id;
            let (after, matched) = succeeded(trades, deal);
            &&& matched.req_id == Some(id)
            &&& trades.pending.dom().contains(id) ==> matched.responder == Some(
                trades.pending[id].responder,
            ) && after.pending == trades.pending.remove(id)
            &&& !trades.pending.dom().contains(id) ==> matched.responder is None && after.pending
                == trades.pending && after.queue == trades.queue.remove(at)
        }),
{
    law_failure_takes_the_oldest(trades, deal.asset, deal.amount, at);
}

/// An order that is sent is pending for whoever asked for it, stands last in the line, and is known
/// by its number on the wire. Nothing else changes.
pub proof fn law_orders_are_kept(
    trades: TradesView,
    asset: Seq<char>,
    amount: Decimal,
    req_id: u128,
    wire_req_id: u64,
    responder: u64,
)
    ensures
        ({
            let after = ordered(trades, asset, amount, req_id, wire_req_id, responder);
            &&& after.pending.dom() == trades.pending.dom().insert(req_id)
            &&& after.pending[req_id] == TrackerView { asset, amount, responder }
            &&& forall|id: u128|
                id != req_id && trades.pending.dom().contains(id) ==> #[trigger] after.pending[id]
                    == trades.pending[id]
            &&& after.wire.dom() == trades.wire.dom().insert(wire_req_id)
            &&& after.wire[wire_req_id] == req_id
            &&& forall|n: u64|
                n != wire_req_id && trades.wire.dom().contains(n) ==> #[trigger] after.wire[n]
                    == trades.wire[n]
            &&& after.queue.len() == trades.queue.len() + 1
            &&& after.queue.last() == QueuedView { asset, amount, req_id }
            &&& after.queue.drop_last() == trades.queue
        }),
{
    let after = ordered(trades, asset, amount, req_id, wire_req_id, responder);
    assert(after.queue.drop_last() =~= trades.queue);
}

/// An order that could not be sent is neither pending nor known by its number, and what stands in
/// the line for it is left out. Nothing else changes.
pub proof fn law_unsent_orders_are_dropped(
    trades: TradesView,
    asset: Seq<char>,
    amount: Decimal,
    req_id: u128,
    wire_req_id: u64,
)
    ensures
        ({
            let after = unsent(trades, asset, amount, req_id, wire_req_id);
            &&& !after.pending.dom().contains(req_id)
            &&& forall|id: u128|
                id != req_id && trades.pending.dom().contains(id) ==> after.pending.dom().contains(
                    id,
                ) && #[trigger] after.pending[id] == trades.pending[id]
            &&& !after.wire.dom().contains(wire_req_id)
            &&& forall|n: u64|
                n != wire_req_id && trades.wire.dom().contains(n) ==> after.wire.dom().contains(n)
                    && #[trigger] after.wire[n] == trades.wire[n]
            &&& after.queue == trades.queue.filter(
                |o: QueuedView|
                    !(o.asset == asset && o.amount.units() == amount.units() && o.req_id
                        == req_id),
            )
        }),
{
    lemma_without_is_filter(trades.queue, asset, amount, req_id);
}

/// The events that report on orders are those of a success and of a failure, and no others.
pub proof fn law_report_events(name: Seq<char>)
    ensures
        is_report_event(Some("successopenOrder"@)),
        is_report_event(Some("failopenOrder"@)),
        is_report_event(Some(name)) ==> name == "successopenOrder"@ || name == "failopenOrder"@,
        !is_report_event(None),
{
}

} // verus!
