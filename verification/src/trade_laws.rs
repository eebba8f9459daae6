//! What holds of every order.

use crate::decimal::Decimal;
use crate::trades::failed;
use crate::trades::has_order;
use crate::trades::is_of;
use crate::trades::is_oldest;
use crate::trades::line;
use crate::trades::ordered;
use crate::trades::popped;
use crate::trades::succeeded;
use crate::trades::unsent;
use crate::trades::without;
use crate::trades::QueuedView;
use crate::trades::TradesView;
use crate::types::DealView;
use crate::types::RequestId;
use vstd::prelude::*;

verus! {

proof fn lemma_line_split(a: Seq<QueuedView>, b: Seq<QueuedView>, asset: Seq<char>, amount: Decimal)
    ensures
        line(a + b, asset, amount) == line(a, asset, amount) + line(b, asset, amount),
    decreases b.len(),
{
    if b.len() == 0 {
        assert(a + b =~= a);
        assert(line(a, asset, amount) + line(b, asset, amount) =~= line(a, asset, amount));
    } else {
        lemma_line_split(a, b.drop_last(), asset, amount);
        assert((a + b).drop_last() =~= a + b.drop_last());
        assert(line(a + b, asset, amount) =~= line(a, asset, amount) + line(b, asset, amount));
    }
}

proof fn lemma_line_empty(queue: Seq<QueuedView>, asset: Seq<char>, amount: Decimal)
    requires
        forall|i: int| 0 <= i < queue.len() ==> !is_of(#[trigger] queue[i], asset, amount),
    ensures
        line(queue, asset, amount).len() == 0,
    decreases queue.len(),
{
    if queue.len() > 0 {
        assert(!is_of(queue[queue.len() - 1], asset, amount));
        assert forall|i: int| 0 <= i < queue.drop_last().len() implies !is_of(
            #[trigger] queue.drop_last()[i],
            asset,
            amount,
        ) by {
            assert(!is_of(queue[i], asset, amount));
        }
        lemma_line_empty(queue.drop_last(), asset, amount);
    }
}

proof fn lemma_line_one(order: QueuedView, asset: Seq<char>, amount: Decimal)
    ensures
        line(seq![order], asset, amount) == if is_of(order, asset, amount) {
            seq![order.req_id]
        } else {
            Seq::empty()
        },
{
    reveal_with_fuel(line, 2);
    assert(seq![order].drop_last() =~= Seq::<QueuedView>::empty());
    assert(line(seq![order], asset, amount) =~= if is_of(order, asset, amount) {
        seq![order.req_id]
    } else {
        Seq::empty()
    });
}

proof fn lemma_oldest_exists(queue: Seq<QueuedView>, asset: Seq<char>, amount: Decimal) -> (at: int)
    requires
        has_order(queue, asset, amount),
    ensures
        is_oldest(queue, asset, amount, at),
    decreases queue.len(),
{
    if has_order(queue.drop_last(), asset, amount) {
        let at = lemma_oldest_exists(queue.drop_last(), asset, amount);
        assert(is_oldest(queue, asset, amount, at)) by {
            assert forall|i: int| 0 <= i < at implies !is_of(#[trigger] queue[i], asset, amount) by {
                assert(!is_of(queue.drop_last()[i], asset, amount));
            }
        }
        at
    } else {
        let at = queue.len() - 1;
        let i = choose|i: int| 0 <= i < queue.len() && is_of(#[trigger] queue[i], asset, amount);
        assert forall|j: int| 0 <= j < at implies !is_of(#[trigger] queue[j], asset, amount) by {
            if is_of(queue[j], asset, amount) {
                assert(is_of(queue.drop_last()[j], asset, amount));
                assert(has_order(queue.drop_last(), asset, amount));
            }
        }
        assert(i == at);
        at
    }
}

/// Reports without an identifier go to the orders of their asset and amount in the order in
/// which these were made. Orders of other assets and amounts keep their places.
pub proof fn law_first_in_first_out(
    queue: Seq<QueuedView>,
    asset: Seq<char>,
    amount: Decimal,
    other_asset: Seq<char>,
    other_amount: Decimal,
)
    ensures
        line(queue, asset, amount).len() == 0 ==> popped(queue, asset, amount).1 is None,
        line(queue, asset, amount).len() > 0 ==> popped(queue, asset, amount).1 == Some(
            line(queue, asset, amount)[0],
        ) && line(popped(queue, asset, amount).0, asset, amount) == line(
            queue,
            asset,
            amount,
        ).drop_first(),
        asset != other_asset || amount.units() != other_amount.units() ==> line(
            popped(queue, asset, amount).0,
            other_asset,
            other_amount,
        ) == line(queue, other_asset, other_amount),
{
    if has_order(queue, asset, amount) {
        let at = choose|at: int| is_oldest(queue, asset, amount, at);
        let witness = lemma_oldest_exists(queue, asset, amount);
        assert(is_oldest(queue, asset, amount, witness));
        assert(is_oldest(queue, asset, amount, at));
        let head = queue.take(at);
        let tail = queue.skip(at + 1);
        let order = queue[at];
        assert(queue =~= head + seq![order] + tail);
        assert(queue.remove(at) =~= head + tail);
        assert forall|i: int| 0 <= i < head.len() implies !is_of(#[trigger] head[i], asset, amount) by {
            assert(!is_of(queue[i], asset, amount));
        }
        lemma_line_empty(head, asset, amount);
        lemma_line_split(head, seq![order], asset, amount);
        lemma_line_split(head + seq![order], tail, asset, amount);
        lemma_line_split(head, tail, asset, amount);
        lemma_line_one(order, asset, amount);
        let whole = line(queue, asset, amount);
        assert(whole =~= seq![order.req_id] + line(tail, asset, amount));
        assert(whole.drop_first() =~= line(tail, asset, amount));
        assert(line(head, asset, amount) + line(tail, asset, amount) =~= line(tail, asset, amount));
        if asset != other_asset || amount.units() != other_amount.units() {
            lemma_line_split(head, seq![order], other_asset, other_amount);
            lemma_line_split(head + seq![order], tail, other_asset, other_amount);
            lemma_line_split(head, tail, other_asset, other_amount);
            lemma_line_one(order, other_asset, other_amount);
            assert(!is_of(order, other_asset, other_amount));
            assert(line(head, other_asset, other_amount) + line(
                seq![order],
                other_asset,
                other_amount,
            ) + line(tail, other_asset, other_amount) =~= line(head, other_asset, other_amount)
                + line(tail, other_asset, other_amount));
        }
    } else {
        assert forall|i: int| 0 <= i < queue.len() implies !is_of(#[trigger] queue[i], asset, amount) by {
            if is_of(queue[i], asset, amount) {
                assert(has_order(queue, asset, amount));
            }
        }
        lemma_line_empty(queue, asset, amount);
    }
}

proof fn lemma_without_line(
    queue: Seq<QueuedView>,
    asset: Seq<char>,
    amount: Decimal,
    req_id: u128,
)
    ensures
        !line(without(queue, asset, amount, req_id), asset, amount).contains(req_id),
    decreases queue.len(),
{
    if queue.len() > 0 {
        let t = queue.drop_last();
        lemma_without_line(t, asset, amount, req_id);
        let rest = without(t, asset, amount, req_id);
        let last = queue.last();
        if is_of(last, asset, amount) && last.req_id == req_id {
        } else {
            assert(rest.push(last).drop_last() =~= rest);
            let l = line(rest, asset, amount);
            if is_of(last, asset, amount) {
                assert forall|i: int| 0 <= i < l.push(last.req_id).len() implies l.push(
                    last.req_id,
                )[i] != req_id by {
                    if i < l.len() {
                        assert(l.contains(l[i]));
                    }
                }
            }
        }
    }
}

proof fn lemma_without_fresh(
    queue: Seq<QueuedView>,
    asset: Seq<char>,
    amount: Decimal,
    req_id: u128,
)
    requires
        forall|i: int| 0 <= i < queue.len() ==> (#[trigger] queue[i]).req_id != req_id,
    ensures
        without(queue, asset, amount, req_id) == queue,
    decreases queue.len(),
{
    if queue.len() > 0 {
        let t = queue.drop_last();
        assert forall|i: int| 0 <= i < t.len() implies (#[trigger] t[i]).req_id != req_id by {
            assert(queue[i].req_id != req_id);
        }
        lemma_without_fresh(t, asset, amount, req_id);
        assert(queue[queue.len() - 1].req_id != req_id);
        assert(t.push(queue.last()) =~= queue);
    }
}

/// An order that could not be sent leaves no trace, if its identifiers are new.
pub proof fn law_unsent_order_leaves_no_trace(
    trades: TradesView,
    asset: Seq<char>,
    amount: Decimal,
    req_id: u128,
    wire_req_id: u64,
    responder: u64,
)
    requires
        !trades.pending.dom().contains(req_id),
        !trades.wire.dom().contains(wire_req_id),
        forall|i: int| 0 <= i < trades.queue.len() ==> (#[trigger] trades.queue[i]).req_id != req_id,
    ensures
        unsent(
            ordered(trades, asset, amount, req_id, wire_req_id, responder),
            asset,
            amount,
            req_id,
            wire_req_id,
        ) == trades,
{
    let order = QueuedView { asset, amount, req_id };
    let longer = trades.queue.push(order);
    lemma_without_fresh(trades.queue, asset, amount, req_id);
    assert(longer.drop_last() =~= trades.queue);
    let sent = ordered(trades, asset, amount, req_id, wire_req_id, responder);
    assert(sent.pending.remove(req_id) =~= trades.pending);
    assert(sent.wire.remove(wire_req_id) =~= trades.wire);
}

/// The success of an order, named by its identifier or by its number on the wire, is told to
/// whoever made the order. The order is then no longer pending, and no later failure is taken
/// to be about it.
pub proof fn law_success_answers_order(
    trades: TradesView,
    asset: Seq<char>,
    amount: Decimal,
    req_id: u128,
    wire_req_id: u64,
    responder: u64,
    deal: DealView,
)
    requires
        deal.request_id == Some(RequestId::Uuid(req_id)) || deal.request_id == Some(
            RequestId::Number(wire_req_id),
        ),
    ensures
        ({
            let sent = ordered(trades, asset, amount, req_id, wire_req_id, responder);
            let (after, matched) = succeeded(sent, deal);
            &&& matched.req_id == Some(req_id)
            &&& matched.responder == Some(responder)
            &&& !after.pending.dom().contains(req_id)
            &&& !line(after.queue, asset, amount).contains(req_id)
        }),
{
    let sent = ordered(trades, asset, amount, req_id, wire_req_id, responder);
    lemma_without_line(sent.queue, asset, amount, req_id);
}

/// An order is answered once: a report of an order that is no longer pending is told to nobody.
pub proof fn law_order_is_answered_once(trades: TradesView, deal: DealView, again: DealView)
    requires
        succeeded(trades, deal).1.responder is Some,
        again.request_id == Some(RequestId::Uuid(succeeded(trades, deal).1.req_id->0)),
    ensures
        succeeded(succeeded(trades, deal).0, again).1.responder is None,
{
}

/// A failure is told to whoever made the oldest order of its asset and amount, and to nobody
/// else. That order is then no longer pending.
pub proof fn law_failure_answers_oldest_order(
    trades: TradesView,
    asset: Seq<char>,
    amount: Decimal,
)
    requires
        line(trades.queue, asset, amount).len() > 0,
        trades.pending.dom().contains(line(trades.queue, asset, amount)[0]),
    ensures
        ({
            let first = line(trades.queue, asset, amount)[0];
            let (after, matched) = failed(trades, asset, amount);
            &&& matched.req_id == Some(first)
            &&& matched.responder == Some(trades.pending[first].responder)
            &&& after.pending == trades.pending.remove(first)
            &&& line(after.queue, asset, amount) == line(trades.queue, asset, amount).drop_first()
        }),
{
    law_first_in_first_out(trades.queue, asset, amount, asset, amount);
}

} // verus!
