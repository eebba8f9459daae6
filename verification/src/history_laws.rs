//! What holds of requests for historical data over any course of events.

use crate::historical_data::requested;
use crate::historical_data::response_step;
use crate::historical_data::Command;
use crate::historical_data::CommandResponseView;
use crate::historical_data::PendingView;
use crate::historical_data::RequestType;
use crate::historical_data::ServerResponse;
use vstd::prelude::*;

verus! {

/// What happens to the module: it takes a command, or a message in which there may be a response
/// of the exchange.
pub enum HistoryEvent {
    Asked(Command),
    Heard(Option<ServerResponse>),
}

/// What an event makes of the open request, and what is answered.
pub open spec fn event_step(pending: Option<PendingView>, event: HistoryEvent) -> (
    Option<PendingView>,
    Option<CommandResponseView>,
) {
    match event {
        HistoryEvent::Asked(cmd) => (Some(requested(cmd)), None),
        HistoryEvent::Heard(Some(response)) => response_step(pending, response),
        HistoryEvent::Heard(None) => (pending, None),
    }
}

/// The request that is open after some events.
pub open spec fn open_after(events: Seq<HistoryEvent>) -> Option<PendingView>
    decreases events.len(),
{
    if events.len() == 0 {
        None
    } else {
        event_step(open_after(events.drop_last()), events.last()).0
    }
}

/// What is answered to one of some events.
pub open spec fn answer_at(events: Seq<HistoryEvent>, i: int) -> Option<CommandResponseView> {
    event_step(open_after(events.take(i)), events[i]).1
}

/// The request of the last command among some events.
pub open spec fn last_asked(events: Seq<HistoryEvent>) -> Option<PendingView>
    decreases events.len(),
{
    if events.len() == 0 {
        None
    } else {
        match events.last() {
            HistoryEvent::Asked(cmd) => Some(requested(cmd)),
            _ => last_asked(events.drop_last()),
        }
    }
}

/// The request that data is for, and of what kind it is. An error is no data.
pub open spec fn data_for(answer: CommandResponseView) -> Option<(u128, RequestType)> {
    match answer {
        CommandResponseView::Ticks(id, _) => Some((id, RequestType::Ticks)),
        CommandResponseView::Candles(id, _) => Some((id, RequestType::Candles)),
        CommandResponseView::HistoryPoints(id, _) => Some((id, RequestType::HistoryPoints)),
        CommandResponseView::HistoryOhlc(id, _) => Some((id, RequestType::HistoryOhlc)),
        CommandResponseView::Error(_) => None,
    }
}

/// The request that is given data at one of some events, and the kind of the data.
pub open spec fn data_at(events: Seq<HistoryEvent>, i: int) -> Option<(u128, RequestType)> {
    match answer_at(events, i) {
        Some(answer) => data_for(answer),
        None => None,
    }
}

/// Whether no two commands have the same identifier.
pub open spec fn distinct_requests(events: Seq<HistoryEvent>) -> bool {
    forall|i: int, j: int|
        0 <= i < j < events.len() ==> match (#[trigger] events[i], #[trigger] events[j]) {
            (HistoryEvent::Asked(a), HistoryEvent::Asked(b)) => requested(a).req_id != requested(
                b,
            ).req_id,
            _ => true,
        }
}

/// An open request is that of the last command.
proof fn lemma_open_is_last_asked(events: Seq<HistoryEvent>)
    ensures
        open_after(events) is Some ==> open_after(events) == last_asked(events),
    decreases events.len(),
{
    if events.len() > 0 {
        lemma_open_is_last_asked(events.drop_last());
    }
}

/// Whether a command that makes a request is among some events, from a place on.
pub open spec fn asked_since(events: Seq<HistoryEvent>, from: int, request: PendingView) -> bool {
    exists|k: int|
        from <= k < events.len() && (#[trigger] events[k] matches HistoryEvent::Asked(cmd)
            && requested(cmd) == request)
}

/// A request that is open after some events, and was not after the first of them, was asked for
/// in between.
proof fn lemma_asked_since(events: Seq<HistoryEvent>, from: int)
    requires
        0 <= from <= events.len(),
        open_after(events.take(from)) is None,
    ensures
        open_after(events) matches Some(p) ==> asked_since(events, from, p),
    decreases events.len(),
{
    if from == events.len() {
        assert(events.take(from) =~= events);
    } else {
        let earlier = events.drop_last();
        assert(earlier.take(from) =~= events.take(from));
        lemma_asked_since(earlier, from);
        if let Some(p) = open_after(events) {
            if events.last() is Asked {
                assert(events[events.len() - 1] == events.last());
                assert(asked_since(events, from, p));
            } else {
                assert(open_after(earlier) == Some(p));
                let k = choose|k: int|
                    from <= k < earlier.len() && (#[trigger] earlier[k] matches HistoryEvent::Asked(
                        cmd,
                    ) && requested(cmd) == p);
                assert(events[k] == earlier[k]);
                assert(asked_since(events, from, p));
            }
        }
    }
}

/// Whatever the course of events, data is for the last command before the message that brings it:
/// it carries its identifier and is what it asks for, and a history that brings it is of its
/// asset and its period.
pub proof fn law_data_is_for_the_last_command(events: Seq<HistoryEvent>, i: int)
    requires
        0 <= i < events.len(),
        data_at(events, i) is Some,
    ensures
        last_asked(events.take(i)) matches Some(p) && data_at(events, i) == Some((p.req_id, p.kind))
            && match events[i] {
            HistoryEvent::Heard(Some(ServerResponse::History(h))) => h.asset@ == p.asset
                && h.period == p.period,
            HistoryEvent::Heard(Some(ServerResponse::Success(_))) => true,
            _ => false,
        },
{
    lemma_open_is_last_asked(events.take(i));
}

/// Whatever the course of events, no request is given data twice.
pub proof fn law_no_request_gets_data_twice(events: Seq<HistoryEvent>, i: int, j: int)
    requires
        distinct_requests(events),
        0 <= i < j < events.len(),
        data_at(events, i) is Some,
        data_at(events, j) is Some,
    ensures
        (data_at(events, i)->0).0 != (data_at(events, j)->0).0,
{
    let first = open_after(events.take(i));
    let second = open_after(events.take(j));
    assert(events.take(0) =~= Seq::<HistoryEvent>::empty());
    assert(events.take(i).take(0) =~= events.take(0));
    lemma_asked_since(events.take(i), 0);
    assert(events.take(i + 1).drop_last() =~= events.take(i));
    assert(open_after(events.take(i + 1)) is None);
    assert(events.take(j).take(i + 1) =~= events.take(i + 1));
    lemma_asked_since(events.take(j), i + 1);
    let a = choose|k: int|
        0 <= k < i && (#[trigger] events.take(i)[k] matches HistoryEvent::Asked(cmd) && requested(
            cmd,
        ) == first->0);
    let b = choose|k: int|
        i + 1 <= k < j && (#[trigger] events.take(j)[k] matches HistoryEvent::Asked(cmd)
            && requested(cmd) == second->0);
    assert(events[a] == events.take(i)[a]);
    assert(events[b] == events.take(j)[b]);
}

} // verus!
