//! What holds of all deals.

use crate::deals::after_pattern;
use crate::deals::announces_binary;
use crate::deals::awaited;
use crate::deals::closed;
use crate::deals::deals_header;
use crate::deals::deals_message_step;
use crate::deals::deals_outcome;
use crate::deals::deals_rule_step;
use crate::deals::is_bare;
use crate::deals::is_event;
use crate::deals::told;
use crate::deals::unclosed;
use crate::deals::DealsActionView;
use crate::deals::DealsOutcomeView;
use crate::deals::DealsUpdateRuleView;
use crate::deals::ExpectedMessage;
use crate::deals::SUCCESS_CLOSE_ORDER;
use crate::deals::UPDATE_CLOSED_DEALS;
use crate::deals::UPDATE_OPENED_DEALS;
use crate::message::MessageView;
use crate::text::begins_with;
use crate::text::finishes_with;
use crate::text::occurs_at;
use crate::text::trimmed;
use crate::text::trimmed_front;
use crate::types::DealView;
use vstd::prelude::*;

verus! {

/// Once deals are closed nobody waits for them any longer, and whoever waits for another deal
/// still does.
pub proof fn law_closed_deals_are_settled(
    waiting: Map<u128, Seq<u64>>,
    deals: Seq<DealView>,
    id: u128,
)
    ensures
        (exists|n: int| 0 <= n < deals.len() && (#[trigger] deals[n]).id == id) ==> !closed(
            waiting,
            deals,
        ).0.dom().contains(id),
        (forall|n: int| 0 <= n < deals.len() ==> (#[trigger] deals[n]).id != id) ==> (closed(
            waiting,
            deals,
        ).0.dom().contains(id) <==> waiting.dom().contains(id)) && (waiting.dom().contains(id)
            ==> closed(waiting, deals).0[id] == waiting[id]),
        closed(waiting, deals).0.dom().contains(id) ==> waiting.dom().contains(id) && closed(
            waiting,
            deals,
        ).0[id] == waiting[id],
    decreases deals.len(),
{
    if deals.len() > 0 {
        let t = deals.drop_last();
        law_closed_deals_are_settled(waiting, t, id);
        if exists|n: int| 0 <= n < deals.len() && (#[trigger] deals[n]).id == id {
            let n = choose|n: int| 0 <= n < deals.len() && (#[trigger] deals[n]).id == id;
            if n < t.len() {
                assert(t[n].id == id);
            }
        }
        if forall|n: int| 0 <= n < deals.len() ==> (#[trigger] deals[n]).id != id {
            assert forall|n: int| 0 <= n < t.len() implies (#[trigger] t[n]).id != id by {
                assert(deals[n].id != id);
            }
            assert(deals[deals.len() - 1].id != id);
        }
    }
}

/// Everyone who waits for a deal is told of it when it closes.
pub proof fn law_waiters_hear_results(
    waiting: Map<u128, Seq<u64>>,
    deals: Seq<DealView>,
    n: int,
    w: int,
)
    requires
        0 <= n < deals.len(),
        forall|m: int| 0 <= m < n ==> (#[trigger] deals[m]).id != deals[n].id,
        waiting.dom().contains(deals[n].id),
        0 <= w < waiting[deals[n].id].len(),
    ensures
        closed(waiting, deals).1.contains((waiting[deals[n].id][w], deals[n])),
    decreases deals.len(),
{
    let t = deals.drop_last();
    let (before, answers) = closed(waiting, t);
    let all = closed(waiting, deals).1;
    let wanted = (waiting[deals[n].id][w], deals[n]);
    if n < t.len() {
        assert forall|m: int| 0 <= m < n implies (#[trigger] t[m]).id != t[n].id by {
            assert(deals[m].id != deals[n].id);
        }
        law_waiters_hear_results(waiting, t, n, w);
        let k = answers.index_of(wanted);
        assert(all[k] == wanted);
    } else {
        assert forall|m: int| 0 <= m < t.len() implies (#[trigger] t[m]).id != deals[n].id by {
            assert(deals[m].id != deals[n].id);
        }
        law_closed_deals_are_settled(waiting, t, deals[n].id);
        assert(told(before[deals[n].id], deals[n])[w] == wanted);
        assert(all[answers.len() + w] == wanted);
    }
}

/// Nobody is told of a deal who does not wait for it.
pub proof fn law_only_waiters_hear(
    waiting: Map<u128, Seq<u64>>,
    deals: Seq<DealView>,
    k: int,
)
    requires
        0 <= k < closed(waiting, deals).1.len(),
    ensures
        ({
            let (w, deal) = closed(waiting, deals).1[k];
            waiting.dom().contains(deal.id) && waiting[deal.id].contains(w) && deals.contains(deal)
        }),
    decreases deals.len(),
{
    if deals.len() > 0 {
        let t = deals.drop_last();
        let (before, answers) = closed(waiting, t);
        let deal = deals.last();
        if k < answers.len() {
            law_only_waiters_hear(waiting, t, k);
            let found = answers[k].1;
            let n = t.index_of(found);
            assert(deals[n] == found);
        } else {
            law_closed_deals_are_settled(waiting, t, deal.id);
            let w = k - answers.len();
            assert(told(before[deal.id], deal)[w] == (before[deal.id][w], deal));
            assert(before[deal.id][w] == waiting[deal.id][w]);
            assert(deals[deals.len() - 1] == deal);
        }
    }
}

/// Whoever asks for the result of an open deal is told of it when it closes.
pub proof fn law_question_is_answered(
    waiting: Map<u128, Seq<u64>>,
    responder: u64,
    deal: DealView,
)
    ensures
        closed(awaited(waiting, deal.id, responder), seq![deal]).1.contains((responder, deal)),
{
    let now = awaited(waiting, deal.id, responder);
    let w = now[deal.id].len() - 1;
    assert(now[deal.id][w] == responder);
    law_waiters_hear_results(now, seq![deal], 0, w);
}

/// A header without data is followed by its data: the next text that is no header, or the next
/// binary message, is read as what the header says, and nothing is expected after it.
pub proof fn law_data_follows_header(
    expected: ExpectedMessage,
    header: Seq<char>,
    body: MessageView,
)
    requires
        deals_header(header) is Some,
        is_bare(trimmed((deals_header(header)->0).1)) || announces_binary(
            trimmed((deals_header(header)->0).1),
        ),
        body matches MessageView::Text(text) ==> deals_header(text) is None,
        body is Text || body is Binary,
    ensures
        ({
            let kind = (deals_header(header)->0).0;
            let (then_expected, at_header) = deals_message_step(
                expected,
                MessageView::Text(header),
            );
            let (after, at_body) = deals_message_step(then_expected, body);
            &&& at_header == DealsActionView::Await
            &&& after == ExpectedMessage::Nothing
            &&& at_body == match body {
                MessageView::Text(text) => DealsActionView::ReadText(kind, text),
                _ => DealsActionView::ReadBinary(kind),
            }
        }),
{
}

/// After a header without data the rule accepts the next message that is no event, and only
/// that one; events of other kinds that come in between are refused and change nothing.
pub proof fn law_rule_accepts_one_body(
    rule: DealsUpdateRuleView,
    header: Seq<char>,
    event: Seq<char>,
    body: MessageView,
    later: MessageView,
)
    requires
        after_pattern(rule.patterns, header) is Some,
        is_bare(trimmed(after_pattern(rule.patterns, header)->0)) || announces_binary(
            trimmed(after_pattern(rule.patterns, header)->0),
        ),
        after_pattern(rule.patterns, event) is None,
        is_event(event),
        body is Text || body is Binary,
        body matches MessageView::Text(text) ==> after_pattern(rule.patterns, text) is None
            && !is_event(text),
        later matches MessageView::Text(text) ==> after_pattern(rule.patterns, text) is None,
    ensures
        ({
            let (opened, at_header) = deals_rule_step(rule, MessageView::Text(header));
            let (still, at_event) = deals_rule_step(opened, MessageView::Text(event));
            let (done, at_body) = deals_rule_step(still, body);
            &&& at_header
            &&& !at_event && still == opened
            &&& at_body
            &&& !deals_rule_step(done, later).1
        }),
{
}

/// How data is read: as a report of closed orders, and as a list of deals.
pub type DealsReader = spec_fn(Seq<char>) -> (Option<Seq<DealView>>, Option<Seq<DealView>>);

/// What is expected after a message, who waits then, and what comes of data, where it is read.
pub open spec fn message_effect(
    expected: ExpectedMessage,
    waiting: Map<u128, Seq<u64>>,
    msg: MessageView,
    read: DealsReader,
) -> (ExpectedMessage, Map<u128, Seq<u64>>, Option<DealsOutcomeView>) {
    let (next, action) = deals_message_step(expected, msg);
    let reading = match action {
        DealsActionView::ReadText(kind, data) => Some((kind, read(data))),
        DealsActionView::ReadBinary(kind) => Some(
            (
                kind,
                match msg.text() {
                    Some(data) => read(data),
                    None => (None, None),
                },
            ),
        ),
        _ => None,
    };
    match reading {
        Some((kind, (close_order, list))) => {
            let (left, outcome) = deals_outcome(waiting, kind, close_order, list);
            (next, left, Some(outcome))
        },
        None => (next, waiting, None),
    }
}

/// The beginning of a text about deals.
pub open spec fn header_text(kind: ExpectedMessage) -> Seq<char> {
    match kind {
        ExpectedMessage::UpdateOpenedDeals => UPDATE_OPENED_DEALS@,
        ExpectedMessage::UpdateClosedDeals => UPDATE_CLOSED_DEALS@,
        ExpectedMessage::SuccessCloseOrder => SUCCESS_CLOSE_ORDER@,
        ExpectedMessage::Nothing => Seq::empty(),
    }
}

/// A text about deals with its data.
pub open spec fn one_step_text(kind: ExpectedMessage, data: Seq<char>) -> Seq<char> {
    header_text(kind) + (data + "]"@)
}

/// What stands in place of data that follow in a binary message.
pub open spec fn placeholder() -> Seq<char> {
    "{\"_placeholder\":true,\"num\":0}"@
}

/// A text about deals is known by its beginning.
proof fn lemma_header(kind: ExpectedMessage, rest: Seq<char>)
    requires
        kind != ExpectedMessage::Nothing,
    ensures
        deals_header(header_text(kind) + rest) == Some((kind, rest)),
{
    reveal_strlit("451-[\"updateOpenedDeals\",");
    reveal_strlit("451-[\"updateClosedDeals\",");
    reveal_strlit("451-[\"successcloseOrder\",");
    let text = header_text(kind) + rest;
    let header = header_text(kind);
    assert(text.subrange(0, header.len() as int) =~= header);
    assert(text.skip(header.len() as int) =~= rest);
    assert(text[6] == header[6] && text[12] == header[12]);
    if kind != ExpectedMessage::UpdateOpenedDeals && begins_with(text, UPDATE_OPENED_DEALS@) {
        let other = UPDATE_OPENED_DEALS@;
        assert(text.subrange(0, other.len() as int)[6] == other[6]);
        assert(text.subrange(0, other.len() as int)[12] == other[12]);
        assert(false);
    }
    if kind == ExpectedMessage::SuccessCloseOrder && begins_with(text, UPDATE_CLOSED_DEALS@) {
        let other = UPDATE_CLOSED_DEALS@;
        assert(text.subrange(0, other.len() as int)[6] == other[6]);
        assert(false);
    }
}

/// What is left of a text at whose beginning white space is passed over is the end of the text,
/// whatever is put behind it.
proof fn lemma_trimmed_front(s: Seq<char>, end: Seq<char>)
    requires
        end.len() > 0,
        trimmed_front(end) == end,
    ensures
        trimmed_front(s + end) == trimmed_front(s) + end,
        trimmed_front(s).len() <= s.len(),
        trimmed_front(s) == s.skip(s.len() - trimmed_front(s).len()),
    decreases s.len(),
{
    if s.len() > 0 && crate::text::is_white_space(s[0]) {
        lemma_trimmed_front(s.drop_first(), end);
        assert((s + end).drop_first() =~= s.drop_first() + end);
        assert(s.drop_first().skip(s.drop_first().len() - trimmed_front(s).len()) =~= s.skip(
            s.len() - trimmed_front(s).len(),
        ));
    } else if s.len() == 0 {
        assert(s + end =~= end);
        assert(trimmed_front(s) + end =~= end);
        assert(s.skip(0) =~= s);
    } else {
        assert((s + end)[0] == s[0]);
        assert(s.skip(0) =~= s);
    }
}

/// Data without a placeholder is read from its text at once, without white space at its
/// beginning.
proof fn lemma_one_step(expected: ExpectedMessage, kind: ExpectedMessage, data: Seq<char>)
    requires
        kind != ExpectedMessage::Nothing,
        !announces_binary(data),
        trimmed_front(data).len() > 0,
        trimmed_front(data) != ","@,
    ensures
        deals_message_step(expected, MessageView::Text(one_step_text(kind, data))) == (
            ExpectedMessage::Nothing,
            DealsActionView::ReadText(kind, trimmed_front(data)),
        ),
{
    let rest = data + "]"@;
    let body = trimmed_front(data);
    reveal_strlit("]");
    reveal_strlit(",");
    reveal_strlit(",]");
    reveal_strlit("\"_placeholder\":true");
    lemma_header(kind, rest);
    lemma_trimmed_front(data, "]"@);
    let all = body + "]"@;
    assert(all.last() == ']');
    assert(trimmed(rest) == all);
    assert(all.take(all.len() - 1) =~= body);
    assert(all.subrange(all.len() - 1, all.len() as int) =~= "]"@);
    assert(finishes_with(all, "]"@));
    assert(unclosed(all) == body);
    if is_bare(all) {
        if all == "]"@ {
            assert(all.len() == 1);
        } else {
            assert(all.len() == 2);
            assert(body =~= ","@) by {
                assert(body[0] == all[0]);
            }
        }
        assert(false);
    }
    if announces_binary(all) {
        let needle = "\"_placeholder\":true"@;
        let at = choose|at: int| occurs_at(all, needle, at);
        let found = all.subrange(at, at + needle.len());
        assert(found[needle.len() - 1] == all[at + needle.len() - 1]);
        assert(at + needle.len() <= body.len());
        let k = data.len() - body.len();
        assert(data.subrange(at + k, at + k + needle.len()) =~= found) by {
            assert forall|i: int| 0 <= i < needle.len() implies data[at + k + i] == #[trigger] found[i]
                by {
                assert(found[i] == all[at + i]);
                assert(all[at + i] == body[at + i]);
                assert(body[at + i] == data.skip(k)[at + i]);
            }
        }
        assert(occurs_at(data, needle, at + k));
        assert(false);
    }
}

/// A text with a placeholder in place of its data announces a binary message.
proof fn lemma_announcement(expected: ExpectedMessage, kind: ExpectedMessage)
    requires
        kind != ExpectedMessage::Nothing,
    ensures
        deals_message_step(expected, MessageView::Text(one_step_text(kind, placeholder()))) == (
            kind,
            DealsActionView::Await,
        ),
{
    let rest = placeholder() + "]"@;
    reveal_strlit("]");
    reveal_strlit("{\"_placeholder\":true,\"num\":0}");
    reveal_strlit("\"_placeholder\":true");
    lemma_header(kind, rest);
    assert(rest.last() == ']');
    assert(rest[0] == '{');
    assert(trimmed(rest) == rest);
    let needle = "\"_placeholder\":true"@;
    assert(rest.subrange(1, 1 + needle.len() as int) =~= needle);
    assert(occurs_at(rest, needle, 1));
}

/// Data that is announced by a text and follows in a binary message has the effect of a text that
/// holds it, whatever was expected before, and however data is read that passes over white space
/// at its beginning. The announcement by itself has none, nor has another binary message behind
/// it.
pub proof fn law_binary_data_counts_as_text(
    expected: ExpectedMessage,
    waiting: Map<u128, Seq<u64>>,
    kind: ExpectedMessage,
    data: Seq<char>,
    binary: MessageView,
    more: MessageView,
    read: DealsReader,
)
    requires
        kind != ExpectedMessage::Nothing,
        !announces_binary(data),
        trimmed_front(data).len() > 0,
        trimmed_front(data) != ","@,
        read(trimmed_front(data)) == read(data),
        binary is Binary,
        binary.text() == Some(data),
        more is Binary,
    ensures
        ({
            let header = MessageView::Text(one_step_text(kind, placeholder()));
            let text = MessageView::Text(one_step_text(kind, data));
            let (announced, waiting_then, at_header) = message_effect(
                expected,
                waiting,
                header,
                read,
            );
            let after = message_effect(announced, waiting_then, binary, read);
            &&& at_header is None
            &&& waiting_then == waiting
            &&& after == message_effect(expected, waiting, text, read)
            &&& message_effect(after.0, after.1, more, read) == (
                after.0,
                after.1,
                None::<DealsOutcomeView>,
            )
        }),
{
    lemma_announcement(expected, kind);
    lemma_one_step(expected, kind, data);
}

/// A binary message that nothing announces has no effect.
pub proof fn law_unannounced_binary_is_ignored(
    waiting: Map<u128, Seq<u64>>,
    binary: MessageView,
    read: DealsReader,
)
    requires
        binary is Binary,
    ensures
        message_effect(ExpectedMessage::Nothing, waiting, binary, read) == (
            ExpectedMessage::Nothing,
            waiting,
            None::<DealsOutcomeView>,
        ),
{
}

} // verus!
