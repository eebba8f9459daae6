//! What messages about deals are for: which are accepted, what is read of them, and who is told.

use crate::deal_laws::header_text;
use crate::deals::after_pattern;
use crate::deals::announces_binary;
use crate::deals::awaited;
use crate::deals::closed;
use crate::deals::deals_header;
use crate::deals::deals_message_step;
use crate::deals::deals_outcome;
use crate::deals::deals_rule_step;
use crate::deals::is_bare;
use crate::deals::is_event;
use crate::deals::told;
use crate::deals::unclosed;
use crate::deals::DealsActionView;
use crate::deals::DealsOutcomeView;
use crate::deals::DealsUpdateRuleView;
use crate::deals::ExpectedMessage;
use crate::matcher_laws::lemma_begins;
use crate::matcher_laws::lemma_finishes;
use crate::matcher_laws::lemma_occurs;
use crate::message::MessageView;
use crate::text::begins_with;
use crate::text::finishes_with;
use crate::text::is_white_space;
use crate::text::trimmed;
use crate::text::trimmed_back;
use crate::text::trimmed_front;
use crate::types::DealView;
use vstd::prelude::*;

verus! {

/// Whether a text is white space.
pub open spec fn all_white(s: Seq<char>) -> bool {
    forall|i: int| 0 <= i < s.len() ==> is_white_space(#[trigger] s[i])
}

/// Whether a text neither begins nor ends with white space.
pub open spec fn is_tight(s: Seq<char>) -> bool {
    s.len() > 0 ==> !is_white_space(s[0]) && !is_white_space(s.last())
}

/// Trimming in front leaves everything from the first character on that is no white space.
pub proof fn lemma_trim_front(a: Seq<char>, s: Seq<char>)
    requires
        all_white(a),
        s.len() > 0 ==> !is_white_space(s[0]),
    ensures
        trimmed_front(a + s) == s,
    decreases a.len(),
{
    if a.len() == 0 {
        assert(a + s =~= s);
    } else {
        assert(is_white_space(a[0]));
        assert((a + s)[0] == a[0]);
        assert((a + s).drop_first() =~= a.drop_first() + s);
        assert forall|i: int| 0 <= i < a.drop_first().len() implies is_white_space(
            #[trigger] a.drop_first()[i],
        ) by {
            assert(is_white_space(a[i + 1]));
        }
        lemma_trim_front(a.drop_first(), s);
    }
}

proof fn lemma_trim_back(s: Seq<char>, b: Seq<char>)
    requires
        all_white(b),
        s.len() > 0 ==> !is_white_space(s.last()),
    ensures
        trimmed_back(s + b) == s,
    decreases b.len(),
{
    if b.len() == 0 {
        assert(s + b =~= s);
    } else {
        assert(is_white_space(b[b.len() - 1]));
        assert((s + b).drop_last() =~= s + b.drop_last());
        assert forall|i: int| 0 <= i < b.drop_last().len() implies is_white_space(
            #[trigger] b.drop_last()[i],
        ) by {
            assert(is_white_space(b[i]));
        }
        lemma_trim_back(s, b.drop_last());
    }
}

/// Trimming leaves what stands between the white space at either end: everything, and nothing
/// else.
pub proof fn law_trimmed(a: Seq<char>, core: Seq<char>, b: Seq<char>)
    requires
        all_white(a),
        all_white(b),
        is_tight(core),
    ensures
        trimmed(a + core + b) == core,
{
    assert(a + core + b =~= a + (core + b));
    if core.len() > 0 {
        assert((core + b)[0] == core[0]);
        lemma_trim_front(a, core + b);
        lemma_trim_back(core, b);
    } else {
        let white = a + b;
        assert(a + (core + b) =~= white + core);
        assert forall|i: int| 0 <= i < white.len() implies is_white_space(#[trigger] white[i]) by {
            if i < a.len() {
                assert(is_white_space(a[i]));
            } else {
                assert(is_white_space(b[i - a.len()]));
            }
        }
        lemma_trim_front(white, core);
        assert(trimmed_back(core) == core);
    }
}

/// Whether what follows a header is no data: nothing, closing brackets, or something that holds
/// the mark of data that comes in a binary message.
pub open spec fn holds_no_data(core: Seq<char>) -> bool {
    ||| core.len() == 0
    ||| core == "]"@
    ||| core == ",]"@
    ||| exists|x: Seq<char>, y: Seq<char>| core == #[trigger] (x + "\"_placeholder\":true"@ + y)
}

proof fn lemma_no_data(core: Seq<char>)
    ensures
        holds_no_data(core) <==> is_bare(core) || announces_binary(core),
{
    lemma_occurs(core, "\"_placeholder\":true"@);
}

proof fn lemma_after_pattern(patterns: Seq<Seq<char>>, text: Seq<char>)
    ensures
        after_pattern(patterns, text) is Some <==> exists|i: int, rest: Seq<char>|
            0 <= i < patterns.len() && text == #[trigger] (patterns[i] + rest),
    decreases patterns.len(),
{
    if patterns.len() > 0 {
        let others = patterns.drop_first();
        lemma_after_pattern(others, text);
        lemma_begins(text, patterns[0]);
        if begins_with(text, patterns[0]) {
            let rest = choose|rest: Seq<char>| text == #[trigger] (patterns[0] + rest);
            assert(text == patterns[0] + rest);
        } else {
            if after_pattern(others, text) is Some {
                let (i, rest) = choose|i: int, rest: Seq<char>|
                    0 <= i < others.len() && text == #[trigger] (others[i] + rest);
                assert(patterns[i + 1] == others[i]);
                assert(text == patterns[i + 1] + rest);
            }
            if exists|i: int, rest: Seq<char>|
                0 <= i < patterns.len() && text == #[trigger] (patterns[i] + rest) {
                let (i, rest) = choose|i: int, rest: Seq<char>|
                    0 <= i < patterns.len() && text == #[trigger] (patterns[i] + rest);
                assert(i > 0);
                assert(others[i - 1] == patterns[i]);
                assert(text == others[i - 1] + rest);
            }
        }
    }
}

/// The rule accepts every text that is one of its patterns with something behind it. Of the other
/// texts it accepts one that follows a header, unless it is an event, which does not count.
pub proof fn law_rule_accepts_headers(rule: DealsUpdateRuleView, text: Seq<char>)
    ensures
        ({
            let (after, accepts) = deals_rule_step(rule, MessageView::Text(text));
            let header = exists|i: int, rest: Seq<char>|
                0 <= i < rule.patterns.len() && text == #[trigger] (rule.patterns[i] + rest);
            &&& after.patterns == rule.patterns
            &&& header ==> accepts
            &&& !header && is_event(text) ==> !accepts && after == rule
            &&& !header && !is_event(text) ==> accepts == rule.valid && !after.valid
        }),
{
    lemma_after_pattern(rule.patterns, text);
}

/// After a header the rule waits for its data exactly if none follows in the text.
pub proof fn law_rule_waits_for_data(
    rule: DealsUpdateRuleView,
    pattern: Seq<char>,
    a: Seq<char>,
    core: Seq<char>,
    b: Seq<char>,
)
    requires
        rule.patterns == seq![pattern],
        all_white(a),
        all_white(b),
        is_tight(core),
    ensures
        deals_rule_step(rule, MessageView::Text(pattern + (a + core + b))).0.valid
            == holds_no_data(core),
{
    let rest = a + core + b;
    let text = pattern + rest;
    law_trimmed(a, core, b);
    lemma_no_data(core);
    assert(text.subrange(0, pattern.len() as int) =~= pattern);
    assert(text.skip(pattern.len() as int) =~= rest);
    assert(rule.patterns[0] == pattern);
}

/// A binary message is accepted exactly if it follows a header without data, and nothing is waited
/// for after it. Messages without data are refused and change nothing.
pub proof fn law_rule_on_other_messages(rule: DealsUpdateRuleView, data: Seq<u8>, msg: MessageView)
    requires
        !(msg is Text) && !(msg is Binary),
    ensures
        deals_rule_step(rule, MessageView::Binary(data)) == (
            DealsUpdateRuleView { valid: false, ..rule },
            rule.valid,
        ),
        deals_rule_step(rule, msg) == (rule, false),
{
}

proof fn lemma_header(kind: ExpectedMessage, rest: Seq<char>)
    requires
        kind != ExpectedMessage::Nothing,
    ensures
        deals_header(header_text(kind) + rest) == Some((kind, rest)),
{
    reveal_strlit("451-[\"updateOpenedDeals\",");
    reveal_strlit("451-[\"updateClosedDeals\",");
    reveal_strlit("451-[\"successcloseOrder\",");
    let text = header_text(kind) + rest;
    let header = header_text(kind);
    let opened = header_text(ExpectedMessage::UpdateOpenedDeals);
    let ended = header_text(ExpectedMessage::UpdateClosedDeals);
    assert(text.subrange(0, header.len() as int) =~= header);
    assert(text.skip(header.len() as int) =~= rest);
    assert(text[6] == header[6] && text[12] == header[12]);
    if kind != ExpectedMessage::UpdateOpenedDeals && begins_with(text, opened) {
        assert(text.subrange(0, opened.len() as int)[6] == opened[6]);
        assert(text.subrange(0, opened.len() as int)[12] == opened[12]);
        assert(false);
    }
    if kind == ExpectedMessage::SuccessCloseOrder && begins_with(text, ended) {
        assert(text.subrange(0, ended.len() as int)[6] == ended[6]);
        assert(false);
    }
}

/// A text is about what its header says, whatever was expected before. Without data it announces
/// the message that follows; with data it is read, without the white space around the data and
/// without the bracket that closes it.
pub proof fn law_headers_say_what_is_read(
    expected: ExpectedMessage,
    kind: ExpectedMessage,
    a: Seq<char>,
    core: Seq<char>,
    b: Seq<char>,
    data: Seq<char>,
)
    requires
        kind != ExpectedMessage::Nothing,
        all_white(a),
        all_white(b),
        is_tight(core),
        core == data || core == data + "]"@,
        core == data ==> forall|r: Seq<char>| core != #[trigger] (r + "]"@),
    ensures
        ({
            let text = header_text(kind) + (a + core + b);
            let (next, action) = deals_message_step(expected, MessageView::Text(text));
            &&& holds_no_data(core) ==> next == kind && action == DealsActionView::Await
            &&& !holds_no_data(core) ==> next == ExpectedMessage::Nothing && action
                == DealsActionView::ReadText(kind, data)
        }),
{
    let rest = a + core + b;
    lemma_header(kind, rest);
    law_trimmed(a, core, b);
    lemma_no_data(core);
    lemma_finishes(core, "]"@);
    reveal_strlit("]");
    assert(unclosed(core) =~= data) by {
        if finishes_with(core, "]"@) {
            assert(core == data + "]"@) by {
                if core == data {
                    let r = choose|r: Seq<char>| core == #[trigger] (r + "]"@);
                    assert(core == r + "]"@);
                }
            }
            assert(core.take(core.len() - 1) =~= data);
        } else {
            assert(core == data) by {
                if core == data + "]"@ {
                    assert(core == data + "]"@);
                }
            }
        }
    }
}

/// A text that is no header is the data that was announced, as it is, or is ignored; so is a binary
/// message. Nothing is expected after data.
pub proof fn law_announced_data_is_read(
    expected: ExpectedMessage,
    text: Seq<char>,
    bytes: Seq<u8>,
    other: MessageView,
)
    requires
        forall|kind: ExpectedMessage, rest: Seq<char>|
            kind != ExpectedMessage::Nothing ==> text != #[trigger] (header_text(kind) + rest),
        !(other is Text) && !(other is Binary),
    ensures
        expected == ExpectedMessage::Nothing ==> deals_message_step(
            expected,
            MessageView::Text(text),
        ) == (ExpectedMessage::Nothing, DealsActionView::Ignore) && deals_message_step(
            expected,
            MessageView::Binary(bytes),
        ) == (ExpectedMessage::Nothing, DealsActionView::Ignore),
        expected != ExpectedMessage::Nothing ==> deals_message_step(
            expected,
            MessageView::Text(text),
        ) == (ExpectedMessage::Nothing, DealsActionView::ReadText(expected, text))
            && deals_message_step(expected, MessageView::Binary(bytes)) == (
            ExpectedMessage::Nothing,
            DealsActionView::ReadBinary(expected),
        ),
        deals_message_step(expected, other) == (expected, DealsActionView::Ignore),
{
    lemma_begins(text, header_text(ExpectedMessage::UpdateOpenedDeals));
    lemma_begins(text, header_text(ExpectedMessage::UpdateClosedDeals));
    lemma_begins(text, header_text(ExpectedMessage::SuccessCloseOrder));
    assert forall|kind: ExpectedMessage| kind != ExpectedMessage::Nothing implies !begins_with(
        text,
        #[trigger] header_text(kind),
    ) by {
        lemma_begins(text, header_text(kind));
        if begins_with(text, header_text(kind)) {
            let rest = choose|rest: Seq<char>| text == #[trigger] (header_text(kind) + rest);
            assert(text == header_text(kind) + rest);
        }
    }
    assert(!begins_with(text, header_text(ExpectedMessage::UpdateOpenedDeals)));
    assert(!begins_with(text, header_text(ExpectedMessage::UpdateClosedDeals)));
    assert(!begins_with(text, header_text(ExpectedMessage::SuccessCloseOrder)));
}

/// Open deals are handed on, and everyone goes on waiting.
pub proof fn law_opened_deals_keep_everyone_waiting(
    waiting: Map<u128, Seq<u64>>,
    report: Option<Seq<DealView>>,
    deals: Seq<DealView>,
)
    ensures
        deals_outcome(waiting, ExpectedMessage::UpdateOpenedDeals, report, Some(deals)) == (
            waiting,
            DealsOutcomeView::Opened(deals),
        ),
{
}

/// Closed deals are closed whichever way they are reported: as a list, or as a report of closed
/// orders, which goes before the list.
pub proof fn law_reports_and_lists_close_deals(
    waiting: Map<u128, Seq<u64>>,
    report: Option<Seq<DealView>>,
    list: Option<Seq<DealView>>,
    deals: Seq<DealView>,
)
    ensures
        ({
            let by_list = deals_outcome(
                waiting,
                ExpectedMessage::UpdateClosedDeals,
                report,
                Some(deals),
            );
            let by_report = deals_outcome(
                waiting,
                ExpectedMessage::SuccessCloseOrder,
                Some(deals),
                list,
            );
            let bare_list = deals_outcome(
                waiting,
                ExpectedMessage::SuccessCloseOrder,
                None,
                Some(deals),
            );
            &&& by_report == by_list
            &&& bare_list == by_list
            &&& by_list.1 matches DealsOutcomeView::Closed(d, _) && d == deals
        }),
{
}

/// What cannot be read closes nothing.
pub proof fn law_unread_data_closes_nothing(
    waiting: Map<u128, Seq<u64>>,
    kind: ExpectedMessage,
    report: Option<Seq<DealView>>,
    list: Option<Seq<DealView>>,
)
    requires
        kind == ExpectedMessage::Nothing || (list is None && (report is None || kind
            != ExpectedMessage::SuccessCloseOrder)),
    ensures
        deals_outcome(waiting, kind, report, list) == (waiting, DealsOutcomeView::Unread),
{
}

/// Everyone who waits for a deal that closes is told of it, in the order in which they asked, and
/// nobody is told who does not wait.
pub proof fn law_waiters_are_told_in_order(waiting: Map<u128, Seq<u64>>, deal: DealView)
    ensures
        ({
            let (after, answers) = closed(waiting, seq![deal]);
            &&& waiting.dom().contains(deal.id) ==> after == waiting.remove(deal.id)
                && answers.len() == waiting[deal.id].len() && forall|i: int|
                0 <= i < answers.len() ==> #[trigger] answers[i] == (waiting[deal.id][i], deal)
            &&& !waiting.dom().contains(deal.id) ==> after == waiting && answers.len() == 0
        }),
{
    reveal_with_fuel(closed, 2);
    assert(seq![deal].drop_last() =~= Seq::<DealView>::empty());
    assert(seq![deal].last() == deal);
    if waiting.dom().contains(deal.id) {
        let told_now = told(waiting[deal.id], deal);
        assert(Seq::<(u64, DealView)>::empty() + told_now =~= told_now);
    }
}

/// Deals close one after the other: what is owed for some and then for others is what is owed for
/// all of them together.
pub proof fn law_deals_close_in_order(
    waiting: Map<u128, Seq<u64>>,
    a: Seq<DealView>,
    b: Seq<DealView>,
)
    ensures
        ({
            let (after_a, answers_a) = closed(waiting, a);
            let (after_b, answers_b) = closed(after_a, b);
            closed(waiting, a + b) == (after_b, answers_a + answers_b)
        }),
    decreases b.len(),
{
    let (after_a, answers_a) = closed(waiting, a);
    if b.len() == 0 {
        assert(a + b =~= a);
        assert(answers_a + Seq::<(u64, DealView)>::empty() =~= answers_a);
    } else {
        law_deals_close_in_order(waiting, a, b.drop_last());
        assert((a + b).drop_last() =~= a + b.drop_last());
        let (before, answers) = closed(after_a, b.drop_last());
        let deal = b.last();
        if before.dom().contains(deal.id) {
            let more = told(before[deal.id], deal);
            assert((answers_a + answers) + more =~= answers_a + (answers + more));
        }
    }
}

/// Whoever asks for a deal waits behind those who asked before; nobody else is touched.
pub proof fn law_questions_wait_in_line(
    waiting: Map<u128, Seq<u64>>,
    id: u128,
    responder: u64,
    other: u128,
)
    requires
        other != id,
    ensures
        ({
            let after = awaited(waiting, id, responder);
            &&& after.dom().contains(id)
            &&& waiting.dom().contains(id) ==> after[id] == waiting[id] + seq![responder]
            &&& !waiting.dom().contains(id) ==> after[id] == seq![responder]
            &&& after.dom().contains(other) <==> waiting.dom().contains(other)
            &&& waiting.dom().contains(other) ==> after[other] == waiting[other]
        }),
{
    if waiting.dom().contains(id) {
        assert(waiting[id].push(responder) =~= waiting[id] + seq![responder]);
    }
}

} // verus!
