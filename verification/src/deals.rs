//! Deals: which messages are about them, and who is told of their results.

use crate::clock::Duration;
use crate::error::CoreError;
use crate::error::PocketError;
use crate::error::PocketResult;
use crate::json::framed_array;
use crate::json::json_text;
use crate::json::read_framed_array;
use crate::json::read_text;
use crate::message::Message;
use crate::message::MessageView;
use crate::text::begins_with;
use crate::text::contains;
use crate::text::finishes_with;
use crate::text::occurs;
use crate::text::same_text;
use crate::text::strip_prefix;
use crate::text::strip_suffix;
use crate::text::texts;
use crate::text::trim;
use crate::text::trimmed;
use crate::types::deals_view;
use crate::types::Deal;
use crate::types::DealView;
use crate::wire::uuid_string;
use crate::wire::uuid_text;
use std::collections::HashMap;
use vstd::prelude::*;
use vstd::string::StringExecFns;

verus! {

broadcast use vstd::std_specs::hash::group_hash_axioms;

pub const UPDATE_OPENED_DEALS: &'static str = "451-[\"updateOpenedDeals\",";

pub const UPDATE_CLOSED_DEALS: &'static str = "451-[\"updateClosedDeals\",";

pub const SUCCESS_CLOSE_ORDER: &'static str = "451-[\"successcloseOrder\",";

/// A command to the module. Whoever waits for the result is known by a number.
#[derive(Debug)]
pub enum Command {
    /// To ask for the result of a deal.
    CheckResult(u128, u64),
}

/// What the next message is about.
#[derive(Debug, PartialEq, Eq, Clone, Copy, Structural)]
pub enum ExpectedMessage {
    UpdateClosedDeals,
    UpdateOpenedDeals,
    SuccessCloseOrder,
    Nothing,
}

/// Whether what follows a header announces a binary message.
pub open spec fn announces_binary(rest: Seq<char>) -> bool {
    occurs(rest, "\"_placeholder\":true"@)
}

/// Whether nothing but closing brackets follows a header.
pub open spec fn is_bare(rest: Seq<char>) -> bool {
    rest.len() == 0 || rest == "]"@ || rest == ",]"@
}

fn bare(rest: &str) -> (r: bool)
    ensures
        r == is_bare(rest@),
{
    proof {
        reveal_strlit("");
        assert(rest@.len() == 0 ==> rest@ =~= ""@);
    }
    same_text(rest, "") || same_text(rest, "]") || same_text(rest, ",]")
}

/// A rule that accepts messages about deals: a header with or without its data, and the message
/// that follows a header without data.
pub struct DealsUpdateRule {
    valid: bool,
    patterns: Vec<String>,
}

pub struct DealsUpdateRuleView {
    /// The next message belongs to a header.
    pub valid: bool,
    pub patterns: Seq<Seq<char>>,
}

/// What follows the first of the patterns that a text begins with.
pub open spec fn after_pattern(patterns: Seq<Seq<char>>, text: Seq<char>) -> Option<Seq<char>>
    decreases patterns.len(),
{
    if patterns.len() == 0 {
        None
    } else if begins_with(text, patterns[0]) {
        Some(text.skip(patterns[0].len() as int))
    } else {
        after_pattern(patterns.drop_first(), text)
    }
}

/// Whether a text is an event: an array that begins with a name.
pub open spec fn is_event(text: Seq<char>) -> bool {
    framed_array(text) matches Some(items) && items.len() > 0 && json_text(items[0]) is Some
}

/// What the rule becomes on a message, and whether it accepts the message.
pub open spec fn deals_rule_step(rule: DealsUpdateRuleView, msg: MessageView) -> (
    DealsUpdateRuleView,
    bool,
) {
    match msg {
        MessageView::Text(text) => match after_pattern(rule.patterns, text) {
            Some(rest) => (
                DealsUpdateRuleView {
                    valid: is_bare(trimmed(rest)) || announces_binary(trimmed(rest)),
                    ..rule
                },
                true,
            ),
            None => if is_event(text) {
                (rule, false)
            } else {
                (DealsUpdateRuleView { valid: false, ..rule }, rule.valid)
            },
        },
        MessageView::Binary(_) => (DealsUpdateRuleView { valid: false, ..rule }, rule.valid),
        _ => (rule, false),
    }
}

fn reads_as_event(text: &str) -> (r: bool)
    ensures
        r == is_event(text@),
{
    match read_framed_array(text) {
        Some(items) => {
            if items.len() == 0 {
                return false;
            }
            assert(texts(items@)[0] == items@[0]@);
            read_text(items[0].as_str()).is_some()
        },
        None => false,
    }
}

impl DealsUpdateRule {
    pub closed spec fn view(&self) -> DealsUpdateRuleView {
        DealsUpdateRuleView { valid: self.valid, patterns: texts(self.patterns@) }
    }

    /// A rule for messages that begin with one of the patterns.
    pub fn new(patterns: Vec<String>) -> (r: DealsUpdateRule)
        ensures
            r.view() == (DealsUpdateRuleView { valid: false, patterns: texts(patterns@) }),
    {
        DealsUpdateRule { valid: false, patterns }
    }

    fn match_pattern(&self, text: &str) -> (r: Option<bool>)
        ensures
            r == match after_pattern(self.view().patterns, text@) {
                Some(rest) => Some(is_bare(trimmed(rest)) || announces_binary(trimmed(rest))),
                None => None,
            },
    {
        let ghost all = texts(self.patterns@);
        let mut i: usize = 0;
        assert(all.skip(0) =~= all);
        while i < self.patterns.len()
            invariant
                i <= self.patterns@.len(),
                all == texts(self.patterns@),
                after_pattern(all, text@) == after_pattern(all.skip(i as int), text@),
            decreases self.patterns@.len() - i,
        {
            assert(all.skip(i as int)[0] == self.patterns@[i as int]@);
            assert(all.skip(i as int).drop_first() =~= all.skip(i + 1));
            if let Some(rest) = strip_prefix(text, self.patterns[i].as_str()) {
                let data = trim(rest);
                return Some(bare(data) || contains(data, "\"_placeholder\":true"));
            }
            i += 1;
        }
        None
    }

    pub fn call(&mut self, msg: &Message) -> (r: bool)
        ensures
            (final(self).view(), r) == deals_rule_step(old(self).view(), msg@),
    {
        match msg {
            Message::Text(text) => {
                if let Some(waits) = self.match_pattern(text.as_str()) {
                    self.valid = waits;
                    return true;
                }
                if reads_as_event(text.as_str()) {
                    return false;
                }
                let valid = self.valid;
                self.valid = false;
                valid
            },
            Message::Binary(_) => {
                let valid = self.valid;
                self.valid = false;
                valid
            },
            _ => false,
        }
    }

    pub fn reset(&mut self)
        ensures
            final(self).view() == (DealsUpdateRuleView { valid: false, ..old(self).view() }),
    {
        self.valid = false;
    }
}

/// What a message asks for.
#[derive(Debug)]
pub enum DealsAction {
    Ignore,
    /// The data follows in the next message.
    Await,
    /// The text is to be read as what was announced.
    ReadText { kind: ExpectedMessage, data: String },
    /// The bytes of the message are to be read as what was announced.
    ReadBinary { kind: ExpectedMessage },
}

pub enum DealsActionView {
    Ignore,
    Await,
    ReadText(ExpectedMessage, Seq<char>),
    ReadBinary(ExpectedMessage),
}

impl View for DealsAction {
    type V = DealsActionView;

    open spec fn view(&self) -> DealsActionView {
        match self {
            DealsAction::Ignore => DealsActionView::Ignore,
            DealsAction::Await => DealsActionView::Await,
            DealsAction::ReadText { kind, data } => DealsActionView::ReadText(*kind, data@),
            DealsAction::ReadBinary { kind } => DealsActionView::ReadBinary(*kind),
        }
    }
}

/// What a text is about, and what follows its header.
pub open spec fn deals_header(text: Seq<char>) -> Option<(ExpectedMessage, Seq<char>)> {
    if begins_with(text, UPDATE_OPENED_DEALS@) {
        Some((ExpectedMessage::UpdateOpenedDeals, text.skip(UPDATE_OPENED_DEALS@.len() as int)))
    } else if begins_with(text, UPDATE_CLOSED_DEALS@) {
        Some((ExpectedMessage::UpdateClosedDeals, text.skip(UPDATE_CLOSED_DEALS@.len() as int)))
    } else if begins_with(text, SUCCESS_CLOSE_ORDER@) {
        Some((ExpectedMessage::SuccessCloseOrder, text.skip(SUCCESS_CLOSE_ORDER@.len() as int)))
    } else {
        None
    }
}

/// A text without the bracket at its end, where it has one.
pub open spec fn unclosed(text: Seq<char>) -> Seq<char> {
    if finishes_with(text, "]"@) {
        text.take(text.len() - 1)
    } else {
        text
    }
}

/// What is expected after a message, and what the message asks for.
pub open spec fn deals_message_step(expected: ExpectedMessage, msg: MessageView) -> (
    ExpectedMessage,
    DealsActionView,
) {
    match msg {
        MessageView::Text(text) => match deals_header(text) {
            Some((kind, rest)) => if announces_binary(trimmed(rest)) || is_bare(trimmed(rest)) {
                (kind, DealsActionView::Await)
            } else {
                (
                    ExpectedMessage::Nothing,
                    DealsActionView::ReadText(kind, unclosed(trimmed(rest))),
                )
            },
            None => if expected == ExpectedMessage::Nothing {
                (expected, DealsActionView::Ignore)
            } else {
                (ExpectedMessage::Nothing, DealsActionView::ReadText(expected, text))
            },
        },
        MessageView::Binary(_) => (
            ExpectedMessage::Nothing,
            if expected == ExpectedMessage::Nothing {
                DealsActionView::Ignore
            } else {
                DealsActionView::ReadBinary(expected)
            },
        ),
        _ => (expected, DealsActionView::Ignore),
    }
}

fn read_header(text: &str) -> (r: Option<(ExpectedMessage, &str)>)
    ensures
        match (r, deals_header(text@)) {
            (Some((kind, rest)), Some((k, v))) => kind == k && rest@ == v,
            (None, None) => true,
            _ => false,
        },
{
    if let Some(rest) = strip_prefix(text, UPDATE_OPENED_DEALS) {
        Some((ExpectedMessage::UpdateOpenedDeals, rest))
    } else if let Some(rest) = strip_prefix(text, UPDATE_CLOSED_DEALS) {
        Some((ExpectedMessage::UpdateClosedDeals, rest))
    } else if let Some(rest) = strip_prefix(text, SUCCESS_CLOSE_ORDER) {
        Some((ExpectedMessage::SuccessCloseOrder, rest))
    } else {
        None
    }
}

/// What comes of deals that were read.
#[derive(Debug)]
pub enum DealsOutcome {
    /// Nothing could be read.
    Unread,
    /// These deals are open.
    Opened(Vec<Deal>),
    /// These deals are closed, and these answers are owed, each to whoever the number names.
    Closed { deals: Vec<Deal>, answers: Vec<(u64, Deal)> },
}

pub enum DealsOutcomeView {
    Unread,
    Opened(Seq<DealView>),
    Closed(Seq<DealView>, Seq<(u64, DealView)>),
}

pub open spec fn answers_view(answers: Seq<(u64, Deal)>) -> Seq<(u64, DealView)> {
    answers.map_values(|a: (u64, Deal)| (a.0, a.1@))
}

impl View for DealsOutcome {
    type V = DealsOutcomeView;

    open spec fn view(&self) -> DealsOutcomeView {
        match self {
            DealsOutcome::Unread => DealsOutcomeView::Unread,
            DealsOutcome::Opened(deals) => DealsOutcomeView::Opened(deals_view(deals@)),
            DealsOutcome::Closed { deals, answers } => DealsOutcomeView::Closed(
                deals_view(deals@),
                answers_view(answers@),
            ),
        }
    }
}

/// An answer for each of those who wait for a deal.
pub open spec fn told(waiters: Seq<u64>, deal: DealView) -> Seq<(u64, DealView)> {
    waiters.map_values(|w: u64| (w, deal))
}

/// Who still waits once some deals are closed, and the answers that are owed: deal by deal,
/// each to everyone who waits for it.
pub open spec fn closed(waiting: Map<u128, Seq<u64>>, deals: Seq<DealView>) -> (
    Map<u128, Seq<u64>>,
    Seq<(u64, DealView)>,
)
    decreases deals.len(),
{
    if deals.len() == 0 {
        (waiting, Seq::empty())
    } else {
        let (before, answers) = closed(waiting, deals.drop_last());
        let deal = deals.last();
        if before.dom().contains(deal.id) {
            (before.remove(deal.id), answers + told(before[deal.id], deal))
        } else {
            (before, answers)
        }
    }
}

pub open spec fn list_view(deals: Option<Vec<Deal>>) -> Option<Seq<DealView>> {
    match deals {
        Some(d) => Some(deals_view(d@)),
        None => None,
    }
}

/// What comes of data of a kind. A report of closed orders is either an object with a list of
/// deals or the list itself.
pub open spec fn deals_outcome(
    waiting: Map<u128, Seq<u64>>,
    kind: ExpectedMessage,
    close_order: Option<Seq<DealView>>,
    list: Option<Seq<DealView>>,
) -> (Map<u128, Seq<u64>>, DealsOutcomeView) {
    let deals = match kind {
        ExpectedMessage::SuccessCloseOrder => if close_order is Some {
            close_order
        } else {
            list
        },
        ExpectedMessage::Nothing => None,
        _ => list,
    };
    match deals {
        None => (waiting, DealsOutcomeView::Unread),
        Some(d) => if kind == ExpectedMessage::UpdateOpenedDeals {
            (waiting, DealsOutcomeView::Opened(d))
        } else {
            (closed(waiting, d).0, DealsOutcomeView::Closed(d, closed(waiting, d).1))
        },
    }
}

/// Keeps track of what is expected and of who waits for which deal. Whoever waits is known by a
/// number.
pub struct DealsApiModule {
    expected: ExpectedMessage,
    waiting_requests: HashMap<u128, Vec<u64>>,
}

impl DealsApiModule {
    pub closed spec fn spec_expected(&self) -> ExpectedMessage {
        self.expected
    }

    /// Who waits for which deal.
    pub closed spec fn waiting(&self) -> Map<u128, Seq<u64>> {
        self.waiting_requests@.map_values(|w: Vec<u64>| w@)
    }

    pub fn new() -> (r: DealsApiModule)
        ensures
            r.spec_expected() == ExpectedMessage::Nothing,
            r.waiting() == Map::<u128, Seq<u64>>::empty(),
    {
        let r = DealsApiModule {
            expected: ExpectedMessage::Nothing,
            waiting_requests: HashMap::new(),
        };
        assert(r.waiting() =~= Map::<u128, Seq<u64>>::empty());
        r
    }

    /// The rule for the messages of the module.
    pub fn rule() -> (r: DealsUpdateRule)
        ensures
            r.view() == (DealsUpdateRuleView {
                valid: false,
                patterns: seq![
                    UPDATE_CLOSED_DEALS@,
                    UPDATE_OPENED_DEALS@,
                    SUCCESS_CLOSE_ORDER@,
                ],
            }),
    {
        let patterns = vec![
            UPDATE_CLOSED_DEALS.to_owned(),
            UPDATE_OPENED_DEALS.to_owned(),
            SUCCESS_CLOSE_ORDER.to_owned(),
        ];
        assert(texts(patterns@) =~= seq![
            UPDATE_CLOSED_DEALS@,
            UPDATE_OPENED_DEALS@,
            SUCCESS_CLOSE_ORDER@,
        ]);
        DealsUpdateRule::new(patterns)
    }

    /// Takes a message and says what it asks for.
    pub fn message(&mut self, msg: &Message) -> (r: DealsAction)
        ensures
            (final(self).spec_expected(), r@) == deals_message_step(
                old(self).spec_expected(),
                msg@,
            ),
            final(self).waiting() == old(self).waiting(),
    {
        match msg {
            Message::Text(text) => {
                if let Some((kind, rest)) = read_header(text.as_str()) {
                    let data = trim(rest);
                    if contains(data, "\"_placeholder\":true") || bare(data) {
                        self.expected = kind;
                        return DealsAction::Await;
                    }
                    proof {
                        reveal_strlit("]");
                    }
                    let body = match strip_suffix(data, "]") {
                        Some(b) => b,
                        None => data,
                    };
                    self.expected = ExpectedMessage::Nothing;
                    return DealsAction::ReadText { kind, data: body.to_owned() };
                }
                let kind = self.expected;
                if kind == ExpectedMessage::Nothing {
                    return DealsAction::Ignore;
                }
                self.expected = ExpectedMessage::Nothing;
                DealsAction::ReadText { kind, data: text.clone() }
            },
            Message::Binary(_) => {
                let kind = self.expected;
                self.expected = ExpectedMessage::Nothing;
                if kind == ExpectedMessage::Nothing {
                    DealsAction::Ignore
                } else {
                    DealsAction::ReadBinary { kind }
                }
            },
            _ => DealsAction::Ignore,
        }
    }

    fn close(&mut self, deals: &Vec<Deal>) -> (r: Vec<(u64, Deal)>)
        ensures
            (final(self).waiting(), answers_view(r@)) == closed(
                old(self).waiting(),
                deals_view(deals@),
            ),
            final(self).spec_expected() == old(self).spec_expected(),
    {
        let ghost all = deals_view(deals@);
        let ghost start = self.waiting();
        let mut answers: Vec<(u64, Deal)> = Vec::new();
        let mut i: usize = 0;
        assert(answers_view(answers@) =~= Seq::<(u64, DealView)>::empty());
        assert(all.take(0) =~= Seq::<DealView>::empty());
        while i < deals.len()
            invariant
                i <= deals@.len(),
                all == deals_view(deals@),
                start == old(self).waiting(),
                self.expected == old(self).expected,
                (self.waiting(), answers_view(answers@)) == closed(start, all.take(i as int)),
            decreases deals@.len() - i,
        {
            let ghost before = *self;
            let ghost earlier = answers_view(answers@);
            proof {
                assert(all.take(i + 1).drop_last() =~= all.take(i as int));
                assert(all.take(i + 1).last() == deals@[i as int]@);
            }
            match self.waiting_requests.remove(&deals[i].id) {
                Some(waiters) => {
                    let ghost deal = deals@[i as int]@;
                    assert(self.waiting() =~= before.waiting().remove(deal.id));
                    assert(before.waiting()[deal.id] == waiters@);
                    let mut k: usize = 0;
                    assert(earlier + told(waiters@, deal).take(0) =~= earlier);
                    while k < waiters.len()
                        invariant
                            k <= waiters@.len(),
                            i < deals@.len(),
                            deal == deals@[i as int]@,
                            answers_view(answers@) == earlier + told(waiters@, deal).take(k as int),
                        decreases waiters@.len() - k,
                    {
                        let ghost so_far = answers@;
                        answers.push((waiters[k], deals[i].copied()));
                        assert(answers_view(answers@) =~= answers_view(so_far).push(
                            (waiters@[k as int], deal),
                        ));
                        assert(told(waiters@, deal).take(k + 1) =~= told(waiters@, deal).take(
                            k as int,
                        ).push((waiters@[k as int], deal)));
                        assert(answers_view(answers@) =~= earlier + told(waiters@, deal).take(
                            k + 1,
                        ));
                        k += 1;
                    }
                    assert(told(waiters@, deal).take(k as int) =~= told(waiters@, deal));
                },
                None => {
                    assert(self.waiting() =~= before.waiting());
                },
            }
            i += 1;
        }
        assert(all.take(i as int) =~= all);
        answers
    }

    /// Takes what was read of data of a kind: as a report of closed orders, and as a list.
    pub fn process(
        &mut self,
        kind: ExpectedMessage,
        close_order: Option<Vec<Deal>>,
        list: Option<Vec<Deal>>,
    ) -> (r: DealsOutcome)
        ensures
            (final(self).waiting(), r@) == deals_outcome(
                old(self).waiting(),
                kind,
                list_view(close_order),
                list_view(list),
            ),
            final(self).spec_expected() == old(self).spec_expected(),
    {
        let deals = match kind {
            ExpectedMessage::SuccessCloseOrder => match close_order {
                Some(d) => Some(d),
                None => list,
            },
            ExpectedMessage::Nothing => None,
            _ => list,
        };
        match deals {
            None => DealsOutcome::Unread,
            Some(deals) => {
                if kind == ExpectedMessage::UpdateOpenedDeals {
                    DealsOutcome::Opened(deals)
                } else {
                    let answers = self.close(&deals);
                    DealsOutcome::Closed { deals, answers }
                }
            },
        }
    }

    /// Takes a question for the result of a deal. `is_open` says whether the deal is open,
    /// `closed_deal` is the deal if it is closed. Gives the answer, none where it has to be
    /// waited for.
    pub fn check_result(
        &mut self,
        cmd: Command,
        is_open: bool,
        closed_deal: Option<Deal>,
    ) -> (r: Option<PocketResult<Deal>>)
        ensures
            final(self).spec_expected() == old(self).spec_expected(),
            match cmd {
                Command::CheckResult(trade_id, responder) => {
                    &&& final(self).waiting() == if is_open {
                        awaited(old(self).waiting(), trade_id, responder)
                    } else {
                        old(self).waiting()
                    }
                    &&& match r {
                        None => is_open,
                        Some(Ok(deal)) => !is_open && closed_deal == Some(deal),
                        Some(Err(PocketError::DealNotFound(id))) => !is_open && closed_deal is None
                            && id == trade_id,
                        Some(Err(_)) => false,
                    }
                },
            },
    {
        let Command::CheckResult(trade_id, responder) = cmd;
        if is_open {
            let ghost before = *self;
            let mut waiters = match self.waiting_requests.remove(&trade_id) {
                Some(w) => w,
                None => Vec::new(),
            };
            let ghost earlier = waiters@;
            waiters.push(responder);
            self.waiting_requests.insert(trade_id, waiters);
            proof {
                assert(self.waiting() =~= awaited(before.waiting(), trade_id, responder));
            }
            None
        } else {
            match closed_deal {
                Some(deal) => Some(Ok(deal)),
                None => Some(Err(PocketError::DealNotFound(trade_id))),
            }
        }
    }
}

/// Who waits once one more waits for a deal.
pub open spec fn awaited(waiting: Map<u128, Seq<u64>>, trade_id: u128, responder: u64) -> Map<
    u128,
    Seq<u64>,
> {
    waiting.insert(
        trade_id,
        if waiting.dom().contains(trade_id) {
            waiting[trade_id].push(responder)
        } else {
            seq![responder]
        },
    )
}

/// What whoever waits for the result of a deal hears.
pub enum WaitOutcome {
    Answer(PocketResult<Deal>),
    /// The module is gone.
    Dropped,
    /// Nothing came in time.
    TimedOut,
}

/// Waits for the result of a deal.
pub struct DealsHandle;

impl DealsHandle {
    /// What a question for the result of a deal comes to: the answer, or an error where the
    /// module is gone.
    pub fn check_result(answer: Option<PocketResult<Deal>>) -> (r: PocketResult<Deal>)
        ensures
            match answer {
                Some(a) => r == a,
                None => r matches Err(PocketError::Core(CoreError::Other(e))) && e@
                    == "DealsApiModule responder dropped"@,
            },
    {
        match answer {
            Some(a) => a,
            None => Err(
                PocketError::Core(
                    CoreError::Other("DealsApiModule responder dropped".to_owned()),
                ),
            ),
        }
    }

    /// What a question for the result of a deal comes to that is not asked for ever.
    pub fn check_result_with_timeout(
        trade_id: u128,
        timeout: Duration,
        outcome: WaitOutcome,
    ) -> (r: PocketResult<Deal>)
        ensures
            match outcome {
                WaitOutcome::Answer(answer) => r == answer,
                WaitOutcome::Dropped => r matches Err(PocketError::Core(CoreError::Other(e))) && e@
                    == "DealsApiModule responder dropped"@,
                WaitOutcome::TimedOut => r matches Err(
                    PocketError::Timeout { task, context, duration },
                ) && task@ == "check_result"@ && context@ == "Waiting for trade '"@ + uuid_text(
                    trade_id,
                ) + "' result"@ && duration == timeout,
            },
    {
        match outcome {
            WaitOutcome::Answer(answer) => DealsHandle::check_result(Some(answer)),
            WaitOutcome::Dropped => DealsHandle::check_result(None),
            WaitOutcome::TimedOut => {
                let mut context = "Waiting for trade '".to_owned();
                context.append(uuid_string(trade_id).as_str());
                context.append("' result");
                Err(
                    PocketError::Timeout {
                        task: "check_result".to_owned(),
                        context,
                        duration: timeout,
                    },
                )
            },
        }
    }
}

} // verus!
