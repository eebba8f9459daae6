//! Rules that decide which websocket messages reach a module.
//!
//! A rule may count messages, so calling it takes `&mut self` and moves it on. `RuleView` is
//! the model of a rule; `rule_step` says what a rule answers to a message and what it becomes.
//! Some rules cannot answer some messages: `rule_defined` says which ones can.

use crate::error::CoreError;
use crate::error::CoreResult;
use crate::json::json_outline;
use crate::json::outline;
use crate::matcher_laws::law_binary_matchers;
use crate::matcher_laws::law_binary_rules;
use crate::matcher_laws::law_text_matchers;
use crate::matcher_laws::law_text_rules;
use crate::message::Message;
use crate::message::MessageView;
use crate::rule_laws::law_and_accepts;
use crate::rule_laws::law_or_accepts;
use crate::text::begins_with;
use crate::text::contains;
use crate::text::ends_with;
use crate::text::find_slice;
use crate::text::finishes_with;
use crate::text::first_index;
use crate::text::from_first;
use crate::text::last_index;
use crate::text::occurs;
use crate::text::same_text;
use crate::text::slice_begins_with;
use crate::text::slice_finishes_with;
use crate::text::starts_with;
use crate::text::strip_prefix;
use crate::text::strip_suffix;
use crate::text::text_view;
use crate::text::through_last;
use vstd::pervasive::arbitrary;
use vstd::prelude::*;

verus! {

/// Message type filter for conditions.
#[derive(Debug, Clone, Copy, PartialEq, Eq, Structural)]
pub enum MessageType {
    Text,
    Binary,
    Close,
    Ping,
    Pong,
}

/// Whether a message is of a type.
pub open spec fn type_matches(mt: MessageType, msg: MessageView) -> bool {
    match mt {
        MessageType::Text => msg is Text,
        MessageType::Binary => msg is Binary,
        MessageType::Close => msg is Close,
        MessageType::Ping => msg is Ping,
        MessageType::Pong => msg is Pong,
    }
}

/// The message type that a text names.
pub open spec fn named_type(name: Seq<char>) -> Option<MessageType> {
    if name == "Text"@ {
        Some(MessageType::Text)
    } else if name == "Binary"@ {
        Some(MessageType::Binary)
    } else if name == "Close"@ {
        Some(MessageType::Close)
    } else if name == "Ping"@ {
        Some(MessageType::Ping)
    } else if name == "Pong"@ {
        Some(MessageType::Pong)
    } else {
        None
    }
}

impl MessageType {
    pub fn matches(&self, msg: &Message) -> (r: bool)
        ensures
            r == type_matches(*self, msg@),
    {
        match (self, msg) {
            (MessageType::Text, Message::Text(_)) => true,
            (MessageType::Binary, Message::Binary(_)) => true,
            (MessageType::Close, Message::Close(_)) => true,
            (MessageType::Ping, Message::Ping(_)) => true,
            (MessageType::Pong, Message::Pong(_)) => true,
            _ => false,
        }
    }

    /// Reads the name of a message type.
    pub fn try_from(value: String) -> (r: CoreResult<MessageType>)
        ensures
            match r {
                Ok(mt) => named_type(value@) == Some(mt),
                Err(CoreError::Other(text)) => named_type(value@) is None && text@
                    == "Invalid message type: "@ + value@,
                Err(_) => false,
            },
    {
        let name = value.as_str();
        if same_text(name, "Text") {
            Ok(MessageType::Text)
        } else if same_text(name, "Binary") {
            Ok(MessageType::Binary)
        } else if same_text(name, "Close") {
            Ok(MessageType::Close)
        } else if same_text(name, "Ping") {
            Ok(MessageType::Ping)
        } else if same_text(name, "Pong") {
            Ok(MessageType::Pong)
        } else {
            let mut text = "Invalid message type: ".to_owned();
            text.append(name);
            Err(CoreError::Other(text))
        }
    }
}

/// Text matching strategies.
#[derive(Debug)]
pub enum TextMatcher {
    StartsWith(String),
    EndsWith(String),
    Contains(String),
    Exact(String),
    Regex(String),
}

pub enum TextMatcherView {
    StartsWith(Seq<char>),
    EndsWith(Seq<char>),
    Contains(Seq<char>),
    Exact(Seq<char>),
    Regex(Seq<char>),
}

impl View for TextMatcher {
    type V = TextMatcherView;

    open spec fn view(&self) -> TextMatcherView {
        match self {
            TextMatcher::StartsWith(s) => TextMatcherView::StartsWith(s@),
            TextMatcher::EndsWith(s) => TextMatcherView::EndsWith(s@),
            TextMatcher::Contains(s) => TextMatcherView::Contains(s@),
            TextMatcher::Exact(s) => TextMatcherView::Exact(s@),
            TextMatcher::Regex(p) => TextMatcherView::Regex(p@),
        }
    }
}

/// What `regex` answers when it looks for a pattern in a text, none where the pattern is not a
/// regular expression that it takes.
pub uninterp spec fn regex_finds(pattern: Seq<char>, text: Seq<char>) -> Option<bool>;

/// Whether `pattern` is found in `text`.
///
/// `regex::Regex::new`, and `is_match` of the expression that it compiled.
#[verifier::external_body]
fn regex_search(pattern: &str, text: &str) -> (r: Option<bool>)
    ensures
        r == regex_finds(pattern@, text@),
{
    regex::Regex::new(pattern).ok().map(|re| re.is_match(text))
}

/// Whether a text matcher accepts a text. A pattern that does not compile accepts nothing.
pub open spec fn text_matches(tm: TextMatcherView, text: Seq<char>) -> bool {
    match tm {
        TextMatcherView::StartsWith(s) => begins_with(text, s),
        TextMatcherView::EndsWith(s) => finishes_with(text, s),
        TextMatcherView::Contains(s) => occurs(text, s),
        TextMatcherView::Exact(s) => text == s,
        TextMatcherView::Regex(p) => regex_finds(p, text) == Some(true),
    }
}

impl TextMatcher {
    pub fn call(&self, text: &str) -> (r: bool)
        ensures
            r == text_matches(self@, text@),
            self@ matches TextMatcherView::StartsWith(p) ==> (r <==> exists|rest: Seq<char>|
                text@ == #[trigger] (p + rest)),
            self@ matches TextMatcherView::EndsWith(p) ==> (r <==> exists|rest: Seq<char>|
                text@ == #[trigger] (rest + p)),
            self@ matches TextMatcherView::Contains(p) ==> (r <==> exists|a: Seq<char>, b: Seq<char>|
                text@ == #[trigger] (a + p + b)),
            self@ matches TextMatcherView::Exact(p) ==> r == (text@ == p),
    {
        proof {
            match self@ {
                TextMatcherView::StartsWith(p) => law_text_matchers(p, text@),
                TextMatcherView::EndsWith(p) => law_text_matchers(p, text@),
                TextMatcherView::Contains(p) => law_text_matchers(p, text@),
                TextMatcherView::Exact(p) => law_text_matchers(p, text@),
                TextMatcherView::Regex(_) => {},
            }
        }
        match self {
            TextMatcher::StartsWith(s) => starts_with(text, s.as_str()),
            TextMatcher::EndsWith(s) => ends_with(text, s.as_str()),
            TextMatcher::Contains(s) => contains(text, s.as_str()),
            TextMatcher::Exact(s) => same_text(text, s.as_str()),
            TextMatcher::Regex(pattern) => regex_verdict(regex_search(pattern.as_str(), text)),
        }
    }
}

/// What a search for a pattern decides: a pattern that does not compile is not found.
pub fn regex_verdict(found: Option<bool>) -> (r: bool)
    ensures
        r == (found == Some(true)),
{
    match found {
        Some(b) => b,
        None => false,
    }
}

/// Binary matching strategies.
#[derive(Debug)]
pub enum BinaryMatcher {
    StartsWith(Vec<u8>),
    EndsWith(Vec<u8>),
    Contains(Vec<u8>),
    Exact(Vec<u8>),
}

pub enum BinaryMatcherView {
    StartsWith(Seq<u8>),
    EndsWith(Seq<u8>),
    Contains(Seq<u8>),
    Exact(Seq<u8>),
}

impl View for BinaryMatcher {
    type V = BinaryMatcherView;

    open spec fn view(&self) -> BinaryMatcherView {
        match self {
            BinaryMatcher::StartsWith(b) => BinaryMatcherView::StartsWith(b@),
            BinaryMatcher::EndsWith(b) => BinaryMatcherView::EndsWith(b@),
            BinaryMatcher::Contains(b) => BinaryMatcherView::Contains(b@),
            BinaryMatcher::Exact(b) => BinaryMatcherView::Exact(b@),
        }
    }
}

/// Whether a binary matcher accepts some bytes.
pub open spec fn binary_matches(bm: BinaryMatcherView, data: Seq<u8>) -> bool {
    match bm {
        BinaryMatcherView::StartsWith(b) => begins_with(data, b),
        BinaryMatcherView::EndsWith(b) => finishes_with(data, b),
        BinaryMatcherView::Contains(b) => occurs(data, b),
        BinaryMatcherView::Exact(b) => data == b,
    }
}

/// A binary matcher looks for at least one byte.
pub open spec fn binary_defined(bm: BinaryMatcherView) -> bool {
    bm matches BinaryMatcherView::Contains(b) ==> b.len() > 0
}

impl BinaryMatcher {
    pub fn call(&self, data: &[u8]) -> (r: bool)
        requires
            binary_defined(self@),
        ensures
            r == binary_matches(self@, data@),
            self@ matches BinaryMatcherView::StartsWith(p) ==> (r <==> exists|rest: Seq<u8>|
                data@ == #[trigger] (p + rest)),
            self@ matches BinaryMatcherView::EndsWith(p) ==> (r <==> exists|rest: Seq<u8>|
                data@ == #[trigger] (rest + p)),
            self@ matches BinaryMatcherView::Contains(p) ==> (r <==> exists|a: Seq<u8>, b: Seq<u8>|
                data@ == #[trigger] (a + p + b)),
            self@ matches BinaryMatcherView::Exact(p) ==> r == (data@ == p),
    {
        proof {
            match self@ {
                BinaryMatcherView::StartsWith(p) => law_binary_matchers(p, data@),
                BinaryMatcherView::EndsWith(p) => law_binary_matchers(p, data@),
                BinaryMatcherView::Contains(p) => law_binary_matchers(p, data@),
                BinaryMatcherView::Exact(p) => law_binary_matchers(p, data@),
            }
        }
        match self {
            BinaryMatcher::StartsWith(prefix) => slice_begins_with(data, prefix.as_slice()),
            BinaryMatcher::EndsWith(suffix) => slice_finishes_with(data, suffix.as_slice()),
            BinaryMatcher::Contains(needle) => find_slice(data, needle.as_slice()).is_some(),
            BinaryMatcher::Exact(expected) => {
                if data.len() == expected.len() && slice_begins_with(data, expected.as_slice()) {
                    assert(data@.subrange(0, data@.len() as int) == data@);
                    true
                } else {
                    assert(data@ == expected@ ==> data@.subrange(0, data@.len() as int)
                        == expected@);
                    false
                }
            },
        }
    }
}

/// A test on messages, supplied by the user of the library. It answers the same message always
/// in the same way.
pub trait MessagePredicate {
    /// Whether the message passes. What an implementation leaves unsaid stays open.
    closed spec fn accepts(&self, msg: MessageView) -> bool {
        arbitrary()
    }

    fn test(&self, msg: &Message) -> (r: bool)
        ensures
            r == self.accepts(msg@),
    ;
}

/// A test on JSON text, supplied by the user of the library: what a schema accepts.
pub trait JsonPredicate {
    /// Whether the JSON value that `text` writes passes. What an implementation leaves unsaid
    /// stays open.
    closed spec fn accepts(&self, text: Seq<char>) -> bool {
        arbitrary()
    }

    fn test(&self, text: &str) -> (r: bool)
        ensures
            r == self.accepts(text@),
    ;
}

/// A change to messages, supplied by the user of the library.
pub trait MessageTransform {
    /// What the message becomes, none where it is turned away. What an implementation leaves
    /// unsaid stays open.
    closed spec fn changed(&self, msg: MessageView) -> Option<MessageView> {
        arbitrary()
    }

    fn apply(&self, msg: &Message) -> (r: Option<Message>)
        ensures
            message_view(r) == self.changed(msg@),
    ;
}

pub open spec fn message_view(msg: Option<Message>) -> Option<MessageView> {
    match msg {
        Some(m) => Some(m@),
        None => None,
    }
}

/// Core matchers for different message parts.
pub enum Matcher {
    Text(TextMatcher),
    Binary(BinaryMatcher),
    MessageType(MessageType),
    JsonSchema(Box<dyn JsonPredicate>),
    Any,
    Never,
    Custom(Box<dyn MessagePredicate>),
}

pub enum MatcherView {
    Text(TextMatcherView),
    Binary(BinaryMatcherView),
    MessageType(MessageType),
    JsonSchema(spec_fn(Seq<char>) -> bool),
    Any,
    Never,
    Custom(spec_fn(MessageView) -> bool),
}

impl View for Matcher {
    type V = MatcherView;

    open spec fn view(&self) -> MatcherView {
        match self {
            Matcher::Text(tm) => MatcherView::Text(tm@),
            Matcher::Binary(bm) => MatcherView::Binary(bm@),
            Matcher::MessageType(mt) => MatcherView::MessageType(*mt),
            Matcher::JsonSchema(f) => MatcherView::JsonSchema(|t: Seq<char>| f.accepts(t)),
            Matcher::Any => MatcherView::Any,
            Matcher::Never => MatcherView::Never,
            Matcher::Custom(f) => MatcherView::Custom(|m: MessageView| f.accepts(m)),
        }
    }
}

/// Whether a matcher accepts a message. Text is looked for in text messages and in binary
/// messages that are UTF-8; a schema sees only what is JSON.
pub open spec fn matcher_accepts(matcher: MatcherView, msg: MessageView) -> bool {
    match matcher {
        MatcherView::Text(tm) => msg.text() is Some && text_matches(tm, msg.text()->0),
        MatcherView::Binary(bm) => msg matches MessageView::Binary(data) && binary_matches(bm, data),
        MatcherView::MessageType(mt) => type_matches(mt, msg),
        MatcherView::JsonSchema(f) => msg.text() is Some && json_outline(msg.text()->0) is Some
            && f(msg.text()->0),
        MatcherView::Any => true,
        MatcherView::Never => false,
        MatcherView::Custom(f) => f(msg),
    }
}

/// Whether a matcher can answer a message.
pub open spec fn matcher_defined(matcher: MatcherView, msg: MessageView) -> bool {
    matcher matches MatcherView::Binary(bm) ==> msg is Binary ==> binary_defined(bm)
}

impl Matcher {
    pub fn call(&self, msg: &Message) -> (r: bool)
        requires
            matcher_defined(self@, msg@),
        ensures
            r == matcher_accepts(self@, msg@),
    {
        match self {
            Matcher::Text(tm) => match msg.text() {
                Some(text) => tm.call(text.as_str()),
                None => false,
            },
            Matcher::Binary(bm) => match msg {
                Message::Binary(data) => bm.call(data.as_slice()),
                _ => false,
            },
            Matcher::MessageType(mt) => mt.matches(msg),
            Matcher::JsonSchema(f) => match msg.text() {
                Some(text) => outline(text.as_str()).is_some() && f.test(text.as_str()),
                None => false,
            },
            Matcher::Any => true,
            Matcher::Never => false,
            Matcher::Custom(f) => f.test(msg),
        }
    }
}

/// Conditions that gate when a matcher result is acted upon.
pub enum Condition {
    Always,
    /// The number of messages that are still turned away.
    Wait(usize),
    /// One message in every `period` passes, the one at `offset`.
    WaitMessages { period: usize, offset: usize, counter: usize },
    Custom(Box<dyn MessagePredicate>),
}

pub enum ConditionView {
    Always,
    Wait(int),
    WaitMessages { period: int, offset: int, counter: int },
    Custom(spec_fn(MessageView) -> bool),
}

impl View for Condition {
    type V = ConditionView;

    open spec fn view(&self) -> ConditionView {
        match self {
            Condition::Always => ConditionView::Always,
            Condition::Wait(n) => ConditionView::Wait(*n as int),
            Condition::WaitMessages { period, offset, counter } => ConditionView::WaitMessages {
                period: *period as int,
                offset: *offset as int,
                counter: *counter as int,
            },
            Condition::Custom(f) => ConditionView::Custom(|m: MessageView| f.accepts(m)),
        }
    }
}

/// A counter of messages after one more: it starts again behind the largest `usize`.
pub open spec fn counted(counter: int) -> int {
    if counter == usize::MAX {
        0
    } else {
        counter + 1
    }
}

/// What a condition becomes on a message, and whether it lets the message pass.
pub open spec fn condition_step(cond: ConditionView, msg: MessageView) -> (ConditionView, bool) {
    match cond {
        ConditionView::Always => (cond, true),
        ConditionView::Wait(n) => if n > 0 {
            (ConditionView::Wait(n - 1), false)
        } else {
            (cond, true)
        },
        ConditionView::WaitMessages { period, offset, counter } => (
            ConditionView::WaitMessages { period, offset, counter: counted(counter) },
            counter % period == offset,
        ),
        ConditionView::Custom(f) => (cond, f(msg)),
    }
}

/// A condition that counts has a period to count by.
pub open spec fn condition_defined(cond: ConditionView) -> bool {
    cond matches ConditionView::WaitMessages { period, .. } ==> period != 0
}

/// A condition that has seen no message and turns none away by number.
pub open spec fn condition_reset(cond: ConditionView) -> ConditionView {
    match cond {
        ConditionView::Wait(_) => ConditionView::Wait(0),
        ConditionView::WaitMessages { period, offset, .. } => ConditionView::WaitMessages {
            period,
            offset,
            counter: 0,
        },
        _ => cond,
    }
}

impl Condition {
    pub fn call(&mut self, msg: &Message) -> (r: bool)
        requires
            condition_defined(old(self)@),
        ensures
            (final(self)@, r) == condition_step(old(self)@, msg@),
    {
        match self {
            Condition::Always => true,
            Condition::Wait(wait) => {
                if *wait > 0 {
                    *wait = *wait - 1;
                    false
                } else {
                    true
                }
            },
            Condition::WaitMessages { period, offset, counter } => {
                let current: usize = *counter;
                *counter = if current == usize::MAX {
                    0
                } else {
                    current + 1
                };
                current % *period == *offset
            },
            Condition::Custom(f) => f.test(msg),
        }
    }

    pub fn reset(&mut self)
        ensures
            final(self)@ == condition_reset(old(self)@),
    {
        match self {
            Condition::Wait(wait) => {
                *wait = 0;
            },
            Condition::WaitMessages { counter, .. } => {
                *counter = 0;
            },
            _ => {},
        }
    }
}

/// Modifiers that transform the message before passing to inner rules.
pub enum Modifier {
    LstripThen { prefix: String, inner: Box<Rule> },
    RstripThen { suffix: String, inner: Box<Rule> },
    LstripUntil { target: String, inner: Box<Rule> },
    RstripUntil { target: String, inner: Box<Rule> },
    Custom(Box<dyn MessageTransform>),
}

/// Logical combinators for composing rules.
pub enum Combinator {
    Or(Vec<Rule>),
    And(Vec<Rule>),
    /// A message that `first` accepts makes the rule wait for `second` on the next message.
    Then { first: Box<Rule>, second: Box<Rule>, waiting: bool },
    AndThen { first: Box<Rule>, second: Box<Rule> },
    Not(Box<Rule>),
}

/// A rule on messages.
pub enum Rule {
    Matcher { matcher: Matcher, conditions: Vec<Condition> },
    ModifiedRule(Modifier),
    Combinator(Combinator),
    Custom(Box<dyn MessagePredicate>),
}

/// What a modifier cuts off a text.
pub enum StripView {
    LstripThen(Seq<char>),
    RstripThen(Seq<char>),
    LstripUntil(Seq<char>),
    RstripUntil(Seq<char>),
}

/// The model of a rule.
pub enum RuleView {
    Matcher { matcher: MatcherView, conditions: Seq<ConditionView> },
    Strip { strip: StripView, inner: Box<RuleView> },
    Transform(spec_fn(MessageView) -> Option<MessageView>),
    Or(Seq<RuleView>),
    And(Seq<RuleView>),
    Then { first: Box<RuleView>, second: Box<RuleView>, waiting: bool },
    AndThen { first: Box<RuleView>, second: Box<RuleView> },
    Not(Box<RuleView>),
    Custom(spec_fn(MessageView) -> bool),
}

pub open spec fn conditions_view(conditions: Seq<Condition>) -> Seq<ConditionView> {
    conditions.map_values(|c: Condition| c@)
}

/// The models of some rules.
pub open spec fn rules_view(rules: Seq<Rule>) -> Seq<RuleView>
    decreases rules,
{
    if rules.len() == 0 {
        Seq::empty()
    } else {
        seq![rules[0].view()] + rules_view(rules.drop_first())
    }
}

impl Modifier {
    pub open spec fn view(&self) -> RuleView
        decreases self,
    {
        match self {
            Modifier::LstripThen { prefix, inner } => RuleView::Strip {
                strip: StripView::LstripThen(prefix@),
                inner: Box::new(inner.view()),
            },
            Modifier::RstripThen { suffix, inner } => RuleView::Strip {
                strip: StripView::RstripThen(suffix@),
                inner: Box::new(inner.view()),
            },
            Modifier::LstripUntil { target, inner } => RuleView::Strip {
                strip: StripView::LstripUntil(target@),
                inner: Box::new(inner.view()),
            },
            Modifier::RstripUntil { target, inner } => RuleView::Strip {
                strip: StripView::RstripUntil(target@),
                inner: Box::new(inner.view()),
            },
            Modifier::Custom(f) => RuleView::Transform(|m: MessageView| f.changed(m)),
        }
    }
}

impl Combinator {
    pub open spec fn view(&self) -> RuleView
        decreases self,
    {
        match self {
            Combinator::Or(rules) => RuleView::Or(rules_view(rules@)),
            Combinator::And(rules) => RuleView::And(rules_view(rules@)),
            Combinator::Then { first, second, waiting } => RuleView::Then {
                first: Box::new(first.view()),
                second: Box::new(second.view()),
                waiting: *waiting,
            },
            Combinator::AndThen { first, second } => RuleView::AndThen {
                first: Box::new(first.view()),
                second: Box::new(second.view()),
            },
            Combinator::Not(rule) => RuleView::Not(Box::new(rule.view())),
        }
    }
}

impl Rule {
    pub open spec fn view(&self) -> RuleView
        decreases self,
    {
        match self {
            Rule::Matcher { matcher, conditions } => RuleView::Matcher {
                matcher: matcher@,
                conditions: conditions_view(conditions@),
            },
            Rule::ModifiedRule(modifier) => modifier.view(),
            Rule::Combinator(comb) => comb.view(),
            Rule::Custom(f) => RuleView::Custom(|m: MessageView| f.accepts(m)),
        }
    }
}

/// What is left of a text, none where there is nothing to cut at.
pub open spec fn stripped(strip: StripView, text: Seq<char>) -> Option<Seq<char>> {
    match strip {
        StripView::LstripThen(prefix) => if begins_with(text, prefix) {
            Some(text.skip(prefix.len() as int))
        } else {
            None
        },
        StripView::RstripThen(suffix) => if finishes_with(text, suffix) {
            Some(text.take(text.len() - suffix.len()))
        } else {
            None
        },
        StripView::LstripUntil(target) => if occurs(text, target) {
            Some(text.skip(first_index(text, target)))
        } else {
            None
        },
        StripView::RstripUntil(target) => if occurs(text, target) {
            Some(text.take(last_index(text, target) + target.len()))
        } else {
            None
        },
    }
}

/// The message that an inner rule sees.
pub open spec fn strip_message(strip: StripView, msg: MessageView) -> Option<MessageView> {
    match msg.text() {
        Some(text) => match stripped(strip, text) {
            Some(rest) => Some(MessageView::Text(rest)),
            None => None,
        },
        None => None,
    }
}

/// A text can be cut behind its last `target`, except where both are empty.
pub open spec fn strip_defined(strip: StripView, msg: MessageView) -> bool {
    strip matches StripView::RstripUntil(target) ==> msg.text() matches Some(text) ==> target.len()
        + text.len() > 0
}

/// What conditions become on a message that a matcher accepted, and whether all let it pass.
/// Those behind the first that does not are not asked.
pub open spec fn conditions_step(conditions: Seq<ConditionView>, msg: MessageView) -> (
    Seq<ConditionView>,
    bool,
)
    decreases conditions.len(),
{
    if conditions.len() == 0 {
        (conditions, true)
    } else {
        let (first, passes) = condition_step(conditions[0], msg);
        let rest = conditions.drop_first();
        if passes {
            let (others, ok) = conditions_step(rest, msg);
            (seq![first] + others, ok)
        } else {
            (seq![first] + rest, false)
        }
    }
}

/// Whether every condition that is asked can answer.
pub open spec fn conditions_defined(conditions: Seq<ConditionView>, msg: MessageView) -> bool
    decreases conditions.len(),
{
    conditions.len() > 0 ==> condition_defined(conditions[0]) && (condition_step(
        conditions[0],
        msg,
    ).1 ==> conditions_defined(conditions.drop_first(), msg))
}

/// What a rule becomes on a message, and whether it accepts the message.
pub open spec fn rule_step(rule: RuleView, msg: MessageView) -> (RuleView, bool)
    decreases rule,
{
    match rule {
        RuleView::Matcher { matcher, conditions } => if matcher_accepts(matcher, msg) {
            let (next, ok) = conditions_step(conditions, msg);
            (RuleView::Matcher { matcher, conditions: next }, ok)
        } else {
            (rule, false)
        },
        RuleView::Strip { strip, inner } => match strip_message(strip, msg) {
            Some(rest) => {
                let (next, ok) = rule_step(*inner, rest);
                (RuleView::Strip { strip, inner: Box::new(next) }, ok)
            },
            None => (rule, false),
        },
        RuleView::Transform(f) => (rule, f(msg) is Some),
        RuleView::Or(rules) => {
            let (next, ok) = any_step(rules, msg);
            (RuleView::Or(next), ok)
        },
        RuleView::And(rules) => {
            let (next, ok) = all_step(rules, msg);
            (RuleView::And(next), ok)
        },
        RuleView::Then { first, second, waiting } => if waiting {
            let (next, ok) = rule_step(*second, msg);
            (RuleView::Then { first, second: Box::new(next), waiting: false }, ok)
        } else {
            let (next, ok) = rule_step(*first, msg);
            (RuleView::Then { first: Box::new(next), second, waiting: ok }, false)
        },
        RuleView::AndThen { first, second } => {
            let (next, ok) = rule_step(*first, msg);
            if ok {
                let (last, verdict) = rule_step(*second, msg);
                (RuleView::AndThen { first: Box::new(next), second: Box::new(last) }, verdict)
            } else {
                (RuleView::AndThen { first: Box::new(next), second }, false)
            }
        },
        RuleView::Not(inner) => {
            let (next, ok) = rule_step(*inner, msg);
            (RuleView::Not(Box::new(next)), !ok)
        },
        RuleView::Custom(f) => (rule, f(msg)),
    }
}

/// What rules become when they are asked in turn until one accepts, and whether one did.
pub open spec fn any_step(rules: Seq<RuleView>, msg: MessageView) -> (Seq<RuleView>, bool)
    decreases rules,
{
    if rules.len() == 0 {
        (rules, false)
    } else {
        let (first, ok) = rule_step(rules[0], msg);
        let rest = rules.drop_first();
        if ok {
            (seq![first] + rest, true)
        } else {
            let (others, verdict) = any_step(rest, msg);
            (seq![first] + others, verdict)
        }
    }
}

/// What rules become when they are asked in turn until one refuses, and whether none did.
pub open spec fn all_step(rules: Seq<RuleView>, msg: MessageView) -> (Seq<RuleView>, bool)
    decreases rules,
{
    if rules.len() == 0 {
        (rules, true)
    } else {
        let (first, ok) = rule_step(rules[0], msg);
        let rest = rules.drop_first();
        if ok {
            let (others, verdict) = all_step(rest, msg);
            (seq![first] + others, verdict)
        } else {
            (seq![first] + rest, false)
        }
    }
}

/// Whether every part of a rule that a message reaches can answer it.
pub open spec fn rule_defined(rule: RuleView, msg: MessageView) -> bool
    decreases rule,
{
    match rule {
        RuleView::Matcher { matcher, conditions } => matcher_defined(matcher, msg) && (
        matcher_accepts(matcher, msg) ==> conditions_defined(conditions, msg)),
        RuleView::Strip { strip, inner } => strip_defined(strip, msg) && (strip_message(
            strip,
            msg,
        ) matches Some(rest) ==> rule_defined(*inner, rest)),
        RuleView::Transform(_) => true,
        RuleView::Or(rules) => any_defined(rules, msg),
        RuleView::And(rules) => all_defined(rules, msg),
        RuleView::Then { first, second, waiting } => if waiting {
            rule_defined(*second, msg)
        } else {
            rule_defined(*first, msg)
        },
        RuleView::AndThen { first, second } => rule_defined(*first, msg) && (rule_step(
            *first,
            msg,
        ).1 ==> rule_defined(*second, msg)),
        RuleView::Not(inner) => rule_defined(*inner, msg),
        RuleView::Custom(_) => true,
    }
}

pub open spec fn any_defined(rules: Seq<RuleView>, msg: MessageView) -> bool
    decreases rules,
{
    rules.len() > 0 ==> rule_defined(rules[0], msg) && (!rule_step(rules[0], msg).1 ==> any_defined(
        rules.drop_first(),
        msg,
    ))
}

pub open spec fn all_defined(rules: Seq<RuleView>, msg: MessageView) -> bool
    decreases rules,
{
    rules.len() > 0 ==> rule_defined(rules[0], msg) && (rule_step(rules[0], msg).1 ==> all_defined(
        rules.drop_first(),
        msg,
    ))
}

/// A rule whose counters are back at zero and that waits for nothing.
pub open spec fn rule_reset(rule: RuleView) -> RuleView
    decreases rule,
{
    match rule {
        RuleView::Matcher { matcher, conditions } => RuleView::Matcher {
            matcher,
            conditions: conditions.map_values(|c: ConditionView| condition_reset(c)),
        },
        RuleView::Strip { strip, inner } => RuleView::Strip {
            strip,
            inner: Box::new(rule_reset(*inner)),
        },
        RuleView::Or(rules) => RuleView::Or(rules_reset(rules)),
        RuleView::And(rules) => RuleView::And(rules_reset(rules)),
        RuleView::Then { first, second, .. } => RuleView::Then {
            first: Box::new(rule_reset(*first)),
            second: Box::new(rule_reset(*second)),
            waiting: false,
        },
        RuleView::AndThen { first, second } => RuleView::AndThen {
            first: Box::new(rule_reset(*first)),
            second: Box::new(rule_reset(*second)),
        },
        RuleView::Not(inner) => RuleView::Not(Box::new(rule_reset(*inner))),
        RuleView::Transform(_) | RuleView::Custom(_) => rule,
    }
}

pub open spec fn rules_reset(rules: Seq<RuleView>) -> Seq<RuleView>
    decreases rules,
{
    if rules.len() == 0 {
        rules
    } else {
        seq![rule_reset(rules[0])] + rules_reset(rules.drop_first())
    }
}

/// The model of a list of rules is the list of their models.
pub proof fn lemma_rules_view(rules: Seq<Rule>)
    ensures
        rules_view(rules).len() == rules.len(),
        forall|i: int| 0 <= i < rules.len() ==> #[trigger] rules_view(rules)[i] == rules[i].view(),
    decreases rules.len(),
{
    if rules.len() > 0 {
        let rest = rules.drop_first();
        lemma_rules_view(rest);
        assert forall|i: int| 0 <= i < rules.len() implies #[trigger] rules_view(rules)[i]
            == rules[i].view() by {
            if i > 0 {
                assert(rules_view(rules)[i] == rules_view(rest)[i - 1]);
                assert(rest[i - 1] == rules[i]);
            }
        }
    }
}

fn call_conditions(conditions: &mut Vec<Condition>, msg: &Message) -> (r: bool)
    requires
        conditions_defined(conditions_view(old(conditions)@), msg@),
    ensures
        (conditions_view(final(conditions)@), r) == conditions_step(
            conditions_view(old(conditions)@),
            msg@,
        ),
{
    let ghost start = conditions_view(conditions@);
    let mut i: usize = 0;
    assert(start.skip(0) == start);
    while i < conditions.len()
        invariant
            i <= conditions@.len() == start.len(),
            start == conditions_view(old(conditions)@),
            conditions_view(conditions@).skip(i as int) == start.skip(i as int),
            conditions_defined(start.skip(i as int), msg@),
            conditions_step(start, msg@) == (
                conditions_view(conditions@).take(i as int) + conditions_step(
                    start.skip(i as int),
                    msg@,
                ).0,
                conditions_step(start.skip(i as int), msg@).1,
            ),
        decreases conditions@.len() - i,
    {
        let ghost before = conditions_view(conditions@);
        let ghost rest = start.skip(i as int);
        assert(rest[0] == before.skip(i as int)[0]);
        assert(rest.drop_first() == start.skip(i + 1));
        let passes = conditions[i].call(msg);
        let ghost now = conditions_view(conditions@);
        assert(now == before.update(i as int, condition_step(rest[0], msg@).0));
        assert(now.take(i + 1) == before.take(i as int) + seq![now[i as int]]);
        assert(now.skip(i + 1) == before.skip(i as int).drop_first());
        if !passes {
            assert(now == before.take(i as int) + (seq![now[i as int]] + rest.drop_first()));
            return false;
        }
        assert(before.take(i as int) + (seq![now[i as int]] + conditions_step(
            start.skip(i + 1),
            msg@,
        ).0) == now.take(i + 1) + conditions_step(start.skip(i + 1), msg@).0);
        i += 1;
    }
    assert(conditions_view(conditions@).take(i as int) + start.skip(i as int) == conditions_view(
        conditions@,
    ));
    true
}

fn reset_conditions(conditions: &mut Vec<Condition>)
    ensures
        conditions_view(final(conditions)@) == conditions_view(old(conditions)@).map_values(
            |c: ConditionView| condition_reset(c),
        ),
{
    let ghost start = conditions@;
    let mut i: usize = 0;
    while i < conditions.len()
        invariant
            i <= conditions@.len() == start.len(),
            start == old(conditions)@,
            forall|j: int| 0 <= j < i ==> #[trigger] conditions@[j]@ == condition_reset(start[j]@),
            forall|j: int| i <= j < start.len() ==> conditions@[j] == start[j],
        decreases conditions@.len() - i,
    {
        conditions[i].reset();
        i += 1;
    }
}

fn call_any(rules: &mut Vec<Rule>, msg: &Message) -> (r: bool)
    requires
        any_defined(rules_view(old(rules)@), msg@),
    ensures
        (rules_view(final(rules)@), r) == any_step(rules_view(old(rules)@), msg@),
    decreases *old(rules),
{
    let ghost start = rules_view(rules@);
    proof {
        lemma_rules_view(rules@);
    }
    let mut i: usize = 0;
    assert(start.skip(0) == start);
    while i < rules.len()
        invariant
            i <= rules@.len() == start.len() == old(rules)@.len(),
            start == rules_view(old(rules)@),
            forall|j: int| i <= j < rules@.len() ==> rules@[j] == old(rules)@[j],
            rules_view(rules@).skip(i as int) == start.skip(i as int),
            any_defined(start.skip(i as int), msg@),
            any_step(start, msg@) == (
                rules_view(rules@).take(i as int) + any_step(start.skip(i as int), msg@).0,
                any_step(start.skip(i as int), msg@).1,
            ),
        decreases rules@.len() - i,
    {
        let ghost earlier = rules@;
        let ghost before = rules_view(rules@);
        let ghost rest = start.skip(i as int);
        proof {
            lemma_rules_view(earlier);
        }
        assert(rest[0] == before.skip(i as int)[0]);
        assert(rest.drop_first() == start.skip(i + 1));
        let accepts = rules[i].call(msg);
        let ghost now = rules_view(rules@);
        proof {
            lemma_rules_view(rules@);
        }
        assert(now =~= before.update(i as int, rule_step(rest[0], msg@).0));
        assert(now.take(i + 1) == before.take(i as int) + seq![now[i as int]]);
        assert(now.skip(i + 1) == before.skip(i as int).drop_first());
        if accepts {
            assert(now == before.take(i as int) + (seq![now[i as int]] + rest.drop_first()));
            return true;
        }
        assert(before.take(i as int) + (seq![now[i as int]] + any_step(
            start.skip(i + 1),
            msg@,
        ).0) == now.take(i + 1) + any_step(start.skip(i + 1), msg@).0);
        i += 1;
    }
    proof {
        lemma_rules_view(rules@);
    }
    assert(rules_view(rules@).take(i as int) + start.skip(i as int) == rules_view(rules@));
    false
}

fn call_all(rules: &mut Vec<Rule>, msg: &Message) -> (r: bool)
    requires
        all_defined(rules_view(old(rules)@), msg@),
    ensures
        (rules_view(final(rules)@), r) == all_step(rules_view(old(rules)@), msg@),
    decreases *old(rules),
{
    let ghost start = rules_view(rules@);
    proof {
        lemma_rules_view(rules@);
    }
    let mut i: usize = 0;
    assert(start.skip(0) == start);
    while i < rules.len()
        invariant
            i <= rules@.len() == start.len() == old(rules)@.len(),
            start == rules_view(old(rules)@),
            forall|j: int| i <= j < rules@.len() ==> rules@[j] == old(rules)@[j],
            rules_view(rules@).skip(i as int) == start.skip(i as int),
            all_defined(start.skip(i as int), msg@),
            all_step(start, msg@) == (
                rules_view(rules@).take(i as int) + all_step(start.skip(i as int), msg@).0,
                all_step(start.skip(i as int), msg@).1,
            ),
        decreases rules@.len() - i,
    {
        let ghost earlier = rules@;
        let ghost before = rules_view(rules@);
        let ghost rest = start.skip(i as int);
        proof {
            lemma_rules_view(earlier);
        }
        assert(rest[0] == before.skip(i as int)[0]);
        assert(rest.drop_first() == start.skip(i + 1));
        let accepts = rules[i].call(msg);
        let ghost now = rules_view(rules@);
        proof {
            lemma_rules_view(rules@);
        }
        assert(now =~= before.update(i as int, rule_step(rest[0], msg@).0));
        assert(now.take(i + 1) == before.take(i as int) + seq![now[i as int]]);
        assert(now.skip(i + 1) == before.skip(i as int).drop_first());
        if !accepts {
            assert(now == before.take(i as int) + (seq![now[i as int]] + rest.drop_first()));
            return false;
        }
        assert(before.take(i as int) + (seq![now[i as int]] + all_step(
            start.skip(i + 1),
            msg@,
        ).0) == now.take(i + 1) + all_step(start.skip(i + 1), msg@).0);
        i += 1;
    }
    proof {
        lemma_rules_view(rules@);
    }
    assert(rules_view(rules@).take(i as int) + start.skip(i as int) == rules_view(rules@));
    true
}

/// The reset of a list of rules is the list of their resets.
pub proof fn lemma_rules_reset(rules: Seq<RuleView>)
    ensures
        rules_reset(rules).len() == rules.len(),
        forall|i: int|
            0 <= i < rules.len() ==> #[trigger] rules_reset(rules)[i] == rule_reset(rules[i]),
    decreases rules.len(),
{
    if rules.len() > 0 {
        let rest = rules.drop_first();
        lemma_rules_reset(rest);
        assert forall|i: int| 0 <= i < rules.len() implies #[trigger] rules_reset(rules)[i]
            == rule_reset(rules[i]) by {
            if i > 0 {
                assert(rules_reset(rules)[i] == rules_reset(rest)[i - 1]);
                assert(rest[i - 1] == rules[i]);
            }
        }
    }
}

fn reset_rules(rules: &mut Vec<Rule>)
    ensures
        rules_view(final(rules)@) == rules_reset(rules_view(old(rules)@)),
    decreases *old(rules),
{
    let mut i: usize = 0;
    while i < rules.len()
        invariant
            i <= rules@.len() == old(rules)@.len(),
            forall|j: int| i <= j < rules@.len() ==> rules@[j] == old(rules)@[j],
            forall|j: int|
                0 <= j < i ==> (#[trigger] rules@[j]).view() == rule_reset(old(rules)@[j].view()),
        decreases rules@.len() - i,
    {
        rules[i].reset();
        i += 1;
    }
    proof {
        lemma_rules_view(rules@);
        lemma_rules_view(old(rules)@);
        lemma_rules_reset(rules_view(old(rules)@));
        assert(rules_view(rules@) =~= rules_reset(rules_view(old(rules)@)));
    }
}

/// The message that a modifier hands on, none where it cuts nothing.
pub open spec fn modified(rule: RuleView, msg: MessageView) -> Option<MessageView> {
    match rule {
        RuleView::Strip { strip, .. } => strip_message(strip, msg),
        RuleView::Transform(f) => f(msg),
        _ => None,
    }
}

impl Modifier {
    /// The changed message, where there is one and the inner rule accepts it.
    pub fn call(&mut self, msg: &Message) -> (r: Option<Message>)
        requires
            rule_defined(old(self).view(), msg@),
        ensures
            (final(self).view(), r is Some) == rule_step(old(self).view(), msg@),
            r is Some ==> message_view(r) == modified(old(self).view(), msg@),
        decreases *old(self),
    {
        match self {
            Modifier::LstripThen { prefix, inner } => {
                let text = Self::get_text_owned(msg)?;
                if let Some(rest) = strip_prefix(text.as_str(), prefix.as_str()) {
                    let new_msg = Message::Text(rest.to_owned());
                    if inner.call(&new_msg) {
                        return Some(new_msg);
                    }
                }
                None
            },
            Modifier::RstripThen { suffix, inner } => {
                let text = Self::get_text_owned(msg)?;
                if let Some(rest) = strip_suffix(text.as_str(), suffix.as_str()) {
                    let new_msg = Message::Text(rest.to_owned());
                    if inner.call(&new_msg) {
                        return Some(new_msg);
                    }
                }
                None
            },
            Modifier::LstripUntil { target, inner } => {
                let text = Self::get_text_owned(msg)?;
                if let Some(rest) = from_first(text.as_str(), target.as_str()) {
                    let new_msg = Message::Text(rest.to_owned());
                    if inner.call(&new_msg) {
                        return Some(new_msg);
                    }
                }
                None
            },
            Modifier::RstripUntil { target, inner } => {
                let text = Self::get_text_owned(msg)?;
                if let Some(rest) = through_last(text.as_str(), target.as_str()) {
                    let new_msg = Message::Text(rest.to_owned());
                    if inner.call(&new_msg) {
                        return Some(new_msg);
                    }
                }
                None
            },
            Modifier::Custom(f) => f.apply(msg),
        }
    }

    /// The text of a message that is text.
    pub fn get_text_owned(msg: &Message) -> (r: Option<String>)
        ensures
            text_view(r) == msg@.text(),
    {
        msg.text()
    }

    pub fn reset(&mut self)
        ensures
            final(self).view() == rule_reset(old(self).view()),
        decreases *old(self),
    {
        match self {
            Modifier::LstripThen { inner, .. } => inner.reset(),
            Modifier::RstripThen { inner, .. } => inner.reset(),
            Modifier::LstripUntil { inner, .. } => inner.reset(),
            Modifier::RstripUntil { inner, .. } => inner.reset(),
            Modifier::Custom(_) => {},
        }
    }
}

impl Combinator {
    pub fn call(&mut self, msg: &Message) -> (r: bool)
        requires
            rule_defined(old(self).view(), msg@),
        ensures
            (final(self).view(), r) == rule_step(old(self).view(), msg@),
        decreases *old(self),
    {
        match self {
            Combinator::Or(rules) => call_any(rules, msg),
            Combinator::And(rules) => call_all(rules, msg),
            Combinator::Then { first, second, waiting } => {
                if *waiting {
                    *waiting = false;
                    second.call(msg)
                } else {
                    *waiting = first.call(msg);
                    false
                }
            },
            Combinator::AndThen { first, second } => first.call(msg) && second.call(msg),
            Combinator::Not(rule) => !rule.call(msg),
        }
    }

    pub fn reset(&mut self)
        ensures
            final(self).view() == rule_reset(old(self).view()),
        decreases *old(self),
    {
        match self {
            Combinator::Or(rules) => reset_rules(rules),
            Combinator::And(rules) => reset_rules(rules),
            Combinator::Then { first, second, waiting } => {
                *waiting = false;
                first.reset();
                second.reset();
            },
            Combinator::AndThen { first, second } => {
                first.reset();
                second.reset();
            },
            Combinator::Not(rule) => rule.reset(),
        }
    }
}

impl Rule {
    /// Whether the rule accepts the message.
    pub fn call(&mut self, msg: &Message) -> (r: bool)
        requires
            rule_defined(old(self).view(), msg@),
        ensures
            (final(self).view(), r) == rule_step(old(self).view(), msg@),
        decreases *old(self),
    {
        match self {
            Rule::Matcher { matcher, conditions } => matcher.call(msg) && call_conditions(
                conditions,
                msg,
            ),
            Rule::ModifiedRule(modifier) => modifier.call(msg).is_some(),
            Rule::Combinator(comb) => comb.call(msg),
            Rule::Custom(f) => f.test(msg),
        }
    }

    pub fn reset(&mut self)
        ensures
            final(self).view() == rule_reset(old(self).view()),
        decreases *old(self),
    {
        match self {
            Rule::Matcher { conditions, .. } => reset_conditions(conditions),
            Rule::ModifiedRule(modifier) => modifier.reset(),
            Rule::Combinator(comb) => comb.reset(),
            Rule::Custom(_) => {},
        }
    }
}

/// A rule that is a matcher without conditions.
pub open spec fn plain(matcher: MatcherView) -> RuleView {
    RuleView::Matcher { matcher, conditions: Seq::empty() }
}

/// A rule with one more condition. Only matchers take conditions.
pub open spec fn conditioned(rule: RuleView, cond: ConditionView) -> RuleView {
    match rule {
        RuleView::Matcher { matcher, conditions } => RuleView::Matcher {
            matcher,
            conditions: conditions.push(cond),
        },
        _ => rule,
    }
}

/// Builder for creating rules with a fluent API.
pub struct RuleBuilder {
    inner: Rule,
}

impl RuleBuilder {
    /// The rule that is built so far.
    pub closed spec fn view(&self) -> RuleView {
        self.inner.view()
    }

    fn matcher(matcher: Matcher) -> (r: Self)
        ensures
            r.view() == plain(matcher@),
    {
        let r = RuleBuilder { inner: Rule::Matcher { matcher, conditions: Vec::new() } };
        assert(conditions_view(Seq::<Condition>::empty()) =~= Seq::<ConditionView>::empty());
        r
    }

    pub fn text_starts_with(s: &str) -> (r: Self)
        ensures
            r.view() == plain(MatcherView::Text(TextMatcherView::StartsWith(s@))),
            forall|t: Seq<char>|
                (#[trigger] rule_step(r.view(), MessageView::Text(t))).1 <==> exists|rest: Seq<char>| t == #[trigger] (s@ + rest),
    {
        let r = Self::matcher(Matcher::Text(TextMatcher::StartsWith(s.to_owned())));
        proof {
            assert forall|t: Seq<char>|
                (#[trigger] rule_step(r.view(), MessageView::Text(t))).1 <==> exists|rest: Seq<char>| t == #[trigger] (s@ + rest) by {
                law_text_rules(s@, t);
            }
        }
        r
    }

    pub fn text_ends_with(s: &str) -> (r: Self)
        ensures
            r.view() == plain(MatcherView::Text(TextMatcherView::EndsWith(s@))),
            forall|t: Seq<char>|
                (#[trigger] rule_step(r.view(), MessageView::Text(t))).1 <==> exists|rest: Seq<char>| t == #[trigger] (rest + s@),
    {
        let r = Self::matcher(Matcher::Text(TextMatcher::EndsWith(s.to_owned())));
        proof {
            assert forall|t: Seq<char>|
                (#[trigger] rule_step(r.view(), MessageView::Text(t))).1 <==> exists|rest: Seq<char>| t == #[trigger] (rest + s@) by {
                law_text_rules(s@, t);
            }
        }
        r
    }

    pub fn text_contains(s: &str) -> (r: Self)
        ensures
            r.view() == plain(MatcherView::Text(TextMatcherView::Contains(s@))),
            forall|t: Seq<char>|
                (#[trigger] rule_step(r.view(), MessageView::Text(t))).1 <==> exists|a: Seq<char>, b: Seq<char>| t == #[trigger] (a + s@ + b),
    {
        let r = Self::matcher(Matcher::Text(TextMatcher::Contains(s.to_owned())));
        proof {
            assert forall|t: Seq<char>|
                (#[trigger] rule_step(r.view(), MessageView::Text(t))).1 <==> exists|a: Seq<char>, b: Seq<char>| t == #[trigger] (a + s@ + b) by {
                law_text_rules(s@, t);
            }
        }
        r
    }

    pub fn text_exact(s: &str) -> (r: Self)
        ensures
            r.view() == plain(MatcherView::Text(TextMatcherView::Exact(s@))),
            forall|t: Seq<char>|
                (#[trigger] rule_step(r.view(), MessageView::Text(t))).1 <==> (t == s@),
    {
        let r = Self::matcher(Matcher::Text(TextMatcher::Exact(s.to_owned())));
        proof {
            assert forall|t: Seq<char>|
                (#[trigger] rule_step(r.view(), MessageView::Text(t))).1 <==> (t == s@) by {
                law_text_rules(s@, t);
            }
        }
        r
    }

    pub fn text_regex(pattern: &str) -> (r: Self)
        ensures
            r.view() == plain(MatcherView::Text(TextMatcherView::Regex(pattern@))),
    {
        Self::matcher(Matcher::Text(TextMatcher::Regex(pattern.to_owned())))
    }

    pub fn binary_starts_with(data: Vec<u8>) -> (r: Self)
        ensures
            r.view() == plain(MatcherView::Binary(BinaryMatcherView::StartsWith(data@))),
            forall|t: Seq<u8>|
                (#[trigger] rule_step(r.view(), MessageView::Binary(t))).1 <==> exists|rest: Seq<u8>| t == #[trigger] (data@ + rest),
    {
        let r = Self::matcher(Matcher::Binary(BinaryMatcher::StartsWith(data)));
        proof {
            assert forall|t: Seq<u8>|
                (#[trigger] rule_step(r.view(), MessageView::Binary(t))).1 <==> exists|rest: Seq<u8>| t == #[trigger] (data@ + rest) by {
                law_binary_rules(data@, t, MessageView::Frame);
            }
        }
        r
    }

    pub fn binary_ends_with(data: Vec<u8>) -> (r: Self)
        ensures
            r.view() == plain(MatcherView::Binary(BinaryMatcherView::EndsWith(data@))),
            forall|t: Seq<u8>|
                (#[trigger] rule_step(r.view(), MessageView::Binary(t))).1 <==> exists|rest: Seq<u8>| t == #[trigger] (rest + data@),
    {
        let r = Self::matcher(Matcher::Binary(BinaryMatcher::EndsWith(data)));
        proof {
            assert forall|t: Seq<u8>|
                (#[trigger] rule_step(r.view(), MessageView::Binary(t))).1 <==> exists|rest: Seq<u8>| t == #[trigger] (rest + data@) by {
                law_binary_rules(data@, t, MessageView::Frame);
            }
        }
        r
    }

    pub fn binary_contains(data: Vec<u8>) -> (r: Self)
        ensures
            r.view() == plain(MatcherView::Binary(BinaryMatcherView::Contains(data@))),
            forall|t: Seq<u8>|
                (#[trigger] rule_step(r.view(), MessageView::Binary(t))).1 <==> exists|a: Seq<u8>, b: Seq<u8>| t == #[trigger] (a + data@ + b),
    {
        let r = Self::matcher(Matcher::Binary(BinaryMatcher::Contains(data)));
        proof {
            assert forall|t: Seq<u8>|
                (#[trigger] rule_step(r.view(), MessageView::Binary(t))).1 <==> exists|a: Seq<u8>, b: Seq<u8>| t == #[trigger] (a + data@ + b) by {
                law_binary_rules(data@, t, MessageView::Frame);
            }
        }
        r
    }

    pub fn binary_exact(data: Vec<u8>) -> (r: Self)
        ensures
            r.view() == plain(MatcherView::Binary(BinaryMatcherView::Exact(data@))),
            forall|t: Seq<u8>|
                (#[trigger] rule_step(r.view(), MessageView::Binary(t))).1 <==> (t == data@),
    {
        let r = Self::matcher(Matcher::Binary(BinaryMatcher::Exact(data)));
        proof {
            assert forall|t: Seq<u8>|
                (#[trigger] rule_step(r.view(), MessageView::Binary(t))).1 <==> (t == data@) by {
                law_binary_rules(data@, t, MessageView::Frame);
            }
        }
        r
    }

    pub fn message_type(mt: MessageType) -> (r: Self)
        ensures
            r.view() == plain(MatcherView::MessageType(mt)),
    {
        Self::matcher(Matcher::MessageType(mt))
    }

    pub fn any() -> (r: Self)
        ensures
            r.view() == plain(MatcherView::Any),
            forall|msg: MessageView| (#[trigger] rule_step(r.view(), msg)).1,
    {
        Self::matcher(Matcher::Any)
    }

    pub fn never() -> (r: Self)
        ensures
            r.view() == plain(MatcherView::Never),
            forall|msg: MessageView| !(#[trigger] rule_step(r.view(), msg)).1,
    {
        Self::matcher(Matcher::Never)
    }

    pub fn custom(f: Box<dyn MessagePredicate>) -> (r: Self)
        ensures
            r.view() == Rule::Custom(f).view(),
    {
        RuleBuilder { inner: Rule::Custom(f) }
    }

    pub fn json_schema(f: Box<dyn JsonPredicate>) -> (r: Self)
        ensures
            r.view() == plain(Matcher::JsonSchema(f)@),
    {
        Self::matcher(Matcher::JsonSchema(f))
    }

    /// Turns the first `n` matching messages away.
    pub fn wait(self, n: usize) -> (r: Self)
        ensures
            r.view() == conditioned(self.view(), ConditionView::Wait(n as int)),
    {
        self.with_condition(Condition::Wait(n))
    }

    /// Lets one matching message in every `period` pass, beginning with the first.
    pub fn wait_messages(self, period: usize) -> (r: Self)
        ensures
            r.view() == conditioned(
                self.view(),
                (ConditionView::WaitMessages { period: period as int, offset: 0, counter: 0 }),
            ),
    {
        self.wait_messages_with_offset(period, 0)
    }

    pub fn wait_messages_with_offset(self, period: usize, offset: usize) -> (r: Self)
        ensures
            r.view() == conditioned(
                self.view(),
                (ConditionView::WaitMessages {
                    period: period as int,
                    offset: offset as int,
                    counter: 0,
                }),
            ),
    {
        self.with_condition(Condition::WaitMessages { period, offset, counter: 0 })
    }

    /// Adds a condition to a matcher. Another rule is left as it is.
    pub fn with_condition(self, cond: Condition) -> (r: Self)
        ensures
            r.view() == conditioned(self.view(), cond@),
    {
        let RuleBuilder { inner } = self;
        match inner {
            Rule::Matcher { matcher, mut conditions } => {
                let ghost before = conditions@;
                conditions.push(cond);
                assert(conditions_view(conditions@) =~= conditions_view(before).push(cond@));
                RuleBuilder { inner: Rule::Matcher { matcher, conditions } }
            },
            other => RuleBuilder { inner: other },
        }
    }

    pub fn lstrip_then(self, prefix: &str) -> (r: Self)
        ensures
            r.view() == (RuleView::Strip {
                strip: StripView::LstripThen(prefix@),
                inner: Box::new(self.view()),
            }),
    {
        RuleBuilder {
            inner: Rule::ModifiedRule(
                Modifier::LstripThen { prefix: prefix.to_owned(), inner: Box::new(self.inner) },
            ),
        }
    }

    pub fn rstrip_then(self, suffix: &str) -> (r: Self)
        ensures
            r.view() == (RuleView::Strip {
                strip: StripView::RstripThen(suffix@),
                inner: Box::new(self.view()),
            }),
    {
        RuleBuilder {
            inner: Rule::ModifiedRule(
                Modifier::RstripThen { suffix: suffix.to_owned(), inner: Box::new(self.inner) },
            ),
        }
    }

    pub fn lstrip_until(self, target: &str) -> (r: Self)
        ensures
            r.view() == (RuleView::Strip {
                strip: StripView::LstripUntil(target@),
                inner: Box::new(self.view()),
            }),
    {
        RuleBuilder {
            inner: Rule::ModifiedRule(
                Modifier::LstripUntil { target: target.to_owned(), inner: Box::new(self.inner) },
            ),
        }
    }

    pub fn rstrip_until(self, target: &str) -> (r: Self)
        ensures
            r.view() == (RuleView::Strip {
                strip: StripView::RstripUntil(target@),
                inner: Box::new(self.view()),
            }),
    {
        RuleBuilder {
            inner: Rule::ModifiedRule(
                Modifier::RstripUntil { target: target.to_owned(), inner: Box::new(self.inner) },
            ),
        }
    }

    pub fn or(self, other: Rule) -> (r: Self)
        ensures
            r.view() == RuleView::Or(seq![self.view(), other.view()]),
            forall|msg: MessageView|
                (#[trigger] rule_step(r.view(), msg)).1 <==> rule_step(self.view(), msg).1
                    || rule_step(other.view(), msg).1,
    {
        let ghost rules = seq![self.view(), other.view()];
        proof {
            assert(rules[0] == self.view() && rules[1] == other.view());
            assert forall|msg: MessageView|
                (#[trigger] rule_step(RuleView::Or(rules), msg)).1 <==> rule_step(rules[0], msg).1
                    || rule_step(rules[1], msg).1 by {
                law_or_accepts(rules, msg);
            }
        }
        Self::or_many(pair(self.inner, other))
    }

    pub fn or_many(rules: Vec<Rule>) -> (r: Self)
        ensures
            r.view() == RuleView::Or(rules_view(rules@)),
    {
        RuleBuilder { inner: Rule::Combinator(Combinator::Or(rules)) }
    }

    pub fn and(self, other: Rule) -> (r: Self)
        ensures
            r.view() == RuleView::And(seq![self.view(), other.view()]),
            forall|msg: MessageView|
                (#[trigger] rule_step(r.view(), msg)).1 <==> rule_step(self.view(), msg).1
                    && rule_step(other.view(), msg).1,
    {
        let ghost rules = seq![self.view(), other.view()];
        proof {
            assert(rules[0] == self.view() && rules[1] == other.view());
            assert forall|msg: MessageView|
                (#[trigger] rule_step(RuleView::And(rules), msg)).1 <==> rule_step(rules[0], msg).1
                    && rule_step(rules[1], msg).1 by {
                law_and_accepts(rules, msg);
            }
        }
        Self::and_many(pair(self.inner, other))
    }

    pub fn and_many(rules: Vec<Rule>) -> (r: Self)
        ensures
            r.view() == RuleView::And(rules_view(rules@)),
    {
        RuleBuilder { inner: Rule::Combinator(Combinator::And(rules)) }
    }

    /// After a message that this rule accepts, `next` decides on the message that follows it.
    pub fn followed_by(self, next: Rule) -> (r: Self)
        ensures
            r.view() == (RuleView::Then {
                first: Box::new(self.view()),
                second: Box::new(next.view()),
                waiting: false,
            }),
    {
        RuleBuilder {
            inner: Rule::Combinator(
                Combinator::Then {
                    first: Box::new(self.inner),
                    second: Box::new(next),
                    waiting: false,
                },
            ),
        }
    }

    /// Both this rule and `next` decide on the same message, `next` only if this one accepts.
    pub fn and_then(self, next: Rule) -> (r: Self)
        ensures
            r.view() == (RuleView::AndThen {
                first: Box::new(self.view()),
                second: Box::new(next.view()),
            }),
    {
        RuleBuilder {
            inner: Rule::Combinator(
                Combinator::AndThen { first: Box::new(self.inner), second: Box::new(next) },
            ),
        }
    }

    pub fn not(self) -> (r: Self)
        ensures
            r.view() == RuleView::Not(Box::new(self.view())),
            forall|msg: MessageView|
                (#[trigger] rule_step(r.view(), msg)).1 == !rule_step(self.view(), msg).1,
    {
        RuleBuilder { inner: Rule::Combinator(Combinator::Not(Box::new(self.inner))) }
    }

    pub fn build(self) -> (r: Rule)
        ensures
            r.view() == self.view(),
    {
        self.inner
    }
}

fn pair(first: Rule, second: Rule) -> (r: Vec<Rule>)
    ensures
        rules_view(r@) == seq![first.view(), second.view()],
{
    let mut rules = Vec::new();
    rules.push(first);
    rules.push(second);
    proof {
        lemma_rules_view(rules@);
        assert(rules_view(rules@) =~= seq![first.view(), second.view()]);
    }
    rules
}

} // verus!
