//! What a rule would say of a message, found out without telling the rule of it.

use crate::message::Message;
use crate::message::MessageView;
use crate::rules::all_defined;
use crate::rules::all_step;
use crate::rules::any_defined;
use crate::rules::any_step;
use crate::rules::condition_defined;
use crate::rules::condition_step;
use crate::rules::conditions_defined;
use crate::rules::conditions_step;
use crate::rules::conditions_view;
use crate::rules::lemma_rules_view;
use crate::rules::matcher_accepts;
use crate::rules::matcher_defined;
use crate::rules::rule_defined;
use crate::rules::rule_step;
use crate::rules::rules_view;
use crate::rules::BinaryMatcher;
use crate::rules::Combinator;
use crate::rules::Condition;
use crate::rules::ConditionView;
use crate::rules::Matcher;
use crate::rules::Modifier;
use crate::rules::Rule;
use crate::rules::RuleView;
use crate::text::characters;
use crate::text::from_first;
use crate::text::strip_prefix;
use crate::text::strip_suffix;
use crate::text::through_last;
use vstd::prelude::*;

verus! {

/// What a rule would say, none where a part of it that the message reaches cannot answer.
pub open spec fn foreseen(rule: RuleView, msg: MessageView) -> Option<bool> {
    if rule_defined(rule, msg) {
        Some(rule_step(rule, msg).1)
    } else {
        None
    }
}

/// What rules would say that are asked until one accepts.
pub open spec fn foreseen_any(rules: Seq<RuleView>, msg: MessageView) -> Option<bool> {
    if any_defined(rules, msg) {
        Some(any_step(rules, msg).1)
    } else {
        None
    }
}

/// What rules would say that are asked until one refuses.
pub open spec fn foreseen_all(rules: Seq<RuleView>, msg: MessageView) -> Option<bool> {
    if all_defined(rules, msg) {
        Some(all_step(rules, msg).1)
    } else {
        None
    }
}

/// What conditions would say that are asked until one refuses.
pub open spec fn foreseen_conditions(conditions: Seq<ConditionView>, msg: MessageView) -> Option<
    bool,
> {
    if conditions_defined(conditions, msg) {
        Some(conditions_step(conditions, msg).1)
    } else {
        None
    }
}

impl Matcher {
    /// What the matcher says, none where it cannot answer.
    pub fn foresee(&self, msg: &Message) -> (r: Option<bool>)
        ensures
            r == if matcher_defined(self@, msg@) {
                Some(matcher_accepts(self@, msg@))
            } else {
                None
            },
    {
        if let Matcher::Binary(BinaryMatcher::Contains(needle)) = self {
            if let Message::Binary(_) = msg {
                if needle.len() == 0 {
                    return None;
                }
            }
        }
        Some(self.call(msg))
    }
}

impl Condition {
    /// What the condition would say, none where it cannot answer.
    pub fn foresee(&self, msg: &Message) -> (r: Option<bool>)
        ensures
            r == if condition_defined(self@) {
                Some(condition_step(self@, msg@).1)
            } else {
                None
            },
    {
        match self {
            Condition::Always => Some(true),
            Condition::Wait(wait) => Some(*wait == 0),
            Condition::WaitMessages { period, offset, counter } => if *period == 0 {
                None
            } else {
                Some(*counter % *period == *offset)
            },
            Condition::Custom(f) => Some(f.test(msg)),
        }
    }
}

fn foresee_conditions(conditions: &Vec<Condition>, msg: &Message) -> (r: Option<bool>)
    ensures
        r == foreseen_conditions(conditions_view(conditions@), msg@),
{
    let ghost all = conditions_view(conditions@);
    let mut i: usize = 0;
    assert(all.skip(0) =~= all);
    while i < conditions.len()
        invariant
            i <= conditions@.len(),
            all == conditions_view(conditions@),
            foreseen_conditions(all, msg@) == foreseen_conditions(all.skip(i as int), msg@),
        decreases conditions@.len() - i,
    {
        proof {
            let rest = all.skip(i as int);
            assert(rest[0] == conditions@[i as int]@);
            assert(rest.drop_first() =~= all.skip(i + 1));
        }
        match conditions[i].foresee(msg) {
            Some(true) => {
                i += 1;
            },
            other => {
                return other;
            },
        }
    }
    Some(true)
}

fn foresee_any(rules: &Vec<Rule>, msg: &Message) -> (r: Option<bool>)
    ensures
        r == foreseen_any(rules_view(rules@), msg@),
    decreases *rules,
{
    let ghost all = rules_view(rules@);
    proof {
        lemma_rules_view(rules@);
    }
    let mut i: usize = 0;
    assert(all.skip(0) =~= all);
    while i < rules.len()
        invariant
            i <= rules@.len() == all.len(),
            all == rules_view(rules@),
            forall|j: int| 0 <= j < rules@.len() ==> #[trigger] all[j] == rules@[j].view(),
            foreseen_any(all, msg@) == foreseen_any(all.skip(i as int), msg@),
        decreases rules@.len() - i,
    {
        proof {
            let rest = all.skip(i as int);
            assert(rest[0] == all[i as int]);
            assert(rest.drop_first() =~= all.skip(i + 1));
        }
        match rules[i].foresee(msg) {
            Some(false) => {
                i += 1;
            },
            other => {
                return other;
            },
        }
    }
    Some(false)
}

fn foresee_all(rules: &Vec<Rule>, msg: &Message) -> (r: Option<bool>)
    ensures
        r == foreseen_all(rules_view(rules@), msg@),
    decreases *rules,
{
    let ghost all = rules_view(rules@);
    proof {
        lemma_rules_view(rules@);
    }
    let mut i: usize = 0;
    assert(all.skip(0) =~= all);
    while i < rules.len()
        invariant
            i <= rules@.len() == all.len(),
            all == rules_view(rules@),
            forall|j: int| 0 <= j < rules@.len() ==> #[trigger] all[j] == rules@[j].view(),
            foreseen_all(all, msg@) == foreseen_all(all.skip(i as int), msg@),
        decreases rules@.len() - i,
    {
        proof {
            let rest = all.skip(i as int);
            assert(rest[0] == all[i as int]);
            assert(rest.drop_first() =~= all.skip(i + 1));
        }
        match rules[i].foresee(msg) {
            Some(true) => {
                i += 1;
            },
            other => {
                return other;
            },
        }
    }
    Some(true)
}

impl Modifier {
    /// Whether the modifier would hand a message on, none where it cannot answer.
    pub fn foresee(&self, msg: &Message) -> (r: Option<bool>)
        ensures
            r == foreseen(self.view(), msg@),
        decreases *self,
    {
        if let Modifier::Custom(f) = self {
            return Some(f.apply(msg).is_some());
        }
        let text = match msg.text() {
            Some(text) => text,
            None => return Some(false),
        };
        match self {
            Modifier::LstripThen { prefix, inner } => match strip_prefix(
                text.as_str(),
                prefix.as_str(),
            ) {
                Some(rest) => inner.foresee(&Message::Text(rest.to_owned())),
                None => Some(false),
            },
            Modifier::RstripThen { suffix, inner } => match strip_suffix(
                text.as_str(),
                suffix.as_str(),
            ) {
                Some(rest) => inner.foresee(&Message::Text(rest.to_owned())),
                None => Some(false),
            },
            Modifier::LstripUntil { target, inner } => match from_first(
                text.as_str(),
                target.as_str(),
            ) {
                Some(rest) => inner.foresee(&Message::Text(rest.to_owned())),
                None => Some(false),
            },
            Modifier::RstripUntil { target, inner } => {
                if characters(text.as_str()).len() == 0 && characters(target.as_str()).len() == 0 {
                    return None;
                }
                match through_last(text.as_str(), target.as_str()) {
                    Some(rest) => inner.foresee(&Message::Text(rest.to_owned())),
                    None => Some(false),
                }
            },
            Modifier::Custom(f) => Some(f.apply(msg).is_some()),
        }
    }
}

impl Combinator {
    /// What the rules would say together, none where one that is asked cannot answer.
    pub fn foresee(&self, msg: &Message) -> (r: Option<bool>)
        ensures
            r == foreseen(self.view(), msg@),
        decreases *self,
    {
        match self {
            Combinator::Or(rules) => foresee_any(rules, msg),
            Combinator::And(rules) => foresee_all(rules, msg),
            Combinator::Then { first, second, waiting } => if *waiting {
                second.foresee(msg)
            } else {
                match first.foresee(msg) {
                    Some(_) => Some(false),
                    None => None,
                }
            },
            Combinator::AndThen { first, second } => match first.foresee(msg) {
                Some(true) => second.foresee(msg),
                other => other,
            },
            Combinator::Not(rule) => match rule.foresee(msg) {
                Some(accepts) => Some(!accepts),
                None => None,
            },
        }
    }
}

impl Rule {
    /// What the rule would say, none where a part of it that the message reaches cannot answer.
    pub fn foresee(&self, msg: &Message) -> (r: Option<bool>)
        ensures
            r == foreseen(self.view(), msg@),
        decreases *self,
    {
        match self {
            Rule::Matcher { matcher, conditions } => match matcher.foresee(msg) {
                Some(true) => foresee_conditions(conditions, msg),
                other => other,
            },
            Rule::ModifiedRule(modifier) => modifier.foresee(msg),
            Rule::Combinator(comb) => comb.foresee(msg),
            Rule::Custom(f) => Some(f.test(msg)),
        }
    }

    /// Tells the rule of a message, where it can answer: otherwise it stays as it is.
    pub fn answer(&mut self, msg: &Message) -> (r: Option<bool>)
        ensures
            match r {
                Some(accepts) => rule_defined(old(self).view(), msg@) && (
                    final(self).view(),
                    accepts,
                ) == rule_step(old(self).view(), msg@),
                None => !rule_defined(old(self).view(), msg@) && *final(self) == *old(self),
            },
    {
        match self.foresee(msg) {
            Some(_) => Some(self.call(msg)),
            None => None,
        }
    }
}

} // verus!
