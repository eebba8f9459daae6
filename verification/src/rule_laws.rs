//! What holds of every rule.

use crate::message::MessageView;
use crate::rules::all_defined;
use crate::rules::all_step;
use crate::rules::any_defined;
use crate::rules::any_step;
use crate::rules::binary_defined;
use crate::rules::condition_defined;
use crate::rules::condition_reset;
use crate::rules::condition_step;
use crate::rules::conditioned;
use crate::rules::conditions_defined;
use crate::rules::conditions_step;
use crate::rules::lemma_rules_reset;
use crate::rules::matcher_accepts;
use crate::rules::plain;
use crate::rules::rule_defined;
use crate::rules::rule_reset;
use crate::rules::rule_step;
use crate::rules::rules_reset;
use crate::rules::ConditionView;
use crate::rules::MatcherView;
use crate::rules::RuleView;
use crate::rules::StripView;
use vstd::prelude::*;

verus! {

/// A rule in which no period is zero and nothing empty is looked for where that has no answer.
pub open spec fn rule_sound(rule: RuleView) -> bool
    decreases rule,
{
    match rule {
        RuleView::Matcher { matcher, conditions } => (matcher matches MatcherView::Binary(bm)
            ==> binary_defined(bm)) && forall|i: int|
            0 <= i < conditions.len() ==> #[trigger] condition_defined(conditions[i]),
        RuleView::Strip { strip, inner } => (strip matches StripView::RstripUntil(target)
            ==> target.len() > 0) && rule_sound(*inner),
        RuleView::Or(rules) => rules_sound(rules),
        RuleView::And(rules) => rules_sound(rules),
        RuleView::Then { first, second, .. } => rule_sound(*first) && rule_sound(*second),
        RuleView::AndThen { first, second } => rule_sound(*first) && rule_sound(*second),
        RuleView::Not(inner) => rule_sound(*inner),
        RuleView::Transform(_) | RuleView::Custom(_) => true,
    }
}

pub open spec fn rules_sound(rules: Seq<RuleView>) -> bool
    decreases rules,
{
    rules.len() > 0 ==> rule_sound(rules[0]) && rules_sound(rules.drop_first())
}

/// The rule after some messages.
pub open spec fn after(rule: RuleView, msgs: Seq<MessageView>) -> RuleView
    decreases msgs.len(),
{
    if msgs.len() == 0 {
        rule
    } else {
        rule_step(after(rule, msgs.drop_last()), msgs.last()).0
    }
}

/// What the rule answers to the last of some messages.
pub open spec fn last_answer(rule: RuleView, msgs: Seq<MessageView>) -> bool
    recommends
        msgs.len() > 0,
{
    rule_step(after(rule, msgs.drop_last()), msgs.last()).1
}

proof fn lemma_conditions_sound(conditions: Seq<ConditionView>, msg: MessageView)
    requires
        forall|i: int| 0 <= i < conditions.len() ==> #[trigger] condition_defined(conditions[i]),
    ensures
        conditions_defined(conditions, msg),
        conditions_step(conditions, msg).0.len() == conditions.len(),
        forall|i: int|
            0 <= i < conditions.len() ==> #[trigger] condition_defined(
                conditions_step(conditions, msg).0[i],
            ),
    decreases conditions.len(),
{
    if conditions.len() > 0 {
        let rest = conditions.drop_first();
        assert(condition_defined(conditions[0]));
        assert forall|i: int| 0 <= i < rest.len() implies #[trigger] condition_defined(rest[i]) by {
            assert(condition_defined(conditions[i + 1]));
        }
        lemma_conditions_sound(rest, msg);
        let next = conditions_step(conditions, msg).0;
        assert forall|i: int| 0 <= i < conditions.len() implies #[trigger] condition_defined(
            next[i],
        ) by {
            if i > 0 {
                if condition_step(conditions[0], msg).1 {
                    assert(next[i] == conditions_step(rest, msg).0[i - 1]);
                } else {
                    assert(next[i] == rest[i - 1]);
                }
            }
        }
    }
}

/// A rule without a zero period and without an empty search answers every message, and stays
/// such a rule whatever the messages are.
pub proof fn law_sound_rules_answer(rule: RuleView, msg: MessageView)
    requires
        rule_sound(rule),
    ensures
        rule_defined(rule, msg),
        rule_sound(rule_step(rule, msg).0),
    decreases rule,
{
    match rule {
        RuleView::Matcher { matcher, conditions } => {
            lemma_conditions_sound(conditions, msg);
        },
        RuleView::Strip { strip, inner } => {
            if let Some(rest) = crate::rules::strip_message(strip, msg) {
                law_sound_rules_answer(*inner, rest);
            }
        },
        RuleView::Or(rules) => {
            lemma_any_sound(rules, msg);
        },
        RuleView::And(rules) => {
            lemma_all_sound(rules, msg);
        },
        RuleView::Then { first, second, waiting } => {
            if waiting {
                law_sound_rules_answer(*second, msg);
            } else {
                law_sound_rules_answer(*first, msg);
            }
        },
        RuleView::AndThen { first, second } => {
            law_sound_rules_answer(*first, msg);
            law_sound_rules_answer(*second, msg);
        },
        RuleView::Not(inner) => {
            law_sound_rules_answer(*inner, msg);
        },
        RuleView::Transform(_) | RuleView::Custom(_) => {},
    }
}

proof fn lemma_any_sound(rules: Seq<RuleView>, msg: MessageView)
    requires
        rules_sound(rules),
    ensures
        any_defined(rules, msg),
        rules_sound(any_step(rules, msg).0),
    decreases rules,
{
    if rules.len() > 0 {
        let rest = rules.drop_first();
        law_sound_rules_answer(rules[0], msg);
        lemma_any_sound(rest, msg);
        let next = any_step(rules, msg).0;
        if rule_step(rules[0], msg).1 {
            assert(next.drop_first() =~= rest);
        } else {
            assert(next.drop_first() =~= any_step(rest, msg).0);
        }
    }
}

proof fn lemma_all_sound(rules: Seq<RuleView>, msg: MessageView)
    requires
        rules_sound(rules),
    ensures
        all_defined(rules, msg),
        rules_sound(all_step(rules, msg).0),
    decreases rules,
{
    if rules.len() > 0 {
        let rest = rules.drop_first();
        law_sound_rules_answer(rules[0], msg);
        lemma_all_sound(rest, msg);
        let next = all_step(rules, msg).0;
        if rule_step(rules[0], msg).1 {
            assert(next.drop_first() =~= all_step(rest, msg).0);
        } else {
            assert(next.drop_first() =~= rest);
        }
    }
}

proof fn lemma_conditions_forget(conditions: Seq<ConditionView>, msg: MessageView)
    ensures
        conditions_step(conditions, msg).0.map_values(|c: ConditionView| condition_reset(c))
            == conditions.map_values(|c: ConditionView| condition_reset(c)),
    decreases conditions.len(),
{
    let reset = |c: ConditionView| condition_reset(c);
    let next = conditions_step(conditions, msg).0;
    if conditions.len() > 0 {
        let rest = conditions.drop_first();
        lemma_conditions_forget(rest, msg);
        let others = if condition_step(conditions[0], msg).1 {
            conditions_step(rest, msg).0
        } else {
            rest
        };
        assert(others.map_values(reset) == rest.map_values(reset));
        assert(others.len() == others.map_values(reset).len());
        assert(rest.len() == rest.map_values(reset).len());
        assert(next.len() == conditions.len());
        assert forall|i: int| 0 <= i < conditions.len() implies next.map_values(reset)[i]
            == conditions.map_values(reset)[i] by {
            if i > 0 {
                assert(next[i] == others[i - 1]);
                assert(others.map_values(reset)[i - 1] == rest.map_values(reset)[i - 1]);
            }
        }
        assert(next.map_values(reset) =~= conditions.map_values(reset));
    }
}

/// A reset leaves nothing of the messages that came before it.
pub proof fn law_reset_forgets(rule: RuleView, msg: MessageView)
    ensures
        rule_reset(rule_step(rule, msg).0) == rule_reset(rule),
    decreases rule,
{
    match rule {
        RuleView::Matcher { matcher, conditions } => {
            lemma_conditions_forget(conditions, msg);
        },
        RuleView::Strip { strip, inner } => {
            if let Some(rest) = crate::rules::strip_message(strip, msg) {
                law_reset_forgets(*inner, rest);
            }
        },
        RuleView::Or(rules) => {
            lemma_any_forgets(rules, msg);
        },
        RuleView::And(rules) => {
            lemma_all_forgets(rules, msg);
        },
        RuleView::Then { first, second, waiting } => {
            if waiting {
                law_reset_forgets(*second, msg);
            } else {
                law_reset_forgets(*first, msg);
            }
        },
        RuleView::AndThen { first, second } => {
            law_reset_forgets(*first, msg);
            law_reset_forgets(*second, msg);
        },
        RuleView::Not(inner) => {
            law_reset_forgets(*inner, msg);
        },
        RuleView::Transform(_) | RuleView::Custom(_) => {},
    }
}

proof fn lemma_any_forgets(rules: Seq<RuleView>, msg: MessageView)
    ensures
        rules_reset(any_step(rules, msg).0) == rules_reset(rules),
    decreases rules,
{
    if rules.len() > 0 {
        let rest = rules.drop_first();
        law_reset_forgets(rules[0], msg);
        lemma_any_forgets(rest, msg);
        let next = any_step(rules, msg).0;
        if rule_step(rules[0], msg).1 {
            assert(next.drop_first() =~= rest);
        } else {
            assert(next.drop_first() =~= any_step(rest, msg).0);
        }
    }
}

proof fn lemma_all_forgets(rules: Seq<RuleView>, msg: MessageView)
    ensures
        rules_reset(all_step(rules, msg).0) == rules_reset(rules),
    decreases rules,
{
    if rules.len() > 0 {
        let rest = rules.drop_first();
        law_reset_forgets(rules[0], msg);
        lemma_all_forgets(rest, msg);
        let next = all_step(rules, msg).0;
        if rule_step(rules[0], msg).1 {
            assert(next.drop_first() =~= all_step(rest, msg).0);
        } else {
            assert(next.drop_first() =~= rest);
        }
    }
}

/// A second reset changes nothing.
pub proof fn law_reset_twice(rule: RuleView)
    ensures
        rule_reset(rule_reset(rule)) == rule_reset(rule),
    decreases rule,
{
    match rule {
        RuleView::Matcher { matcher, conditions } => {
            let reset = |c: ConditionView| condition_reset(c);
            assert(conditions.map_values(reset).map_values(reset) =~= conditions.map_values(reset));
        },
        RuleView::Strip { inner, .. } => {
            law_reset_twice(*inner);
        },
        RuleView::Or(rules) => {
            lemma_rules_reset_twice(rules);
        },
        RuleView::And(rules) => {
            lemma_rules_reset_twice(rules);
        },
        RuleView::Then { first, second, .. } => {
            law_reset_twice(*first);
            law_reset_twice(*second);
        },
        RuleView::AndThen { first, second } => {
            law_reset_twice(*first);
            law_reset_twice(*second);
        },
        RuleView::Not(inner) => {
            law_reset_twice(*inner);
        },
        RuleView::Transform(_) | RuleView::Custom(_) => {},
    }
}

proof fn lemma_rules_reset_twice(rules: Seq<RuleView>)
    ensures
        rules_reset(rules_reset(rules)) == rules_reset(rules),
    decreases rules,
{
    if rules.len() > 0 {
        law_reset_twice(rules[0]);
        lemma_rules_reset_twice(rules.drop_first());
        lemma_rules_reset(rules);
        assert(rules_reset(rules).drop_first() =~= rules_reset(rules.drop_first()));
    }
}

/// An `or` accepts a message exactly if one of its rules does.
pub proof fn law_or_accepts(rules: Seq<RuleView>, msg: MessageView)
    ensures
        rule_step(RuleView::Or(rules), msg).1 <==> exists|i: int|
            0 <= i < rules.len() && (#[trigger] rule_step(rules[i], msg)).1,
    decreases rules.len(),
{
    assert(rule_step(RuleView::Or(rules), msg).1 == any_step(rules, msg).1);
    if rules.len() > 0 {
        let rest = rules.drop_first();
        law_or_accepts(rest, msg);
        assert(rule_step(RuleView::Or(rest), msg).1 == any_step(rest, msg).1);
        if rule_step(rules[0], msg).1 {
        } else if any_step(rest, msg).1 {
            let i = choose|i: int| 0 <= i < rest.len() && (#[trigger] rule_step(rest[i], msg)).1;
            assert(rule_step(rules[i + 1], msg).1);
        } else {
            assert forall|i: int| 0 <= i < rules.len() implies !(#[trigger] rule_step(
                rules[i],
                msg,
            )).1 by {
                if i > 0 {
                    assert(!rule_step(rest[i - 1], msg).1);
                }
            }
        }
    }
}

/// An `and` accepts a message exactly if all of its rules do.
pub proof fn law_and_accepts(rules: Seq<RuleView>, msg: MessageView)
    ensures
        rule_step(RuleView::And(rules), msg).1 <==> forall|i: int|
            0 <= i < rules.len() ==> (#[trigger] rule_step(rules[i], msg)).1,
    decreases rules.len(),
{
    assert(rule_step(RuleView::And(rules), msg).1 == all_step(rules, msg).1);
    if rules.len() > 0 {
        let rest = rules.drop_first();
        law_and_accepts(rest, msg);
        assert(rule_step(RuleView::And(rest), msg).1 == all_step(rest, msg).1);
        if !rule_step(rules[0], msg).1 {
        } else if all_step(rest, msg).1 {
            assert forall|i: int| 0 <= i < rules.len() implies (#[trigger] rule_step(
                rules[i],
                msg,
            )).1 by {
                if i > 0 {
                    assert(rule_step(rest[i - 1], msg).1);
                }
            }
        } else {
            let i = choose|i: int| 0 <= i < rest.len() && !(#[trigger] rule_step(rest[i], msg)).1;
            assert(!rule_step(rules[i + 1], msg).1);
        }
    }
}

/// A negated rule accepts what the rule refuses, and a rule negated twice is the rule.
pub proof fn law_not_flips(rule: RuleView, msg: MessageView)
    ensures
        rule_step(RuleView::Not(Box::new(rule)), msg).1 == !rule_step(rule, msg).1,
        rule_step(RuleView::Not(Box::new(RuleView::Not(Box::new(rule)))), msg).1 == rule_step(
            rule,
            msg,
        ).1,
{
    reveal_with_fuel(rule_step, 3);
}

/// A two-step rule refuses the message that opens it, asks its second part about the message
/// that follows, and is closed again after that.
pub proof fn law_then_takes_two_messages(
    first: RuleView,
    second: RuleView,
    header: MessageView,
    body: MessageView,
)
    ensures
        ({
            let rule = RuleView::Then {
                first: Box::new(first),
                second: Box::new(second),
                waiting: false,
            };
            let (opened, at_header) = rule_step(rule, header);
            let (closed, at_body) = rule_step(opened, body);
            &&& !at_header
            &&& rule_step(first, header).1 ==> at_body == rule_step(second, body).1 && closed == (
            RuleView::Then {
                first: Box::new(rule_step(first, header).0),
                second: Box::new(rule_step(second, body).0),
                waiting: false,
            })
            &&& !rule_step(first, header).1 ==> !at_body
        }),
{
    reveal_with_fuel(rule_step, 3);
}

/// After a reset a two-step rule refuses the next message, whatever came before.
pub proof fn law_then_closed_by_reset(
    first: RuleView,
    second: RuleView,
    waiting: bool,
    body: MessageView,
)
    ensures
        !rule_step(
            rule_reset(
                RuleView::Then { first: Box::new(first), second: Box::new(second), waiting },
            ),
            body,
        ).1,
{
}

/// A rule that waits turns the first `n` matching messages away and accepts all others.
pub proof fn law_wait_counts(matcher: MatcherView, n: nat, msgs: Seq<MessageView>)
    requires
        msgs.len() > 0,
        forall|i: int| 0 <= i < msgs.len() ==> matcher_accepts(matcher, #[trigger] msgs[i]),
    ensures
        last_answer(conditioned(plain(matcher), ConditionView::Wait(n as int)), msgs) <==> n
            < msgs.len(),
        after(conditioned(plain(matcher), ConditionView::Wait(n as int)), msgs) == conditioned(
            plain(matcher),
            ConditionView::Wait(if n <= msgs.len() { 0 } else { n - msgs.len() }),
        ),
    decreases msgs.len(),
{
    let rule = conditioned(plain(matcher), ConditionView::Wait(n as int));
    let earlier = msgs.drop_last();
    assert(matcher_accepts(matcher, msgs[msgs.len() - 1]));
    let left: int = if n <= earlier.len() {
        0
    } else {
        n - earlier.len()
    };
    if earlier.len() > 0 {
        assert forall|i: int| 0 <= i < earlier.len() implies matcher_accepts(
            matcher,
            #[trigger] earlier[i],
        ) by {
            assert(matcher_accepts(matcher, msgs[i]));
        }
        law_wait_counts(matcher, n, earlier);
    }
    assert(after(rule, earlier) == conditioned(plain(matcher), ConditionView::Wait(left)));
    lemma_one_condition(matcher, ConditionView::Wait(left), msgs.last());
}

/// A rule that counts its matching messages accepts those whose number, beginning at zero,
/// leaves the remainder `offset`.
pub proof fn law_wait_messages_counts(
    matcher: MatcherView,
    period: nat,
    offset: nat,
    msgs: Seq<MessageView>,
)
    requires
        0 < period <= usize::MAX,
        0 < msgs.len() <= usize::MAX,
        forall|i: int| 0 <= i < msgs.len() ==> matcher_accepts(matcher, #[trigger] msgs[i]),
    ensures
        last_answer(
            conditioned(
                plain(matcher),
                (ConditionView::WaitMessages {
                    period: period as int,
                    offset: offset as int,
                    counter: 0,
                }),
            ),
            msgs,
        ) <==> (msgs.len() - 1) % (period as int) == offset,
        after(
            conditioned(
                plain(matcher),
                (ConditionView::WaitMessages {
                    period: period as int,
                    offset: offset as int,
                    counter: 0,
                }),
            ),
            msgs,
        ) == conditioned(
            plain(matcher),
            (ConditionView::WaitMessages {
                period: period as int,
                offset: offset as int,
                counter: msgs.len() as int,
            }),
        ),
    decreases msgs.len(),
{
    let cond = |counter: int|
        ConditionView::WaitMessages { period: period as int, offset: offset as int, counter };
    let rule = conditioned(plain(matcher), cond(0));
    let earlier = msgs.drop_last();
    assert(matcher_accepts(matcher, msgs[msgs.len() - 1]));
    if earlier.len() > 0 {
        assert forall|i: int| 0 <= i < earlier.len() implies matcher_accepts(
            matcher,
            #[trigger] earlier[i],
        ) by {
            assert(matcher_accepts(matcher, msgs[i]));
        }
        law_wait_messages_counts(matcher, period, offset, earlier);
    }
    assert(after(rule, earlier) == conditioned(plain(matcher), cond(earlier.len() as int)));
    lemma_one_condition(matcher, cond(earlier.len() as int), msgs.last());
}

/// A matcher with one condition, on a message that it accepts, goes by the condition.
proof fn lemma_one_condition(matcher: MatcherView, cond: ConditionView, msg: MessageView)
    requires
        matcher_accepts(matcher, msg),
    ensures
        rule_step(conditioned(plain(matcher), cond), msg) == (
            conditioned(plain(matcher), condition_step(cond, msg).0),
            condition_step(cond, msg).1,
        ),
{
    let one = Seq::<ConditionView>::empty().push(cond);
    let next = Seq::<ConditionView>::empty().push(condition_step(cond, msg).0);
    reveal_with_fuel(conditions_step, 2);
    assert(one.drop_first() =~= Seq::<ConditionView>::empty());
    assert(conditions_step(one, msg).0 =~= next);
}

/// A rule behind a prefix that is stripped sees the rest of the text.
pub proof fn law_lstrip_then_sees_the_rest(rule: RuleView, prefix: Seq<char>, rest: Seq<char>)
    ensures
        rule_step(
            RuleView::Strip { strip: StripView::LstripThen(prefix), inner: Box::new(rule) },
            MessageView::Text(prefix + rest),
        ).1 == rule_step(rule, MessageView::Text(rest)).1,
{
    let text = prefix + rest;
    assert(text.subrange(0, prefix.len() as int) =~= prefix);
    assert(text.skip(prefix.len() as int) =~= rest);
}

/// A rule behind a suffix that is stripped sees what stands before it.
pub proof fn law_rstrip_then_sees_the_rest(rule: RuleView, rest: Seq<char>, suffix: Seq<char>)
    ensures
        rule_step(
            RuleView::Strip { strip: StripView::RstripThen(suffix), inner: Box::new(rule) },
            MessageView::Text(rest + suffix),
        ).1 == rule_step(rule, MessageView::Text(rest)).1,
{
    let text = rest + suffix;
    assert(text.subrange(rest.len() as int, text.len() as int) =~= suffix);
    assert(text.take(rest.len() as int) =~= rest);
}

/// What is foreseen of a rule is what it says when it is asked, and there is something to foresee
/// exactly if it can answer.
pub proof fn law_foresight_comes_true(rule: RuleView, msg: MessageView)
    ensures
        crate::rule_answers::foreseen(rule, msg) matches Some(says) ==> says == rule_step(
            rule,
            msg,
        ).1,
        crate::rule_answers::foreseen(rule, msg) is Some <==> crate::rules::rule_defined(rule, msg),
{
}

} // verus!
