//! What matchers, strips and conditions are for: which messages a rule accepts, said of the
//! messages themselves.

use crate::json::json_outline;
use crate::message::MessageView;
use crate::rules::binary_matches;
use crate::rules::condition_step;
use crate::rules::conditioned;
use crate::rules::conditions_step;
use crate::rules::matcher_accepts;
use crate::rules::modified;
use crate::rules::named_type;
use crate::rules::plain;
use crate::rules::regex_finds;
use crate::rules::rule_reset;
use crate::rules::rule_step;
use crate::rules::rules_reset;
use crate::rules::text_matches;
use crate::rules::type_matches;
use crate::rules::any_step;
use crate::rules::all_step;
use crate::rules::BinaryMatcherView;
use crate::rules::ConditionView;
use crate::rules::MatcherView;
use crate::rules::MessageType;
use crate::rules::RuleView;
use crate::rules::StripView;
use crate::rules::TextMatcherView;
use crate::text::begins_with;
use crate::text::finishes_with;
use crate::text::first_at;
use crate::text::first_index;
use crate::text::last_at;
use crate::text::last_index;
use crate::text::occurs;
use crate::text::occurs_at;
use vstd::prelude::*;
use vstd::utf8::decode_utf8;
use vstd::utf8::valid_utf8;

verus! {

/// A text begins with another exactly if it is the other with something behind it.
pub proof fn lemma_begins<T>(s: Seq<T>, p: Seq<T>)
    ensures
        begins_with(s, p) <==> exists|rest: Seq<T>| s == #[trigger] (p + rest),
{
    if begins_with(s, p) {
        assert(s =~= p + s.skip(p.len() as int)) by {
            assert forall|i: int| 0 <= i < p.len() implies s[i] == p[i] by {
                assert(s.subrange(0, p.len() as int)[i] == s[i]);
            }
        }
    }
    if exists|rest: Seq<T>| s == #[trigger] (p + rest) {
        let rest = choose|rest: Seq<T>| s == #[trigger] (p + rest);
        assert(s.subrange(0, p.len() as int) =~= p);
    }
}

/// A text ends with another exactly if it is the other with something before it.
pub proof fn lemma_finishes<T>(s: Seq<T>, p: Seq<T>)
    ensures
        finishes_with(s, p) <==> exists|rest: Seq<T>| s == #[trigger] (rest + p),
{
    if finishes_with(s, p) {
        let k = s.len() - p.len();
        assert(s =~= s.take(k) + p) by {
            assert forall|i: int| 0 <= i < p.len() implies s[k + i] == p[i] by {
                assert(s.subrange(k, s.len() as int)[i] == s[k + i]);
            }
        }
    }
    if exists|rest: Seq<T>| s == #[trigger] (rest + p) {
        let rest = choose|rest: Seq<T>| s == #[trigger] (rest + p);
        assert(s.subrange(rest.len() as int, s.len() as int) =~= p);
    }
}

/// A text holds another exactly if it is the other with something on either side.
pub proof fn lemma_occurs<T>(s: Seq<T>, p: Seq<T>)
    ensures
        occurs(s, p) <==> exists|a: Seq<T>, b: Seq<T>| s == #[trigger] (a + p + b),
{
    if occurs(s, p) {
        let at = choose|at: int| occurs_at(s, p, at);
        let a = s.take(at);
        let b = s.skip(at + p.len());
        assert(s =~= a + p + b) by {
            assert forall|i: int| 0 <= i < p.len() implies s[at + i] == p[i] by {
                assert(s.subrange(at, at + p.len())[i] == s[at + i]);
            }
        }
    }
    if exists|a: Seq<T>, b: Seq<T>| s == #[trigger] (a + p + b) {
        let (a, b) = choose|a: Seq<T>, b: Seq<T>| s == #[trigger] (a + p + b);
        assert(s.subrange(a.len() as int, (a.len() + p.len()) as int) =~= p);
        assert(occurs_at(s, p, a.len() as int));
    }
}

/// A rule on the beginning of binary data accepts exactly the data that is the bytes with
/// something behind them, one on the end exactly what has something before them, one on the inside
/// what has something on either side, and one on the whole only the bytes themselves. Other
/// messages are refused by all of them.
pub proof fn law_binary_rules(p: Seq<u8>, d: Seq<u8>, other: MessageView)
    requires
        !(other is Binary),
    ensures
        rule_step(
            plain(MatcherView::Binary(BinaryMatcherView::StartsWith(p))),
            MessageView::Binary(d),
        ).1 <==> exists|rest: Seq<u8>| d == #[trigger] (p + rest),
        rule_step(
            plain(MatcherView::Binary(BinaryMatcherView::EndsWith(p))),
            MessageView::Binary(d),
        ).1 <==> exists|rest: Seq<u8>| d == #[trigger] (rest + p),
        rule_step(
            plain(MatcherView::Binary(BinaryMatcherView::Contains(p))),
            MessageView::Binary(d),
        ).1 <==> exists|a: Seq<u8>, b: Seq<u8>| d == #[trigger] (a + p + b),
        rule_step(
            plain(MatcherView::Binary(BinaryMatcherView::Exact(p))),
            MessageView::Binary(d),
        ).1 <==> d == p,
        forall|bm: BinaryMatcherView| !(#[trigger] rule_step(plain(MatcherView::Binary(bm)), other)).1,
{
    lemma_begins(d, p);
    lemma_finishes(d, p);
    lemma_occurs(d, p);
}

/// What a binary matcher says of data: the same as the rule that is made of it.
pub proof fn law_binary_matchers(p: Seq<u8>, d: Seq<u8>)
    ensures
        binary_matches(BinaryMatcherView::StartsWith(p), d) <==> exists|rest: Seq<u8>|
            d == #[trigger] (p + rest),
        binary_matches(BinaryMatcherView::EndsWith(p), d) <==> exists|rest: Seq<u8>|
            d == #[trigger] (rest + p),
        binary_matches(BinaryMatcherView::Contains(p), d) <==> exists|a: Seq<u8>, b: Seq<u8>|
            d == #[trigger] (a + p + b),
        binary_matches(BinaryMatcherView::Exact(p), d) <==> d == p,
{
    lemma_begins(d, p);
    lemma_finishes(d, p);
    lemma_occurs(d, p);
}

/// What a text matcher says of a text: whether the text is the one looked for with something
/// behind it, before it, on either side, or is it; a pattern is asked of `regex`.
pub proof fn law_text_matchers(p: Seq<char>, t: Seq<char>)
    ensures
        text_matches(TextMatcherView::StartsWith(p), t) <==> exists|rest: Seq<char>|
            t == #[trigger] (p + rest),
        text_matches(TextMatcherView::EndsWith(p), t) <==> exists|rest: Seq<char>|
            t == #[trigger] (rest + p),
        text_matches(TextMatcherView::Contains(p), t) <==> exists|a: Seq<char>, b: Seq<char>|
            t == #[trigger] (a + p + b),
        text_matches(TextMatcherView::Exact(p), t) <==> t == p,
        text_matches(TextMatcherView::Regex(p), t) <==> regex_finds(p, t) == Some(true),
{
    lemma_begins(t, p);
    lemma_finishes(t, p);
    lemma_occurs(t, p);
}

/// A rule on text sees the characters of a text message, and those of a binary message that is
/// UTF-8; it refuses every other message.
pub proof fn law_text_rules_see_text(tm: TextMatcherView, t: Seq<char>, b: Seq<u8>, other: MessageView)
    requires
        !(other is Text) && !(other is Binary),
    ensures
        rule_step(plain(MatcherView::Text(tm)), MessageView::Text(t)).1 == text_matches(tm, t),
        rule_step(plain(MatcherView::Text(tm)), MessageView::Binary(b)).1 == (valid_utf8(b)
            && text_matches(tm, decode_utf8(b))),
        !rule_step(plain(MatcherView::Text(tm)), other).1,
{
}

/// A rule on the beginning of text accepts exactly the texts that are it with something behind
/// it; likewise for the end, the inside and the whole.
pub proof fn law_text_rules(p: Seq<char>, t: Seq<char>)
    ensures
        rule_step(
            plain(MatcherView::Text(TextMatcherView::StartsWith(p))),
            MessageView::Text(t),
        ).1 <==> exists|rest: Seq<char>| t == #[trigger] (p + rest),
        rule_step(
            plain(MatcherView::Text(TextMatcherView::EndsWith(p))),
            MessageView::Text(t),
        ).1 <==> exists|rest: Seq<char>| t == #[trigger] (rest + p),
        rule_step(
            plain(MatcherView::Text(TextMatcherView::Contains(p))),
            MessageView::Text(t),
        ).1 <==> exists|a: Seq<char>, b: Seq<char>| t == #[trigger] (a + p + b),
        rule_step(
            plain(MatcherView::Text(TextMatcherView::Exact(p))),
            MessageView::Text(t),
        ).1 <==> t == p,
        rule_step(
            plain(MatcherView::Text(TextMatcherView::Regex(p))),
            MessageView::Text(t),
        ).1 <==> regex_finds(p, t) == Some(true),
{
    law_text_matchers(p, t);
}

/// A rule that takes everything accepts every message, one that takes nothing none, one of a test
/// exactly what the test passes, and none of them is moved on by a message.
pub proof fn law_constant_rules(msg: MessageView, f: spec_fn(MessageView) -> bool)
    ensures
        rule_step(plain(MatcherView::Any), msg) == (plain(MatcherView::Any), true),
        rule_step(plain(MatcherView::Never), msg) == (plain(MatcherView::Never), false),
        rule_step(plain(MatcherView::Custom(f)), msg) == (plain(MatcherView::Custom(f)), f(msg)),
        rule_step(RuleView::Custom(f), msg) == (RuleView::Custom(f), f(msg)),
{
}

/// A rule on JSON accepts a message exactly if its text is JSON and passes the schema.
pub proof fn law_schema_rules(
    f: spec_fn(Seq<char>) -> bool,
    t: Seq<char>,
    b: Seq<u8>,
    other: MessageView,
)
    requires
        !(other is Text) && !(other is Binary),
    ensures
        rule_step(plain(MatcherView::JsonSchema(f)), MessageView::Text(t)).1 <==> json_outline(
            t,
        ) is Some && f(t),
        rule_step(plain(MatcherView::JsonSchema(f)), MessageView::Binary(b)).1 <==> valid_utf8(b)
            && json_outline(decode_utf8(b)) is Some && f(decode_utf8(b)),
        !rule_step(plain(MatcherView::JsonSchema(f)), other).1,
{
}

/// Every message but a raw frame is of exactly one type, which is its own; a raw frame is of none.
pub proof fn law_types_tell_messages_apart(mt: MessageType, msg: MessageView)
    ensures
        rule_step(plain(MatcherView::MessageType(mt)), msg).1 == match msg {
            MessageView::Text(_) => mt == MessageType::Text,
            MessageView::Binary(_) => mt == MessageType::Binary,
            MessageView::Close(_) => mt == MessageType::Close,
            MessageView::Ping(_) => mt == MessageType::Ping,
            MessageView::Pong(_) => mt == MessageType::Pong,
            MessageView::Frame => false,
        },
        type_matches(mt, msg) == rule_step(plain(MatcherView::MessageType(mt)), msg).1,
{
}

/// The names of the types are different, and each names its own type.
pub proof fn law_type_names(name: Seq<char>)
    ensures
        named_type("Text"@) == Some(MessageType::Text),
        named_type("Binary"@) == Some(MessageType::Binary),
        named_type("Close"@) == Some(MessageType::Close),
        named_type("Ping"@) == Some(MessageType::Ping),
        named_type("Pong"@) == Some(MessageType::Pong),
        named_type(name) is Some ==> name == "Text"@ || name == "Binary"@ || name == "Close"@
            || name == "Ping"@ || name == "Pong"@,
{
    reveal_strlit("Text");
    reveal_strlit("Binary");
    reveal_strlit("Close");
    reveal_strlit("Ping");
    reveal_strlit("Pong");
    assert("Text"@[0] != "Binary"@[0] && "Text"@[0] != "Close"@[0] && "Text"@[0] != "Ping"@[0]);
    assert("Binary"@[0] != "Close"@[0] && "Binary"@[0] != "Ping"@[0] && "Close"@[0]
        != "Ping"@[0]);
    assert("Text"@[0] != "Pong"@[0] && "Binary"@[0] != "Pong"@[0] && "Close"@[0] != "Pong"@[0]);
    assert("Ping"@[1] != "Pong"@[1]);
}

/// A rule behind a prefix or a suffix refuses a text that does not have it, and a message without
/// text.
pub proof fn law_strips_refuse_what_they_cannot_cut(
    inner: RuleView,
    cut: Seq<char>,
    t: Seq<char>,
    other: MessageView,
    strip: StripView,
)
    requires
        !(other is Text) && !(other is Binary),
    ensures
        ({
            let rule = |s: StripView| RuleView::Strip { strip: s, inner: Box::new(inner) };
            &&& (forall|rest: Seq<char>| t != #[trigger] (cut + rest)) ==> rule_step(
                rule(StripView::LstripThen(cut)),
                MessageView::Text(t),
            ) == (rule(StripView::LstripThen(cut)), false)
            &&& (forall|rest: Seq<char>| t != #[trigger] (rest + cut)) ==> rule_step(
                rule(StripView::RstripThen(cut)),
                MessageView::Text(t),
            ) == (rule(StripView::RstripThen(cut)), false)
            &&& (forall|a: Seq<char>, b: Seq<char>| t != #[trigger] (a + cut + b)) ==> rule_step(
                rule(StripView::LstripUntil(cut)),
                MessageView::Text(t),
            ) == (rule(StripView::LstripUntil(cut)), false) && rule_step(
                rule(StripView::RstripUntil(cut)),
                MessageView::Text(t),
            ) == (rule(StripView::RstripUntil(cut)), false)
            &&& rule_step(rule(strip), other) == (rule(strip), false)
        }),
{
    lemma_begins(t, cut);
    lemma_finishes(t, cut);
    lemma_occurs(t, cut);
}

/// A rule behind what is cut sees what is left, as a text: the rest behind a prefix, the rest
/// before a suffix, everything from the first place of a target on, everything up to its last
/// place and the target. It is the inner rule that decides, and it alone that is moved on.
pub proof fn law_strips_hand_on_the_rest(
    inner: RuleView,
    before: Seq<char>,
    cut: Seq<char>,
    behind: Seq<char>,
)
    ensures
        ({
            let rule = |s: StripView, i: RuleView| RuleView::Strip { strip: s, inner: Box::new(i) };
            let sees = |s: StripView, text: Seq<char>, left: Seq<char>|
                rule_step(rule(s, inner), MessageView::Text(text)) == (
                    rule(s, rule_step(inner, MessageView::Text(left)).0),
                    rule_step(inner, MessageView::Text(left)).1,
                ) && modified(rule(s, inner), MessageView::Text(text)) == Some(
                    MessageView::Text(left),
                );
            &&& sees(StripView::LstripThen(cut), cut + behind, behind)
            &&& sees(StripView::RstripThen(cut), before + cut, before)
            &&& (forall|i: int|
                0 <= i < before.len() ==> #[trigger] (before + cut + behind).subrange(
                    i,
                    i + cut.len(),
                ) != cut) ==> sees(
                StripView::LstripUntil(cut),
                before + cut + behind,
                cut + behind,
            )
            &&& (forall|i: int|
                before.len() < i <= before.len() + behind.len() ==> #[trigger] (before + cut
                    + behind).subrange(i, i + cut.len()) != cut) ==> sees(
                StripView::RstripUntil(cut),
                before + cut + behind,
                before + cut,
            )
        }),
{
    let t = cut + behind;
    assert(t.subrange(0, cut.len() as int) =~= cut);
    assert(t.skip(cut.len() as int) =~= behind);
    let u = before + cut;
    assert(u.subrange(before.len() as int, u.len() as int) =~= cut);
    assert(u.take(before.len() as int) =~= before);
    let all = before + cut + behind;
    let at = before.len() as int;
    assert(all.subrange(at, at + cut.len()) =~= cut);
    assert(occurs_at(all, cut, at));
    if forall|i: int| 0 <= i < before.len() ==> #[trigger] all.subrange(i, i + cut.len()) != cut {
        assert(first_at(all, cut, at));
        let found = first_index(all, cut);
        assert(first_at(all, cut, found));
        assert(found == at) by {
            if found < at {
                assert(occurs_at(all, cut, found));
            } else if at < found {
                assert(!occurs_at(all, cut, at));
            }
        }
        assert(all.skip(at) =~= cut + behind);
    }
    if forall|i: int|
        before.len() < i <= before.len() + behind.len() ==> #[trigger] all.subrange(
            i,
            i + cut.len(),
        ) != cut {
        assert forall|j: int| at < j implies !occurs_at(all, cut, j) by {
            if occurs_at(all, cut, j) {
                assert(j <= before.len() + behind.len());
            }
        }
        assert(last_at(all, cut, at));
        let found = last_index(all, cut);
        assert(last_at(all, cut, found));
        assert(found == at) by {
            if found < at {
                assert(!occurs_at(all, cut, at));
            } else if at < found {
                assert(!occurs_at(all, cut, found));
            }
        }
        assert(all.take(at + cut.len()) =~= before + cut);
    }
}

/// A matcher with conditions accepts a message exactly if the matcher does and every condition
/// lets it pass. A condition is asked, and moved on, exactly if the matcher accepts the message
/// and every condition before it lets it pass.
pub proof fn law_conditions_are_asked_in_turn(
    matcher: MatcherView,
    conditions: Seq<ConditionView>,
    msg: MessageView,
)
    ensures
        ({
            let (after, accepts) = rule_step(RuleView::Matcher { matcher, conditions }, msg);
            let taken = rule_step(plain(matcher), msg).1;
            &&& accepts <==> taken && forall|i: int|
                0 <= i < conditions.len() ==> (#[trigger] condition_step(conditions[i], msg)).1
            &&& after matches RuleView::Matcher { matcher: m, conditions: next } && m == matcher
                && next.len() == conditions.len() && forall|i: int|
                0 <= i < conditions.len() ==> #[trigger] next[i] == if taken && forall|j: int|
                    0 <= j < i ==> (#[trigger] condition_step(conditions[j], msg)).1 {
                    condition_step(conditions[i], msg).0
                } else {
                    conditions[i]
                }
        }),
{
    assert(conditions_step(Seq::<ConditionView>::empty(), msg).1);
    if matcher_accepts(matcher, msg) {
        lemma_conditions(conditions, msg);
    }
}

proof fn lemma_conditions(conditions: Seq<ConditionView>, msg: MessageView)
    ensures
        conditions_step(conditions, msg).1 <==> forall|i: int|
            0 <= i < conditions.len() ==> (#[trigger] condition_step(conditions[i], msg)).1,
        conditions_step(conditions, msg).0.len() == conditions.len(),
        forall|i: int|
            0 <= i < conditions.len() ==> #[trigger] conditions_step(conditions, msg).0[i] == if (
            forall|j: int| 0 <= j < i ==> (#[trigger] condition_step(conditions[j], msg)).1) {
                condition_step(conditions[i], msg).0
            } else {
                conditions[i]
            },
    decreases conditions.len(),
{
    if conditions.len() > 0 {
        let rest = conditions.drop_first();
        lemma_conditions(rest, msg);
        let first = condition_step(conditions[0], msg).1;
        let next = conditions_step(conditions, msg).0;
        if first {
            if conditions_step(rest, msg).1 {
                assert forall|i: int| 0 <= i < conditions.len() implies (#[trigger] condition_step(
                    conditions[i],
                    msg,
                )).1 by {
                    if i > 0 {
                        assert(condition_step(rest[i - 1], msg).1);
                    }
                }
            } else {
                let i = choose|i: int|
                    0 <= i < rest.len() && !(#[trigger] condition_step(rest[i], msg)).1;
                assert(!condition_step(conditions[i + 1], msg).1);
            }
        }
        assert forall|i: int| 0 <= i < conditions.len() implies #[trigger] next[i] == if (forall|
            j: int,
        |
            0 <= j < i ==> (#[trigger] condition_step(conditions[j], msg)).1) {
            condition_step(conditions[i], msg).0
        } else {
            conditions[i]
        } by {
            if i > 0 {
                if first {
                    assert(next[i] == conditions_step(rest, msg).0[i - 1]);
                    assert(rest[i - 1] == conditions[i]);
                    if forall|j: int| 0 <= j < i ==> (#[trigger] condition_step(
                        conditions[j],
                        msg,
                    )).1 {
                        assert forall|j: int| 0 <= j < i - 1 implies (#[trigger] condition_step(
                            rest[j],
                            msg,
                        )).1 by {
                            assert(condition_step(conditions[j + 1], msg).1);
                        }
                    } else {
                        let j = choose|j: int|
                            0 <= j < i && !(#[trigger] condition_step(conditions[j], msg)).1;
                        assert(j > 0);
                        assert(!condition_step(rest[j - 1], msg).1);
                    }
                } else {
                    assert(next[i] == rest[i - 1]);
                    assert(!condition_step(conditions[0], msg).1);
                }
            }
        }
    }
}

/// A condition without demands lets everything pass, and one of a test what the test passes;
/// neither is moved on.
pub proof fn law_constant_conditions(msg: MessageView, f: spec_fn(MessageView) -> bool)
    ensures
        condition_step(ConditionView::Always, msg) == (ConditionView::Always, true),
        condition_step(ConditionView::Custom(f), msg) == (ConditionView::Custom(f), f(msg)),
{
}

/// A condition is put behind those that a matcher has, which stay as they are; a rule that is no
/// matcher is left alone.
pub proof fn law_conditions_are_added_behind(
    matcher: MatcherView,
    conditions: Seq<ConditionView>,
    cond: ConditionView,
    msg: MessageView,
    rule: RuleView,
)
    requires
        !(rule is Matcher),
    ensures
        rule_step(conditioned(RuleView::Matcher { matcher, conditions }, cond), msg).1 <==> (
        rule_step(RuleView::Matcher { matcher, conditions }, msg).1 && condition_step(
            cond,
            msg,
        ).1),
        conditioned(rule, cond) == rule,
{
    let all = conditions.push(cond);
    law_conditions_are_asked_in_turn(matcher, conditions, msg);
    law_conditions_are_asked_in_turn(matcher, all, msg);
    if forall|i: int|
        0 <= i < conditions.len() ==> (#[trigger] condition_step(conditions[i], msg)).1 {
        if condition_step(cond, msg).1 {
            assert forall|i: int| 0 <= i < all.len() implies (#[trigger] condition_step(
                all[i],
                msg,
            )).1 by {
                if i < conditions.len() {
                    assert(all[i] == conditions[i]);
                }
            }
        } else {
            assert(all[conditions.len() as int] == cond);
        }
    } else {
        let i = choose|i: int|
            0 <= i < conditions.len() && !(#[trigger] condition_step(conditions[i], msg)).1;
        assert(all[i] == conditions[i]);
    }
}

/// An `or` asks its rules in turn until one accepts: those asked are moved on, those behind the
/// first that accepts stay as they are.
pub proof fn law_or_asks_until_one_accepts(rules: Seq<RuleView>, msg: MessageView)
    ensures
        rule_step(RuleView::Or(rules), msg).0 matches RuleView::Or(next) && next.len()
            == rules.len() && forall|i: int|
            0 <= i < rules.len() ==> #[trigger] next[i] == if (forall|j: int|
                0 <= j < i ==> !(#[trigger] rule_step(rules[j], msg)).1) {
                rule_step(rules[i], msg).0
            } else {
                rules[i]
            },
{
    lemma_any(rules, msg);
}

proof fn lemma_any(rules: Seq<RuleView>, msg: MessageView)
    ensures
        any_step(rules, msg).0.len() == rules.len(),
        forall|i: int|
            0 <= i < rules.len() ==> #[trigger] any_step(rules, msg).0[i] == if (forall|j: int|
                0 <= j < i ==> !(#[trigger] rule_step(rules[j], msg)).1) {
                rule_step(rules[i], msg).0
            } else {
                rules[i]
            },
    decreases rules.len(),
{
    if rules.len() > 0 {
        let rest = rules.drop_first();
        lemma_any(rest, msg);
        let next = any_step(rules, msg).0;
        let first = rule_step(rules[0], msg).1;
        assert forall|i: int| 0 <= i < rules.len() implies #[trigger] next[i] == if (forall|j: int|
            0 <= j < i ==> !(#[trigger] rule_step(rules[j], msg)).1) {
            rule_step(rules[i], msg).0
        } else {
            rules[i]
        } by {
            if i > 0 {
                assert(rest[i - 1] == rules[i]);
                if first {
                    assert(next[i] == rest[i - 1]);
                } else {
                    assert(next[i] == any_step(rest, msg).0[i - 1]);
                    if forall|j: int| 0 <= j < i ==> !(#[trigger] rule_step(rules[j], msg)).1 {
                        assert forall|j: int| 0 <= j < i - 1 implies !(#[trigger] rule_step(
                            rest[j],
                            msg,
                        )).1 by {
                            assert(!rule_step(rules[j + 1], msg).1);
                        }
                    } else {
                        let j = choose|j: int|
                            0 <= j < i && (#[trigger] rule_step(rules[j], msg)).1;
                        assert(rule_step(rest[j - 1], msg).1);
                    }
                }
            }
        }
    }
}

/// An `and` asks its rules in turn until one refuses: those asked are moved on, those behind the
/// first that refuses stay as they are.
pub proof fn law_and_asks_until_one_refuses(rules: Seq<RuleView>, msg: MessageView)
    ensures
        rule_step(RuleView::And(rules), msg).0 matches RuleView::And(next) && next.len()
            == rules.len() && forall|i: int|
            0 <= i < rules.len() ==> #[trigger] next[i] == if (forall|j: int|
                0 <= j < i ==> (#[trigger] rule_step(rules[j], msg)).1) {
                rule_step(rules[i], msg).0
            } else {
                rules[i]
            },
{
    lemma_all(rules, msg);
}

proof fn lemma_all(rules: Seq<RuleView>, msg: MessageView)
    ensures
        all_step(rules, msg).0.len() == rules.len(),
        forall|i: int|
            0 <= i < rules.len() ==> #[trigger] all_step(rules, msg).0[i] == if (forall|j: int|
                0 <= j < i ==> (#[trigger] rule_step(rules[j], msg)).1) {
                rule_step(rules[i], msg).0
            } else {
                rules[i]
            },
    decreases rules.len(),
{
    if rules.len() > 0 {
        let rest = rules.drop_first();
        lemma_all(rest, msg);
        let next = all_step(rules, msg).0;
        let first = rule_step(rules[0], msg).1;
        assert forall|i: int| 0 <= i < rules.len() implies #[trigger] next[i] == if (forall|j: int|
            0 <= j < i ==> (#[trigger] rule_step(rules[j], msg)).1) {
            rule_step(rules[i], msg).0
        } else {
            rules[i]
        } by {
            if i > 0 {
                assert(rest[i - 1] == rules[i]);
                if !first {
                    assert(next[i] == rest[i - 1]);
                } else {
                    assert(next[i] == all_step(rest, msg).0[i - 1]);
                    if forall|j: int| 0 <= j < i ==> (#[trigger] rule_step(rules[j], msg)).1 {
                        assert forall|j: int| 0 <= j < i - 1 implies (#[trigger] rule_step(
                            rest[j],
                            msg,
                        )).1 by {
                            assert(rule_step(rules[j + 1], msg).1);
                        }
                    } else {
                        let j = choose|j: int|
                            0 <= j < i && !(#[trigger] rule_step(rules[j], msg)).1;
                        assert(!rule_step(rest[j - 1], msg).1);
                    }
                }
            }
        }
    }
}

/// Two rules for the same message accept it exactly if both do, and the second is asked only if
/// the first accepts. A changed message is accepted exactly if there is one.
pub proof fn law_and_then_asks_both(
    first: RuleView,
    second: RuleView,
    msg: MessageView,
    f: spec_fn(MessageView) -> Option<MessageView>,
)
    ensures
        ({
            let pair = |a: RuleView, b: RuleView|
                RuleView::AndThen { first: Box::new(a), second: Box::new(b) };
            let (a, ok) = rule_step(first, msg);
            let (b, verdict) = rule_step(second, msg);
            &&& ok ==> rule_step(pair(first, second), msg) == (pair(a, b), verdict)
            &&& !ok ==> rule_step(pair(first, second), msg) == (pair(a, second), false)
            &&& rule_step(RuleView::Transform(f), msg) == (RuleView::Transform(f), f(msg) is Some)
            &&& modified(RuleView::Transform(f), msg) == f(msg)
        }),
{
    reveal_with_fuel(rule_step, 2);
}

/// A negated rule is moved on as the rule is.
pub proof fn law_not_moves_its_rule_on(rule: RuleView, msg: MessageView)
    ensures
        rule_step(RuleView::Not(Box::new(rule)), msg).0 == RuleView::Not(
            Box::new(rule_step(rule, msg).0),
        ),
{
}

/// Whether a rule has seen no message: nothing is counted, nothing is waited for.
pub open spec fn is_fresh(rule: RuleView) -> bool
    decreases rule,
{
    match rule {
        RuleView::Matcher { conditions, .. } => forall|i: int|
            0 <= i < conditions.len() ==> match #[trigger] conditions[i] {
                ConditionView::Wait(n) => n == 0,
                ConditionView::WaitMessages { counter, .. } => counter == 0,
                _ => true,
            },
        RuleView::Strip { inner, .. } => is_fresh(*inner),
        RuleView::Or(rules) => all_fresh(rules),
        RuleView::And(rules) => all_fresh(rules),
        RuleView::Then { first, second, waiting } => !waiting && is_fresh(*first) && is_fresh(
            *second,
        ),
        RuleView::AndThen { first, second } => is_fresh(*first) && is_fresh(*second),
        RuleView::Not(inner) => is_fresh(*inner),
        RuleView::Transform(_) | RuleView::Custom(_) => true,
    }
}

pub open spec fn all_fresh(rules: Seq<RuleView>) -> bool
    decreases rules,
{
    rules.len() > 0 ==> is_fresh(rules[0]) && all_fresh(rules.drop_first())
}

/// A reset leaves a rule that has seen nothing as it is, and makes every rule such a rule.
pub proof fn law_reset_gives_a_fresh_rule(rule: RuleView)
    ensures
        is_fresh(rule_reset(rule)),
        is_fresh(rule) ==> rule_reset(rule) == rule,
    decreases rule,
{
    match rule {
        RuleView::Matcher { matcher, conditions } => {
            if is_fresh(rule) {
                let reset = |c: ConditionView| crate::rules::condition_reset(c);
                assert forall|i: int| 0 <= i < conditions.len() implies #[trigger] conditions[i]
                    == conditions.map_values(reset)[i] by {
                }
                assert(conditions.map_values(reset) =~= conditions);
            }
        },
        RuleView::Strip { inner, .. } => {
            law_reset_gives_a_fresh_rule(*inner);
        },
        RuleView::Or(rules) => {
            lemma_reset_all(rules);
        },
        RuleView::And(rules) => {
            lemma_reset_all(rules);
        },
        RuleView::Then { first, second, .. } => {
            law_reset_gives_a_fresh_rule(*first);
            law_reset_gives_a_fresh_rule(*second);
        },
        RuleView::AndThen { first, second } => {
            law_reset_gives_a_fresh_rule(*first);
            law_reset_gives_a_fresh_rule(*second);
        },
        RuleView::Not(inner) => {
            law_reset_gives_a_fresh_rule(*inner);
        },
        RuleView::Transform(_) | RuleView::Custom(_) => {},
    }
}

proof fn lemma_reset_all(rules: Seq<RuleView>)
    ensures
        all_fresh(rules_reset(rules)),
        all_fresh(rules) ==> rules_reset(rules) == rules,
    decreases rules,
{
    if rules.len() > 0 {
        law_reset_gives_a_fresh_rule(rules[0]);
        lemma_reset_all(rules.drop_first());
        let reset = rules_reset(rules);
        assert(reset.drop_first() =~= rules_reset(rules.drop_first()));
        assert(seq![rules[0]] + rules.drop_first() =~= rules);
    }
}

/// A rule behind a strip sees a binary message that is UTF-8 as the text that it holds, and refuses
/// one that is not.
pub proof fn law_strips_read_binary_text(strip: StripView, inner: RuleView, b: Seq<u8>)
    ensures
        ({
            let rule = RuleView::Strip { strip, inner: Box::new(inner) };
            &&& valid_utf8(b) ==> rule_step(rule, MessageView::Binary(b)) == rule_step(
                rule,
                MessageView::Text(decode_utf8(b)),
            ) && modified(rule, MessageView::Binary(b)) == modified(
                rule,
                MessageView::Text(decode_utf8(b)),
            )
            &&& !valid_utf8(b) ==> rule_step(rule, MessageView::Binary(b)) == (rule, false)
        }),
{
}

/// A sequence asks its first rule until that accepts a message, and refuses all of these; of the
/// message that follows its second rule decides, and then it is the turn of the first again. Only
/// the rule that is asked is moved on.
pub proof fn law_then_asks_in_turn(first: RuleView, second: RuleView, msg: MessageView)
    ensures
        ({
            let pair = |a: RuleView, b: RuleView, waiting: bool|
                RuleView::Then { first: Box::new(a), second: Box::new(b), waiting };
            let (a, opens) = rule_step(first, msg);
            let (b, verdict) = rule_step(second, msg);
            &&& rule_step(pair(first, second, false), msg) == (pair(a, second, opens), false)
            &&& rule_step(pair(first, second, true), msg) == (pair(first, b, false), verdict)
        }),
{
}

} // verus!
