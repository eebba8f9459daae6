//! What the source that a rule expression becomes is for: it calls the builder so that the rule
//! that is built accepts what the expression says.

use crate::dsl::lowered;
use crate::dsl::lowered_chain;
use crate::dsl::lowered_inner;
use crate::dsl::lowered_methods;
use crate::dsl::lowered_operands;
use crate::dsl::lowered_rule;
use crate::dsl::ChainedMethodView;
use crate::dsl::DslView;
use crate::dsl::IdentOrStringView;
use crate::dsl::MatcherCallView;
use crate::dsl::RuleExprView;
use crate::message::MessageView;
use crate::rule_laws::law_and_accepts;
use crate::rule_laws::law_or_accepts;
use crate::rules::rule_step;
use crate::rules::RuleView;
use vstd::prelude::*;

verus! {

/// The source of a negation is the source of what is negated with `.not()` behind it, whatever
/// that is.
pub proof fn law_negation_is_written(e: DslView)
    ensures
        lowered_inner(DslView::Not(Box::new(e))) == lowered_inner(e) + ".not()"@,
        lowered(DslView::Not(Box::new(e))) == lowered_inner(e) + ".not()"@ + ".build()"@,
{
}

/// The source of a sequence is the source of what comes first, with a call of `then` on the rule
/// that is built of what comes behind.
pub proof fn law_sequence_is_written(a: DslView, b: DslView)
    ensures
        lowered_inner(DslView::Then(Box::new(a), Box::new(b))) == lowered_inner(a) + ".then("@
            + lowered_inner(b) + ".build())"@,
{
}

/// The source of one operand more is the source of those before it with a call of the operator on
/// the rule that is built of the new one. A single operand stands for itself.
pub proof fn law_operands_are_written(nodes: Seq<DslView>, last: DslView)
    ensures
        nodes.len() > 0 ==> lowered_inner(DslView::And(nodes.push(last))) == lowered_inner(
            DslView::And(nodes),
        ) + ".and("@ + lowered_inner(last) + ".build())"@,
        nodes.len() > 0 ==> lowered_inner(DslView::Or(nodes.push(last))) == lowered_inner(
            DslView::Or(nodes),
        ) + ".or("@ + lowered_inner(last) + ".build())"@,
        lowered_inner(DslView::And(seq![last])) == lowered_inner(last),
        lowered_inner(DslView::Or(seq![last])) == lowered_inner(last),
{
    let more = nodes.push(last);
    assert(more.drop_last() =~= nodes);
    assert(lowered_operands(seq![last], ".and("@) == lowered_inner(last));
    assert(lowered_operands(seq![last], ".or("@) == lowered_inner(last));
    if nodes.len() > 0 {
        assert(lowered_operands(more, ".and("@) == lowered_operands(nodes, ".and("@) + ".and("@
            + lowered_inner(last) + ".build())"@);
        assert(lowered_operands(more, ".or("@) == lowered_operands(nodes, ".or("@) + ".or("@
            + lowered_inner(last) + ".build())"@);
    }
}

/// A method more is written behind those before it: a dot, its name, and its arguments in
/// brackets.
pub proof fn law_methods_are_written(
    base: MatcherCallView,
    methods: Seq<ChainedMethodView>,
    last: ChainedMethodView,
)
    ensures
        lowered_inner(DslView::MethodChain { base, methods: methods.push(last) }) == lowered_inner(
            DslView::MethodChain { base, methods },
        ) + "."@ + last.ident + "("@ + last.args + ")"@,
{
    assert(methods.push(last).drop_last() =~= methods);
    assert(lowered_inner(DslView::MethodChain { base, methods: methods.push(last) })
        =~= lowered_inner(DslView::MethodChain { base, methods }) + "."@ + last.ident + "("@
        + last.args + ")"@);
}

/// A matcher on a text becomes the constructor of that matcher on the text, be it a name or a
/// literal.
pub proof fn law_text_matchers_are_written(name: Seq<char>, value: Seq<char>, literal: Seq<char>)
    ensures
        ({
            let none = Seq::<ChainedMethodView>::empty();
            let source = |base: MatcherCallView|
                lowered_inner(DslView::MethodChain { base, methods: none });
            let builder = "::binary_options_tools_core::rules::RuleBuilder::"@;
            let i = IdentOrStringView::Ident(name);
            let s = IdentOrStringView::String { value, literal };
            &&& source(MatcherCallView::Exact(i)) == builder + "text_exact"@ + "("@ + name + ")"@
            &&& source(MatcherCallView::Exact(s)) == builder + "text_exact"@ + "("@ + literal
                + ")"@
            &&& source(MatcherCallView::StartsWith(i)) == builder + "text_starts_with"@ + "("@
                + name + ")"@
            &&& source(MatcherCallView::StartsWith(s)) == builder + "text_starts_with"@ + "("@
                + literal + ")"@
            &&& source(MatcherCallView::EndsWith(i)) == builder + "text_ends_with"@ + "("@ + name
                + ")"@
            &&& source(MatcherCallView::EndsWith(s)) == builder + "text_ends_with"@ + "("@
                + literal + ")"@
            &&& source(MatcherCallView::Contains(i)) == builder + "text_contains"@ + "("@ + name
                + ")"@
            &&& source(MatcherCallView::Contains(s)) == builder + "text_contains"@ + "("@ + literal
                + ")"@
            &&& source(MatcherCallView::Regex(i)) == builder + "text_regex"@ + "("@ + name + ")"@
            &&& source(MatcherCallView::Regex(s)) == builder + "text_regex"@ + "("@ + literal
                + ")"@
        }),
{
    let builder = "::binary_options_tools_core::rules::RuleBuilder::"@;
    lemma_written_call(builder, "text_exact"@, name);
    lemma_written_call(builder, "text_exact"@, literal);
    lemma_written_call(builder, "text_starts_with"@, name);
    lemma_written_call(builder, "text_starts_with"@, literal);
    lemma_written_call(builder, "text_ends_with"@, name);
    lemma_written_call(builder, "text_ends_with"@, literal);
    lemma_written_call(builder, "text_contains"@, name);
    lemma_written_call(builder, "text_contains"@, literal);
    lemma_written_call(builder, "text_regex"@, name);
    lemma_written_call(builder, "text_regex"@, literal);
}

proof fn lemma_written_call(builder: Seq<char>, name: Seq<char>, arg: Seq<char>)
    ensures
        builder + (name + "("@ + arg + ")"@) + lowered_methods(Seq::empty()) == builder + name
            + "("@ + arg + ")"@,
{
    assert(builder + (name + "("@ + arg + ")"@) + lowered_methods(Seq::empty()) =~= builder + name
        + "("@ + arg + ")"@);
}

/// A matcher on bytes, on the type of a message, on a schema or on a closure becomes the
/// constructor of that matcher on what is written in its brackets.
pub proof fn law_source_matchers_are_written(arg: Seq<char>)
    ensures
        ({
            let none = Seq::<ChainedMethodView>::empty();
            let source = |base: MatcherCallView|
                lowered_inner(DslView::MethodChain { base, methods: none });
            let builder = "::binary_options_tools_core::rules::RuleBuilder::"@;
            &&& source(MatcherCallView::Any) == builder + "any()"@
            &&& source(MatcherCallView::Never) == builder + "never()"@
            &&& source(MatcherCallView::BinaryExact(arg)) == builder + "binary_exact"@ + "("@ + arg
                + ")"@
            &&& source(MatcherCallView::BinaryStartsWith(arg)) == builder + "binary_starts_with"@
                + "("@ + arg + ")"@
            &&& source(MatcherCallView::BinaryEndsWith(arg)) == builder + "binary_ends_with"@
                + "("@ + arg + ")"@
            &&& source(MatcherCallView::BinaryContains(arg)) == builder + "binary_contains"@
                + "("@ + arg + ")"@
            &&& source(MatcherCallView::MessageType(arg)) == builder + "message_type"@ + "("@
                + "::binary_options_tools_core::rules::MessageType::"@ + arg + ")"@
            &&& source(MatcherCallView::JsonSchema(arg)) == builder + "json_schema::<"@ + arg
                + ">()"@
            &&& source(MatcherCallView::Custom(arg)) == builder + "custom"@ + "("@ + arg + ")"@
        }),
{
    let builder = "::binary_options_tools_core::rules::RuleBuilder::"@;
    let none = lowered_methods(Seq::empty());
    lemma_written_call(builder, "binary_exact"@, arg);
    lemma_written_call(builder, "binary_starts_with"@, arg);
    lemma_written_call(builder, "binary_ends_with"@, arg);
    lemma_written_call(builder, "binary_contains"@, arg);
    lemma_written_call(builder, "custom"@, arg);
    let ty = "::binary_options_tools_core::rules::MessageType::"@;
    lemma_written_call(builder, "message_type"@, ty + arg);
    assert(builder + "message_type"@ + "("@ + (ty + arg) + ")"@ =~= builder + "message_type"@
        + "("@ + ty + arg + ")"@);
    assert(builder + "any()"@ + none =~= builder + "any()"@);
    assert(builder + "never()"@ + none =~= builder + "never()"@);
    assert(builder + ("json_schema::<"@ + arg + ">()"@) + none =~= builder + "json_schema::<"@
        + arg + ">()"@);
}

/// A payload becomes a boxed rule: a new value of the struct, what the function returns, or what
/// the expression builds.
pub proof fn law_payloads_are_written(text: Seq<char>, e: DslView)
    requires
        !(e is And) && !(e is Or),
    ensures
        lowered_rule(RuleExprView::Struct(text)) == "::std::boxed::Box::new("@ + text + "::new()"@
            + ")"@,
        lowered_rule(RuleExprView::FnRef(text)) == "::std::boxed::Box::new("@ + text + "()"@
            + ")"@,
        lowered_rule(RuleExprView::Dsl(e)) == "::std::boxed::Box::new("@ + lowered_inner(e)
            + ".build()"@ + ")"@,
        forall|nodes: Seq<DslView>|
            nodes.len() > 0 ==> #[trigger] lowered_rule(RuleExprView::Dsl(DslView::And(nodes)))
                == "::std::boxed::Box::new("@ + lowered_inner(DslView::And(nodes)) + ".build()"@
                + ")"@,
        forall|nodes: Seq<DslView>|
            nodes.len() > 0 ==> #[trigger] lowered_rule(RuleExprView::Dsl(DslView::Or(nodes)))
                == "::std::boxed::Box::new("@ + lowered_inner(DslView::Or(nodes)) + ".build()"@
                + ")"@,
{
    let open = "::std::boxed::Box::new("@;
    assert(open + (text + "::new()"@) + ")"@ =~= open + text + "::new()"@ + ")"@);
    assert(open + (text + "()"@) + ")"@ =~= open + text + "()"@ + ")"@);
    assert(open + (lowered_inner(e) + ".build()"@) + ")"@ =~= open + lowered_inner(e)
        + ".build()"@ + ")"@);
    assert forall|nodes: Seq<DslView>| nodes.len() > 0 implies #[trigger] lowered_rule(
        RuleExprView::Dsl(DslView::And(nodes)),
    ) == open + lowered_inner(DslView::And(nodes)) + ".build()"@ + ")"@ by {
        let inner = lowered_inner(DslView::And(nodes));
        assert(open + (inner + ".build()"@) + ")"@ =~= open + inner + ".build()"@ + ")"@);
    }
    assert forall|nodes: Seq<DslView>| nodes.len() > 0 implies #[trigger] lowered_rule(
        RuleExprView::Dsl(DslView::Or(nodes)),
    ) == open + lowered_inner(DslView::Or(nodes)) + ".build()"@ + ")"@ by {
        let inner = lowered_inner(DslView::Or(nodes));
        assert(open + (inner + ".build()"@) + ")"@ =~= open + inner + ".build()"@ + ")"@);
    }
}

/// Calls of the rule builder: a matcher with its methods, and what is called on a builder.
pub enum Calls {
    Chain(MatcherCallView, Seq<ChainedMethodView>),
    Not(Box<Calls>),
    Or(Box<Calls>, Box<Calls>),
    And(Box<Calls>, Box<Calls>),
    Then(Box<Calls>, Box<Calls>),
}

/// How calls are written in Rust.
pub open spec fn written(calls: Calls) -> Seq<char>
    decreases calls,
{
    match calls {
        Calls::Chain(base, methods) => lowered_chain(base, methods),
        Calls::Not(a) => written(*a) + ".not()"@,
        Calls::Or(a, b) => written(*a) + ".or("@ + written(*b) + ".build())"@,
        Calls::And(a, b) => written(*a) + ".and("@ + written(*b) + ".build())"@,
        Calls::Then(a, b) => written(*a) + ".then("@ + written(*b) + ".build())"@,
    }
}

/// The rule that calls build, where `sense` is the rule that a matcher with its methods builds.
pub open spec fn built(
    calls: Calls,
    sense: spec_fn(MatcherCallView, Seq<ChainedMethodView>) -> RuleView,
) -> RuleView
    decreases calls,
{
    match calls {
        Calls::Chain(base, methods) => sense(base, methods),
        Calls::Not(a) => RuleView::Not(Box::new(built(*a, sense))),
        Calls::Or(a, b) => RuleView::Or(seq![built(*a, sense), built(*b, sense)]),
        Calls::And(a, b) => RuleView::And(seq![built(*a, sense), built(*b, sense)]),
        Calls::Then(a, b) => RuleView::Then {
            first: Box::new(built(*a, sense)),
            second: Box::new(built(*b, sense)),
            waiting: false,
        },
    }
}

/// Whether an expression accepts a message as the first one: a negation what the negated refuses,
/// an alternative what one of the operands accepts, a conjunction what all accept, and a sequence
/// nothing before its second step.
pub open spec fn accepts_first(
    node: DslView,
    sense: spec_fn(MatcherCallView, Seq<ChainedMethodView>) -> RuleView,
    msg: MessageView,
) -> bool
    decreases node,
{
    match node {
        DslView::MethodChain { base, methods } => rule_step(sense(base, methods), msg).1,
        DslView::Not(a) => !accepts_first(*a, sense, msg),
        DslView::Or(nodes) => one_accepts(nodes, sense, msg),
        DslView::And(nodes) => all_accept(nodes, sense, msg),
        DslView::Then(a, b) => false,
    }
}

pub open spec fn one_accepts(
    nodes: Seq<DslView>,
    sense: spec_fn(MatcherCallView, Seq<ChainedMethodView>) -> RuleView,
    msg: MessageView,
) -> bool
    decreases nodes,
{
    nodes.len() > 0 && (one_accepts(nodes.drop_last(), sense, msg) || accepts_first(
        nodes.last(),
        sense,
        msg,
    ))
}

pub open spec fn all_accept(
    nodes: Seq<DslView>,
    sense: spec_fn(MatcherCallView, Seq<ChainedMethodView>) -> RuleView,
    msg: MessageView,
) -> bool
    decreases nodes,
{
    nodes.len() > 0 ==> (all_accept(nodes.drop_last(), sense, msg) && accepts_first(
        nodes.last(),
        sense,
        msg,
    ))
}

/// Whether every alternative and every conjunction has an operand, at every depth.
pub open spec fn has_an_operand(node: DslView) -> bool
    decreases node,
{
    match node {
        DslView::Then(a, b) => has_an_operand(*a) && has_an_operand(*b),
        DslView::Or(nodes) => nodes.len() > 0 && all_have_an_operand(nodes),
        DslView::And(nodes) => nodes.len() > 0 && all_have_an_operand(nodes),
        DslView::Not(a) => has_an_operand(*a),
        DslView::MethodChain { .. } => true,
    }
}

pub open spec fn all_have_an_operand(nodes: Seq<DslView>) -> bool
    decreases nodes,
{
    nodes.len() > 0 ==> all_have_an_operand(nodes.drop_last()) && has_an_operand(nodes.last())
}

spec fn calls_of(node: DslView) -> Calls
    decreases node,
{
    match node {
        DslView::MethodChain { base, methods } => Calls::Chain(base, methods),
        DslView::Not(a) => Calls::Not(Box::new(calls_of(*a))),
        DslView::Or(nodes) => calls_of_operands(nodes, true),
        DslView::And(nodes) => calls_of_operands(nodes, false),
        DslView::Then(a, b) => Calls::Then(Box::new(calls_of(*a)), Box::new(calls_of(*b))),
    }
}

spec fn calls_of_operands(nodes: Seq<DslView>, or: bool) -> Calls
    decreases nodes,
{
    if nodes.len() == 0 {
        arbitrary()
    } else if nodes.len() == 1 {
        calls_of(nodes[0])
    } else {
        let front = Box::new(calls_of_operands(nodes.drop_last(), or));
        let last = Box::new(calls_of(nodes.last()));
        if or {
            Calls::Or(front, last)
        } else {
            Calls::And(front, last)
        }
    }
}

/// The source of an expression is made of calls of the builder, and the rule that they build
/// accepts a first message exactly if the expression does: a negation what the negated refuses, an
/// alternative what one of its operands accepts, a conjunction what all of them accept.
pub proof fn law_source_means_the_expression(node: DslView)
    requires
        has_an_operand(node),
    ensures
        exists|calls: Calls| #[trigger]
            written(calls) == lowered_inner(node) && forall|
                sense: spec_fn(MatcherCallView, Seq<ChainedMethodView>) -> RuleView,
                msg: MessageView,
            |
                #![trigger rule_step(built(calls, sense), msg)]
                rule_step(built(calls, sense), msg).1 == accepts_first(node, sense, msg),
{
    lemma_written(node);
    let calls = calls_of(node);
    assert forall|
        sense: spec_fn(MatcherCallView, Seq<ChainedMethodView>) -> RuleView,
        msg: MessageView,
    |
        #![trigger rule_step(built(calls, sense), msg)]
        rule_step(built(calls, sense), msg).1 == accepts_first(node, sense, msg) by {
        lemma_means(node, sense, msg);
    }
}

proof fn lemma_written(node: DslView)
    requires
        has_an_operand(node),
    ensures
        written(calls_of(node)) == lowered_inner(node),
    decreases node,
{
    match node {
        DslView::MethodChain { .. } => {},
        DslView::Not(a) => {
            lemma_written(*a);
        },
        DslView::Or(nodes) => {
            lemma_operands_written(nodes, true);
        },
        DslView::And(nodes) => {
            lemma_operands_written(nodes, false);
        },
        DslView::Then(a, b) => {
            lemma_written(*a);
            lemma_written(*b);
        },
    }
}

proof fn lemma_operands_written(nodes: Seq<DslView>, or: bool)
    requires
        nodes.len() > 0,
        all_have_an_operand(nodes),
    ensures
        written(calls_of_operands(nodes, or)) == lowered_operands(
            nodes,
            if or {
                ".or("@
            } else {
                ".and("@
            },
        ),
    decreases nodes,
{
    lemma_written(nodes.last());
    if nodes.len() > 1 {
        lemma_operands_written(nodes.drop_last(), or);
    }
}

proof fn lemma_means(
    node: DslView,
    sense: spec_fn(MatcherCallView, Seq<ChainedMethodView>) -> RuleView,
    msg: MessageView,
)
    requires
        has_an_operand(node),
    ensures
        rule_step(built(calls_of(node), sense), msg).1 == accepts_first(node, sense, msg),
    decreases node,
{
    match node {
        DslView::MethodChain { .. } => {},
        DslView::Not(a) => {
            lemma_means(*a, sense, msg);
        },
        DslView::Or(nodes) => {
            lemma_operands_mean(nodes, true, sense, msg);
        },
        DslView::And(nodes) => {
            lemma_operands_mean(nodes, false, sense, msg);
        },
        DslView::Then(a, b) => {},
    }
}

proof fn lemma_operands_mean(
    nodes: Seq<DslView>,
    or: bool,
    sense: spec_fn(MatcherCallView, Seq<ChainedMethodView>) -> RuleView,
    msg: MessageView,
)
    requires
        nodes.len() > 0,
        all_have_an_operand(nodes),
    ensures
        rule_step(built(calls_of_operands(nodes, or), sense), msg).1 == if or {
            one_accepts(nodes, sense, msg)
        } else {
            all_accept(nodes, sense, msg)
        },
    decreases nodes,
{
    let last = nodes.last();
    lemma_means(last, sense, msg);
    if nodes.len() > 1 {
        let front = nodes.drop_last();
        lemma_operands_mean(front, or, sense, msg);
        let rules = seq![
            built(calls_of_operands(front, or), sense),
            built(calls_of(last), sense),
        ];
        law_or_accepts(rules, msg);
        law_and_accepts(rules, msg);
        assert(rules[0] == built(calls_of_operands(front, or), sense));
        assert(rules[1] == built(calls_of(last), sense));
    } else {
        assert(nodes.drop_last() =~= Seq::<DslView>::empty());
        assert(!one_accepts(nodes.drop_last(), sense, msg));
        assert(all_accept(nodes.drop_last(), sense, msg));
        assert(one_accepts(nodes, sense, msg) == accepts_first(last, sense, msg));
        assert(all_accept(nodes, sense, msg) == accepts_first(last, sense, msg));
    }
}

} // verus!
