//! Reading gives back what is written: every rule expression that is spelled out in tokens, with
//! brackets only where an operand binds more loosely than its operator, is read as itself.

use crate::dsl::alternative_at;
use crate::dsl::alternatives_at;
use crate::dsl::base_at;
use crate::dsl::chain_at;
use crate::dsl::conjunction_at;
use crate::dsl::conjuncts_at;
use crate::dsl::group_of;
use crate::dsl::is_arrow_at;
use crate::dsl::is_paren_at;
use crate::dsl::is_punct_at;
use crate::dsl::matcher_at;
use crate::dsl::matcher_of;
use crate::dsl::method_at;
use crate::dsl::methods_at;
use crate::dsl::negation_at;
use crate::dsl::rule_expr_of;
use crate::dsl::sequence_at;
use crate::dsl::steps_at;
use crate::dsl::ChainedMethodView;
use crate::dsl::DslErrorView;
use crate::dsl::DslView;
use crate::dsl::IdentOrStringView;
use crate::dsl::MatcherCallView;
use crate::dsl::Read;
use crate::dsl::Readings;
use crate::dsl::RuleExprView;
use crate::dsl::TokenView;
use crate::dsl_laws::all_have_operands;
use crate::dsl_laws::has_operands;
use vstd::prelude::*;

verus! {

/// Whether `part` stands in `tokens` from a place on.
pub open spec fn stands_at(tokens: Seq<TokenView>, pos: int, part: Seq<TokenView>) -> bool {
    &&& 0 <= pos
    &&& pos + part.len() <= tokens.len()
    &&& forall|i: int| 0 <= i < part.len() ==> #[trigger] part[i] == tokens[pos + i]
}

/// A group of which `syn` can read everything that may be asked for.
pub open spec fn readable() -> Readings {
    Readings { expr: true, ty: true, closure: true, args: true, path: true }
}

pub open spec fn punct(ch: char) -> TokenView {
    TokenView::Punct { ch, joint: false }
}

/// A name and a group of round brackets behind it.
pub open spec fn spelled_call(name: Seq<char>, source: Seq<char>, inside: Seq<TokenView>) -> Seq<
    TokenView,
> {
    seq![
        TokenView::Ident(name),
        TokenView::Paren { source, tokens: inside, reads: readable() },
    ]
}

pub open spec fn spelled_text(name: Seq<char>, s: IdentOrStringView) -> Seq<TokenView> {
    match s {
        IdentOrStringView::Ident(i) => spelled_call(name, i, seq![TokenView::Ident(i)]),
        IdentOrStringView::String { value, literal } => spelled_call(
            name,
            literal,
            seq![TokenView::Text { value, literal }],
        ),
    }
}

/// How a matcher is spelled: its name, and its argument in brackets.
pub open spec fn spelled_matcher(call: MatcherCallView) -> Seq<TokenView> {
    match call {
        MatcherCallView::Any => spelled_call("any"@, Seq::empty(), Seq::empty()),
        MatcherCallView::Never => spelled_call("never"@, Seq::empty(), Seq::empty()),
        MatcherCallView::Exact(s) => spelled_text("exact"@, s),
        MatcherCallView::StartsWith(s) => spelled_text("starts_with"@, s),
        MatcherCallView::EndsWith(s) => spelled_text("ends_with"@, s),
        MatcherCallView::Contains(s) => spelled_text("contains"@, s),
        MatcherCallView::Regex(s) => spelled_text("regex"@, s),
        MatcherCallView::BinaryExact(e) => spelled_call("binary_exact"@, e, Seq::empty()),
        MatcherCallView::BinaryStartsWith(e) => spelled_call(
            "binary_starts_with"@,
            e,
            Seq::empty(),
        ),
        MatcherCallView::BinaryEndsWith(e) => spelled_call("binary_ends_with"@, e, Seq::empty()),
        MatcherCallView::BinaryContains(e) => spelled_call("binary_contains"@, e, Seq::empty()),
        MatcherCallView::MessageType(t) => spelled_call(
            "message_type"@,
            t,
            seq![TokenView::Ident(t)],
        ),
        MatcherCallView::JsonSchema(t) => spelled_call("json_schema"@, t, Seq::empty()),
        MatcherCallView::Custom(c) => spelled_call("custom"@, c, Seq::empty()),
    }
}

/// How methods are spelled: a dot, a name and arguments in brackets for each.
pub open spec fn spelled_methods(methods: Seq<ChainedMethodView>) -> Seq<TokenView>
    decreases methods.len(),
{
    if methods.len() == 0 {
        Seq::empty()
    } else {
        seq![punct('.')] + spelled_call(methods[0].ident, methods[0].args, Seq::empty())
            + spelled_methods(methods.drop_first())
    }
}

/// How closely an expression binds: the sequence most loosely, then the alternative, the
/// conjunction and the negation.
pub open spec fn binding(node: DslView) -> int {
    match node {
        DslView::Then(_, _) => 0,
        DslView::Or(_) => 1,
        DslView::And(_) => 2,
        DslView::Not(_) => 3,
        DslView::MethodChain { .. } => 4,
    }
}

/// How an expression is spelled.
pub open spec fn spelled(node: DslView) -> Seq<TokenView>
    decreases node, 0int,
{
    match node {
        DslView::MethodChain { base, methods } => spelled_matcher(base) + spelled_methods(methods),
        DslView::Not(a) => seq![punct('!')] + spelled_operand(*a, 4),
        DslView::And(nodes) => spelled_operands(nodes, 3, '&'),
        DslView::Or(nodes) => spelled_operands(nodes, 2, '|'),
        DslView::Then(a, b) => spelled_operand(*a, 0) + seq![
            TokenView::Punct { ch: '-', joint: true },
            punct('>'),
        ] + spelled_operand(*b, 1),
    }
}

/// How an operand is spelled: in brackets if it binds more loosely than asked for.
pub open spec fn spelled_operand(node: DslView, at_least: int) -> Seq<TokenView>
    decreases node, 1int,
{
    if binding(node) >= at_least {
        spelled(node)
    } else {
        seq![
            TokenView::Paren {
                source: Seq::empty(),
                tokens: spelled(node),
                reads: readable(),
            },
        ]
    }
}

/// How operands are spelled, with an operator between them.
pub open spec fn spelled_operands(nodes: Seq<DslView>, at_least: int, op: char) -> Seq<TokenView>
    decreases nodes, 0int,
{
    if nodes.len() == 0 {
        Seq::empty()
    } else if nodes.len() == 1 {
        spelled_operand(nodes[0], at_least)
    } else {
        spelled_operand(nodes[0], at_least) + seq![punct(op)] + spelled_operands(
            nodes.drop_first(),
            at_least,
            op,
        )
    }
}

spec fn read_at(tokens: Seq<TokenView>, pos: int, level: int) -> Result<Read<DslView>, DslErrorView> {
    if level <= 0 {
        sequence_at(tokens, pos)
    } else if level == 1 {
        alternative_at(tokens, pos)
    } else if level == 2 {
        conjunction_at(tokens, pos)
    } else if level == 3 {
        negation_at(tokens, pos)
    } else {
        base_at(tokens, pos)
    }
}

spec fn done(node: DslView, pos: int) -> Result<Read<DslView>, DslErrorView> {
    Ok(Read { node, pos, clean: true })
}

/// Whether nothing at a place continues an expression of a level.
spec fn stops(tokens: Seq<TokenView>, pos: int, level: int) -> bool {
    &&& !is_punct_at(tokens, pos, '.')
    &&& level <= 2 ==> !is_punct_at(tokens, pos, '&')
    &&& level <= 1 ==> !is_punct_at(tokens, pos, '|')
    &&& level <= 0 ==> !is_arrow_at(tokens, pos)
}

proof fn lemma_stands_split(tokens: Seq<TokenView>, pos: int, a: Seq<TokenView>, b: Seq<TokenView>)
    requires
        stands_at(tokens, pos, a + b),
    ensures
        stands_at(tokens, pos, a),
        stands_at(tokens, pos + a.len(), b),
{
    let all = a + b;
    assert forall|i: int| 0 <= i < a.len() implies #[trigger] a[i] == tokens[pos + i] by {
        assert(all[i] == a[i]);
    }
    assert forall|i: int| 0 <= i < b.len() implies #[trigger] b[i] == tokens[pos + a.len() + i] by {
        assert(all[a.len() + i] == b[i]);
    }
}

/// What is read at a level is read at every looser level, where nothing continues it.
proof fn lemma_lift(tokens: Seq<TokenView>, pos: int, from: int, to: int, node: DslView, end: int)
    requires
        0 <= to <= from <= 4,
        0 <= pos < end <= tokens.len(),
        read_at(tokens, pos, from) == done(node, end),
        stops(tokens, end, to),
    ensures
        read_at(tokens, pos, to) == done(node, end),
    decreases from,
{
    if to < from {
        let next = from - 1;
        if from == 4 {
            assert(!is_punct_at(tokens, pos, '!'));
            assert(negation_at(tokens, pos) == base_at(tokens, pos));
        } else if from == 3 {
            assert(conjuncts_at(tokens, seq![node], end, true) == Ok::<
                Read<Seq<DslView>>,
                DslErrorView,
            >(Read { node: seq![node], pos: end, clean: true }));
        } else if from == 2 {
            assert(alternatives_at(tokens, seq![node], end, true) == Ok::<
                Read<Seq<DslView>>,
                DslErrorView,
            >(Read { node: seq![node], pos: end, clean: true }));
        } else {
            assert(steps_at(tokens, node, end, true) == done(node, end));
        }
        assert(read_at(tokens, pos, next) == done(node, end));
        lemma_lift(tokens, pos, next, to, node, end);
    }
}

proof fn lemma_names()
    ensures
        "any"@.len() == 3,
        "never"@.len() == 5 && "exact"@.len() == 5 && "regex"@.len() == 5,
        "never"@[0] == 'n' && "exact"@[0] == 'e' && "regex"@[0] == 'r',
        "starts_with"@.len() == 11 && "json_schema"@.len() == 11,
        "starts_with"@[0] == 's' && "json_schema"@[0] == 'j',
        "ends_with"@.len() == 9,
        "contains"@.len() == 8,
        "binary_exact"@.len() == 12 && "message_type"@.len() == 12,
        "binary_exact"@[0] == 'b' && "message_type"@[0] == 'm',
        "binary_starts_with"@.len() == 18,
        "binary_ends_with"@.len() == 16,
        "binary_contains"@.len() == 15,
        "custom"@.len() == 6,
{
    reveal_strlit("any");
    reveal_strlit("never");
    reveal_strlit("exact");
    reveal_strlit("regex");
    reveal_strlit("starts_with");
    reveal_strlit("json_schema");
    reveal_strlit("ends_with");
    reveal_strlit("contains");
    reveal_strlit("binary_exact");
    reveal_strlit("message_type");
    reveal_strlit("binary_starts_with");
    reveal_strlit("binary_ends_with");
    reveal_strlit("binary_contains");
    reveal_strlit("custom");
}

proof fn lemma_matcher(tokens: Seq<TokenView>, pos: int, call: MatcherCallView)
    requires
        stands_at(tokens, pos, spelled_matcher(call)),
    ensures
        spelled_matcher(call).len() == 2,
        tokens[pos] is Ident,
        matcher_at(tokens, pos) == Ok::<Read<MatcherCallView>, DslErrorView>(
            Read { node: call, pos: pos + 2, clean: true },
        ),
{
    lemma_names();
    let part = spelled_matcher(call);
    assert(part.len() == 2);
    assert(part[0] == tokens[pos + 0]);
    assert(part[1] == tokens[pos + 1]);
    let name = part[0]->Ident_0;
    assert(matcher_of(
        name,
        part[1]->Paren_source,
        part[1]->Paren_tokens,
        part[1]->Paren_reads,
    ) == Ok::<(MatcherCallView, bool), DslErrorView>((call, true)));
}

proof fn lemma_methods(
    tokens: Seq<TokenView>,
    before: Seq<ChainedMethodView>,
    methods: Seq<ChainedMethodView>,
    pos: int,
)
    requires
        stands_at(tokens, pos, spelled_methods(methods)),
        !is_punct_at(tokens, pos + spelled_methods(methods).len(), '.'),
    ensures
        methods_at(tokens, before, pos, true) == Ok::<Read<Seq<ChainedMethodView>>, DslErrorView>(
            Read {
                node: before + methods,
                pos: pos + spelled_methods(methods).len(),
                clean: true,
            },
        ),
    decreases methods.len(),
{
    if methods.len() == 0 {
        assert(before + methods =~= before);
    } else {
        let rest = methods.drop_first();
        let one = seq![punct('.')] + spelled_call(methods[0].ident, methods[0].args, Seq::empty());
        lemma_stands_split(tokens, pos, one, spelled_methods(rest));
        assert(one[0] == tokens[pos + 0]);
        assert(one[1] == tokens[pos + 1]);
        assert(one[2] == tokens[pos + 2]);
        let m = methods[0];
        assert(method_at(tokens, pos + 1) == Ok::<Read<ChainedMethodView>, DslErrorView>(
            Read { node: m, pos: pos + 3, clean: true },
        ));
        lemma_methods(tokens, before.push(m), rest, pos + 3);
        assert(before.push(m) + rest =~= before + methods);
    }
}

proof fn lemma_chain(
    tokens: Seq<TokenView>,
    pos: int,
    base: MatcherCallView,
    methods: Seq<ChainedMethodView>,
)
    requires
        stands_at(tokens, pos, spelled_matcher(base) + spelled_methods(methods)),
        !is_punct_at(
            tokens,
            pos + (spelled_matcher(base) + spelled_methods(methods)).len(),
            '.',
        ),
    ensures
        base_at(tokens, pos) == done(
            DslView::MethodChain { base, methods },
            pos + (spelled_matcher(base) + spelled_methods(methods)).len(),
        ),
        spelled_matcher(base).len() == 2,
{
    lemma_stands_split(tokens, pos, spelled_matcher(base), spelled_methods(methods));
    lemma_matcher(tokens, pos, base);
    lemma_methods(tokens, Seq::empty(), methods, pos + 2);
    assert(Seq::<ChainedMethodView>::empty() + methods =~= methods);
    assert(!is_paren_at(tokens, pos));
    assert(chain_at(tokens, pos) == done(
        DslView::MethodChain { base, methods },
        pos + 2 + spelled_methods(methods).len(),
    ));
}

proof fn lemma_spelled_something(node: DslView)
    requires
        has_operands(node),
    ensures
        spelled(node).len() > 0,
    decreases node,
{
    match node {
        DslView::MethodChain { base, methods } => {
            assert(spelled_matcher(base).len() == 2);
        },
        DslView::Not(_) => {},
        DslView::Then(_, _) => {},
        DslView::Or(nodes) => {
            assert(spelled_operands(nodes, 2, '|').len() > 0);
        },
        DslView::And(nodes) => {
            assert(spelled_operands(nodes, 3, '&').len() > 0);
        },
    }
}

proof fn lemma_first_has_operands(nodes: Seq<DslView>)
    requires
        nodes.len() > 0,
        all_have_operands(nodes),
    ensures
        has_operands(nodes[0]),
        all_have_operands(nodes.drop_first()),
    decreases nodes.len(),
{
    if nodes.len() == 1 {
        assert(nodes.drop_first() =~= Seq::<DslView>::empty());
    } else {
        lemma_first_has_operands(nodes.drop_last());
        assert(nodes.drop_last()[0] == nodes[0]);
        let rest = nodes.drop_first();
        assert(rest.drop_last() =~= nodes.drop_last().drop_first());
        assert(rest.last() == nodes.last());
    }
}

/// An operand is read as itself, at the level that it is spelled for.
proof fn lemma_operand(tokens: Seq<TokenView>, pos: int, node: DslView, level: int)
    requires
        0 <= level <= 4,
        has_operands(node),
        stands_at(tokens, pos, spelled_operand(node, level)),
        stops(tokens, pos + spelled_operand(node, level).len(), level),
    ensures
        read_at(tokens, pos, level) == done(node, pos + spelled_operand(node, level).len()),
        spelled_operand(node, level).len() > 0,
    decreases node, level, 2int,
{
    lemma_spelled_something(node);
    let part = spelled_operand(node, level);
    let end = pos + part.len();
    if binding(node) >= level {
        if node is Then {
            lemma_sequence(tokens, pos, node);
            assert(steps_at(tokens, node, end, true) == done(node, end));
        } else {
            lemma_own_level(tokens, pos, node);
            lemma_lift(tokens, pos, binding(node), level, node, end);
        }
    } else {
        let inside = spelled(node);
        assert(part[0] == tokens[pos + 0]);
        lemma_operand(inside, 0, node, 0);
        assert(group_of(tokens[pos]) == Ok::<(DslView, bool), DslErrorView>((node, true)));
        assert(base_at(tokens, pos) == done(node, end));
        lemma_lift(tokens, pos, 4, level, node, end);
    }
}

/// An expression without brackets around it is read as itself at its own level.
proof fn lemma_own_level(tokens: Seq<TokenView>, pos: int, node: DslView)
    requires
        has_operands(node),
        !(node is Then),
        stands_at(tokens, pos, spelled(node)),
        stops(tokens, pos + spelled(node).len(), binding(node)),
    ensures
        read_at(tokens, pos, binding(node)) == done(node, pos + spelled(node).len()),
    decreases node, 0int, 0int,
{
    let end = pos + spelled(node).len();
    match node {
        DslView::MethodChain { base, methods } => {
            lemma_chain(tokens, pos, base, methods);
        },
        DslView::Not(a) => {
            let sign = seq![punct('!')];
            lemma_stands_split(tokens, pos, sign, spelled_operand(*a, 4));
            assert(sign[0] == tokens[pos + 0]);
            lemma_operand(tokens, pos + 1, *a, 4);
        },
        DslView::And(nodes) => {
            assert(nodes.len() >= 2 && all_have_operands(nodes));
            lemma_conjunction(tokens, pos, nodes);
        },
        DslView::Or(nodes) => {
            assert(nodes.len() >= 2 && all_have_operands(nodes));
            lemma_alternative(tokens, pos, nodes);
        },
        DslView::Then(_, _) => {},
    }
}

proof fn lemma_conjunction(tokens: Seq<TokenView>, pos: int, nodes: Seq<DslView>)
    requires
        nodes.len() >= 2,
        all_have_operands(nodes),
        stands_at(tokens, pos, spelled_operands(nodes, 3, '&')),
        stops(tokens, pos + spelled_operands(nodes, 3, '&').len(), 2),
    ensures
        conjunction_at(tokens, pos) == done(
            DslView::And(nodes),
            pos + spelled_operands(nodes, 3, '&').len(),
        ),
    decreases nodes, 0int, 1int,
{
    lemma_first_has_operands(nodes);
    let first = spelled_operand(nodes[0], 3);
    let rest = nodes.drop_first();
    let more = seq![punct('&')] + spelled_operands(rest, 3, '&');
    let end = pos + first.len();
    assert(spelled_operands(nodes, 3, '&') =~= first + more);
    lemma_stands_split(tokens, pos, first, more);
    assert(more[0] == tokens[end + 0]);
    assert(is_punct_at(tokens, end, '&'));
    lemma_operand(tokens, pos, nodes[0], 3);
    assert(read_at(tokens, pos, 3) == done(nodes[0], end));
    lemma_conjuncts(tokens, seq![nodes[0]], rest, end);
    assert(seq![nodes[0]] + rest =~= nodes);
    assert(conjuncts_at(tokens, seq![nodes[0]], end, true) == Ok::<
        Read<Seq<DslView>>,
        DslErrorView,
    >(
        Read {
            node: nodes,
            pos: pos + spelled_operands(nodes, 3, '&').len(),
            clean: true,
        },
    ));
}

proof fn lemma_alternative(tokens: Seq<TokenView>, pos: int, nodes: Seq<DslView>)
    requires
        nodes.len() >= 2,
        all_have_operands(nodes),
        stands_at(tokens, pos, spelled_operands(nodes, 2, '|')),
        stops(tokens, pos + spelled_operands(nodes, 2, '|').len(), 1),
    ensures
        alternative_at(tokens, pos) == done(
            DslView::Or(nodes),
            pos + spelled_operands(nodes, 2, '|').len(),
        ),
    decreases nodes, 0int, 1int,
{
    lemma_first_has_operands(nodes);
    let first = spelled_operand(nodes[0], 2);
    let rest = nodes.drop_first();
    let more = seq![punct('|')] + spelled_operands(rest, 2, '|');
    let end = pos + first.len();
    assert(spelled_operands(nodes, 2, '|') =~= first + more);
    lemma_stands_split(tokens, pos, first, more);
    assert(more[0] == tokens[end + 0]);
    assert(is_punct_at(tokens, end, '|'));
    lemma_operand(tokens, pos, nodes[0], 2);
    assert(read_at(tokens, pos, 2) == done(nodes[0], end));
    lemma_alternatives(tokens, seq![nodes[0]], rest, end);
    assert(seq![nodes[0]] + rest =~= nodes);
    assert(alternatives_at(tokens, seq![nodes[0]], end, true) == Ok::<
        Read<Seq<DslView>>,
        DslErrorView,
    >(
        Read {
            node: nodes,
            pos: pos + spelled_operands(nodes, 2, '|').len(),
            clean: true,
        },
    ));
}

/// A sequence goes on behind an expression as behind what has been read before.
proof fn lemma_sequence(tokens: Seq<TokenView>, pos: int, node: DslView)
    requires
        has_operands(node),
        stands_at(tokens, pos, spelled(node)),
        stops(tokens, pos + spelled(node).len(), 1),
    ensures
        sequence_at(tokens, pos) == steps_at(tokens, node, pos + spelled(node).len(), true),
        spelled(node).len() > 0,
    decreases node, 0int, 1int,
{
    lemma_spelled_something(node);
    let end = pos + spelled(node).len();
    if let DslView::Then(a, b) = node {
        let first = spelled_operand(*a, 0);
        let arrow = seq![TokenView::Punct { ch: '-', joint: true }, punct('>')];
        let second = spelled_operand(*b, 1);
        lemma_stands_split(tokens, pos, first + arrow, second);
        lemma_stands_split(tokens, pos, first, arrow);
        let at = pos + first.len();
        assert(arrow[0] == tokens[at + 0]);
        assert(arrow[1] == tokens[at + 1]);
        assert(is_arrow_at(tokens, at));
        assert(stops(tokens, at, 1));
        lemma_sequence(tokens, pos, *a);
        lemma_operand(tokens, at + 2, *b, 1);
        assert(steps_at(tokens, *a, at, true) == steps_at(tokens, node, end, true));
    } else {
        assert(spelled_operand(node, 1) == spelled(node));
        assert(stops(tokens, end, binding(node)));
        lemma_own_level(tokens, pos, node);
        lemma_lift(tokens, pos, binding(node), 1, node, end);
    }
}

proof fn lemma_conjuncts(
    tokens: Seq<TokenView>,
    before: Seq<DslView>,
    nodes: Seq<DslView>,
    pos: int,
)
    requires
        nodes.len() > 0,
        all_have_operands(nodes),
        stands_at(tokens, pos, seq![punct('&')] + spelled_operands(nodes, 3, '&')),
        stops(tokens, pos + 1 + spelled_operands(nodes, 3, '&').len(), 2),
    ensures
        conjuncts_at(tokens, before, pos, true) == Ok::<Read<Seq<DslView>>, DslErrorView>(
            Read {
                node: before + nodes,
                pos: pos + 1 + spelled_operands(nodes, 3, '&').len(),
                clean: true,
            },
        ),
    decreases nodes, 0int, 0int,
{
    let sign = seq![punct('&')];
    let all = spelled_operands(nodes, 3, '&');
    lemma_stands_split(tokens, pos, sign, all);
    assert(sign[0] == tokens[pos + 0]);
    lemma_first_has_operands(nodes);
    let first = spelled_operand(nodes[0], 3);
    let rest = nodes.drop_first();
    let end = pos + 1 + first.len();
    if nodes.len() == 1 {
        assert(all == first);
        lemma_operand(tokens, pos + 1, nodes[0], 3);
        assert(before.push(nodes[0]) =~= before + nodes);
        assert(conjuncts_at(tokens, before.push(nodes[0]), end, true) == Ok::<
            Read<Seq<DslView>>,
            DslErrorView,
        >(Read { node: before.push(nodes[0]), pos: end, clean: true }));
    } else {
        let more = sign + spelled_operands(rest, 3, '&');
        assert(all =~= first + more);
        lemma_stands_split(tokens, pos + 1, first, more);
        assert(more[0] == tokens[end + 0]);
        lemma_operand(tokens, pos + 1, nodes[0], 3);
        lemma_conjuncts(tokens, before.push(nodes[0]), rest, end);
        assert(before.push(nodes[0]) + rest =~= before + nodes);
    }
}

proof fn lemma_alternatives(
    tokens: Seq<TokenView>,
    before: Seq<DslView>,
    nodes: Seq<DslView>,
    pos: int,
)
    requires
        nodes.len() > 0,
        all_have_operands(nodes),
        stands_at(tokens, pos, seq![punct('|')] + spelled_operands(nodes, 2, '|')),
        stops(tokens, pos + 1 + spelled_operands(nodes, 2, '|').len(), 1),
    ensures
        alternatives_at(tokens, before, pos, true) == Ok::<Read<Seq<DslView>>, DslErrorView>(
            Read {
                node: before + nodes,
                pos: pos + 1 + spelled_operands(nodes, 2, '|').len(),
                clean: true,
            },
        ),
    decreases nodes, 0int, 0int,
{
    let sign = seq![punct('|')];
    let all = spelled_operands(nodes, 2, '|');
    lemma_stands_split(tokens, pos, sign, all);
    assert(sign[0] == tokens[pos + 0]);
    lemma_first_has_operands(nodes);
    let first = spelled_operand(nodes[0], 2);
    let rest = nodes.drop_first();
    let end = pos + 1 + first.len();
    if nodes.len() == 1 {
        assert(all == first);
        lemma_operand(tokens, pos + 1, nodes[0], 2);
        assert(before.push(nodes[0]) =~= before + nodes);
        assert(alternatives_at(tokens, before.push(nodes[0]), end, true) == Ok::<
            Read<Seq<DslView>>,
            DslErrorView,
        >(Read { node: before.push(nodes[0]), pos: end, clean: true }));
    } else {
        let more = sign + spelled_operands(rest, 2, '|');
        assert(all =~= first + more);
        lemma_stands_split(tokens, pos + 1, first, more);
        assert(more[0] == tokens[end + 0]);
        lemma_operand(tokens, pos + 1, nodes[0], 2);
        lemma_alternatives(tokens, before.push(nodes[0]), rest, end);
        assert(before.push(nodes[0]) + rest =~= before + nodes);
    }
}

/// An expression at the beginning of some tokens is read as itself.
proof fn lemma_whole(tokens: Seq<TokenView>, node: DslView)
    requires
        has_operands(node),
        stands_at(tokens, 0, spelled(node)),
        tokens.len() > spelled(node).len() ==> !(tokens[spelled(node).len() as int] is Punct),
    ensures
        sequence_at(tokens, 0) == done(node, spelled(node).len() as int),
{
    assert(spelled_operand(node, 0) == spelled(node));
    assert(stops(tokens, spelled(node).len() as int, 0));
    lemma_operand(tokens, 0, node, 0);
}

proof fn lemma_payload(
    source: Seq<char>,
    payload: Seq<TokenView>,
    reads: Readings,
    node: DslView,
    pos: int,
)
    requires
        payload.len() > 0,
        payload[0] is Brace,
        sequence_at(payload[0]->Brace_tokens, 0) == done(node, pos),
    ensures
        rule_expr_of(source, payload, reads) == if pos == payload[0]->Brace_tokens.len()
            && payload.len() == 1 {
            Ok::<RuleExprView, DslErrorView>(RuleExprView::Dsl(node))
        } else {
            Err(DslErrorView::Syntax)
        },
{
}

/// Every expression is read as itself: spelled out in curly brackets, it is the rule of a payload.
pub proof fn law_what_is_spelled_is_read(
    node: DslView,
    source: Seq<char>,
    reads: Readings,
    inner: Seq<char>,
)
    requires
        has_operands(node),
    ensures
        rule_expr_of(
            source,
            seq![TokenView::Brace { source: inner, tokens: spelled(node), reads }],
            reads,
        ) == Ok::<RuleExprView, DslErrorView>(RuleExprView::Dsl(node)),
{
    lemma_whole(spelled(node), node);
    let payload = seq![TokenView::Brace { source: inner, tokens: spelled(node), reads }];
    assert(payload[0] == TokenView::Brace { source: inner, tokens: spelled(node), reads });
    lemma_payload(source, payload, reads, node, spelled(node).len() as int);
}

/// Nothing may be left over within the brackets: with a token more that continues nothing, an
/// expression is no rule.
pub proof fn law_nothing_is_left_over_within(
    node: DslView,
    source: Seq<char>,
    reads: Readings,
    inner: Seq<char>,
    extra: TokenView,
)
    requires
        has_operands(node),
        !(extra is Punct),
    ensures
        rule_expr_of(
            source,
            seq![TokenView::Brace { source: inner, tokens: spelled(node).push(extra), reads }],
            reads,
        ) == Err::<RuleExprView, DslErrorView>(DslErrorView::Syntax),
{
    let part = spelled(node);
    let more = part.push(extra);
    lemma_more(part, extra);
    lemma_whole(more, node);
    let payload = seq![TokenView::Brace { source: inner, tokens: more, reads }];
    assert(payload[0] == TokenView::Brace { source: inner, tokens: more, reads });
    lemma_payload(source, payload, reads, node, part.len() as int);
}

proof fn lemma_more(part: Seq<TokenView>, extra: TokenView)
    ensures
        stands_at(part.push(extra), 0, part),
        part.push(extra)[part.len() as int] == extra,
{
}

/// Nothing may be left over behind the brackets.
pub proof fn law_nothing_is_left_over_behind(
    node: DslView,
    source: Seq<char>,
    reads: Readings,
    inner: Seq<char>,
    extra: TokenView,
)
    requires
        has_operands(node),
    ensures
        rule_expr_of(
            source,
            seq![TokenView::Brace { source: inner, tokens: spelled(node), reads }, extra],
            reads,
        ) == Err::<RuleExprView, DslErrorView>(DslErrorView::Syntax),
{
    let part = spelled(node);
    lemma_whole(part, node);
    let payload = seq![TokenView::Brace { source: inner, tokens: part, reads }, extra];
    assert(payload[0] == TokenView::Brace { source: inner, tokens: part, reads });
    lemma_payload(source, payload, reads, node, part.len() as int);
}

/// There are no other matchers: a name that is none of theirs is refused by its name.
pub proof fn law_unknown_matchers_are_refused(
    name: Seq<char>,
    source: Seq<char>,
    tokens: Seq<TokenView>,
    reads: Readings,
)
    requires
        name != "any"@ && name != "never"@ && name != "exact"@ && name != "starts_with"@,
        name != "ends_with"@ && name != "contains"@ && name != "regex"@,
        name != "binary_exact"@ && name != "binary_starts_with"@ && name != "binary_ends_with"@,
        name != "binary_contains"@ && name != "message_type"@ && name != "json_schema"@,
        name != "custom"@,
    ensures
        matcher_of(name, source, tokens, reads) == Err::<(MatcherCallView, bool), DslErrorView>(
            DslErrorView::Rule("Unknown matcher '"@ + name + "'"@),
        ),
{
}

/// A matcher without arguments refuses any, and a matcher on Rust source refuses a source that
/// `syn` cannot read as what it is to be.
pub proof fn law_matchers_refuse_what_they_cannot_take(
    source: Seq<char>,
    tokens: Seq<TokenView>,
    reads: Readings,
)
    ensures
        tokens.len() > 0 ==> matcher_of("any"@, source, tokens, reads) is Err && matcher_of(
            "never"@,
            source,
            tokens,
            reads,
        ) is Err,
        !reads.expr ==> matcher_of("binary_exact"@, source, tokens, reads) is Err && matcher_of(
            "binary_starts_with"@,
            source,
            tokens,
            reads,
        ) is Err && matcher_of("binary_ends_with"@, source, tokens, reads) is Err && matcher_of(
            "binary_contains"@,
            source,
            tokens,
            reads,
        ) is Err,
        !reads.ty ==> matcher_of("json_schema"@, source, tokens, reads) is Err,
        !reads.closure ==> matcher_of("custom"@, source, tokens, reads) is Err,
        tokens.len() == 0 ==> matcher_of("message_type"@, source, tokens, reads) is Err,
        tokens.len() == 0 ==> matcher_of("exact"@, source, tokens, reads) is Err,
{
    lemma_names();
}

/// What is left over behind the argument of a text matcher is told.
pub proof fn law_left_over_arguments_are_told(
    name: Seq<char>,
    source: Seq<char>,
    arg: Seq<char>,
    rest: Seq<TokenView>,
    reads: Readings,
)
    requires
        name == "exact"@ || name == "starts_with"@ || name == "ends_with"@ || name == "contains"@
            || name == "regex"@ || name == "message_type"@,
        rest.len() > 0,
    ensures
        matcher_of(name, source, seq![TokenView::Ident(arg)] + rest, reads) matches Ok((_, clean))
            && !clean,
{
    lemma_names();
    let tokens = seq![TokenView::Ident(arg)] + rest;
    assert(tokens[0] == TokenView::Ident(arg));
}

} // verus!
