//! What holds of all rule expressions.

use crate::dsl::alternative_at;
use crate::dsl::alternatives_at;
use crate::dsl::base_at;
use crate::dsl::conjunction_at;
use crate::dsl::conjuncts_at;
use crate::dsl::group_of;
use crate::dsl::is_arrow_at;
use crate::dsl::is_paren_at;
use crate::dsl::is_punct_at;
use crate::dsl::negation_at;
use crate::dsl::sequence_at;
use crate::dsl::steps_at;
use crate::dsl::DslErrorView;
use crate::dsl::DslView;
use crate::dsl::Read;
use crate::dsl::TokenView;
use vstd::prelude::*;

verus! {

/// Alternatives and conjunctions have at least two operands, at every depth.
pub open spec fn has_operands(node: DslView) -> bool
    decreases node,
{
    match node {
        DslView::Then(a, b) => has_operands(*a) && has_operands(*b),
        DslView::Or(nodes) => nodes.len() >= 2 && all_have_operands(nodes),
        DslView::And(nodes) => nodes.len() >= 2 && all_have_operands(nodes),
        DslView::Not(a) => has_operands(*a),
        DslView::MethodChain { .. } => true,
    }
}

pub open spec fn all_have_operands(nodes: Seq<DslView>) -> bool
    decreases nodes,
{
    nodes.len() > 0 ==> all_have_operands(nodes.drop_last()) && has_operands(nodes.last())
}

/// Whatever is read as a rule has at least two operands in every alternative and conjunction.
pub proof fn law_operators_have_operands(tokens: Seq<TokenView>, pos: int)
    ensures
        sequence_at(tokens, pos) matches Ok(r) ==> has_operands(r.node),
    decreases tokens, tokens.len() - pos, 8int,
{
    lemma_alternative(tokens, pos);
    if let Ok(first) = alternative_at(tokens, pos) {
        if pos < first.pos <= tokens.len() {
            lemma_steps(tokens, first.node, first.pos, first.clean);
        }
    }
}

proof fn lemma_group(token: TokenView)
    ensures
        group_of(token) matches Ok(r) ==> has_operands(r.0),
    decreases token, 0int, 0int,
{
    if let TokenView::Paren { tokens, .. } = token {
        law_operators_have_operands(tokens, 0);
    }
}

proof fn lemma_base(tokens: Seq<TokenView>, pos: int)
    ensures
        base_at(tokens, pos) matches Ok(r) ==> has_operands(r.node),
    decreases tokens, tokens.len() - pos, 1int,
{
    if is_paren_at(tokens, pos) {
        lemma_group(tokens[pos]);
    }
}

proof fn lemma_negation(tokens: Seq<TokenView>, pos: int)
    ensures
        negation_at(tokens, pos) matches Ok(r) ==> has_operands(r.node),
    decreases tokens, tokens.len() - pos, 2int,
{
    if is_punct_at(tokens, pos, '!') {
        lemma_base(tokens, pos + 1);
    } else {
        lemma_base(tokens, pos);
    }
}

proof fn lemma_conjuncts(tokens: Seq<TokenView>, nodes: Seq<DslView>, pos: int, clean: bool)
    requires
        all_have_operands(nodes),
    ensures
        conjuncts_at(tokens, nodes, pos, clean) matches Ok(r) ==> all_have_operands(r.node)
            && r.node.len() >= nodes.len(),
    decreases tokens, tokens.len() - pos, 3int,
{
    if is_punct_at(tokens, pos, '&') {
        lemma_negation(tokens, pos + 1);
        if let Ok(r) = negation_at(tokens, pos + 1) {
            if pos < r.pos <= tokens.len() {
                assert(nodes.push(r.node).drop_last() =~= nodes);
                lemma_conjuncts(tokens, nodes.push(r.node), r.pos, clean && r.clean);
            }
        }
    }
}

proof fn lemma_conjunction(tokens: Seq<TokenView>, pos: int)
    ensures
        conjunction_at(tokens, pos) matches Ok(r) ==> has_operands(r.node),
    decreases tokens, tokens.len() - pos, 4int,
{
    lemma_negation(tokens, pos);
    if let Ok(first) = negation_at(tokens, pos) {
        if pos < first.pos <= tokens.len() {
            assert(seq![first.node].drop_last() =~= Seq::<DslView>::empty());
            assert(all_have_operands(seq![first.node])) by {
                reveal_with_fuel(all_have_operands, 2);
            }
            lemma_conjuncts(tokens, seq![first.node], first.pos, first.clean);
        }
    }
}

proof fn lemma_alternatives(tokens: Seq<TokenView>, nodes: Seq<DslView>, pos: int, clean: bool)
    requires
        all_have_operands(nodes),
    ensures
        alternatives_at(tokens, nodes, pos, clean) matches Ok(r) ==> all_have_operands(r.node)
            && r.node.len() >= nodes.len(),
    decreases tokens, tokens.len() - pos, 5int,
{
    if is_punct_at(tokens, pos, '|') {
        lemma_conjunction(tokens, pos + 1);
        if let Ok(r) = conjunction_at(tokens, pos + 1) {
            if pos < r.pos <= tokens.len() {
                assert(nodes.push(r.node).drop_last() =~= nodes);
                lemma_alternatives(tokens, nodes.push(r.node), r.pos, clean && r.clean);
            }
        }
    }
}

proof fn lemma_alternative(tokens: Seq<TokenView>, pos: int)
    ensures
        alternative_at(tokens, pos) matches Ok(r) ==> has_operands(r.node),
    decreases tokens, tokens.len() - pos, 6int,
{
    lemma_conjunction(tokens, pos);
    if let Ok(first) = conjunction_at(tokens, pos) {
        if pos < first.pos <= tokens.len() {
            assert(seq![first.node].drop_last() =~= Seq::<DslView>::empty());
            assert(all_have_operands(seq![first.node])) by {
                reveal_with_fuel(all_have_operands, 2);
            }
            lemma_alternatives(tokens, seq![first.node], first.pos, first.clean);
        }
    }
}

proof fn lemma_steps(tokens: Seq<TokenView>, node: DslView, pos: int, clean: bool)
    requires
        has_operands(node),
    ensures
        steps_at(tokens, node, pos, clean) matches Ok(r) ==> has_operands(r.node),
    decreases tokens, tokens.len() - pos, 7int,
{
    if is_arrow_at(tokens, pos) {
        lemma_alternative(tokens, pos + 2);
        if let Ok(r) = alternative_at(tokens, pos + 2) {
            if pos < r.pos <= tokens.len() {
                lemma_steps(
                    tokens,
                    DslView::Then(Box::new(node), Box::new(r.node)),
                    r.pos,
                    clean && r.clean,
                );
            }
        }
    }
}

/// The sequence binds most loosely, and to the left: `a -> b -> c` is the sequence of `a -> b`
/// and `c`, where each of the three is a whole alternative.
pub proof fn law_sequence_binds_loosely(
    tokens: Seq<TokenView>,
    a: Read<DslView>,
    b: Read<DslView>,
    c: Read<DslView>,
)
    requires
        alternative_at(tokens, 0) == Ok::<Read<DslView>, DslErrorView>(a),
        is_arrow_at(tokens, a.pos),
        alternative_at(tokens, a.pos + 2) == Ok::<Read<DslView>, DslErrorView>(b),
        is_arrow_at(tokens, b.pos),
        alternative_at(tokens, b.pos + 2) == Ok::<Read<DslView>, DslErrorView>(c),
        !is_arrow_at(tokens, c.pos),
        0 < a.pos < b.pos < c.pos <= tokens.len(),
    ensures
        sequence_at(tokens, 0) == Ok::<Read<DslView>, DslErrorView>(
            Read {
                node: DslView::Then(
                    Box::new(DslView::Then(Box::new(a.node), Box::new(b.node))),
                    Box::new(c.node),
                ),
                pos: c.pos,
                clean: a.clean && b.clean && c.clean,
            },
        ),
{
    reveal_with_fuel(steps_at, 3);
}

/// `&` binds more closely than `|`: `a | b & c` is the alternative of `a` and of `b & c`.
pub proof fn law_conjunction_binds_closely(
    tokens: Seq<TokenView>,
    a: Read<DslView>,
    b: Read<DslView>,
    c: Read<DslView>,
)
    requires
        negation_at(tokens, 0) == Ok::<Read<DslView>, DslErrorView>(a),
        is_punct_at(tokens, a.pos, '|'),
        negation_at(tokens, a.pos + 1) == Ok::<Read<DslView>, DslErrorView>(b),
        is_punct_at(tokens, b.pos, '&'),
        negation_at(tokens, b.pos + 1) == Ok::<Read<DslView>, DslErrorView>(c),
        !is_punct_at(tokens, c.pos, '&'),
        !is_punct_at(tokens, c.pos, '|'),
        0 < a.pos < b.pos < c.pos <= tokens.len(),
        a.pos + 1 < b.pos,
    ensures
        alternative_at(tokens, 0) == Ok::<Read<DslView>, DslErrorView>(
            Read {
                node: DslView::Or(seq![a.node, DslView::And(seq![b.node, c.node])]),
                pos: c.pos,
                clean: a.clean && b.clean && c.clean,
            },
        ),
{
    reveal_with_fuel(conjuncts_at, 3);
    reveal_with_fuel(alternatives_at, 3);
    assert(seq![b.node].push(c.node) =~= seq![b.node, c.node]);
    assert(!is_punct_at(tokens, a.pos, '&'));
    assert(conjunction_at(tokens, 0) == Ok::<Read<DslView>, DslErrorView>(a));
    let bc = DslView::And(seq![b.node, c.node]);
    assert(seq![a.node].push(bc) =~= seq![a.node, bc]);
}

} // verus!
