//! What is found in the messages of the exchange, and what may be sent to it.

use crate::announcement_laws::all_white;
use crate::announcement_laws::is_tight;
use crate::announcement_laws::law_trimmed;
use crate::chart_stream::history_payload;
use crate::chart_stream::stream_rows;
use crate::chart_stream::stream_rows_of;
use crate::chart_stream::StreamRowView;
use crate::dsl::behind_equals;
use crate::dsl::rule_attribute;
use crate::dsl::rule_expr_of;
use crate::dsl::written_args;
use crate::dsl::DslErrorView;
use crate::dsl::Readings;
use crate::dsl::RuleExprView;
use crate::dsl::TokenView;
use crate::json::event_payload;
use crate::json::framed_array;
use crate::json::json_array;
use crate::json::json_has_key;
use crate::json::json_outline;
use crate::json::json_text;
use crate::json::message_json;
use crate::json::number_of;
use crate::json::readings_of;
use crate::json::JsonView;
use crate::decimal::Decimal;
use crate::matcher_laws::lemma_begins;
use crate::matcher_laws::lemma_occurs;
use crate::message::MessageView;
use crate::number::Number;
use crate::probe::frame_line;
use crate::probe::is_change_symbol;
use crate::probe::is_forbidden;
use crate::probe::is_keepalive;
use crate::probe::only_change_symbol;
use crate::probe::tally;
use crate::text::begins_with;
use crate::text::first_at;
use crate::text::first_index;
use crate::text::occurs;
use crate::text::occurs_at;
use crate::wire::digits;
use vstd::prelude::*;
use vstd::utf8::decode_utf8;
use vstd::utf8::valid_utf8;

verus! {

proof fn lemma_first_character(a: Seq<char>, mark: Seq<char>, c: char, b: Seq<char>)
    requires
        mark == seq![c],
        !a.contains(c),
    ensures
        occurs(a + mark + b, mark),
        first_index(a + mark + b, mark) == a.len(),
{
    let all = a + mark + b;
    let at = a.len() as int;
    assert(all.subrange(at, at + 1) =~= mark);
    assert(occurs_at(all, mark, at));
    assert forall|j: int| 0 <= j < at implies !occurs_at(all, mark, j) by {
        if occurs_at(all, mark, j) {
            assert(all.subrange(j, j + 1)[0] == mark[0]);
            assert(a[j] == c);
        }
    }
    assert(first_at(all, mark, at));
    let found = first_index(all, mark);
    assert(first_at(all, mark, found));
    if found < at {
        assert(!occurs_at(all, mark, found));
    }
}

proof fn lemma_no_character(text: Seq<char>, mark: Seq<char>, c: char)
    requires
        mark == seq![c],
        !text.contains(c),
    ensures
        !occurs(text, mark),
{
    if occurs(text, mark) {
        let at = choose|at: int| occurs_at(text, mark, at);
        assert(text.subrange(at, at + 1)[0] == mark[0]);
        assert(text[at] == c);
    }
}

/// What stands before the first bracket of a text is passed over, and a text without a bracket
/// holds no array.
pub proof fn law_frames_begin_at_the_bracket(a: Seq<char>, b: Seq<char>)
    requires
        !a.contains('['),
    ensures
        framed_array(a + seq!['['] + b) == json_array(seq!['['] + b),
        framed_array(a) is None,
{
    reveal_strlit("[");
    assert("["@ =~= seq!['[']);
    lemma_first_character(a, seq!['['], '[', b);
    lemma_no_character(a, seq!['['], '[');
    assert((a + seq!['['] + b).skip(a.len() as int) =~= seq!['['] + b);
}

/// An event has a payload exactly if it is an array that begins with the name of the event, and
/// the payload is what stands behind the name.
pub proof fn law_payloads_stand_behind_names(text: Seq<char>, name: Seq<char>, payload: Seq<char>)
    ensures
        event_payload(text, name) == Some(payload) <==> (framed_array(text) matches Some(items)
            && items.len() >= 2 && json_text(items[0]) == Some(name) && items[1] == payload),
{
}

/// The JSON text of a text that is an object or an array is the text without the white space
/// around it; that of another text is what stands from its first bracket on.
pub proof fn law_json_of_texts(a: Seq<char>, core: Seq<char>, b: Seq<char>)
    requires
        all_white(a),
        all_white(b),
        is_tight(core),
        core.len() > 0,
        core[0] == '{' || core[0] == '[',
    ensures
        message_json(MessageView::Text(a + core + b)) == Some(core),
{
    reveal_strlit("[");
    reveal_strlit("{");
    law_trimmed(a, core, b);
    assert(core.subrange(0, 1) =~= seq![core[0]]);
    assert("["@ =~= seq!['[']);
    assert("{"@ =~= seq!['{']);
}

/// The JSON text of a text that begins with neither bracket is what stands from its first square
/// bracket on, none where there is none.
pub proof fn law_json_of_framed_texts(a: Seq<char>, b: Seq<char>, white: Seq<char>, core: Seq<char>)
    requires
        !a.contains('['),
        a == white + core,
        all_white(white),
        core.len() > 0,
        core[0] != '{',
        core[0] != '[',
        !crate::text::is_white_space(core[0]),
    ensures
        message_json(MessageView::Text(a + seq!['['] + b)) == Some(seq!['['] + b),
        message_json(MessageView::Text(a)) is None,
{
    reveal_strlit("[");
    reveal_strlit("{");
    assert("["@ =~= seq!['[']);
    assert("{"@ =~= seq!['{']);
    lemma_first_character(a, seq!['['], '[', b);
    lemma_no_character(a, seq!['['], '[');
    let text = a + seq!['['] + b;
    assert(text.skip(a.len() as int) =~= seq!['['] + b);
    assert(text =~= white + (core + seq!['['] + b));
    lemma_trimmed_keeps_first(white, core + seq!['['] + b);
    lemma_trimmed_keeps_first(white, core);
    assert(!starts_bracket(crate::text::trimmed(text)));
    assert(!starts_bracket(crate::text::trimmed(a)));
}

spec fn starts_bracket(s: Seq<char>) -> bool {
    begins_with(s, "["@) || begins_with(s, "{"@)
}

proof fn lemma_trimmed_keeps_first(white: Seq<char>, s: Seq<char>)
    requires
        all_white(white),
        s.len() > 0,
        !crate::text::is_white_space(s[0]),
        s[0] != '[' && s[0] != '{',
    ensures
        !starts_bracket(crate::text::trimmed(white + s)),
{
    reveal_strlit("[");
    reveal_strlit("{");
    crate::announcement_laws::lemma_trim_front(white, s);
    lemma_trimmed_back_first(s);
    let t = crate::text::trimmed(white + s);
    assert(t[0] == s[0]);
    if begins_with(t, "["@) {
        assert(t.subrange(0, 1)[0] == "["@[0]);
    }
    if begins_with(t, "{"@) {
        assert(t.subrange(0, 1)[0] == "{"@[0]);
    }
}

proof fn lemma_trimmed_back_first(s: Seq<char>)
    requires
        s.len() > 0,
        !crate::text::is_white_space(s[0]),
    ensures
        crate::text::trimmed_back(s).len() > 0,
        crate::text::trimmed_back(s)[0] == s[0],
    decreases s.len(),
{
    if crate::text::is_white_space(s.last()) {
        assert(s.len() > 1);
        lemma_trimmed_back_first(s.drop_last());
    }
}

/// The JSON text of a binary message is its text, where it is UTF-8. Other messages have none.
pub proof fn law_json_of_other_messages(bytes: Seq<u8>, other: MessageView)
    requires
        !(other is Text) && !(other is Binary),
    ensures
        valid_utf8(bytes) ==> message_json(MessageView::Binary(bytes)) == Some(decode_utf8(bytes)),
        !valid_utf8(bytes) ==> message_json(MessageView::Binary(bytes)) is None,
        message_json(other) is None,
{
}

/// A text is tried as it is, and next the payload that it carries; a binary message is tried as its
/// text.
pub proof fn law_readings_in_turn(
    text: Seq<char>,
    payload: Seq<char>,
    bytes: Seq<u8>,
    other: MessageView,
    any: Option<Seq<char>>,
)
    requires
        !(other is Text) && !(other is Binary),
    ensures
        readings_of(MessageView::Text(text), Some(payload)) == seq![text, payload],
        readings_of(MessageView::Text(text), None) == seq![text],
        valid_utf8(bytes) ==> readings_of(MessageView::Binary(bytes), any) == seq![
            decode_utf8(bytes),
        ],
        !valid_utf8(bytes) ==> readings_of(MessageView::Binary(bytes), any).len() == 0,
        readings_of(other, any).len() == 0,
{
}

/// A message carries a history if it is an object with an asset and a period, and then itself; or
/// if it is an array that begins with the name of an event, `updateHistory` with something behind
/// it, and then what stands behind the name.
pub proof fn law_histories_are_found(msg: MessageView, text: Seq<char>, payload: Seq<char>)
    requires
        message_json(msg) == Some(text),
    ensures
        json_has_key(text, "asset"@) && json_has_key(text, "period"@) ==> history_payload(msg)
            == Some(text),
        !(json_has_key(text, "asset"@) && json_has_key(text, "period"@)) ==> (history_payload(msg)
            == Some(payload) <==> (json_array(text) matches Some(list) && list.len() >= 2
            && list[1] == payload && exists|rest: Seq<char>|
            json_text(list[0]) == Some(#[trigger] ("updateHistory"@ + rest)))),
{
    if let Some(list) = json_array(text) {
        if list.len() >= 2 {
            if let Some(name) = json_text(list[0]) {
                lemma_begins(name, "updateHistory"@);
            }
        }
    }
}

/// Live prices are the items of an array; of an event `updateStream` they are the items of its
/// payload.
pub proof fn law_live_prices_are_found(msg: MessageView, text: Seq<char>, list: Seq<Seq<char>>)
    requires
        message_json(msg) == Some(text),
        json_array(text) == Some(list),
    ensures
        list.len() == 0 || json_text(list[0]) != Some("updateStream"@) ==> stream_rows(msg)
            == stream_rows_of(list),
        list.len() >= 2 && json_text(list[0]) == Some("updateStream"@) ==> stream_rows(msg) == (
        match json_array(list[1]) {
            Some(rows) => stream_rows_of(rows),
            None => Seq::<StreamRowView>::empty(),
        }),
        list.len() == 1 && json_text(list[0]) == Some("updateStream"@) ==> stream_rows(msg).len()
            == 0,
{
}

/// A reading that is a decimal is that number; one that is none is beyond all decimals, on the side
/// of its sign.
pub proof fn law_readings_are_numbers(d: Decimal, sign: bool)
    ensures
        number_of(Some((Some(d), sign))) == Some(Number::Exact(d)),
        number_of(Some((None, true))) matches Some(n) && n.units() < 0,
        number_of(Some((None, false))) matches Some(n) && n.units() > 0,
        number_of(None) is None,
{
    crate::decimal::lemma_pow10_positive(28);
    assert(crate::decimal::max_units() >= 0) by (nonlinear_arith)
        requires
            crate::decimal::one_units() > 0,
            crate::decimal::max_units() == crate::decimal::MAX_MANTISSA
                * crate::decimal::one_units(),
            crate::decimal::MAX_MANTISSA >= 0,
    ;
}

/// A message that turns the chart is known by the name of the event behind a bracket, in plain or
/// in escaped quotes; one that subscribes by either of two words in it.
pub proof fn law_kinds_of_sent_messages(a: Seq<char>, b: Seq<char>, frame: Seq<char>)
    ensures
        is_change_symbol(a + "[\"changeSymbol\""@ + b),
        is_change_symbol(a + "[\\\"changeSymbol\\\""@ + b),
        is_change_symbol(frame) ==> (exists|x: Seq<char>, y: Seq<char>|
            frame == #[trigger] (x + "[\"changeSymbol\""@ + y)) || (exists|x: Seq<char>, y: Seq<char>|
            frame == #[trigger] (x + "[\\\"changeSymbol\\\""@ + y)),
        !is_keepalive(frame) ==> (is_forbidden(frame) <==> (exists|x: Seq<char>, y: Seq<char>|
            frame == #[trigger] (x + "subscribeSymbol"@ + y)) || (exists|x: Seq<char>, y: Seq<char>|
            frame == #[trigger] (x + "subfor"@ + y))),
        is_keepalive(frame) ==> !is_forbidden(frame),
        is_keepalive(frame) <==> frame == "42[\"ps\"]"@ || frame == "3"@,
{
    lemma_occurs(a + "[\"changeSymbol\""@ + b, "[\"changeSymbol\""@);
    lemma_occurs(a + "[\\\"changeSymbol\\\""@ + b, "[\\\"changeSymbol\\\""@);
    lemma_occurs(frame, "[\"changeSymbol\""@);
    lemma_occurs(frame, "[\\\"changeSymbol\\\""@);
    lemma_occurs(frame, "subscribeSymbol"@);
    lemma_occurs(frame, "subfor"@);
}

proof fn lemma_tally_push(frames: Seq<Seq<char>>, f: Seq<char>, kind: spec_fn(Seq<char>) -> bool)
    ensures
        tally(frames.push(f), kind) == tally(frames, kind) + (if kind(f) {
            1nat
        } else {
            0nat
        }),
        tally(frames, kind) <= frames.len(),
{
    reveal(Seq::filter);
    assert(frames.push(f).drop_last() =~= frames);
    frames.lemma_filter_len(kind);
}

/// Messages that only keep the connection open do not matter. Without them a single message passes
/// exactly if it turns the chart and does not subscribe; none passes, and neither do two.
pub proof fn law_one_message_may_be_sent(
    frames: Seq<Seq<char>>,
    idle: Seq<char>,
    f: Seq<char>,
    g: Seq<char>,
)
    requires
        is_keepalive(idle),
        !is_change_symbol(idle),
        !is_keepalive(f),
        !is_keepalive(g),
    ensures
        only_change_symbol(frames.push(idle)) == only_change_symbol(frames),
        only_change_symbol(seq![f]) == (is_change_symbol(f) && !is_forbidden(f)),
        !only_change_symbol(Seq::empty()),
        !only_change_symbol(seq![f, g]),
{
    let change = |f: Seq<char>| is_change_symbol(f);
    let forbidden = |f: Seq<char>| is_forbidden(f);
    let keepalive = |f: Seq<char>| is_keepalive(f);
    lemma_tally_push(frames, idle, change);
    lemma_tally_push(frames, idle, forbidden);
    lemma_tally_push(frames, idle, keepalive);
    let none = Seq::<Seq<char>>::empty();
    assert(tally(none, change) == 0 && tally(none, forbidden) == 0 && tally(none, keepalive) == 0)
        by {
        reveal(Seq::filter);
    }
    assert(none.push(f) =~= seq![f]);
    assert(seq![f].push(g) =~= seq![f, g]);
    lemma_tally_push(none, f, change);
    lemma_tally_push(none, f, forbidden);
    lemma_tally_push(none, f, keepalive);
    lemma_tally_push(seq![f], g, keepalive);
}

/// A sent message stands for itself if it is a text, and by its length if it is binary; other
/// messages are not kept.
pub proof fn law_lines_of_sent_messages(text: Seq<char>, bytes: Seq<u8>, other: MessageView)
    requires
        !(other is Text) && !(other is Binary),
    ensures
        frame_line(MessageView::Text(text)) == Some(text),
        frame_line(MessageView::Binary(bytes)) == Some(
            "<binary:"@ + digits(bytes.len()) + " bytes>"@,
        ),
        frame_line(other) is None,
{
}

/// The rule attribute is the first whose path is `rule`, and there is none exactly if no path is.
pub proof fn law_first_rule_attribute(paths: Seq<Seq<char>>)
    ensures
        match rule_attribute(paths) {
            Some(i) => 0 <= i < paths.len() && paths[i] == "rule"@ && forall|j: int|
                0 <= j < i ==> #[trigger] paths[j] != "rule"@,
            None => forall|j: int| 0 <= j < paths.len() ==> #[trigger] paths[j] != "rule"@,
        },
    decreases paths.len(),
{
    if paths.len() > 0 {
        let front = paths.drop_last();
        law_first_rule_attribute(front);
        assert forall|j: int| 0 <= j < front.len() && front[j] != "rule"@ implies #[trigger] paths[j]
            != "rule"@ by {
            assert(front[j] == paths[j]);
        }
    }
}

/// A payload of a single name is a struct of that name, and one of a name and more is none.
pub proof fn law_names_are_structs(
    source: Seq<char>,
    name: Seq<char>,
    extra: Seq<TokenView>,
    reads: Readings,
)
    requires
        extra.len() > 0,
    ensures
        rule_expr_of(source, seq![TokenView::Ident(name)], reads) == Ok::<
            RuleExprView,
            DslErrorView,
        >(RuleExprView::Struct(name)),
        rule_expr_of(source, seq![TokenView::Ident(name)] + extra, reads) is Err,
{
    let one = seq![TokenView::Ident(name)];
    assert(one[0] == TokenView::Ident(name));
    let more = one + extra;
    assert(more[0] == TokenView::Ident(name));
}

/// A payload of `fn` and `=` is the function whose path stands behind the first `=`, if that is a
/// path.
pub proof fn law_functions_stand_behind_equals(
    before: Seq<char>,
    path: Seq<char>,
    tokens: Seq<TokenView>,
    reads: Readings,
)
    requires
        !before.contains('='),
        tokens.len() >= 2,
        tokens[0] == TokenView::Other("fn"@),
        tokens[1] matches TokenView::Punct { ch, .. } && ch == '=',
    ensures
        reads.path ==> rule_expr_of(before + seq!['='] + path, tokens, reads) == Ok::<
            RuleExprView,
            DslErrorView,
        >(RuleExprView::FnRef(path)),
        !reads.path ==> rule_expr_of(before + seq!['='] + path, tokens, reads) is Err,
{
    reveal_strlit("=");
    assert("="@ =~= seq!['=']);
    lemma_first_character(before, seq!['='], '=', path);
    let source = before + seq!['='] + path;
    assert(behind_equals(source) =~= path);
}

/// Arguments are written as they are, with a comma behind the last.
pub proof fn law_arguments_end_in_a_comma(
    source: Seq<char>,
    tokens: Seq<TokenView>,
    joint: bool,
)
    ensures
        written_args(source, Seq::empty()) == source,
        written_args(source, tokens.push(TokenView::Punct { ch: ',', joint })) == source,
        tokens.len() > 0 && !(tokens.last() is Punct) ==> written_args(source, tokens) == source
            + ","@,
{
    let more = tokens.push(TokenView::Punct { ch: ',', joint });
    assert(more[more.len() - 1] == TokenView::Punct { ch: ',', joint });
}

/// An object has an entry of a name exactly if one of its entries has the name.
pub proof fn law_entries_have_names(text: Seq<char>, key: Seq<char>)
    ensures
        json_has_key(text, key) <==> (json_outline(text) matches Some(JsonView::Object(entries))
            && exists|i: int| 0 <= i < entries.len() && (#[trigger] entries[i]).0 == key),
{
}

} // verus!
