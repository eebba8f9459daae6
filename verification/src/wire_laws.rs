//! What is written to the exchange can be read back.

use crate::probe::are_digits;
use crate::probe::default_settings;
use crate::probe::digits_value;
use crate::probe::invoked;
use crate::probe::lowercase;
use crate::probe::mode_named;
use crate::probe::small;
use crate::probe::unsigned_value;
use crate::probe::InvocationView;
use crate::probe::SettingsView;
use crate::chart_stream::HistoryStreamMode;
use crate::types::active_entries;
use crate::types::Asset;
use crate::wire::asset_context;
use crate::wire::change_symbol_text;
use crate::wire::digit;
use crate::wire::digits;
use crate::wire::json_char;
use crate::wire::json_chars;
use crate::wire::json_quoted;
use vstd::prelude::*;

verus! {

proof fn lemma_digit(n: int)
    requires
        0 <= n < 10,
    ensures
        digit(n).len() == 1,
        digit(n)[0] as u32 == 48 + n,
{
    reveal_strlit("0");
    reveal_strlit("1");
    reveal_strlit("2");
    reveal_strlit("3");
    reveal_strlit("4");
    reveal_strlit("5");
    reveal_strlit("6");
    reveal_strlit("7");
    reveal_strlit("8");
    reveal_strlit("9");
}

/// The digits of a number tell the number: read as digits they have its value, and they do not
/// begin with a zero unless the number is zero.
pub proof fn law_digits_tell_the_number(n: nat)
    ensures
        are_digits(digits(n)),
        digits_value(digits(n)) == n,
        n > 0 ==> digits(n)[0] != '0',
        unsigned_value(digits(n)) == Some(n as int),
    decreases n,
{
    reveal_with_fuel(digits_value, 2);
    let text = digits(n);
    lemma_digit((n % 10) as int);
    if n < 10 {
        assert(text.drop_last() =~= Seq::<char>::empty());
    } else {
        law_digits_tell_the_number(n / 10);
        let front = digits(n / 10);
        assert(text =~= front.push(digit((n % 10) as int)[0]));
        assert(text.drop_last() =~= front);
        assert(text[0] == front[0]);
        assert forall|i: int| 0 <= i < text.len() implies 48 <= #[trigger] text[i] as u32 <= 57 by {
            if i < front.len() {
                assert(text[i] == front[i]);
            }
        }
    }
    assert(48 <= text[0] as u32 <= 57);
}

/// A text is quoted character by character.
pub proof fn law_quoting_goes_by_characters(a: Seq<char>, b: Seq<char>)
    ensures
        json_chars(a + b) == json_chars(a) + json_chars(b),
    decreases b.len(),
{
    if b.len() == 0 {
        assert(a + b =~= a);
        assert(json_chars(a) + json_chars(b) =~= json_chars(a));
    } else {
        law_quoting_goes_by_characters(a, b.drop_last());
        assert((a + b).drop_last() =~= a + b.drop_last());
        assert(json_chars(a) + json_chars(b.drop_last()) + json_char(b.last()) =~= json_chars(a) + (
        json_chars(b.drop_last()) + json_char(b.last())));
    }
}

/// Whether nothing in a text has to be escaped.
pub open spec fn needs_no_quoting(text: Seq<char>) -> bool {
    forall|i: int|
        0 <= i < text.len() ==> #[trigger] text[i] as int >= 32 && text[i] != '"' && text[i]
            != '\\'
}

/// A text in which nothing has to be escaped stands between quotes as it is.
pub proof fn law_plain_texts_stay(text: Seq<char>)
    requires
        needs_no_quoting(text),
    ensures
        json_chars(text) == text,
        json_quoted(text) == seq!['"'] + text + seq!['"'],
    decreases text.len(),
{
    if text.len() > 0 {
        let front = text.drop_last();
        assert forall|i: int| 0 <= i < front.len() implies #[trigger] front[i] as int >= 32
            && front[i] != '"' && front[i] != '\\' by {
            assert(text[i] as int >= 32);
        }
        law_plain_texts_stay(front);
        let c = text[text.len() - 1];
        assert(c as int >= 32 && c != '"' && c != '\\');
        assert(json_char(c) =~= seq![c]);
        assert(front + seq![c] =~= text);
    }
}

/// The message that turns the chart to an asset and a period says both, and differs where one of
/// them does.
pub proof fn law_chart_message_says_asset_and_period(asset: Seq<char>, period: u32)
    requires
        needs_no_quoting(asset),
    ensures
        change_symbol_text(asset, period) == "42[\"changeSymbol\",{\"asset\":"@ + seq!['"'] + asset
            + seq!['"'] + ",\"period\":"@ + digits(period as nat) + "}]"@,
        asset_context(asset, period) == "asset: "@ + asset + ", period: "@ + digits(
            period as nat,
        ),
{
    law_plain_texts_stay(asset);
    let head = "42[\"changeSymbol\",{\"asset\":"@;
    assert(head + (seq!['"'] + asset + seq!['"']) + ",\"period\":"@ + digits(period as nat) + "}]"@
        =~= head + seq!['"'] + asset + seq!['"'] + ",\"period\":"@ + digits(period as nat)
        + "}]"@);
}

proof fn lemma_flags()
    ensures
        "--ssid"@.len() == 6 && "--mode"@.len() == 6 && "--help"@.len() == 6,
        "--ssid"@[2] == 's' && "--mode"@[2] == 'm' && "--help"@[2] == 'h',
        "--asset"@.len() == 7,
        "--period"@.len() == 8,
        "--seconds"@.len() == 9,
        "-h"@.len() == 2,
{
    reveal_strlit("--ssid");
    reveal_strlit("--mode");
    reveal_strlit("--help");
    reveal_strlit("--asset");
    reveal_strlit("--period");
    reveal_strlit("--seconds");
    reveal_strlit("-h");
}

/// A flag sets what it names to the value behind it, and the rest of the command line is read as
/// it would be without them.
pub proof fn law_flags_set_what_they_name(
    set: SettingsView,
    value: Seq<char>,
    n: u32,
    secs: u64,
    rest: Seq<Seq<char>>,
)
    ensures
        invoked(set, seq!["--ssid"@, value] + rest) == invoked(
            SettingsView { ssid: Some(value), ..set },
            rest,
        ),
        invoked(set, seq!["--asset"@, value] + rest) == invoked(
            SettingsView { asset: value, ..set },
            rest,
        ),
        invoked(set, seq!["--period"@, digits(n as nat)] + rest) == invoked(
            SettingsView { period: n, ..set },
            rest,
        ),
        invoked(set, seq!["--seconds"@, digits(secs as nat)] + rest) == invoked(
            SettingsView { live_seconds: secs, ..set },
            rest,
        ),
{
    lemma_flags();
    law_digits_tell_the_number(n as nat);
    law_digits_tell_the_number(secs as nat);
    let a = seq!["--ssid"@, value] + rest;
    assert(a[0] == "--ssid"@ && a[1] == value);
    assert(a.skip(2) =~= rest);
    let b = seq!["--asset"@, value] + rest;
    assert(b[0] == "--asset"@ && b[1] == value);
    assert(b.skip(2) =~= rest);
    let c = seq!["--period"@, digits(n as nat)] + rest;
    assert(c[0] == "--period"@ && c[1] == digits(n as nat));
    assert(c.skip(2) =~= rest);
    let d = seq!["--seconds"@, digits(secs as nat)] + rest;
    assert(d[0] == "--seconds"@ && d[1] == digits(secs as nat));
    assert(d.skip(2) =~= rest);
}

/// The modes are named by the two words, in capitals or not, and by no other.
pub proof fn law_modes_are_named(name: Seq<char>)
    ensures
        mode_named("points"@) == Some(HistoryStreamMode::Points),
        mode_named("ohlc"@) == Some(HistoryStreamMode::Ohlc),
        mode_named(name) is Some ==> name == "points"@ || name == "ohlc"@,
{
    reveal_strlit("points");
    reveal_strlit("ohlc");
    assert("points"@.len() != "ohlc"@.len());
}

/// The mode flag takes a name in capitals or in small letters alike.
pub proof fn law_mode_flag(set: SettingsView, name: Seq<char>, rest: Seq<Seq<char>>)
    ensures
        lowercase(name) == "points"@ ==> invoked(set, seq!["--mode"@, name] + rest) == invoked(
            SettingsView { mode: HistoryStreamMode::Points, ..set },
            rest,
        ),
        lowercase(name) == "ohlc"@ ==> invoked(set, seq!["--mode"@, name] + rest) == invoked(
            SettingsView { mode: HistoryStreamMode::Ohlc, ..set },
            rest,
        ),
        lowercase(name) != "points"@ && lowercase(name) != "ohlc"@ ==> invoked(
            set,
            seq!["--mode"@, name] + rest,
        ) is Refused,
{
    lemma_flags();
    law_modes_are_named(lowercase(name));
    let a = seq!["--mode"@, name] + rest;
    assert(a[0] == "--mode"@ && a[1] == name);
    assert(a.skip(2) =~= rest);
}

/// Capitals and small letters of ASCII are the same to a name: a letter and its capital have the
/// same small letter, which is a letter 32 places behind the capital.
pub proof fn law_small_letters(c: char)
    ensures
        'A' <= c <= 'Z' ==> small(c) as u32 == c as u32 + 32,
        !('A' <= c <= 'Z') ==> small(c) == c,
        small(small(c)) == small(c),
{
}

/// A command line that is read to its end runs with what is set, if there is an SSID; a call for
/// help gives help, and an argument that is no flag is refused, whatever follows.
pub proof fn law_command_lines_end(set: SettingsView, word: Seq<char>, rest: Seq<Seq<char>>)
    requires
        word != "--ssid"@ && word != "--asset"@ && word != "--period"@ && word != "--mode"@ && word
            != "--seconds"@ && word != "--help"@ && word != "-h"@,
    ensures
        set.ssid matches Some(ssid) ==> invoked(set, Seq::empty()) == (InvocationView::Run {
            ssid,
            asset: set.asset,
            period: set.period,
            mode: set.mode,
            live_seconds: set.live_seconds,
        }),
        set.ssid is None ==> invoked(set, Seq::empty()) is Refused,
        invoked(set, seq!["--help"@] + rest) is Help,
        invoked(set, seq!["-h"@] + rest) is Help,
        invoked(set, seq![word] + rest) is Refused,
{
    lemma_flags();
    let a = seq!["--help"@] + rest;
    assert(a[0] == "--help"@);
    let b = seq!["-h"@] + rest;
    assert(b[0] == "-h"@);
    let c = seq![word] + rest;
    assert(c[0] == word);
}

/// The assets that can be traded now are those of all assets that can, in their order.
pub proof fn law_active_assets_stay_in_order(entries: Seq<(String, Asset)>)
    ensures
        active_entries(entries) == entries.filter(|e: (String, Asset)| e.1.is_active),
    decreases entries.len(),
{
    reveal(Seq::filter);
    if entries.len() > 0 {
        law_active_assets_stay_in_order(entries.drop_last());
    }
}

/// What is set before the first argument: the asset, the period and the seconds that are used where
/// none is given, and the SSID of the environment.
pub proof fn law_defaults(ssid: Option<Seq<char>>)
    ensures
        ({
            let set = default_settings(ssid);
            &&& set.ssid == ssid
            &&& set.asset == "EURUSD_otc"@
            &&& set.period == 5
            &&& set.mode == HistoryStreamMode::Points
            &&& set.live_seconds == 20
        }),
{
}

/// A flag without the value that it needs is refused by its name, and so is a value that is no
/// number. The SSID may be left without a value, which takes it back.
pub proof fn law_missing_values_are_refused(set: SettingsView, value: Seq<char>)
    requires
        unsigned_value(value) is None,
    ensures
        invoked(set, seq!["--asset"@]) == InvocationView::Refused("--asset"@ + " requires a value"@),
        invoked(set, seq!["--period"@]) == InvocationView::Refused(
            "--period"@ + " requires a value"@,
        ),
        invoked(set, seq!["--mode"@]) == InvocationView::Refused("--mode"@ + " requires a value"@),
        invoked(set, seq!["--seconds"@]) == InvocationView::Refused(
            "--seconds"@ + " requires a value"@,
        ),
        invoked(set, seq!["--ssid"@]) is Refused,
        invoked(set, seq!["--period"@, value]) is Refused,
        invoked(set, seq!["--seconds"@, value]) is Refused,
{
    lemma_flags();
    reveal_with_fuel(invoked, 2);
    let none = Seq::<Seq<char>>::empty();
    let a = seq!["--asset"@];
    assert(a[0] == "--asset"@);
    let b = seq!["--period"@];
    assert(b[0] == "--period"@);
    let c = seq!["--mode"@];
    assert(c[0] == "--mode"@);
    let d = seq!["--seconds"@];
    assert(d[0] == "--seconds"@);
    let e = seq!["--ssid"@];
    assert(e[0] == "--ssid"@);
    assert(e.skip(1) =~= none);
    let f = seq!["--period"@, value];
    assert(f[0] == "--period"@ && f[1] == value);
    let g = seq!["--seconds"@, value];
    assert(g[0] == "--seconds"@ && g[1] == value);
}

/// An unsigned number may be written with a plus sign before its digits.
pub proof fn law_plus_signs_do_not_matter(n: nat)
    ensures
        unsigned_value(seq!['+'] + digits(n)) == Some(n as int),
{
    law_digits_tell_the_number(n);
    let text = seq!['+'] + digits(n);
    assert(text[0] == '+');
    assert(text.skip(1) =~= digits(n));
}

} // verus!
