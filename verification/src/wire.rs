//! What is written to the exchange, and how requests are named.

use vstd::arithmetic::power::pow;
use vstd::prelude::*;
use vstd::string::StringExecFns;

verus! {

/// A hexadecimal digit, in lower case.
pub open spec fn hex_digit(n: int) -> char {
    if n < 10 {
        ('0' as int + n) as char
    } else {
        ('a' as int + n - 10) as char
    }
}

/// A character within a JSON string: quotes, backslashes and control characters are escaped.
pub open spec fn json_char(c: char) -> Seq<char> {
    let n = c as int;
    if c == '"' || c == '\\' {
        seq!['\\', c]
    } else if n == 8 {
        seq!['\\', 'b']
    } else if n == 9 {
        seq!['\\', 't']
    } else if n == 10 {
        seq!['\\', 'n']
    } else if n == 12 {
        seq!['\\', 'f']
    } else if n == 13 {
        seq!['\\', 'r']
    } else if n < 32 {
        seq!['\\', 'u', '0', '0', hex_digit(n / 16), hex_digit(n % 16)]
    } else {
        seq![c]
    }
}

/// The characters of a text within a JSON string.
pub open spec fn json_chars(text: Seq<char>) -> Seq<char>
    decreases text.len(),
{
    if text.len() == 0 {
        text
    } else {
        json_chars(text.drop_last()) + json_char(text.last())
    }
}

/// A text as a JSON string.
pub open spec fn json_quoted(text: Seq<char>) -> Seq<char> {
    seq!['"'] + json_chars(text) + seq!['"']
}

/// `serde_json::Value`'s text of a string: a JSON string, in which nothing is escaped but quotes,
/// backslashes and control characters.
#[verifier::external_body]
fn quote(text: &str) -> (r: String)
    ensures
        r@ == json_quoted(text@),
{
    serde_json::Value::from(text).to_string()
}

/// The hexadecimal digits of an identifier that stand before a place of its text, which has
/// hyphens at four places.
pub open spec fn digits_before(place: int) -> int {
    if place <= 8 {
        place
    } else if place <= 13 {
        place - 1
    } else if place <= 18 {
        place - 2
    } else if place <= 23 {
        place - 3
    } else {
        place - 4
    }
}

/// The text of an identifier: 32 hexadecimal digits, the highest first, in groups of 8, 4, 4, 4
/// and 12 with hyphens between them.
pub open spec fn uuid_text(id: u128) -> Seq<char> {
    Seq::new(
        36,
        |i: int|
            if i == 8 || i == 13 || i == 18 || i == 23 {
                '-'
            } else {
                hex_digit(id as int / pow(16, (31 - digits_before(i)) as nat) % 16)
            },
    )
}

/// The text of an identifier: `uuid::Uuid`'s `to_string`, in lower case and with hyphens.
#[verifier::external_body]
pub(crate) fn uuid_string(id: u128) -> (r: String)
    ensures
        r@ == uuid_text(id),
{
    uuid::Uuid::from_u128(id).to_string()
}

/// A new identifier: `uuid::Uuid::new_v4`. Nothing is said of it: it is drawn at random.
#[verifier::external_body]
pub(crate) fn new_uuid() -> (r: u128) {
    uuid::Uuid::new_v4().as_u128()
}

/// A digit.
pub open spec fn digit(n: int) -> Seq<char> {
    if n == 0 {
        "0"@
    } else if n == 1 {
        "1"@
    } else if n == 2 {
        "2"@
    } else if n == 3 {
        "3"@
    } else if n == 4 {
        "4"@
    } else if n == 5 {
        "5"@
    } else if n == 6 {
        "6"@
    } else if n == 7 {
        "7"@
    } else if n == 8 {
        "8"@
    } else {
        "9"@
    }
}

/// A number in decimal digits.
pub open spec fn digits(n: nat) -> Seq<char>
    decreases n,
{
    if n < 10 {
        digit(n as int)
    } else {
        digits(n / 10) + digit((n % 10) as int)
    }
}

fn digit_text(n: u32) -> (r: &'static str)
    requires
        n < 10,
    ensures
        r@ == digit(n as int),
{
    if n == 0 {
        "0"
    } else if n == 1 {
        "1"
    } else if n == 2 {
        "2"
    } else if n == 3 {
        "3"
    } else if n == 4 {
        "4"
    } else if n == 5 {
        "5"
    } else if n == 6 {
        "6"
    } else if n == 7 {
        "7"
    } else if n == 8 {
        "8"
    } else {
        "9"
    }
}

/// A number in decimal digits.
pub fn number_text(n: u64) -> (r: String)
    ensures
        r@ == digits(n as nat),
    decreases n,
{
    if n < 10 {
        digit_text(n as u32).to_owned()
    } else {
        let mut text = number_text(n / 10);
        text.append(digit_text((n % 10) as u32));
        text
    }
}

/// The message by which the chart is turned to an asset, whose name is given in quotes, and a
/// period.
pub open spec fn change_symbol_to(quoted: Seq<char>, period: u32) -> Seq<char> {
    "42[\"changeSymbol\",{\"asset\":"@ + quoted + ",\"period\":"@ + digits(period as nat) + "}]"@
}

/// The message by which the chart is turned to an asset and a period.
pub open spec fn change_symbol_text(asset: Seq<char>, period: u32) -> Seq<char> {
    change_symbol_to(json_quoted(asset), period)
}

/// The message by which the chart is turned to an asset, whose name is given in quotes, and a
/// period.
pub fn change_symbol_quoted(quoted: &str, period: u32) -> (r: String)
    ensures
        r@ == change_symbol_to(quoted@, period),
{
    let mut text = "42[\"changeSymbol\",{\"asset\":".to_owned();
    text.append(quoted);
    text.append(",\"period\":");
    text.append(number_text(period as u64).as_str());
    text.append("}]");
    text
}

/// The message by which the chart is turned to an asset and a period.
pub fn change_symbol(asset: &str, period: u32) -> (r: String)
    ensures
        r@ == change_symbol_text(asset@, period),
{
    change_symbol_quoted(quote(asset).as_str(), period)
}

/// An asset and a period as errors name them.
pub open spec fn asset_context(asset: Seq<char>, period: u32) -> Seq<char> {
    "asset: "@ + asset + ", period: "@ + digits(period as nat)
}

pub fn asset_context_text(asset: &str, period: u32) -> (r: String)
    ensures
        r@ == asset_context(asset@, period),
{
    let mut text = "asset: ".to_owned();
    text.append(asset);
    text.append(", period: ");
    text.append(number_text(period as u64).as_str());
    text
}

} // verus!
