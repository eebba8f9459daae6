//! Reading JSON one level at a time.
//!
//! A JSON value is handed on as its text. `outline` shows the outermost level of it; the
//! items of an array and the entries of an object are JSON texts again.

use crate::decimal::price_reading;
use crate::decimal::time_reading;
use crate::decimal::Decimal;
use crate::message::Message;
use crate::message::MessageView;
use crate::number::Number;
use crate::text::begins_with;
use crate::text::first_index;
use crate::text::from_first;
use crate::text::occurs;
use crate::text::same_text;
use crate::text::starts_with;
use crate::text::text_view;
use crate::text::texts;
use crate::text::texts_view;
use crate::text::trim;
use crate::text::trimmed;
use vstd::prelude::*;

verus! {

/// The outermost level of a JSON value.
#[derive(Debug)]
pub enum Json {
    Null,
    Bool(bool),
    /// A number, as it is written.
    Number(String),
    Text(String),
    /// The items of an array, each as JSON text.
    Array(Vec<String>),
    /// The entries of an object, each value as JSON text.
    Object(Vec<(String, String)>),
}

pub enum JsonView {
    Null,
    Bool(bool),
    Number(Seq<char>),
    Text(Seq<char>),
    Array(Seq<Seq<char>>),
    Object(Seq<(Seq<char>, Seq<char>)>),
}

impl View for Json {
    type V = JsonView;

    open spec fn view(&self) -> JsonView {
        match self {
            Json::Null => JsonView::Null,
            Json::Bool(b) => JsonView::Bool(*b),
            Json::Number(n) => JsonView::Number(n@),
            Json::Text(t) => JsonView::Text(t@),
            Json::Array(items) => JsonView::Array(items@.map_values(|i: String| i@)),
            Json::Object(entries) => JsonView::Object(
                entries@.map_values(|e: (String, String)| (e.0@, e.1@)),
            ),
        }
    }
}

/// The outermost level of what `serde_json` reads from a text, none where the text is not JSON.
pub uninterp spec fn json_outline(text: Seq<char>) -> Option<JsonView>;

/// The outermost level of the JSON value that `text` is.
///
/// `serde_json::from_str` into `serde_json::Value`, whose items are written back as text.
#[verifier::external_body]
pub(crate) fn outline(text: &str) -> (r: Option<Json>)
    ensures
        json_view(r) == json_outline(text@),
{
    serde_json::from_str::<serde_json::Value>(text).ok().map(|v| match v {
        serde_json::Value::Null => Json::Null,
        serde_json::Value::Bool(b) => Json::Bool(b),
        serde_json::Value::Number(n) => Json::Number(n.to_string()),
        serde_json::Value::String(s) => Json::Text(s),
        serde_json::Value::Array(a) => Json::Array(a.iter().map(|i| i.to_string()).collect()),
        serde_json::Value::Object(o) => {
            Json::Object(o.into_iter().map(|(k, i)| (k, i.to_string())).collect())
        }
    })
}

pub open spec fn json_view(json: Option<Json>) -> Option<JsonView> {
    match json {
        Some(j) => Some(j@),
        None => None,
    }
}

/// The items of the array that a JSON text is.
pub open spec fn json_array(text: Seq<char>) -> Option<Seq<Seq<char>>> {
    match json_outline(text) {
        Some(JsonView::Array(items)) => Some(items),
        _ => None,
    }
}

/// The string that a JSON text is.
pub open spec fn json_text(text: Seq<char>) -> Option<Seq<char>> {
    match json_outline(text) {
        Some(JsonView::Text(t)) => Some(t),
        _ => None,
    }
}

/// Whether a JSON text is an object with an entry of the given name.
pub open spec fn json_has_key(text: Seq<char>, key: Seq<char>) -> bool {
    json_outline(text) matches Some(JsonView::Object(entries)) && has_key(entries, key)
}

pub open spec fn has_key(entries: Seq<(Seq<char>, Seq<char>)>, key: Seq<char>) -> bool {
    exists|i: int| 0 <= i < entries.len() && (#[trigger] entries[i]).0 == key
}

/// The items of the JSON array that a text is from its first bracket on: what stands before the
/// bracket, such as the packet number of a Socket.IO message, is passed over.
pub open spec fn framed_array(text: Seq<char>) -> Option<Seq<Seq<char>>> {
    if occurs(text, "["@) {
        json_array(text.skip(first_index(text, "["@)))
    } else {
        None
    }
}

/// The second item of a framed array whose first item is the string `name`.
pub open spec fn event_payload(text: Seq<char>, name: Seq<char>) -> Option<Seq<char>> {
    match framed_array(text) {
        Some(items) => if items.len() >= 2 && json_text(items[0]) == Some(name) {
            Some(items[1])
        } else {
            None
        },
        None => None,
    }
}

/// The JSON text of a message: a text that is an object or an array, what follows the first
/// bracket of another text, or a binary message.
pub open spec fn message_json(msg: MessageView) -> Option<Seq<char>> {
    match msg {
        MessageView::Text(text) => if begins_with(trimmed(text), "{"@) || begins_with(
            trimmed(text),
            "["@,
        ) {
            Some(trimmed(text))
        } else if occurs(text, "["@) {
            Some(text.skip(first_index(text, "["@)))
        } else {
            None
        },
        MessageView::Binary(_) => msg.text(),
        _ => None,
    }
}

/// The number that a reading stands for.
pub open spec fn number_of(reading: Option<(Option<Decimal>, bool)>) -> Option<Number> {
    match reading {
        Some((Some(d), _)) => Some(Number::Exact(d)),
        Some((None, true)) => Some(Number::Below),
        Some((None, false)) => Some(Number::Above),
        None => None,
    }
}

pub fn number_from(reading: Option<(Option<Decimal>, bool)>) -> (r: Option<Number>)
    ensures
        r == number_of(reading),
{
    match reading {
        Some((Some(d), _)) => Some(Number::Exact(d)),
        Some((None, negative)) => if negative {
            Some(Number::Below)
        } else {
            Some(Number::Above)
        },
        None => None,
    }
}

/// The price that a JSON number is, none where the text is no JSON number.
pub fn read_price(text: &str) -> (r: Option<Number>)
    ensures
        r == number_of(price_reading(text@)),
{
    number_from(Decimal::read_price(text))
}

/// The time that a JSON number is, none where the text is no JSON number.
pub fn read_time(text: &str) -> (r: Option<Number>)
    ensures
        r == number_of(time_reading(text@)),
{
    number_from(Decimal::read_time(text))
}

pub fn read_array(text: &str) -> (r: Option<Vec<String>>)
    ensures
        texts_view(r) == json_array(text@),
{
    match outline(text) {
        Some(Json::Array(items)) => Some(items),
        _ => None,
    }
}

pub fn read_text(text: &str) -> (r: Option<String>)
    ensures
        text_view(r) == json_text(text@),
{
    match outline(text) {
        Some(Json::Text(t)) => Some(t),
        _ => None,
    }
}

/// Whether the JSON text is an object with an entry of the given name.
pub fn object_has_key(text: &str, key: &str) -> (r: bool)
    ensures
        r == json_has_key(text@, key@),
{
    match outline(text) {
        Some(Json::Object(entries)) => {
            let ghost seen = entries@.map_values(|e: (String, String)| (e.0@, e.1@));
            let mut i: usize = 0;
            while i < entries.len()
                invariant
                    i <= entries@.len(),
                    seen == entries@.map_values(|e: (String, String)| (e.0@, e.1@)),
                    forall|j: int| 0 <= j < i ==> (#[trigger] seen[j]).0 != key@,
                    json_outline(text@) == Some(JsonView::Object(seen)),
                decreases entries@.len() - i,
            {
                if same_text(entries[i].0.as_str(), key) {
                    assert(seen[i as int].0 == key@);
                    return true;
                }
                i += 1;
            }
            false
        },
        _ => false,
    }
}

pub fn read_framed_array(text: &str) -> (r: Option<Vec<String>>)
    ensures
        texts_view(r) == framed_array(text@),
{
    match from_first(text, "[") {
        Some(rest) => read_array(rest),
        None => None,
    }
}

/// The payload of a one-step event with the given name.
pub fn read_event_payload(text: &str, name: &str) -> (r: Option<String>)
    ensures
        text_view(r) == event_payload(text@, name@),
{
    match read_framed_array(text) {
        Some(items) => {
            if items.len() < 2 {
                return None;
            }
            assert(texts(items@)[0] == items@[0]@);
            assert(texts(items@)[1] == items@[1]@);
            match read_text(items[0].as_str()) {
                Some(event) => if same_text(event.as_str(), name) {
                    Some(items[1].clone())
                } else {
                    None
                },
                None => None,
            }
        },
        None => None,
    }
}

/// The JSON text of a message, whether or not it is well formed.
pub fn read_message_json(msg: &Message) -> (r: Option<String>)
    ensures
        text_view(r) == message_json(msg@),
{
    match msg {
        Message::Text(text) => {
            let body = trim(text.as_str());
            if starts_with(body, "{") || starts_with(body, "[") {
                Some(body.to_owned())
            } else {
                match from_first(text.as_str(), "[") {
                    Some(rest) => Some(rest.to_owned()),
                    None => None,
                }
            }
        },
        Message::Binary(_) => msg.text(),
        _ => None,
    }
}

/// The JSON texts that a message may be, in the order in which they are tried: a text itself,
/// next the payload of an event in it, or the text of a binary message.
pub open spec fn readings_of(msg: MessageView, payload: Option<Seq<char>>) -> Seq<Seq<char>> {
    match msg {
        MessageView::Text(text) => match payload {
            Some(p) => seq![text, p],
            None => seq![text],
        },
        _ => match msg.text() {
            Some(text) => seq![text],
            None => Seq::empty(),
        },
    }
}

pub(crate) fn message_readings(msg: &Message, payload: Option<String>) -> (r: Vec<String>)
    ensures
        texts(r@) == readings_of(msg@, text_view(payload)),
{
    let mut r: Vec<String> = Vec::new();
    if let Some(text) = msg.text() {
        r.push(text);
        if let Message::Text(_) = msg {
            if let Some(p) = payload {
                r.push(p);
            }
        }
    }
    assert(texts(r@) =~= readings_of(msg@, text_view(payload)));
    r
}

} // verus!
