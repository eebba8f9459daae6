use binary_options_tools::assets::AssetsModule;
use binary_options_tools::balance::BalanceModule;
use binary_options_tools::candle::Tick;
use binary_options_tools::clock::DateTime;
use binary_options_tools::clock::Duration;
use binary_options_tools::decimal::Decimal;
use binary_options_tools::error::CoreError;
use binary_options_tools::json::object_has_key;
use binary_options_tools::json::read_array;
use binary_options_tools::json::read_event_payload;
use binary_options_tools::json::read_message_json;
use binary_options_tools::json::read_price;
use binary_options_tools::json::read_text;
use binary_options_tools::json::read_time;
use binary_options_tools::message::Message;
use binary_options_tools::number::Number;
use binary_options_tools::sort::sort_by_time;
use binary_options_tools::string_map::StringMap;
use binary_options_tools::text;
use binary_options_tools::wire::asset_context_text;
use binary_options_tools::wire::change_symbol;
use binary_options_tools::wire::change_symbol_quoted;
use binary_options_tools::wire::number_text;

fn dec(mantissa: i128, scale: u32) -> Decimal {
    Decimal::new(mantissa, scale).unwrap()
}

const MAX: i128 = 79228162514264337593543950335;

#[test]
fn decimals_have_bounds() {
    assert!(Decimal::new(MAX, 28).is_some());
    assert!(Decimal::new(MAX + 1, 0).is_none());
    assert!(Decimal::new(-MAX - 1, 0).is_none());
    assert!(Decimal::new(1, 29).is_none());
    assert_eq!(dec(-12345, 3).to_string(), "-12.345");
    assert_eq!(dec(-12345, 3).mantissa(), -12345);
    assert_eq!(dec(-12345, 3).scale(), 3);
    assert_eq!(Decimal::from_integer(-7).to_string(), "-7");
    assert_eq!(Decimal::zero().to_string(), "0");
}

#[test]
fn decimals_are_compared_by_value() {
    assert!(dec(10, 1) == dec(1, 0));
    assert!(dec(99, 2) < dec(1, 0));
    assert!(!(dec(1, 0) < dec(100, 2)));
    assert!(dec(1, 28) < dec(MAX, 0));
    assert_eq!(dec(10, 1).max(dec(1, 0)).to_string(), "1.0");
    assert_eq!(dec(1, 0).min(dec(10, 1)).to_string(), "1");
    assert_eq!(dec(1, 0).max(dec(2, 0)).to_string(), "2");
    assert_eq!(dec(1, 0).min(dec(2, 0)).to_string(), "1");
    assert_eq!(dec(5, 1).negate().to_string(), "-0.5");
    assert_eq!(dec(-5, 1).abs().to_string(), "0.5");
    assert!(dec(1, 28).is_positive());
    assert!(!dec(0, 5).is_positive());
    assert!(!dec(-1, 0).is_positive());
}

#[test]
fn decimals_are_rounded_to_integers() {
    assert_eq!(dec(-15, 1).floor_to_i64(), -2);
    assert_eq!(dec(-15, 1).truncate_to_i64(), -1);
    assert_eq!(dec(15, 1).floor_to_i64(), 1);
    assert_eq!(dec(-20, 1).floor_to_i64(), -2);
    assert_eq!(dec(MAX, 0).floor_to_i64(), i64::MAX);
    assert_eq!(dec(-MAX, 0).truncate_to_i64(), i64::MIN);
}

#[test]
fn numbers_go_beyond_decimals() {
    let one = Number::from_integer(1);
    assert!(Number::less(Number::Below, one));
    assert!(Number::less(one, Number::Above));
    assert!(!Number::less(Number::Above, Number::Above));
    assert!(Number::same(Number::Exact(dec(10, 1)), one));
    assert!(Number::same(one.max(Number::Above), Number::Above));
    assert!(Number::same(one.min(Number::zero()), Number::zero()));
    assert!(Number::same(one.plus(one), Number::from_integer(2)));
    assert!(Number::same(one.plus(Number::Below), Number::Below));
    let largest = Number::Exact(dec(MAX, 0));
    assert!(Number::same(largest.plus(largest), Number::Above));
    assert_eq!(Number::Above.floor_to_i64(), i64::MAX);
    assert_eq!(Number::Below.truncate_to_i64(), i64::MIN);
}

#[test]
fn json_numbers_are_read_as_prices_and_times() {
    match read_price("1.10") {
        Some(Number::Exact(d)) => assert_eq!(d.to_string(), "1.1"),
        other => panic!("unexpected {other:?}"),
    }
    match read_time("1.1") {
        Some(Number::Exact(d)) => assert!(d.to_string().starts_with("1.100000000000000088817")),
        other => panic!("unexpected {other:?}"),
    }
    assert!(matches!(read_price("1e30"), Some(Number::Above)));
    assert!(matches!(read_time("-1e30"), Some(Number::Below)));
    assert!(read_price("null").is_none());
    assert!(read_price("\"1\"").is_none());
    assert!(read_time("x").is_none());
}

#[test]
fn json_is_read_level_by_level() {
    assert_eq!(
        read_array("[1, \"a\", {\"b\": [2]}]").unwrap(),
        vec!["1", "\"a\"", "{\"b\":[2]}"]
    );
    assert!(read_array("{}").is_none());
    assert!(read_array("[1,").is_none());
    assert_eq!(read_text("\"a\\nb\"").unwrap(), "a\nb");
    assert!(read_text("1").is_none());
    assert!(object_has_key("{\"a\":null}", "a"));
    assert!(!object_has_key("{\"a\":null}", "b"));
    assert!(!object_has_key("[\"a\"]", "a"));
}

#[test]
fn messages_carry_json() {
    let text = |s: &str| read_message_json(&Message::Text(s.to_string()));
    assert_eq!(text(" {\"a\":[1]} ").unwrap(), "{\"a\":[1]}");
    assert_eq!(text("42[\"e\"]").unwrap(), "[\"e\"]");
    assert!(text("hello").is_none());
    assert_eq!(read_message_json(&Message::Binary(b"x".to_vec())).unwrap(), "x");
    assert!(read_message_json(&Message::Binary(vec![0xff])).is_none());
    assert!(read_message_json(&Message::Close(None)).is_none());
}

#[test]
fn events_carry_assets_and_balances() {
    assert_eq!(
        AssetsModule::one_step_payload("42[\"updateAssets\",[[1]]]").unwrap(),
        "[[1]]"
    );
    assert!(AssetsModule::one_step_payload("42[\"successupdateBalance\",[[1]]]").is_none());
    assert_eq!(
        BalanceModule::one_step_payload("42[\"successupdateBalance\",{\"balance\":1.5}]").unwrap(),
        "{\"balance\":1.5}"
    );
    assert!(BalanceModule::one_step_payload("42[\"successupdateBalance\"]").is_none());
    assert!(read_event_payload("no event", "no").is_none());
    let event = Message::Text("42[\"updateAssets\",[[1]]]".to_string());
    assert_eq!(
        AssetsModule::readings(&event),
        vec!["42[\"updateAssets\",[[1]]]", "[[1]]"]
    );
    assert_eq!(BalanceModule::readings(&event), vec!["42[\"updateAssets\",[[1]]]"]);
    assert!(AssetsModule::readings(&Message::Close(None)).is_empty());
    match AssetsModule::ended() {
        CoreError::LightweightModuleLoop(name) => assert_eq!(name, "AssetsModule"),
        other => panic!("unexpected {other:?}"),
    }
    match BalanceModule::ended() {
        CoreError::LightweightModuleLoop(name) => assert_eq!(name, "BalanceModule"),
        other => panic!("unexpected {other:?}"),
    }
}

#[test]
fn text_is_searched_and_cut() {
    assert!(text::same_text("äb", "äb"));
    assert!(!text::same_text("a", "ab"));
    assert_eq!(text::find("xäbäb", "äb"), Some(1));
    assert_eq!(text::rfind("xäbäb", "äb"), Some(3));
    assert_eq!(text::find("abc", ""), Some(0));
    assert_eq!(text::rfind("abc", ""), Some(3));
    assert_eq!(text::find("", "a"), None);
    assert_eq!(text::strip_prefix("451-x", "451-"), Some("x"));
    assert_eq!(text::strip_prefix("451-x", "42"), None);
    assert_eq!(text::strip_suffix("x]", "]"), Some("x"));
    assert_eq!(text::strip_suffix("x", "]"), None);
    assert_eq!(text::from_first("a[b[c", "["), Some("[b[c"));
    assert_eq!(text::after_first("a[b[c", "["), Some("b[c"));
    assert_eq!(text::through_last("a]b]c", "]"), Some("a]b]"));
    assert_eq!(text::trim("\u{3000} a b\n"), "a b");
    assert_eq!(text::trim(" \t"), "");
}

#[test]
fn white_space_is_what_std_says() {
    for n in 0..0x11_0000u32 {
        if let Some(c) = char::from_u32(n) {
            assert_eq!(text::white_space(c), c.is_whitespace(), "{n:x}");
        }
    }
}

#[test]
fn instants_and_spans() {
    let at = |secs, nanos| DateTime { secs, nanos };
    assert_eq!(DateTime::from_timestamp_or_epoch(5), at(5, 0));
    assert_eq!(DateTime::from_timestamp_or_epoch(i64::MAX), at(0, 0));
    assert_eq!(
        DateTime::from_timestamp_or_epoch(8210266876799),
        at(8210266876799, 0)
    );
    assert_eq!(DateTime::from_timestamp_or_epoch(8210266876800), at(0, 0));
    assert_eq!(
        DateTime::from_timestamp_or_epoch(-8334601228800),
        at(-8334601228800, 0)
    );
    assert_eq!(DateTime::from_timestamp_or_epoch(-8334601228801), at(0, 0));
    assert!(DateTime::from_timestamp_or_now(i64::MAX).secs > 1_600_000_000);
    assert_eq!(
        at(5, 1).elapsed_since(&at(3, 2)),
        Some(Duration {
            secs: 1,
            nanos: 999_999_999
        })
    );
    assert_eq!(at(3, 2).elapsed_since(&at(5, 1)), None);
    assert_eq!(at(3, 2).plus_seconds(4), at(7, 2));
    assert!(Duration::from_secs(2).at_least(&Duration { secs: 1, nanos: 5 }));
    assert!(!Duration { secs: 1, nanos: 4 }.at_least(&Duration { secs: 1, nanos: 5 }));
}

#[test]
fn records_are_sorted_stably() {
    let tick = |time, n| Tick {
        time,
        price: Number::from_integer(n),
    };
    let sorted = sort_by_time(&vec![tick(3, 1), tick(1, 2), tick(3, 3), tick(2, 4), tick(1, 5)]);
    let order: Vec<(i64, i64)> = sorted
        .iter()
        .map(|t| (t.time, t.price.truncate_to_i64()))
        .collect();
    assert_eq!(order, vec![(1, 2), (1, 5), (2, 4), (3, 1), (3, 3)]);
}

#[test]
fn maps_hold_the_last_value_of_a_key() {
    let mut map: StringMap<i32> = StringMap::new();
    assert_eq!(map.len(), 0);
    map.insert("a", 1);
    map.insert("b", 2);
    map.insert("a", 3);
    assert_eq!(map.len(), 2);
    assert_eq!(map.get("a"), Some(&3));
    assert_eq!(map.get("b"), Some(&2));
    assert_eq!(map.get("c"), None);
}

#[test]
fn requests_are_written() {
    assert_eq!(
        change_symbol("EUR\"USD", 60),
        "42[\"changeSymbol\",{\"asset\":\"EUR\\\"USD\",\"period\":60}]"
    );
    assert_eq!(
        change_symbol_quoted("\"A\"", 5),
        "42[\"changeSymbol\",{\"asset\":\"A\",\"period\":5}]"
    );
    assert_eq!(number_text(0), "0");
    assert_eq!(number_text(18446744073709551615), "18446744073709551615");
    assert_eq!(asset_context_text("A", 5), "asset: A, period: 5");
}

#[test]
fn decimals_are_written_with_all_their_places() {
    assert_eq!(dec(0, 3).to_string(), "0.000");
    assert_eq!(dec(5, 3).to_string(), "0.005");
    assert_eq!(dec(-5, 3).to_string(), "-0.005");
    assert_eq!(dec(120, 2).to_string(), "1.20");
    assert_eq!(dec(MAX, 28).to_string(), "7.9228162514264337593543950335");
    assert_eq!(dec(MAX, 0).to_string(), MAX.to_string());
}

#[test]
fn names_are_quoted_as_json() {
    let quoted = |asset: &str| change_symbol(asset, 5);
    let frame = |name: &str| format!("42[\"changeSymbol\",{{\"asset\":{name},\"period\":5}}]");
    assert_eq!(quoted("a\"b\\c"), frame(r#""a\"b\\c""#));
    assert_eq!(
        quoted("\u{8}\t\n\u{c}\r"),
        frame("\"\\b\\t\\n\\f\\r\"")
    );
    assert_eq!(
        quoted("\u{0}\u{1f}\u{7f}/\u{e9}"),
        frame("\"\\u0000\\u001f\u{7f}/\u{e9}\"")
    );
}
