use binary_options_tools::candle::compile_candles_from_history_points;
use binary_options_tools::candle::compile_candles_from_ticks;
use binary_options_tools::candle::compile_candles_from_tuples;
use binary_options_tools::candle::merge_history_ohlc;
use binary_options_tools::candle::merge_history_points;
use binary_options_tools::candle::spans_fit;
use binary_options_tools::candle::BaseCandle;
use binary_options_tools::candle::Candle;
use binary_options_tools::candle::CandleItem;
use binary_options_tools::candle::HistoryItem;
use binary_options_tools::candle::HistoryPoint;
use binary_options_tools::clock::DateTime;
use binary_options_tools::decimal::Decimal;
use binary_options_tools::error::BinaryOptionsError;
use binary_options_tools::json::read_price;
use binary_options_tools::json::read_time;
use binary_options_tools::number::Number;

fn price(text: &str) -> Number {
    read_price(text).expect("a number")
}

fn time(text: &str) -> Number {
    read_time(text).expect("a number")
}

fn decimal(text: &str) -> Decimal {
    match price(text) {
        Number::Exact(d) => d,
        other => panic!("no decimal: {other:?}"),
    }
}

fn assert_same(a: Number, text: &str) {
    assert!(Number::same(a, price(text)), "{a:?} is not {text}");
}

fn tick(at: &str, value: &str) -> HistoryItem {
    HistoryItem::Tick([read_time(at), read_price(value)])
}

fn row(values: [&str; 6]) -> CandleItem {
    CandleItem(
        time(values[0]),
        price(values[1]),
        price(values[2]),
        price(values[3]),
        price(values[4]),
        price(values[5]),
    )
}

fn point(at: &str, value: &str) -> HistoryPoint {
    HistoryPoint {
        asset: "TEST".to_string(),
        time: time(at),
        price: price(value),
    }
}

fn candle(open: &str, high: &str, low: &str, close: &str) -> Candle {
    Candle {
        symbol: "TEST".to_string(),
        timestamp: 1000,
        open: decimal(open),
        high: decimal(high),
        low: decimal(low),
        close: decimal(close),
        volume: None,
    }
}

fn shape(c: &Candle) -> (i64, String, String, String, String) {
    (
        c.timestamp,
        c.open.to_string(),
        c.high.to_string(),
        c.low.to_string(),
        c.close.to_string(),
    )
}

fn expected(
    timestamp: i64,
    open: &str,
    high: &str,
    low: &str,
    close: &str,
) -> (i64, String, String, String, String) {
    (
        timestamp,
        open.to_string(),
        high.to_string(),
        low.to_string(),
        close.to_string(),
    )
}

#[test]
fn test_parse_base_candles() {
    let data = r#"[1754529180,0.92124,0.92155,0.92162,0.92124]"#;
    let candle = BaseCandle::from_json(data).unwrap();
    assert_eq!(candle.timestamp, 1754529180);
    assert_same(candle.open, "0.92124");
    assert_same(candle.close, "0.92155");
    assert_same(candle.high, "0.92162");
    assert_same(candle.low, "0.92124");
    assert!(candle.volume.is_none());
}

#[test]
fn test_parse_base_candles_with_volume() {
    let data = r#"[1754529180,0.92124,0.92155,0.92162,0.92124,100.0]"#;
    let candle = BaseCandle::from_json(data).unwrap();
    assert_same(candle.volume.unwrap(), "100.0");
}

#[test]
fn test_parse_base_candles_with_null_volume() {
    let data = r#"[1754529180,0.92124,0.92155,0.92162,0.92124,null]"#;
    let candle = BaseCandle::from_json(data).unwrap();
    assert!(candle.volume.is_none());
}

#[test]
fn test_compile_candles_zero_period() {
    let ticks = vec![tick("1000", "1.0"), tick("1001", "1.1")];
    let candles = compile_candles_from_ticks(&ticks, 0, "TEST");
    assert!(candles.is_empty());
}

#[test]
fn test_compile_candles_empty_ticks() {
    let ticks = vec![];
    let candles = compile_candles_from_ticks(&ticks, 60, "TEST");
    assert!(candles.is_empty());
}

#[test]
fn test_merge_history_points_matches_pocket_history_flow() {
    let history = vec![tick("105.5", "1.5"), tick("110.0", "1.6")];
    let candles = vec![
        row(["100.0", "1.0", "1.4", "1.8", "0.9", "10.0"]),
        row(["110.0", "2.0", "2.4", "2.8", "1.9", "20.0"]),
    ];

    let points = merge_history_points("TEST", 5, Some(&history), Some(&candles));
    let times = ["100.0", "101.0", "102.0", "104.0", "105.5", "110.0"];
    let prices = ["1.0", "1.8", "0.9", "1.4", "1.5", "1.6"];

    assert_eq!(points.len(), times.len());
    for (i, point) in points.iter().enumerate() {
        assert!(Number::same(point.time, time(times[i])));
        assert_same(point.price, prices[i]);
    }
    assert!(points.iter().all(|point| point.asset == "TEST"));
}

#[test]
fn test_compile_candles_single_tick() {
    let ticks = vec![tick("1000", "1.5")];
    let candles = compile_candles_from_ticks(&ticks, 60, "TEST");
    assert_eq!(candles.len(), 1);
    let c = &candles[0];
    assert_eq!(c.timestamp, 960);
    assert_eq!(c.open.to_string(), "1.5");
    assert_eq!(c.high.to_string(), "1.5");
    assert_eq!(c.low.to_string(), "1.5");
    assert_eq!(c.close.to_string(), "1.5");
}

#[test]
fn test_compile_candles_from_tuples_simple() {
    let ticks = vec![
        (1000, read_price("1.5")),
        (1001, read_price("1.6")),
        (1002, read_price("1.7")),
        (1003, read_price("1.8")),
        (1004, read_price("1.9")),
        (1005, read_price("2.0")),
    ];
    let candles = compile_candles_from_tuples(&ticks, 3, "TEST");
    assert_eq!(candles.len(), 3);
    assert_eq!(candles[0].timestamp, 999);
    assert_eq!(candles[0].open.to_string(), "1.5");
    assert_eq!(candles[0].high.to_string(), "1.6");
    assert_eq!(candles[0].low.to_string(), "1.5");
    assert_eq!(candles[0].close.to_string(), "1.6");
    assert_eq!(candles[1].timestamp, 1002);
    assert_eq!(candles[1].open.to_string(), "1.7");
    assert_eq!(candles[1].high.to_string(), "1.9");
    assert_eq!(candles[1].low.to_string(), "1.7");
    assert_eq!(candles[1].close.to_string(), "1.9");
    assert_eq!(candles[2].timestamp, 1005);
    assert_eq!(candles[2].open.to_string(), "2");
    assert_eq!(candles[2].high.to_string(), "2");
    assert_eq!(candles[2].low.to_string(), "2");
    assert_eq!(candles[2].close.to_string(), "2");
}

#[test]
fn test_compile_candles_from_tuples_empty() {
    let ticks = vec![];
    let candles = compile_candles_from_tuples(&ticks, 60, "TEST");
    assert!(candles.is_empty());
}

#[test]
fn test_compile_candles_from_tuples_zero_period() {
    let ticks = vec![(1000, read_price("1.5")), (1001, read_price("1.6"))];
    let candles = compile_candles_from_tuples(&ticks, 0, "TEST");
    assert!(candles.is_empty());
}

#[test]
fn test_compile_candles_from_tuples_unaligned() {
    let ticks = vec![
        (1001, read_price("1.5")),
        (1015, read_price("1.6")),
        (1020, read_price("1.7")),
        (1035, read_price("1.8")),
        (1040, read_price("1.9")),
    ];
    let candles = compile_candles_from_tuples(&ticks, 20, "TEST");
    assert_eq!(candles.len(), 3);
    assert_eq!(candles[0].timestamp, 1000);
    assert_eq!(candles[1].timestamp, 1020);
    assert_eq!(candles[2].timestamp, 1040);
}

#[test]
fn base_candles_of_other_shapes_are_refused() {
    assert!(BaseCandle::from_json("[1,2,3,4]").is_none());
    assert!(BaseCandle::from_json("[1,2,3,4,5,6,7]").is_none());
    assert!(BaseCandle::from_json("[1,2,3,4,\"5\"]").is_none());
    assert!(BaseCandle::from_json("[1,2,3,4,5,true]").is_none());
    assert!(BaseCandle::from_json("{}").is_none());
    assert!(BaseCandle::from_json("nonsense").is_none());
}

#[test]
fn base_candle_time_loses_its_fraction() {
    let candle = BaseCandle::from_json("[1754529180.9,1,2,3,0]").unwrap();
    assert_eq!(candle.timestamp, 1754529180);
    assert_eq!(
        candle.timestamp(),
        DateTime {
            secs: 1754529180,
            nanos: 0
        }
    );
}

#[test]
fn ticks_are_sorted_before_they_are_compiled() {
    let ticks = vec![tick("62", "3"), tick("1", "1"), tick("61", "2"), tick("2", "5")];
    let candles = compile_candles_from_ticks(&ticks, 60, "TEST");
    let shapes: Vec<_> = candles.iter().map(shape).collect();
    assert_eq!(
        shapes,
        vec![expected(0, "1", "5", "1", "5"), expected(60, "2", "3", "2", "3")]
    );
    assert!(candles.iter().all(|c| c.symbol == "TEST" && c.volume.is_none()));
}

#[test]
fn entries_that_are_no_numbers_count_as_zero() {
    let item = HistoryItem::from_values(&vec!["null".to_string(), "\"x\"".to_string()]).unwrap();
    let (at, value) = item.to_point();
    assert_same(at, "0");
    assert_same(value, "0");
    let three = HistoryItem::from_values(&vec![
        "1000.7".to_string(),
        "1.5".to_string(),
        "null".to_string(),
    ])
    .unwrap();
    let (at, value) = three.to_tick();
    assert_eq!(at, 1000);
    assert_same(value, "1.5");
    assert!(HistoryItem::from_values(&vec!["1".to_string()]).is_none());
}

#[test]
fn points_are_compiled_span_by_span() {
    let points = vec![
        point("101.2", "1.0"),
        point("104.9", "3.0"),
        point("105.0", "2.0"),
        point("111.5", "4.0"),
    ];
    assert!(spans_fit(&points, 5));
    let all = compile_candles_from_history_points(&points, 5, "TEST", true);
    let shapes: Vec<_> = all.iter().map(shape).collect();
    assert_eq!(
        shapes,
        vec![
            expected(100, "1", "3", "1", "3"),
            expected(105, "2", "2", "2", "2"),
            expected(110, "4", "4", "4", "4"),
        ]
    );
    let finished = compile_candles_from_history_points(&points, 5, "TEST", false);
    assert_eq!(finished.len(), 2);
    assert!(compile_candles_from_history_points(&points, 0, "TEST", true).is_empty());
}

#[test]
fn merged_history_leaves_out_the_current_candle() {
    let history = vec![tick("105.5", "1.5"), tick("110.0", "1.6")];
    let candles = vec![row(["100.0", "1.0", "1.4", "1.8", "0.9", "10.0"])];
    let merged = merge_history_ohlc("TEST", 5, Some(&history), Some(&candles));
    let shapes: Vec<_> = merged.iter().map(shape).collect();
    assert_eq!(
        shapes,
        vec![
            expected(100, "1", "1.8", "0.9", "1.4"),
            expected(105, "1.5", "1.5", "1.5", "1.5"),
        ]
    );
    assert!(merge_history_ohlc("TEST", 0, Some(&history), None).is_empty());
}

#[test]
fn merging_keeps_history_over_candles_and_needs_neither() {
    assert!(merge_history_points("TEST", 5, None, None).is_empty());
    let history = vec![tick("200", "1.5")];
    let points = merge_history_points("TEST", 5, Some(&history), None);
    assert_eq!(points.len(), 1);
    assert_same(points[0].price, "1.5");
    let candles = vec![row(["100.0", "1.0", "1.4", "1.8", "0.9", "10.0"])];
    let points = merge_history_points("TEST", 5, None, Some(&candles));
    assert_eq!(points.len(), 4);
}

#[test]
fn candles_take_prices_in() {
    let mut c = Candle::new("TEST".to_string(), 10, Some(decimal("1.5"))).unwrap();
    c.update_price(Some(decimal("1.7"))).unwrap();
    c.update(12, Some(decimal("1.2"))).unwrap();
    assert_eq!(shape(&c), expected(12, "1.5", "1.7", "1.2", "1.2"));
    match c.update_price(None) {
        Err(BinaryOptionsError::General(e)) => assert_eq!(e, "Couldn't parse f64 to Decimal"),
        other => panic!("unexpected {other:?}"),
    }
    match Candle::new("TEST".to_string(), 10, None) {
        Err(BinaryOptionsError::General(e)) => assert_eq!(e, "Couldn't parse f64 to Decimal"),
        other => panic!("unexpected {other:?}"),
    }
}

#[test]
fn candle_measures() {
    let c = candle("1.0", "2.0", "0.5", "1.5");
    assert_eq!(c.price_range().to_string(), "1.5");
    assert_eq!(c.body_size().to_string(), "0.5");
    assert_eq!(c.upper_shadow().to_string(), "0.5");
    assert_eq!(c.lower_shadow().to_string(), "0.5");
    assert!(c.is_bullish());
    assert!(!c.is_bearish());
    assert!(!c.is_doji());
    assert_eq!(c.is_doji_if_held(), Some(false));
    let falling = candle("1.5", "2.0", "0.5", "1.0");
    assert!(falling.is_bearish());
    assert_eq!(falling.body_size().to_string(), "0.5");
    assert_eq!(
        c.datetime(),
        DateTime {
            secs: 1000,
            nanos: 0
        }
    );
}

#[test]
fn a_doji_has_a_small_body_or_no_range() {
    assert!(candle("1.00", "2.0", "1.0", "1.09").is_doji());
    assert!(!candle("1.0", "2.0", "1.0", "1.1").is_doji());
    assert!(candle("1.0", "1.0", "1.0", "1.0").is_doji());
    assert!(!candle("1.0", "1.7", "1.0", "1.07").is_doji());
    assert!(!candle("0.0", "3.0", "0.0", "0.3").is_doji());
    assert!(candle("0.0", "3.0", "0.0", "0.2999999").is_doji());
}

#[test]
fn differences_beyond_the_range_are_not_held() {
    let largest = Decimal::new(79228162514264337593543950335, 0).unwrap();
    let c = Candle {
        symbol: "TEST".to_string(),
        timestamp: 0,
        open: largest.negate(),
        high: largest,
        low: largest.negate(),
        close: largest,
        volume: None,
    };
    assert_eq!(c.is_doji_if_held(), None);
}

#[test]
fn candles_are_made_of_base_candles() {
    let base = BaseCandle::new(
        7,
        price("1.0"),
        price("2.0"),
        price("0.5"),
        price("1.5"),
        Some(price("9")),
    );
    let c = Candle::try_from((base, "TEST".to_string())).unwrap();
    assert_eq!(shape(&c), expected(7, "1", "2", "0.5", "1.5"));
    assert!(c.volume.is_none());
    let single = BaseCandle::from_price(8, price("1.25"));
    assert_same(single.high, "1.25");
    assert_same(single.low, "1.25");
    assert!(single.volume.is_none());
}

#[test]
fn numbers_too_large_for_a_candle_are_named() {
    let good = BaseCandle::new(0, price("1"), price("1"), price("1"), price("1"), None);
    let cases = [
        (BaseCandle { open: Number::Above, ..good }, "Couldn't parse open"),
        (BaseCandle { high: Number::Above, ..good }, "Couldn't parse high"),
        (BaseCandle { low: Number::Below, ..good }, "Couldn't parse low"),
        (BaseCandle { close: Number::Above, ..good }, "Couldn't parse close"),
    ];
    for (base, text) in cases {
        match Candle::try_from((base, "TEST".to_string())) {
            Err(BinaryOptionsError::General(e)) => assert_eq!(e, text),
            other => panic!("unexpected {other:?}"),
        }
    }
}

#[test]
fn a_candle_has_no_volume() {
    let base = BaseCandle::new(
        1754529180,
        price("0.92124"),
        price("0.92162"),
        price("0.92124"),
        price("0.92155"),
        Some(price("100.0")),
    );
    let huge = BaseCandle {
        volume: Some(Number::Above),
        ..base
    };
    for b in [base, huge] {
        let c = Candle::try_from((b, "EURUSD_otc".to_string())).unwrap();
        assert_eq!(
            shape(&c),
            expected(1754529180, "0.92124", "0.92162", "0.92124", "0.92155")
        );
        assert!(c.volume.is_none());
    }
}

#[test]
fn readings_make_up_a_candle() {
    let n = |s: &str| read_price(s);
    let c = BaseCandle::from_readings(n("7.9"), n("1"), n("2"), n("3"), n("0"), None).unwrap();
    assert_eq!(c.timestamp, 7);
    assert_same(c.close, "2");
    assert!(c.volume.is_none());
    let v = BaseCandle::from_readings(n("7"), n("1"), n("2"), n("3"), n("0"), Some(n("5")));
    assert_same(v.unwrap().volume.unwrap(), "5");
    assert!(BaseCandle::from_readings(n("7"), n("1"), n("2"), n("3"), n("0"), Some(None)).is_none());
    assert!(BaseCandle::from_readings(None, n("1"), n("2"), n("3"), n("0"), None).is_none());
    assert!(BaseCandle::from_readings(n("7"), n("1"), n("2"), None, n("0"), None).is_none());
}

#[test]
fn the_order_of_ticks_of_different_seconds_does_not_matter() {
    let sorted = vec![
        tick("1", "1"),
        tick("2", "5"),
        tick("2", "4"),
        tick("61", "2"),
        tick("62", "3"),
    ];
    let mixed = vec![
        tick("62", "3"),
        tick("2", "5"),
        tick("61", "2"),
        tick("2", "4"),
        tick("1", "1"),
    ];
    let shapes = |ticks: &Vec<HistoryItem>| -> Vec<_> {
        compile_candles_from_ticks(ticks, 60, "TEST").iter().map(shape).collect()
    };
    assert_eq!(shapes(&sorted), shapes(&mixed));
    assert_eq!(
        shapes(&mixed),
        vec![expected(0, "1", "5", "1", "4"), expected(60, "2", "3", "2", "3")]
    );
}
