use binary_options_tools::candle::BaseCandle;
use binary_options_tools::clock::Duration;
use binary_options_tools::error::PocketError;
use binary_options_tools::number::Number;
use binary_options_tools::subscription::SubscriptionType;

fn candle(timestamp: i64, open: i64, high: i64, low: i64, close: i64) -> BaseCandle {
    BaseCandle::new(
        timestamp,
        Number::from_integer(open),
        Number::from_integer(high),
        Number::from_integer(low),
        Number::from_integer(close),
        None,
    )
}

fn shape(c: &BaseCandle) -> (i64, i64, i64, i64, i64) {
    (
        c.timestamp,
        c.open.truncate_to_i64(),
        c.high.truncate_to_i64(),
        c.low.truncate_to_i64(),
        c.close.truncate_to_i64(),
    )
}

#[test]
fn every_candle_is_passed_on() {
    let mut sub = SubscriptionType::none();
    let out = sub.update(&candle(5, 1, 4, 0, 2)).unwrap().unwrap();
    assert_eq!(shape(&out), (5, 1, 4, 0, 2));
    assert_eq!(sub.period_secs(), None);
}

#[test]
fn a_chunk_is_finished_by_its_last_candle() {
    let mut sub = SubscriptionType::chunk(3);
    assert!(sub.update(&candle(1, 1, 4, 1, 2)).unwrap().is_none());
    assert!(sub.update(&candle(2, 2, 3, 0, 3)).unwrap().is_none());
    let out = sub.update(&candle(3, 3, 5, 2, 4)).unwrap().unwrap();
    assert_eq!(shape(&out), (3, 1, 5, 0, 4));
    assert!(sub.update(&candle(4, 9, 9, 9, 9)).unwrap().is_none());
}

#[test]
fn a_chunk_of_one_or_none_passes_candles_on() {
    for size in [0, 1] {
        let mut sub = SubscriptionType::chunk(size);
        for t in 0..3 {
            let out = sub.update(&candle(t, t, t, t, t)).unwrap().unwrap();
            assert_eq!(shape(&out), (t, t, t, t, t));
        }
    }
}

#[test]
fn a_time_subscription_waits_for_its_duration() {
    let mut sub = SubscriptionType::time(Duration::from_secs(10));
    assert_eq!(sub.period_secs(), Some(10));
    assert!(sub.update(&candle(100, 1, 1, 1, 1)).unwrap().is_none());
    assert!(sub.update(&candle(109, 2, 5, 2, 2)).unwrap().is_none());
    let out = sub.update(&candle(110, 3, 3, 0, 3)).unwrap().unwrap();
    assert_eq!(shape(&out), (110, 1, 5, 0, 3));
    assert!(sub.update(&candle(111, 7, 7, 7, 7)).unwrap().is_none());
}

#[test]
fn a_time_subscription_refuses_candles_from_before_its_start() {
    let mut sub = SubscriptionType::time(Duration::from_secs(10));
    assert!(sub.update(&candle(100, 1, 1, 1, 1)).unwrap().is_none());
    match sub.update(&candle(99, 1, 1, 1, 1)) {
        Err(PocketError::General(e)) => {
            assert_eq!(e, "Time calculation error in conditional update")
        }
        other => panic!("unexpected {other:?}"),
    }
}

#[test]
fn an_aligned_subscription_finishes_spans() {
    let mut sub = SubscriptionType::time_aligned(Duration::from_secs(5)).unwrap();
    assert_eq!(sub.period_secs(), Some(5));
    assert!(sub.update(&candle(101, 1, 2, 1, 2)).unwrap().is_none());
    assert!(sub.update(&candle(104, 2, 6, 0, 3)).unwrap().is_none());
    let out = sub.update(&candle(105, 4, 4, 4, 4)).unwrap().unwrap();
    assert_eq!(out.timestamp, 100);
    assert_eq!(out.open.truncate_to_i64(), 1);
}

#[test]
fn an_aligned_duration_divides_a_day() {
    match SubscriptionType::time_aligned(Duration::from_secs(7)) {
        Err(PocketError::General(e)) => assert_eq!(
            e,
            "Unsupported duration for time-aligned subscription: 7s, duration should be a multiple of the number of seconds in a day"
        ),
        other => panic!("unexpected {other:?}"),
    }
    assert!(SubscriptionType::time_aligned(Duration::from_secs(86400)).is_ok());
}

#[test]
fn every_chunk_holds_its_own_candles() {
    let mut sub = SubscriptionType::chunk(2);
    let mut out = Vec::new();
    for t in 0..6 {
        if let Some(c) = sub.update(&candle(t, 10 + t, 20 + t, t, 30 + t)).unwrap() {
            out.push(shape(&c));
        }
    }
    assert_eq!(out, vec![(1, 10, 21, 0, 31), (3, 12, 23, 2, 33), (5, 14, 25, 4, 35)]);
}

#[test]
fn an_aligned_candle_holds_the_candles_of_its_span() {
    let mut sub = SubscriptionType::time_aligned(Duration::from_secs(5)).unwrap();
    let volume = |v: i64| Some(Number::from_integer(v));
    let mut out = Vec::new();
    for (t, open, high, low, close, v) in [
        (101, 1, 4, 1, 2, None),
        (103, 2, 3, 0, 3, volume(7)),
        (104, 3, 5, 2, 4, volume(2)),
        (105, 4, 6, 3, 5, volume(1)),
        (117, 6, 6, 6, 6, None),
        (120, 7, 7, 7, 7, None),
    ] {
        let mut next = candle(t, open, high, low, close);
        next.volume = v;
        if let Some(c) = sub.update(&next).unwrap() {
            out.push((shape(&c), c.volume.map(|v| v.truncate_to_i64())));
        }
    }
    assert_eq!(
        out,
        vec![
            ((100, 1, 5, 0, 4), Some(9)),
            ((105, 4, 6, 3, 5), Some(1)),
            ((115, 6, 6, 6, 6), None),
        ]
    );
}
