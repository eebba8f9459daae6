use binary_options_tools::candle::CandleItem;
use binary_options_tools::candle::HistoryItem;
use binary_options_tools::chart_stream::read_history_payload;
use binary_options_tools::chart_stream::read_stream_rows;
use binary_options_tools::chart_stream::ChartHistory;
use binary_options_tools::chart_stream::ChartStreamApiModule;
use binary_options_tools::chart_stream::ChartStreamHandle;
use binary_options_tools::chart_stream::Command;
use binary_options_tools::chart_stream::CommandResponse;
use binary_options_tools::chart_stream::Delivery;
use binary_options_tools::chart_stream::HistoryStreamEvent;
use binary_options_tools::chart_stream::HistoryStreamMode;
use binary_options_tools::chart_stream::StreamRow;
use binary_options_tools::decimal::Decimal;
use binary_options_tools::error::PocketError;
use binary_options_tools::json::read_array;
use binary_options_tools::json::read_price;
use binary_options_tools::json::read_time;
use binary_options_tools::message::Message;
use binary_options_tools::number::Number;
use binary_options_tools::probe::assert_only_change_symbol;
use serde_json::Value;

fn text(payload: &str) -> Message {
    Message::Text(payload.to_string())
}

fn history(payload: &str) -> ChartHistory {
    let value: Value = serde_json::from_str(payload).unwrap();
    let history = value["history"].as_array().map(|list| {
        list.iter()
            .map(|item| HistoryItem::from_values(&read_array(&item.to_string()).unwrap()).unwrap())
            .collect()
    });
    let candles = value["candles"].as_array().map(|list| {
        list.iter()
            .map(|item| {
                let n = |i: usize| read_price(&item[i].to_string()).unwrap();
                CandleItem(read_time(&item[0].to_string()).unwrap(), n(1), n(2), n(3), n(4), n(5))
            })
            .collect()
    });
    ChartHistory {
        asset: value["asset"].as_str().unwrap().to_string(),
        period: value["period"].as_u64().unwrap() as u32,
        history,
        candles,
    }
}

fn start(
    module: &mut ChartStreamApiModule,
    asset: &str,
    period: u32,
    mode: HistoryStreamMode,
    sender: u64,
) {
    let (id, command) =
        ChartStreamHandle::subscribe_with_history_mode(asset.to_string(), period, mode);
    let response = module.start_stream(command, sender, Ok(()));
    assert_eq!(ChartStreamHandle::hear(id, response).unwrap().unwrap(), sender);
}

/// The events of the history that a message brings, if a stream waits for it.
fn bring_history(
    module: &mut ChartStreamApiModule,
    message: &Message,
) -> Option<Vec<HistoryStreamEvent>> {
    let history = history(&read_history_payload(message)?);
    assert!(module.can_take_history(&history));
    let bootstrap = module.take_history(&history)?;
    module.activate(bootstrap.stream);
    Some(bootstrap.events)
}

fn bring_rows(module: &mut ChartStreamApiModule, message: &Message) -> Vec<Delivery> {
    let mut deliveries = Vec::new();
    for row in read_stream_rows(message) {
        deliveries.append(&mut module.take_row(&row));
    }
    deliveries
}

fn assert_point(event: &HistoryStreamEvent, asset: &str, time: &str, price: &str) {
    match event {
        HistoryStreamEvent::Point(point) => {
            assert_eq!(point.asset, asset);
            assert!(Number::same(point.time, read_time(time).unwrap()));
            assert!(Number::same(point.price, read_price(price).unwrap()));
        }
        event => panic!("expected point, got {event:?}"),
    }
}

fn only(mut deliveries: Vec<Delivery>, sender: u64) -> HistoryStreamEvent {
    assert_eq!(deliveries.len(), 1);
    let (to, event) = deliveries.remove(0);
    assert_eq!(to, sender);
    event.expect("ok event")
}

fn dec(mantissa: i128, scale: u32) -> Decimal {
    Decimal::new(mantissa, scale).unwrap()
}

#[test]
fn subscribe_with_history_points_sends_one_change_symbol_and_filters_live_rows() {
    let mut module = ChartStreamApiModule::new();
    let asset = "EURUSD_otc";
    let period = 5;
    let command = Command::SubscribeWithHistory {
        asset: asset.to_string(),
        period,
        mode: HistoryStreamMode::Points,
        command_id: 1,
    };
    let sent = ChartStreamApiModule::request(&command);
    assert_eq!(
        sent,
        format!(r#"42["changeSymbol",{{"asset":"{asset}","period":{period}}}]"#)
    );
    assert!(assert_only_change_symbol(&vec![sent]).is_ok());
    start(&mut module, asset, period, HistoryStreamMode::Points, 9);

    let events = bring_history(
        &mut module,
        &text(r#"42["updateHistoryNewFast",{"asset":"EURUSD_otc","period":5,"history":[[100,1.10],[105,1.20]]}]"#),
    )
    .expect("history delivered");
    assert_eq!(events.len(), 2);
    assert_point(&events[0], asset, "100.0", "1.10");
    assert_point(&events[1], asset, "105.0", "1.20");

    let stale = text(r#"42["updateStream",[["EURUSD_otc",105,1.30]]]"#);
    assert!(bring_rows(&mut module, &stale).is_empty());

    let wrong_asset = text(r#"42["updateStream",[["GBPUSD_otc",106,1.40]]]"#);
    assert!(bring_rows(&mut module, &wrong_asset).is_empty());

    let live = text(r#"42["updateStream",[["EURUSD_otc",106,1.50]]]"#);
    let event = only(bring_rows(&mut module, &live), 9);
    assert_point(&event, asset, "106.0", "1.50");

    let fractional = text(r#"42["updateStream",[["EURUSD_otc",106.5,1.60]]]"#);
    let event = only(bring_rows(&mut module, &fractional), 9);
    assert_point(&event, asset, "106.5", "1.60");
}

#[test]
fn subscribe_with_history_ohlc_bootstraps_candles_and_uses_subscription_time_update_for_live_rows()
{
    let mut module = ChartStreamApiModule::new();
    let asset = "EURUSD_otc";
    let period = 2;
    let command = Command::SubscribeWithHistory {
        asset: asset.to_string(),
        period,
        mode: HistoryStreamMode::Ohlc,
        command_id: 1,
    };
    let sent = ChartStreamApiModule::request(&command);
    assert_eq!(
        sent,
        format!(r#"42["changeSymbol",{{"asset":"{asset}","period":{period}}}]"#)
    );
    assert!(assert_only_change_symbol(&vec![sent]).is_ok());
    start(&mut module, asset, period, HistoryStreamMode::Ohlc, 3);

    let events = bring_history(
        &mut module,
        &text(r#"42["updateHistoryNew",{"asset":"EURUSD_otc","period":2,"history":[[100,1.0],[101,1.2],[102,1.3],[103,1.1],[104,1.4]]}]"#),
    )
    .expect("history delivered");
    assert_eq!(events.len(), 2);
    match &events[0] {
        HistoryStreamEvent::Candle(candle) => {
            assert_eq!(candle.symbol, asset);
            assert_eq!(candle.timestamp, 100);
            assert!(candle.open == dec(10, 1));
            assert!(candle.close == dec(12, 1));
        }
        event => panic!("expected candle, got {event:?}"),
    }
    match &events[1] {
        HistoryStreamEvent::Candle(candle) => {
            assert_eq!(candle.symbol, asset);
            assert_eq!(candle.timestamp, 102);
            assert!(candle.open == dec(13, 1));
            assert!(candle.close == dec(11, 1));
        }
        event => panic!("expected candle, got {event:?}"),
    }

    let ignored = text(r#"42["updateStream",[["EURUSD_otc",104,1.8],["GBPUSD_otc",105,1.9]]]"#);
    assert!(bring_rows(&mut module, &ignored).is_empty());

    let mut live = Vec::new();
    for (timestamp, price) in [(105, 2.0), (106, 2.2), (107, 1.9)] {
        let message = Message::Text(format!(
            r#"42["updateStream",[["EURUSD_otc",{timestamp},{price}]]]"#
        ));
        live.append(&mut bring_rows(&mut module, &message));
    }
    match only(live, 3) {
        HistoryStreamEvent::Candle(candle) => {
            assert_eq!(candle.symbol, asset);
            assert_eq!(candle.timestamp, 107);
            assert!(candle.open == dec(20, 1));
            assert!(candle.high == dec(22, 1));
            assert!(candle.low == dec(19, 1));
            assert!(candle.close == dec(19, 1));
        }
        event => panic!("expected live candle, got {event:?}"),
    }
}

#[test]
fn a_history_goes_to_the_first_stream_that_waits_for_it() {
    let mut module = ChartStreamApiModule::new();
    start(&mut module, "A", 5, HistoryStreamMode::Points, 1);
    start(&mut module, "A", 5, HistoryStreamMode::Points, 2);
    start(&mut module, "B", 5, HistoryStreamMode::Points, 3);
    let message = text(r#"42["updateHistoryNew",{"asset":"A","period":5,"history":[[100,1.0]]}]"#);
    let row = text(r#"42["updateStream",[["A",101,1.1]]]"#);

    let history = history(&read_history_payload(&message).unwrap());
    let bootstrap = module.take_history(&history).unwrap();
    assert_eq!(bootstrap.sender, 1);
    assert!(bring_rows(&mut module, &row).is_empty());
    module.activate(bootstrap.stream);
    assert!(matches!(only(bring_rows(&mut module, &row), 1), HistoryStreamEvent::Point(_)));
    assert!(bring_history(&mut module, &message).is_some());
    assert!(matches!(only(bring_rows(&mut module, &row), 2), HistoryStreamEvent::Point(_)));
    assert!(bring_history(&mut module, &message).is_none());
}

#[test]
fn an_empty_history_lets_every_price_through() {
    let mut module = ChartStreamApiModule::new();
    start(&mut module, "A", 5, HistoryStreamMode::Points, 1);
    let message = text(r#"42["updateHistoryNew",{"asset":"A","period":5}]"#);
    assert_eq!(bring_history(&mut module, &message).unwrap().len(), 0);
    let row = text(r#"42["updateStream",[["A",1,1.1]]]"#);
    assert_point(&only(bring_rows(&mut module, &row), 1), "A", "1", "1.1");
}

#[test]
fn histories_are_read_from_events_and_from_bare_objects() {
    let bare = Message::Binary(br#"{"asset":"A","period":5}"#.to_vec());
    assert!(read_history_payload(&bare).is_some());
    assert!(read_history_payload(&text(r#"{"asset":"A"}"#)).is_none());
    assert!(read_history_payload(&text(r#"42["updateStream",[]]"#)).is_none());
    assert!(read_history_payload(&Message::Ping(vec![])).is_none());
    let event = text(r#"42["updateHistoryNewFast",{"asset":"A","period":5}]"#);
    assert_eq!(history(&read_history_payload(&event).unwrap()).asset, "A");
}

#[test]
fn rows_are_read_from_events_and_from_bare_lists() {
    let bare = text(r#"[["A",1,2.5],["B",3,4.5]]"#);
    let rows = read_stream_rows(&bare);
    assert_eq!(rows.len(), 2);
    assert_eq!(rows[1].asset, "B");
    assert_eq!(rows[1].price.to_string(), "4.5");
    let partly = text(r#"42["updateStream",[["A",1,2.5],["B"],[1,2,3],["C",3,4.5]]]"#);
    let names: Vec<String> = read_stream_rows(&partly).into_iter().map(|r| r.asset).collect();
    assert_eq!(names, vec!["A", "C"]);
    assert!(read_stream_rows(&text(r#"42["updateStream"]"#)).is_empty());
    assert!(read_stream_rows(&text("hello")).is_empty());
}

#[test]
fn a_subscription_hears_only_its_own_response() {
    let subscribed = |id| CommandResponse::Subscribed {
        command_id: id,
        stream_receiver: 17,
    };
    assert!(ChartStreamHandle::hear(1, subscribed(2)).is_none());
    assert_eq!(ChartStreamHandle::hear(1, subscribed(1)).unwrap().unwrap(), 17);
    let failed = |id| CommandResponse::Failed {
        command_id: id,
        error: PocketError::General("no".to_string()),
    };
    assert!(ChartStreamHandle::hear(1, failed(2)).is_none());
    match ChartStreamHandle::hear(1, failed(1)) {
        Some(Err(PocketError::General(e))) => assert_eq!(e, "no"),
        other => panic!("unexpected {other:?}"),
    }
}

#[test]
fn a_subscription_that_is_not_sent_fails() {
    let mut module = ChartStreamApiModule::new();
    let (id, command) =
        ChartStreamHandle::subscribe_with_history_mode("A".to_string(), 5, HistoryStreamMode::Ohlc);
    let error = PocketError::General("closed".to_string());
    let response = module.start_stream(command, 1, Err(error));
    match ChartStreamHandle::hear(id, response) {
        Some(Err(PocketError::General(e))) => assert_eq!(e, "closed"),
        other => panic!("unexpected {other:?}"),
    }
    let message = text(r#"42["updateHistoryNew",{"asset":"A","period":5}]"#);
    assert!(bring_history(&mut module, &message).is_none());
}

#[test]
fn readings_make_up_a_row() {
    let asset = || Some("A".to_string());
    let row = StreamRow::from_readings(asset(), read_time("1.5"), Some(dec(25, 1))).unwrap();
    assert_eq!(row.asset, "A");
    assert!(row.price == dec(25, 1));
    assert!(StreamRow::from_readings(None, read_time("1.5"), Some(dec(25, 1))).is_none());
    assert!(StreamRow::from_readings(asset(), None, Some(dec(25, 1))).is_none());
    assert!(StreamRow::from_readings(asset(), read_time("1.5"), None).is_none());
    assert!(read_stream_rows(&text(r#"[["A",1,1e30]]"#)).is_empty());
}
