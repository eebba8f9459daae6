use binary_options_tools::candle::Candle;
use binary_options_tools::candle::CandleItem;
use binary_options_tools::candle::HistoryItem;
use binary_options_tools::clock::Duration;
use binary_options_tools::decimal::Decimal;
use binary_options_tools::error::PocketError;
use binary_options_tools::historical_data::event_frame;
use binary_options_tools::historical_data::read_history_frame;
use binary_options_tools::historical_data::CallEvent;
use binary_options_tools::historical_data::CallStep;
use binary_options_tools::historical_data::Command;
use binary_options_tools::historical_data::CommandResponse;
use binary_options_tools::historical_data::HistoricalDataApiModule;
use binary_options_tools::historical_data::HistoricalDataHandle;
use binary_options_tools::historical_data::HistoryCall;
use binary_options_tools::historical_data::HistoryFrame;
use binary_options_tools::historical_data::HistoryResponse;
use binary_options_tools::historical_data::ServerResponse;
use binary_options_tools::json::read_price;
use binary_options_tools::json::read_time;
use binary_options_tools::message::Message;
use binary_options_tools::number::Number;
use serde_json::Value;

fn numbers(value: &Value) -> Option<Vec<Number>> {
    value
        .as_array()
        .map(|list| list.iter().map(|n| read_price(&n.to_string()).unwrap()).collect())
}

fn items(value: &Value) -> Option<Vec<HistoryItem>> {
    value.as_array().map(|list| {
        list.iter()
            .map(|item| {
                let texts: Vec<String> =
                    item.as_array().unwrap().iter().map(|v| v.to_string()).collect();
                HistoryItem::from_values(&texts).unwrap()
            })
            .collect()
    })
}

fn rows(value: &Value) -> Option<Vec<CandleItem>> {
    value.as_array().map(|list| {
        list.iter()
            .map(|item| {
                let n = |i: usize| read_price(&item[i].to_string()).unwrap();
                CandleItem(read_time(&item[0].to_string()).unwrap(), n(1), n(2), n(3), n(4), n(5))
            })
            .collect()
    })
}

/// The response that a JSON text is.
fn response(text: &str) -> Option<ServerResponse> {
    let value: Value = serde_json::from_str(text).ok()?;
    if let Some(error) = value.as_str() {
        return Some(ServerResponse::Fail(error.to_string()));
    }
    Some(ServerResponse::History(HistoryResponse {
        asset: value.get("asset")?.as_str()?.to_string(),
        period: value.get("period")?.as_u64()? as u32,
        history: items(&value["history"]),
        candles: rows(&value["candles"]),
        o: numbers(&value["o"]),
        h: numbers(&value["h"]),
        l: numbers(&value["l"]),
        c: numbers(&value["c"]),
        timestamps: numbers(&value["t"]),
        v: numbers(&value["v"]),
    }))
}

/// What the module answers to a message.
fn answer(module: &mut HistoricalDataApiModule, message: &Message) -> Option<CommandResponse> {
    let response = HistoricalDataApiModule::readings(message)
        .iter()
        .find_map(|text| response(text))?;
    assert!(module.can_receive(&response));
    module.receive(response)
}

fn text(payload: &str) -> Message {
    Message::Text(payload.to_string())
}

fn get_candles(asset: &str, req_id: u128) -> Command {
    Command::GetCandles {
        asset: asset.to_string(),
        period: 60,
        req_id,
    }
}

fn decimal(text: &str) -> Decimal {
    match read_price(text) {
        Some(Number::Exact(d)) => d,
        other => panic!("no decimal: {other:?}"),
    }
}

#[test]
fn test_historical_data_flow_binary_response() {
    let mut module = HistoricalDataApiModule::new();
    let req_id = 11;
    let asset = "CADJPY_otc";
    let period = 60;

    let sent = module.request(get_candles(asset, req_id));
    let expected = format!(
        "42[\"changeSymbol\",{{\"asset\":\"{}\",\"period\":{}}}]",
        asset, period
    );
    assert_eq!(sent, expected);

    let response_payload = r#"{
            "asset": "CADJPY_otc",
            "period": 60,
            "o": [122.24, 122.204],
            "h": [122.259, 122.272],
            "l": [122.184, 122.204],
            "c": [122.23, 122.243],
            "t": [1766378160, 1766378100]
        }"#;
    let msg = Message::Binary(response_payload.as_bytes().to_vec());
    match answer(&mut module, &msg) {
        Some(CommandResponse::Candles {
            req_id: r_id,
            candles,
        }) => {
            assert_eq!(r_id, req_id);
            assert_eq!(candles.len(), 2);
            assert_eq!(candles[0].timestamp, 1766378160);
            assert!(candles[0].open == Decimal::new(12224, 2).unwrap());
        }
        other => panic!("Expected Candles response, got {other:?}"),
    }
}

#[test]
fn test_historical_data_flow_text_response() {
    let mut module = HistoricalDataApiModule::new();
    let req_id = 12;
    module.request(get_candles("AUDUSD_otc", req_id));

    let response_payload = r#"{
            "asset": "AUDUSD_otc",
            "period": 60,
            "o": [0.59563],
            "h": [0.59563],
            "l": [0.59511],
            "c": [0.59514],
            "t": [1766378160]
        }"#;
    match answer(&mut module, &text(response_payload)) {
        Some(CommandResponse::Candles {
            req_id: r_id,
            candles,
        }) => {
            assert_eq!(r_id, req_id);
            assert_eq!(candles.len(), 1);
            assert_eq!(candles[0].timestamp, 1766378160);
            assert!(candles[0].close == Decimal::new(59514, 5).unwrap());
        }
        other => panic!("Expected Candles response, got {other:?}"),
    }
}

#[test]
fn test_historical_data_mismatch_retry() {
    let mut module = HistoricalDataApiModule::new();
    let req_id = 13;
    module.request(get_candles("EURUSD_otc", req_id));

    let response_payload_mismatch = r#"{
            "asset": "WRONG_ASSET",
            "period": 60,
            "history": []
        }"#;
    assert!(answer(&mut module, &text(response_payload_mismatch)).is_none());

    let response_payload_correct = r#"{
            "asset": "EURUSD_otc",
            "period": 60,
            "history": []
        }"#;
    match answer(&mut module, &text(response_payload_correct)) {
        Some(CommandResponse::Candles { req_id: r_id, .. }) => assert_eq!(r_id, req_id),
        other => panic!("Expected Candles response, got {other:?}"),
    }
}

#[test]
fn test_historical_data_no_pending_request() {
    let mut module = HistoricalDataApiModule::new();
    let response_payload = r#"{
            "asset": "EURUSD_otc",
            "period": 60,
            "history": []
        }"#;
    assert!(
        answer(&mut module, &text(response_payload)).is_none(),
        "Should not receive a response when no request was pending"
    );
}

#[test]
fn test_concurrent_requests() {
    let mut module = HistoricalDataApiModule::new();
    let req_id1 = 21;
    let req_id2 = 22;
    module.request(get_candles("ASSET1", req_id1));
    module.request(get_candles("ASSET2", req_id2));

    let response_payload2 = r#"{
            "asset": "ASSET2",
            "period": 60,
            "history": []
        }"#;
    match answer(&mut module, &text(response_payload2)) {
        Some(CommandResponse::Candles { req_id, .. }) => {
            assert_eq!(
                req_id, req_id2,
                "Should receive response for the second request"
            );
        }
        other => panic!("Expected Candles response, got {other:?}"),
    }

    let response_payload1 = r#"{
            "asset": "ASSET1",
            "period": 60,
            "history": []
        }"#;
    assert!(
        answer(&mut module, &text(response_payload1)).is_none(),
        "Should not receive response for overwritten request"
    );
}

#[test]
fn test_invalid_json_response() {
    let mut module = HistoricalDataApiModule::new();
    let req_id = 31;
    module.request(get_candles("EURUSD_otc", req_id));

    let invalid_payload = "INVALID_JSON_DATA";
    assert!(
        answer(&mut module, &text(invalid_payload)).is_none(),
        "Should not receive response for invalid JSON"
    );

    let valid_payload = r#"{
            "asset": "EURUSD_otc",
            "period": 60,
            "history": []
        }"#;
    match answer(&mut module, &text(valid_payload)) {
        Some(CommandResponse::Candles { req_id: r_id, .. }) => assert_eq!(r_id, req_id),
        other => panic!("Expected Candles response, got {other:?}"),
    }
}

const HISTORY: &str = r#"{"asset":"EURUSD_otc","period":5,
    "history":[[105.5,1.5],[110.0,1.6,null]],
    "candles":[[100,1.0,1.4,1.8,0.9,10]]}"#;

fn ask(command: Command) -> CommandResponse {
    let mut module = HistoricalDataApiModule::new();
    module.request(command);
    let frame = format!("42[\"updateHistoryNewFast\",{HISTORY}]");
    answer(&mut module, &Message::Text(frame)).expect("an answer")
}

#[test]
fn ticks_are_the_entries_of_the_history() {
    let command = Command::GetTicks {
        asset: "EURUSD_otc".to_string(),
        period: 5,
        req_id: 1,
    };
    match ask(command) {
        CommandResponse::Ticks { req_id, ticks } => {
            assert_eq!(req_id, 1);
            assert_eq!(ticks.len(), 2);
            assert_eq!(ticks[0].0, 105);
            assert!(Number::same(ticks[0].1, read_price("1.5").unwrap()));
            assert_eq!(ticks[1].0, 110);
        }
        other => panic!("unexpected {other:?}"),
    }
}

#[test]
fn candles_come_from_the_list_of_candles() {
    let command = Command::GetCandles {
        asset: "EURUSD_otc".to_string(),
        period: 5,
        req_id: 2,
    };
    match ask(command) {
        CommandResponse::Candles { req_id, candles } => {
            assert_eq!(req_id, 2);
            assert_eq!(candles.len(), 1);
            assert_eq!(candles[0].symbol, "EURUSD_otc");
            assert_eq!(candles[0].timestamp, 100);
            assert_eq!(candles[0].high.to_string(), "1.8");
            assert!(candles[0].volume.is_none());
        }
        other => panic!("unexpected {other:?}"),
    }
}

#[test]
fn points_and_closed_candles_merge_history_and_candles() {
    let command = Command::GetHistoryPoints {
        asset: "EURUSD_otc".to_string(),
        period: 5,
        req_id: 3,
    };
    match ask(command) {
        CommandResponse::HistoryPoints { req_id, points } => {
            assert_eq!(req_id, 3);
            assert_eq!(points.len(), 6);
            assert_eq!(points[0].asset, "EURUSD_otc");
        }
        other => panic!("unexpected {other:?}"),
    }
    let command = Command::GetHistoryOhlc {
        asset: "EURUSD_otc".to_string(),
        period: 5,
        req_id: 4,
    };
    match ask(command) {
        CommandResponse::HistoryOhlc { req_id, candles } => {
            assert_eq!(req_id, 4);
            let starts: Vec<i64> = candles.iter().map(|c| c.timestamp).collect();
            assert_eq!(starts, vec![100, 105]);
        }
        other => panic!("unexpected {other:?}"),
    }
}

#[test]
fn an_error_of_the_exchange_is_passed_on_even_unasked() {
    let mut module = HistoricalDataApiModule::new();
    match answer(&mut module, &text("\"no such asset\"")) {
        Some(CommandResponse::Error(e)) => assert_eq!(e, "no such asset"),
        other => panic!("unexpected {other:?}"),
    }
}

#[test]
fn finished_candles_answer_every_kind_of_request() {
    let candle = || Candle {
        symbol: "EURUSD_otc".to_string(),
        timestamp: 60,
        open: decimal("1.0"),
        high: decimal("2.0"),
        low: decimal("0.5"),
        close: decimal("1.5"),
        volume: None,
    };
    let asset = "EURUSD_otc".to_string();
    let mut module = HistoricalDataApiModule::new();
    module.request(Command::GetTicks {
        asset: asset.clone(),
        period: 60,
        req_id: 1,
    });
    match module.receive(ServerResponse::Success(vec![candle()])) {
        Some(CommandResponse::Ticks { req_id, ticks }) => {
            assert_eq!(req_id, 1);
            assert_eq!(ticks[0].0, 60);
            assert!(Number::same(ticks[0].1, read_price("1.5").unwrap()));
        }
        other => panic!("unexpected {other:?}"),
    }
    assert!(module.receive(ServerResponse::Success(vec![candle()])).is_none());
    module.request(Command::GetHistoryPoints {
        asset,
        period: 60,
        req_id: 2,
    });
    match module.receive(ServerResponse::Success(vec![candle()])) {
        Some(CommandResponse::HistoryPoints { req_id, points }) => {
            assert_eq!(req_id, 2);
            assert_eq!(points[0].asset, "EURUSD_otc");
            assert!(Number::same(points[0].time, Number::from_integer(60)));
        }
        other => panic!("unexpected {other:?}"),
    }
}

#[test]
fn frames_of_history() {
    assert!(matches!(
        read_history_frame("451-[\"updateHistoryNewFast\",{\"_placeholder\":true,\"num\":0}]"),
        HistoryFrame::Placeholder
    ));
    match read_history_frame("42[\"updateHistory\",{\"asset\":\"A\"}]") {
        HistoryFrame::Payload(text) => {
            let value: Value = serde_json::from_str(&text).unwrap();
            assert_eq!(value["asset"], "A");
        }
        other => panic!("unexpected {other:?}"),
    }
    assert!(matches!(
        read_history_frame("42[\"updateStream\",[]]"),
        HistoryFrame::Nothing
    ));
    assert!(matches!(read_history_frame("hello"), HistoryFrame::Nothing));
}

fn candles(req_id: u128) -> CallEvent {
    CallEvent::Response(CommandResponse::Candles {
        req_id,
        candles: vec![],
    })
}

#[test]
fn a_call_ends_with_its_own_answer() {
    let (mut call, command) = HistoryCall::candles("EURUSD_otc".to_string(), 60, 5);
    assert!(matches!(command, Command::GetCandles { req_id: 5, period: 60, .. }));
    let other_kind = CallEvent::Response(CommandResponse::Ticks {
        req_id: 5,
        ticks: vec![],
    });
    assert!(matches!(call.hear(other_kind), CallStep::Wait));
    assert!(matches!(call.hear(candles(4)), CallStep::Wait));
    assert!(matches!(
        call.hear(candles(5)),
        CallStep::Finish(Ok(CommandResponse::Candles { req_id: 5, .. }))
    ));
}

#[test]
fn a_call_is_given_up_at_the_fifth_answer_to_another() {
    let (mut call, _) = HistoryCall::history_ohlc("EURUSD_otc".to_string(), 60, 5);
    let foreign = || {
        CallEvent::Response(CommandResponse::HistoryOhlc {
            req_id: 4,
            candles: vec![],
        })
    };
    for _ in 0..4 {
        assert!(matches!(call.hear(foreign()), CallStep::Wait));
    }
    match call.hear(foreign()) {
        CallStep::Finish(Err(PocketError::Timeout {
            task,
            context,
            duration,
        })) => {
            assert_eq!(task, "history_ohlc");
            assert_eq!(context, "asset: EURUSD_otc, period: 60, exceeded mismatch retries");
            assert_eq!(duration, Duration::from_secs(30));
        }
        _ => panic!("expected a timeout"),
    }
}

#[test]
fn a_call_hears_errors_and_silence() {
    let (mut call, command) = HistoryCall::ticks("EURUSD_otc".to_string(), 60, 5);
    assert!(matches!(command, Command::GetTicks { .. }));
    let error = CallEvent::Response(CommandResponse::Error("no".to_string()));
    match call.hear(error) {
        CallStep::Finish(Err(PocketError::General(e))) => assert_eq!(e, "no"),
        _ => panic!("expected an error"),
    }
    let (mut call, command) = HistoryCall::history_points("EURUSD_otc".to_string(), 60, 5);
    assert!(matches!(command, Command::GetHistoryPoints { .. }));
    match call.hear(CallEvent::TimedOut) {
        CallStep::Finish(Err(PocketError::Timeout { task, context, .. })) => {
            assert_eq!(task, "history_points");
            assert_eq!(context, "asset: EURUSD_otc, period: 60");
        }
        _ => panic!("expected a timeout"),
    }
}

#[test]
fn new_calls_have_new_identifiers() {
    let asset = || "EURUSD_otc".to_string();
    let (mut call, command) = HistoricalDataHandle::candles(asset(), 60);
    let id = match command {
        Command::GetCandles { req_id, .. } => req_id,
        other => panic!("unexpected {other:?}"),
    };
    assert!(matches!(call.hear(candles(id)), CallStep::Finish(Ok(_))));
    match HistoricalDataHandle::get_history(asset(), 60).1 {
        Command::GetCandles { req_id, .. } => assert_ne!(req_id, id),
        other => panic!("unexpected {other:?}"),
    }
    assert!(matches!(HistoricalDataHandle::ticks(asset(), 60).1, Command::GetTicks { .. }));
    assert!(matches!(
        HistoricalDataHandle::history_points(asset(), 60).1,
        Command::GetHistoryPoints { .. }
    ));
    assert!(matches!(
        HistoricalDataHandle::history_ohlc(asset(), 60).1,
        Command::GetHistoryOhlc { .. }
    ));
}

#[test]
fn responses_are_tried_in_turn() {
    let event = "42[\"updateHistoryNew\",{\"asset\":\"A\"}]";
    assert_eq!(
        HistoricalDataApiModule::readings(&text(event)),
        vec![event, "{\"asset\":\"A\"}"]
    );
    let header = "451-[\"updateHistoryNew\",{\"_placeholder\":true,\"num\":0}]";
    assert_eq!(HistoricalDataApiModule::readings(&text(header)), vec![header]);
    let binary = Message::Binary(b"{}".to_vec());
    assert_eq!(HistoricalDataApiModule::readings(&binary), vec!["{}"]);
    assert!(HistoricalDataApiModule::readings(&Message::Close(None)).is_empty());
}

#[test]
fn events_whose_name_begins_with_update_history_carry_it() {
    let name = |s: &str| Some(s.to_string());
    match event_frame(name("updateHistoryNew"), false, "{}") {
        HistoryFrame::Payload(text) => assert_eq!(text, "{}"),
        other => panic!("unexpected {other:?}"),
    }
    assert!(matches!(
        event_frame(name("updateHistory"), true, "{}"),
        HistoryFrame::Placeholder
    ));
    assert!(matches!(event_frame(name("update"), true, "{}"), HistoryFrame::Nothing));
    assert!(matches!(event_frame(None, false, "{}"), HistoryFrame::Nothing));
}

#[test]
fn data_goes_to_the_last_request_and_once() {
    let mut module = HistoricalDataApiModule::new();
    let frame = Message::Text(format!("42[\"updateHistoryNewFast\",{HISTORY}]"));
    let ask = |asset: &str, req_id: u128| Command::GetCandles {
        asset: asset.to_string(),
        period: 5,
        req_id,
    };
    let mut heard = Vec::new();
    module.request(ask("EURUSD_otc", 1));
    module.request(ask("GBPUSD_otc", 2));
    heard.push(answer(&mut module, &frame));
    module.request(ask("EURUSD_otc", 3));
    heard.push(answer(&mut module, &text("hello")));
    heard.push(answer(&mut module, &frame));
    heard.push(answer(&mut module, &frame));
    let ids: Vec<Option<u128>> = heard
        .into_iter()
        .map(|r| match r {
            Some(CommandResponse::Candles { req_id, .. }) => Some(req_id),
            None => None,
            other => panic!("unexpected {other:?}"),
        })
        .collect();
    assert_eq!(ids, vec![None, None, Some(3), None]);
}
