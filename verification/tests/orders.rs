use binary_options_tools::clock::DateTime;
use binary_options_tools::clock::Duration;
use binary_options_tools::decimal::Decimal;
use binary_options_tools::deals::Command as DealsCommand;
use binary_options_tools::deals::DealsAction;
use binary_options_tools::deals::DealsApiModule;
use binary_options_tools::deals::DealsHandle;
use binary_options_tools::deals::DealsOutcome;
use binary_options_tools::deals::DealsUpdateRule;
use binary_options_tools::deals::ExpectedMessage;
use binary_options_tools::deals::WaitOutcome;
use binary_options_tools::error::CoreError;
use binary_options_tools::error::PocketError;
use binary_options_tools::message::Message;
use binary_options_tools::trades::read_trade_payload;
use binary_options_tools::trades::reports_order;
use binary_options_tools::trades::Command;
use binary_options_tools::trades::FailOpenOrder;
use binary_options_tools::trades::TradesApiModule;
use binary_options_tools::trades::TradesHandle;
use binary_options_tools::types::Action;
use binary_options_tools::types::Deal;
use binary_options_tools::types::RequestId;

fn dec(mantissa: i128, scale: u32) -> Decimal {
    Decimal::new(mantissa, scale).unwrap()
}

fn deal(id: u128, asset: &str, amount: Decimal, request_id: Option<RequestId>) -> Deal {
    let at = DateTime {
        secs: 1000,
        nanos: 0,
    };
    Deal {
        id,
        asset: asset.to_string(),
        amount,
        open_price: dec(1, 0),
        close_price: dec(1, 0),
        open_timestamp: at,
        close_timestamp: at,
        profit: dec(0, 0),
        percent_profit: 80,
        percent_loss: 100,
        command: 0,
        uid: 1,
        request_id,
        open_time: String::new(),
        close_time: String::new(),
        refund_time: None,
        refund_timestamp: None,
        is_demo: 1,
        copy_ticket: String::new(),
        open_ms: 0,
        close_ms: None,
        option_type: 100,
        is_rollover: None,
        is_copy_signal: None,
        is_ai: None,
        currency: "USD".to_string(),
        amount_usd: None,
        amount_usd2: None,
    }
}

fn order_for(action: Action, amount: Decimal, n: u64) -> Command {
    TradesHandle::trade_with_id(
        "EURUSD".to_string(),
        action,
        amount,
        60,
        n as u128,
        100 + n,
        10 + n,
    )
}

/// A module with three orders: two alike, and one of another amount.
fn with_orders() -> TradesApiModule {
    let mut module = TradesApiModule::new();
    let order = module.open_order(order_for(Action::Call, dec(10, 0), 1), true);
    assert_eq!(order.asset, "EURUSD");
    assert_eq!(order.action, Action::Call);
    assert_eq!(order.time, 60);
    assert_eq!(order.is_demo, 1);
    assert_eq!(order.wire_req_id, 101);
    let second = module.open_order(order_for(Action::Put, dec(100, 1), 2), false);
    assert_eq!(second.is_demo, 0);
    module.open_order(order_for(Action::Put, dec(5, 0), 3), false);
    module
}

#[test]
fn a_success_is_matched_by_identifier_or_number() {
    let mut module = with_orders();
    let m = module.success(&deal(9, "EURUSD", dec(10, 0), Some(RequestId::Number(102))));
    assert_eq!((m.req_id, m.responder), (Some(2), Some(12)));
    let again = module.success(&deal(9, "EURUSD", dec(10, 0), Some(RequestId::Number(102))));
    assert_eq!((again.req_id, again.responder), (None, None));
    let m = module.success(&deal(9, "EURUSD", dec(10, 0), Some(RequestId::Uuid(1))));
    assert_eq!((m.req_id, m.responder), (Some(1), Some(11)));
    let unknown = module.success(&deal(9, "EURUSD", dec(10, 0), Some(RequestId::Uuid(77))));
    assert_eq!((unknown.req_id, unknown.responder), (Some(77), None));
}

#[test]
fn a_success_without_a_name_goes_to_the_oldest_order() {
    let mut module = with_orders();
    let m = module.success(&deal(9, "EURUSD", dec(10, 0), None));
    assert_eq!((m.req_id, m.responder), (Some(1), Some(11)));
    let m = module.success(&deal(9, "EURUSD", dec(10, 0), None));
    assert_eq!((m.req_id, m.responder), (Some(2), Some(12)));
    let m = module.success(&deal(9, "EURUSD", dec(10, 0), None));
    assert_eq!((m.req_id, m.responder), (None, None));
}

#[test]
fn failures_are_answered_first_in_first_out() {
    let mut module = with_orders();
    let m = module.failure("EURUSD", dec(10, 0));
    assert_eq!((m.req_id, m.responder), (Some(1), Some(11)));
    let m = module.failure("EURUSD", dec(5, 0));
    assert_eq!((m.req_id, m.responder), (Some(3), Some(13)));
    let m = module.failure("GBPUSD", dec(10, 0));
    assert_eq!((m.req_id, m.responder), (None, None));
    let m = module.failure("EURUSD", dec(10, 0));
    assert_eq!((m.req_id, m.responder), (Some(2), Some(12)));
}

#[test]
fn an_unsent_order_leaves_no_trace() {
    let mut module = with_orders();
    assert_eq!(module.send_failed("EURUSD", dec(10, 0), 1, 101), Some(11));
    assert_eq!(module.send_failed("EURUSD", dec(10, 0), 1, 101), None);
    let m = module.success(&deal(9, "EURUSD", dec(10, 0), Some(RequestId::Number(101))));
    assert_eq!((m.req_id, m.responder), (None, None));
    let m = module.failure("EURUSD", dec(10, 0));
    assert_eq!((m.req_id, m.responder), (Some(2), Some(12)));
}

#[test]
fn refusals_and_dropped_orders_are_told() {
    let fail = FailOpenOrder {
        error: "amount_to_low".to_string(),
        amount: dec(1, 0),
        asset: "EURUSD".to_string(),
    };
    match TradesApiModule::refusal(&fail) {
        PocketError::FailOpenOrder {
            error,
            amount,
            asset,
        } => {
            assert_eq!(error, "amount_to_low");
            assert_eq!(amount.to_string(), "1");
            assert_eq!(asset, "EURUSD");
        }
        other => panic!("unexpected {other:?}"),
    }
    match TradesHandle::trade_result(None) {
        Err(PocketError::General(e)) => assert_eq!(e, "TradesApiModule responder dropped"),
        other => panic!("unexpected {other:?}"),
    }
    let opened = TradesHandle::trade_result(Some(Ok(deal(9, "EURUSD", dec(1, 0), None)))).unwrap();
    assert_eq!(opened.id, 9);
}

#[test]
fn reports_are_read_from_events() {
    assert_eq!(
        read_trade_payload("451-[\"successopenOrder\",{\"id\":1}]").unwrap(),
        "{\"id\":1}"
    );
    assert_eq!(read_trade_payload("42[\"failopenOrder\",7]").unwrap(), "7");
    assert!(read_trade_payload("42[\"successcloseOrder\",{}]").is_none());
    assert!(read_trade_payload("42[\"successopenOrder\"]").is_none());
    assert!(read_trade_payload("hello").is_none());
}

fn text(s: &str) -> Message {
    Message::Text(s.to_string())
}

fn deals_rule() -> DealsUpdateRule {
    DealsUpdateRule::new(vec![
        "451-[\"updateOpenedDeals\",".to_string(),
        "451-[\"successcloseOrder\",".to_string(),
    ])
}

#[test]
fn the_deals_rule_takes_a_header_and_its_body() {
    let mut rule = deals_rule();
    let header = text("451-[\"updateOpenedDeals\",{\"_placeholder\":true,\"num\":0}]");
    assert!(rule.call(&header));
    assert!(rule.call(&Message::Binary(vec![1])));
    assert!(!rule.call(&Message::Binary(vec![1])));
    assert!(rule.call(&text("451-[\"successcloseOrder\",]")));
    assert!(!rule.call(&text("42[\"updateStream\",[]]")));
    assert!(!rule.call(&Message::Ping(vec![])));
    assert!(rule.call(&text("[]")));
    assert!(!rule.call(&text("[]")));
}

#[test]
fn the_deals_rule_accepts_data_at_once_and_forgets() {
    let mut rule = deals_rule();
    assert!(rule.call(&text("451-[\"updateOpenedDeals\",[{}]]")));
    assert!(!rule.call(&Message::Binary(vec![1])));
    assert!(rule.call(&text("451-[\"updateOpenedDeals\",")));
    rule.reset();
    assert!(!rule.call(&Message::Binary(vec![1])));
    assert!(!rule.call(&text("451-[\"updateClosedDeals\",[]]")));
}

#[test]
fn data_follows_its_header() {
    let mut module = DealsApiModule::new();
    assert!(matches!(module.message(&Message::Binary(vec![])), DealsAction::Ignore));
    assert!(matches!(module.message(&text("hello")), DealsAction::Ignore));
    let header = "451-[\"updateClosedDeals\",{\"_placeholder\":true,\"num\":0}]";
    assert!(matches!(module.message(&text(header)), DealsAction::Await));
    assert!(matches!(module.message(&Message::Ping(vec![])), DealsAction::Ignore));
    assert!(matches!(
        module.message(&Message::Binary(vec![1])),
        DealsAction::ReadBinary {
            kind: ExpectedMessage::UpdateClosedDeals
        }
    ));
    assert!(matches!(module.message(&text("451-[\"successcloseOrder\",]")), DealsAction::Await));
    match module.message(&text("{}")) {
        DealsAction::ReadText { kind, data } => {
            assert_eq!(kind, ExpectedMessage::SuccessCloseOrder);
            assert_eq!(data, "{}");
        }
        other => panic!("unexpected {other:?}"),
    }
    match module.message(&text("451-[\"updateOpenedDeals\", [1,2] ]")) {
        DealsAction::ReadText { kind, data } => {
            assert_eq!(kind, ExpectedMessage::UpdateOpenedDeals);
            assert_eq!(data, "[1,2] ");
        }
        other => panic!("unexpected {other:?}"),
    }
    assert!(matches!(module.message(&text("{}")), DealsAction::Ignore));
}

fn plain(id: u128) -> Deal {
    deal(id, "EURUSD", dec(1, 0), None)
}

#[test]
fn whoever_waits_hears_the_result_once() {
    let mut module = DealsApiModule::new();
    assert!(module.check_result(DealsCommand::CheckResult(5, 50), true, None).is_none());
    assert!(module.check_result(DealsCommand::CheckResult(5, 51), true, None).is_none());
    assert!(module.check_result(DealsCommand::CheckResult(6, 60), true, None).is_none());
    match module.process(ExpectedMessage::UpdateOpenedDeals, None, Some(vec![plain(5)])) {
        DealsOutcome::Opened(deals) => assert_eq!(deals.len(), 1),
        other => panic!("unexpected {other:?}"),
    }
    match module.process(ExpectedMessage::UpdateClosedDeals, None, Some(vec![plain(4), plain(5)])) {
        DealsOutcome::Closed { deals, answers } => {
            assert_eq!(deals.len(), 2);
            let told: Vec<(u64, u128)> = answers.iter().map(|(w, d)| (*w, d.id)).collect();
            assert_eq!(told, vec![(50, 5), (51, 5)]);
        }
        other => panic!("unexpected {other:?}"),
    }
    match module.process(ExpectedMessage::SuccessCloseOrder, Some(vec![plain(5), plain(6)]), None) {
        DealsOutcome::Closed { answers, .. } => {
            let told: Vec<(u64, u128)> = answers.iter().map(|(w, d)| (*w, d.id)).collect();
            assert_eq!(told, vec![(60, 6)]);
        }
        other => panic!("unexpected {other:?}"),
    }
    assert!(matches!(
        module.process(ExpectedMessage::SuccessCloseOrder, None, None),
        DealsOutcome::Unread
    ));
    assert!(matches!(
        module.process(ExpectedMessage::Nothing, None, Some(vec![])),
        DealsOutcome::Unread
    ));
}

#[test]
fn a_question_for_a_deal_is_answered_at_once_where_it_can_be() {
    let mut module = DealsApiModule::new();
    assert_eq!(module.check_result(DealsCommand::CheckResult(5, 50), false, Some(plain(5))).unwrap().unwrap().id, 5);
    assert!(matches!(
        module.check_result(DealsCommand::CheckResult(5, 50), false, None),
        Some(Err(PocketError::DealNotFound(5)))
    ));
}

#[test]
fn new_trades_have_new_identifiers() {
    let id = |cmd| match cmd {
        Command::OpenOrder {
            asset,
            action,
            req_id,
            wire_req_id,
            responder,
            ..
        } => {
            assert_eq!((asset.as_str(), wire_req_id, responder), ("A", 1, 2));
            (action, req_id)
        }
    };
    let (call, first) = id(TradesHandle::buy("A".to_string(), dec(1, 0), 60, 1, 2));
    let (put, second) = id(TradesHandle::sell("A".to_string(), dec(1, 0), 60, 1, 2));
    assert_eq!((call, put), (Action::Call, Action::Put));
    assert_ne!(first, second);
}

#[test]
fn reports_are_tried_in_turn() {
    let event = "451-[\"successopenOrder\",{\"id\":1}]";
    assert_eq!(TradesApiModule::readings(&text(event)), vec![event, "{\"id\":1}"]);
    assert_eq!(TradesApiModule::readings(&text("{}")), vec!["{}"]);
    assert_eq!(TradesApiModule::readings(&Message::Binary(b"{}".to_vec())), vec!["{}"]);
    assert!(TradesApiModule::readings(&Message::Binary(vec![0xff])).is_empty());
    assert!(TradesApiModule::readings(&Message::Ping(vec![])).is_empty());
}

#[test]
fn the_deals_module_has_its_rule() {
    let mut rule = DealsApiModule::rule();
    assert!(rule.call(&text("451-[\"updateClosedDeals\",[]]")));
    assert!(rule.call(&text("451-[\"updateOpenedDeals\",[]]")));
    assert!(rule.call(&text("451-[\"successcloseOrder\",[]]")));
    assert!(!rule.call(&text("451-[\"successopenOrder\",[]]")));
}

#[test]
fn what_a_question_for_a_deal_comes_to() {
    assert_eq!(DealsHandle::check_result(Some(Ok(plain(5)))).unwrap().id, 5);
    assert!(DealsHandle::check_result(None).is_err());
    let timeout = Duration::from_secs(3);
    let answer = WaitOutcome::Answer(Ok(plain(5)));
    assert_eq!(DealsHandle::check_result_with_timeout(5, timeout, answer).unwrap().id, 5);
    match DealsHandle::check_result_with_timeout(5, timeout, WaitOutcome::Dropped) {
        Err(PocketError::Core(CoreError::Other(e))) => {
            assert_eq!(e, "DealsApiModule responder dropped")
        }
        other => panic!("unexpected {other:?}"),
    }
    match DealsHandle::check_result_with_timeout(5, timeout, WaitOutcome::TimedOut) {
        Err(PocketError::Timeout {
            task,
            context,
            duration,
        }) => {
            assert_eq!(task, "check_result");
            assert_eq!(
                context,
                "Waiting for trade '00000000-0000-0000-0000-000000000005' result"
            );
            assert_eq!(duration, timeout);
        }
        other => panic!("unexpected {other:?}"),
    }
}

#[test]
fn two_events_report_on_orders() {
    assert!(reports_order(Some("successopenOrder".to_string())));
    assert!(reports_order(Some("failopenOrder".to_string())));
    assert!(!reports_order(Some("successcloseOrder".to_string())));
    assert!(!reports_order(None));
}

#[test]
fn binary_data_counts_as_text() {
    let data = r#"[{"id":"x"}]"#;
    for (event, wanted) in [
        ("updateOpenedDeals", ExpectedMessage::UpdateOpenedDeals),
        ("updateClosedDeals", ExpectedMessage::UpdateClosedDeals),
        ("successcloseOrder", ExpectedMessage::SuccessCloseOrder),
    ] {
        let mut module = DealsApiModule::new();
        let binary = Message::Binary(data.as_bytes().to_vec());
        assert!(matches!(module.message(&binary), DealsAction::Ignore));
        let header = text(&format!(r#"451-["{event}",{{"_placeholder":true,"num":0}}]"#));
        assert!(matches!(module.message(&header), DealsAction::Await));
        match module.message(&binary) {
            DealsAction::ReadBinary { kind } => assert_eq!(kind, wanted),
            other => panic!("unexpected {other:?}"),
        }
        assert_eq!(binary.text().as_deref(), Some(data));
        assert!(matches!(module.message(&binary), DealsAction::Ignore));
        match module.message(&text(&format!(r#"451-["{event}", {data}]"#))) {
            DealsAction::ReadText { kind, data: read } => {
                assert_eq!(kind, wanted);
                assert_eq!(read, data);
            }
            other => panic!("unexpected {other:?}"),
        }
    }
}
