use binary_options_tools::chart_stream::HistoryStreamMode;
use binary_options_tools::error::PocketError;
use binary_options_tools::error::PocketResult;
use binary_options_tools::message::Message;
use binary_options_tools::probe::assert_only_change_symbol;
use binary_options_tools::probe::connection_url;
use binary_options_tools::probe::count_outbound;
use binary_options_tools::probe::outbound_frame;
use binary_options_tools::probe::read_mode;
use binary_options_tools::probe::Args;
use binary_options_tools::probe::Awaited;
use binary_options_tools::probe::BootstrapDrain;
use binary_options_tools::probe::DrainStep;
use binary_options_tools::probe::Invocation;
use binary_options_tools::probe::LiveDrain;

fn parse(ssid: Option<&str>, args: &[&str]) -> PocketResult<Invocation> {
    Args::parse(
        ssid.map(|s| s.to_string()),
        &args.iter().map(|a| a.to_string()).collect(),
    )
}

fn run(ssid: Option<&str>, args: &[&str]) -> Args {
    match parse(ssid, args) {
        Ok(Invocation::Run(args)) => args,
        other => panic!("unexpected {other:?}"),
    }
}

fn refusal(ssid: Option<&str>, args: &[&str]) -> String {
    match parse(ssid, args) {
        Err(PocketError::General(e)) => e,
        other => panic!("unexpected {other:?}"),
    }
}

#[test]
fn arguments_have_defaults() {
    let args = run(Some("env"), &[]);
    assert_eq!(args.ssid, "env");
    assert_eq!(args.asset, "EURUSD_otc");
    assert_eq!(args.period, 5);
    assert_eq!(args.mode, HistoryStreamMode::Points);
    assert_eq!(args.live_seconds, 20);
}

#[test]
fn arguments_are_read() {
    let args = run(
        Some("env"),
        &[
            "--ssid", "given", "--asset", "GBPUSD", "--period", "+30", "--mode", "OHLC", "--seconds",
            "7", "--asset", "AUDUSD",
        ],
    );
    assert_eq!(args.ssid, "given");
    assert_eq!(args.asset, "AUDUSD");
    assert_eq!(args.period, 30);
    assert_eq!(args.mode, HistoryStreamMode::Ohlc);
    assert_eq!(args.live_seconds, 7);
}

#[test]
fn help_ends_the_reading() {
    assert!(matches!(parse(None, &["--help", "--nonsense"]), Ok(Invocation::Help)));
    assert!(matches!(parse(None, &["--asset", "A", "-h"]), Ok(Invocation::Help)));
}

#[test]
fn arguments_are_refused() {
    let missing = "Missing SSID. Pass --ssid or set POCKET_OPTION_SSID.";
    assert_eq!(refusal(None, &[]), missing);
    assert_eq!(refusal(Some("env"), &["--ssid"]), missing);
    assert_eq!(refusal(Some("env"), &["--asset"]), "--asset requires a value");
    assert_eq!(refusal(Some("env"), &["--period"]), "--period requires a value");
    assert_eq!(refusal(Some("env"), &["--mode"]), "--mode requires a value");
    assert_eq!(refusal(Some("env"), &["--seconds"]), "--seconds requires a value");
    assert_eq!(
        refusal(Some("env"), &["--period", "4294967296"]),
        "Invalid --period value '4294967296': number too large to fit in target type"
    );
    assert_eq!(
        refusal(Some("env"), &["--seconds", "x"]),
        "Invalid --seconds value 'x': invalid digit found in string"
    );
    assert_eq!(
        refusal(Some("env"), &["--mode", "lines"]),
        "--mode must be 'points' or 'ohlc'"
    );
    assert_eq!(
        refusal(Some("env"), &["--nonsense", "--help"]),
        "Unknown argument '--nonsense'. Use --help for usage."
    );
}

#[test]
fn numbers_are_digits_behind_an_optional_plus() {
    for bad in ["", "+", "-1", "-0", " 1", "1_0", "1.0"] {
        assert!(parse(Some("env"), &["--period", bad]).is_err(), "{bad}");
        assert!(parse(Some("env"), &["--seconds", bad]).is_err(), "{bad}");
    }
    assert_eq!(run(Some("env"), &["--period", "4294967295"]).period, u32::MAX);
    assert_eq!(
        run(Some("env"), &["--seconds", "0018446744073709551615"]).live_seconds,
        u64::MAX
    );
}

#[test]
fn modes_have_small_names() {
    assert_eq!(read_mode("points"), Some(HistoryStreamMode::Points));
    assert_eq!(read_mode("ohlc"), Some(HistoryStreamMode::Ohlc));
    assert_eq!(read_mode("OHLC"), None);
}

#[test]
fn the_session_names_the_address() {
    let known = vec!["a".to_string(), "b".to_string()];
    assert_eq!(connection_url(Some("c".to_string()), &known).unwrap(), "c");
    assert_eq!(connection_url(None, &known).unwrap(), "a");
    assert_eq!(connection_url(None, &vec![]), None);
}

#[test]
fn sent_messages_as_lines() {
    assert_eq!(outbound_frame(&Message::Text("x".to_string())).unwrap(), "x");
    assert_eq!(outbound_frame(&Message::Binary(vec![0; 12])).unwrap(), "<binary:12 bytes>");
    assert_eq!(outbound_frame(&Message::Ping(vec![])), None);
}

#[test]
fn the_bootstrap_is_drained_to_its_end() {
    let mut drain = BootstrapDrain::new(2);
    assert!(!drain.is_done());
    assert!(matches!(drain.hear(Awaited::Event), DrainStep::Print(1)));
    match drain.hear(Awaited::TimedOut) {
        DrainStep::Fail(PocketError::General(e)) => {
            assert_eq!(e, "timed out waiting for warm bootstrap event 2/2")
        }
        other => panic!("unexpected {other:?}"),
    }
    match drain.hear(Awaited::Ended) {
        DrainStep::Fail(PocketError::General(e)) => assert_eq!(e, "stream ended during bootstrap"),
        other => panic!("unexpected {other:?}"),
    }
    match drain.hear(Awaited::Failed(PocketError::General("x".to_string()))) {
        DrainStep::Fail(PocketError::General(e)) => assert_eq!(e, "x"),
        other => panic!("unexpected {other:?}"),
    }
    assert!(matches!(drain.hear(Awaited::Event), DrainStep::Print(2)));
    assert!(drain.is_done());
    assert!(BootstrapDrain::new(0).is_done());
}

#[test]
fn live_events_are_drained_until_the_stream_ends() {
    let mut drain = LiveDrain::new();
    assert!(matches!(drain.hear(Awaited::Event), DrainStep::Print(1)));
    assert!(matches!(drain.hear(Awaited::Ended), DrainStep::Stop));
    assert!(matches!(drain.hear(Awaited::TimedOut), DrainStep::Stop));
    assert!(matches!(
        drain.hear(Awaited::Failed(PocketError::DealNotFound(1))),
        DrainStep::Fail(PocketError::DealNotFound(1))
    ));
    assert_eq!(drain.count, 1);
}

fn frames(list: &[&str]) -> Vec<String> {
    list.iter().map(|f| f.to_string()).collect()
}

const CHANGE: &str = r#"42["changeSymbol",{"asset":"A","period":5}]"#;

#[test]
fn one_turn_of_the_chart_is_allowed() {
    assert!(assert_only_change_symbol(&frames(&["3", CHANGE, r#"42["ps"]"#])).is_ok());
    let escaped = r#"42[\"changeSymbol\",{}]"#;
    assert!(assert_only_change_symbol(&frames(&[escaped])).is_ok());
    let report = count_outbound(&frames(&["3", CHANGE, "42[\"subfor\",1]"]));
    assert_eq!(report.change_symbol, 1);
    assert_eq!(report.forbidden, 1);
    assert_eq!(report.keepalive, 1);
}

#[test]
fn other_messages_are_refused() {
    let expected = "Expected exactly one outbound changeSymbol frame and no subscribeSymbol/subfor frames after ignoring keepalive, got ";
    for (list, shown) in [
        (vec![], "[]"),
        (vec!["3"], "[\"3\"]"),
        (vec!["a", "b\"c"], "[\"a\", \"b\\\"c\"]"),
    ] {
        match assert_only_change_symbol(&frames(&list)) {
            Err(PocketError::General(e)) => assert_eq!(e, format!("{expected}{shown}")),
            other => panic!("unexpected {other:?}"),
        }
    }
    assert!(assert_only_change_symbol(&frames(&[CHANGE, CHANGE])).is_err());
    assert!(assert_only_change_symbol(&frames(&[CHANGE, "other"])).is_err());
    assert!(assert_only_change_symbol(&frames(&[CHANGE, "42[\"subscribeSymbol\"]"])).is_err());
    assert!(assert_only_change_symbol(&frames(&[r#"42["changeSymbol","subfor"]"#])).is_err());
}
