use binary_options_tools::error::CoreError;
use binary_options_tools::message::CloseFrame;
use binary_options_tools::message::Message;
use binary_options_tools::rules::BinaryMatcher;
use binary_options_tools::rules::Condition;
use binary_options_tools::rules::JsonPredicate;
use binary_options_tools::rules::MessagePredicate;
use binary_options_tools::rules::MessageTransform;
use binary_options_tools::rules::MessageType;
use binary_options_tools::rules::Modifier;
use binary_options_tools::rules::Rule;
use binary_options_tools::rules::RuleBuilder;
use binary_options_tools::rules::TextMatcher;

fn text(s: &str) -> Message {
    Message::Text(s.to_string())
}

#[test]
fn test_text_starts_with() {
    let mut rule = RuleBuilder::text_starts_with("451").build();
    let msg = text("451-data");
    assert!(rule.call(&msg));

    let msg2 = text("123-data");
    assert!(!rule.call(&msg2));
}

#[test]
fn test_wait_condition() {
    let mut rule = RuleBuilder::any().wait(2).build();
    let msg = text("test");

    assert!(!rule.call(&msg));
    assert!(!rule.call(&msg));
    assert!(rule.call(&msg));
    assert!(rule.call(&msg));
}

#[test]
fn test_wait_messages() {
    let mut rule = RuleBuilder::any().wait_messages(2).build();
    let msg = text("test");

    assert!(rule.call(&msg));
    assert!(!rule.call(&msg));
    assert!(rule.call(&msg));
    assert!(!rule.call(&msg));
}

#[test]
fn test_wait_messages_with_offset() {
    let mut rule = RuleBuilder::any().wait_messages_with_offset(2, 1).build();
    let msg = text("test");

    assert!(!rule.call(&msg));
    assert!(rule.call(&msg));
    assert!(!rule.call(&msg));
    assert!(rule.call(&msg));
}

#[test]
fn test_then_combinator() {
    let mut rule = RuleBuilder::text_starts_with("451")
        .followed_by(RuleBuilder::any().build())
        .build();
    let msg1 = text("451-data");
    let msg2 = text("other");

    assert!(!rule.call(&msg1));
    assert!(rule.call(&msg2));
    assert!(!rule.call(&msg2));
}

#[test]
fn test_or_combinator() {
    let mut rule = RuleBuilder::text_starts_with("451")
        .or(RuleBuilder::text_starts_with("123").build())
        .build();
    let msg1 = text("451-data");
    let msg2 = text("123-data");
    let msg3 = text("999-data");

    assert!(rule.call(&msg1));
    assert!(rule.call(&msg2));
    assert!(!rule.call(&msg3));
}

#[test]
fn test_and_combinator() {
    let mut rule = RuleBuilder::text_starts_with("451")
        .and(RuleBuilder::text_contains("data").build())
        .build();
    let msg1 = text("451-data");
    let msg2 = text("451-other");

    assert!(rule.call(&msg1));
    assert!(!rule.call(&msg2));
}

#[test]
fn test_lstrip_then() {
    let mut rule = RuleBuilder::text_contains("data").lstrip_then("451-").build();
    let msg = text("451-data");
    assert!(rule.call(&msg));

    let msg2 = text("451-other");
    assert!(!rule.call(&msg2));
}

/// Accepts objects with an `id` that fits 32 bits.
struct TestData;

impl JsonPredicate for TestData {
    fn test(&self, text: &str) -> bool {
        match serde_json::from_str::<serde_json::Value>(text) {
            Ok(value) => match value.get("id").and_then(|id| id.as_u64()) {
                Some(id) => u32::try_from(id).is_ok(),
                None => false,
            },
            Err(_) => false,
        }
    }
}

#[test]
fn test_json_schema() {
    let mut rule = RuleBuilder::json_schema(Box::new(TestData)).build();

    let msg_valid = text(r#"{"id": 42}"#);
    let msg_invalid_json = text(r#"{"id": }"#);
    let msg_wrong_schema = text(r#"{"name": "test"}"#);
    let msg_bin = Message::Binary(br#"{"id": 123}"#.to_vec());

    assert!(rule.call(&msg_valid));
    assert!(!rule.call(&msg_invalid_json));
    assert!(!rule.call(&msg_wrong_schema));
    assert!(rule.call(&msg_bin));
}

#[test]
fn test_not_combinator() {
    let mut rule = RuleBuilder::text_starts_with("451").not().build();
    let msg1 = text("451-data");
    let msg2 = text("123-data");

    assert!(!rule.call(&msg1));
    assert!(rule.call(&msg2));
}

const SUCCESS: &str = r#"["successopenOrder","#;
const FAIL: &str = r#"["failopenOrder","#;

fn success_open_order_rule() -> Rule {
    RuleBuilder::text_contains(SUCCESS)
        .followed_by(RuleBuilder::message_type(MessageType::Binary).build())
        .build()
}

fn fail_open_order_rule() -> Rule {
    RuleBuilder::text_contains(FAIL)
        .followed_by(RuleBuilder::message_type(MessageType::Binary).build())
        .build()
}

fn combined_trade_rule() -> Rule {
    RuleBuilder::text_contains(SUCCESS)
        .or(RuleBuilder::text_contains(FAIL).build())
        .followed_by(RuleBuilder::message_type(MessageType::Binary).build())
        .build()
}

#[test]
fn test_success_open_order_basic_sequence() {
    let mut rule = success_open_order_rule();

    let header = text(r#"451-["successopenOrder",{"_placeholder":true,"num":0}]"#);
    assert_eq!(rule.call(&header), false, "Header should return false and set state");

    let body = Message::Binary(vec![0x01, 0x02, 0x03]);
    assert_eq!(rule.call(&body), true, "Binary should return true after header");

    let orphan = Message::Binary(vec![0x04, 0x05]);
    assert_eq!(rule.call(&orphan), false, "Orphan binary should return false");
}

#[test]
fn test_fail_open_order() {
    let mut rule = fail_open_order_rule();

    let header = text(r#"451-["failopenOrder",{"_placeholder":true,"num":0}]"#);
    assert_eq!(rule.call(&header), false, "Fail header should return false");

    let body = Message::Binary(vec![0xFF, 0xEE]);
    assert_eq!(rule.call(&body), true, "Fail binary should return true");
}

#[test]
fn test_combined_rule() {
    let mut rule = combined_trade_rule();

    let success_header = text(r#"451-["successopenOrder",{"_placeholder":true,"num":0}]"#);
    assert_eq!(rule.call(&success_header), false);

    let success_body = Message::Binary(b"success_data".to_vec());
    assert_eq!(rule.call(&success_body), true);

    let fail_header = text(r#"451-["failopenOrder",{"_placeholder":true,"num":0}]"#);
    assert_eq!(rule.call(&fail_header), false);

    let fail_body = Message::Binary(b"fail_data".to_vec());
    assert_eq!(rule.call(&fail_body), true);
}

#[test]
fn test_wrong_event_name() {
    let mut rule = success_open_order_rule();

    let wrong_header = text(r#"451-["wrongEventName",{"_placeholder":true,"num":0}]"#);
    assert_eq!(rule.call(&wrong_header), false, "Wrong event should not match");

    let body = Message::Binary(vec![0x01, 0x02]);
    assert_eq!(rule.call(&body), false, "Binary should not pass without matching header");
}

#[test]
fn test_reset_clears_state() {
    let mut rule = success_open_order_rule();

    let header = text(r#"451-["successopenOrder",{"_placeholder":true,"num":0}]"#);
    assert_eq!(rule.call(&header), false);

    rule.reset();

    let body = Message::Binary(vec![0x01, 0x02]);
    assert_eq!(rule.call(&body), false, "Binary should not pass after reset");
}

#[test]
fn test_multiple_pairs() {
    let mut rule = combined_trade_rule();

    let h1 = text(r#"451-["successopenOrder",{"_placeholder":true,"num":0}]"#);
    let b1 = Message::Binary(b"data1".to_vec());
    assert_eq!(rule.call(&h1), false);
    assert_eq!(rule.call(&b1), true);

    let h2 = text(r#"451-["failopenOrder",{"_placeholder":true,"num":0}]"#);
    let b2 = Message::Binary(b"data2".to_vec());
    assert_eq!(rule.call(&h2), false);
    assert_eq!(rule.call(&b2), true);

    let h3 = text(r#"451-["successopenOrder",{"_placeholder":true,"num":0}]"#);
    let b3 = Message::Binary(b"data3".to_vec());
    assert_eq!(rule.call(&h3), false);
    assert_eq!(rule.call(&b3), true);
}

#[test]
fn message_types_match_and_are_named() {
    assert!(MessageType::Ping.matches(&Message::Ping(vec![])));
    assert!(MessageType::Pong.matches(&Message::Pong(vec![1])));
    assert!(MessageType::Close.matches(&Message::Close(None)));
    assert!(!MessageType::Text.matches(&Message::Close(None)));
    assert!(!MessageType::Binary.matches(&Message::Frame));
    assert_eq!(MessageType::try_from("Pong".to_string()).unwrap(), MessageType::Pong);
    match MessageType::try_from("text".to_string()) {
        Err(CoreError::Other(e)) => assert_eq!(e, "Invalid message type: text"),
        _ => panic!("an unknown name is an error"),
    }
}

#[test]
fn text_matchers_match() {
    assert!(TextMatcher::EndsWith("tail".to_string()).call("a tail"));
    assert!(!TextMatcher::EndsWith("tail".to_string()).call("tail a"));
    assert!(TextMatcher::Contains("\u{e9}".to_string()).call("caf\u{e9}!"));
    assert!(TextMatcher::Contains("".to_string()).call(""));
    assert!(TextMatcher::Exact("x".to_string()).call("x"));
    assert!(!TextMatcher::Exact("x".to_string()).call("xx"));
    assert!(TextMatcher::Regex(r"^\d+-\[".to_string()).call("451-[1]"));
    assert!(!TextMatcher::Regex(r"^\d+$".to_string()).call("451-[1]"));
    assert!(!TextMatcher::Regex("(".to_string()).call("("));
}

#[test]
fn binary_matchers_match() {
    assert!(BinaryMatcher::StartsWith(vec![1, 2]).call(&[1, 2, 3]));
    assert!(BinaryMatcher::EndsWith(vec![2, 3]).call(&[1, 2, 3]));
    assert!(BinaryMatcher::Contains(vec![2]).call(&[1, 2, 3]));
    assert!(!BinaryMatcher::Contains(vec![1, 2, 3, 4]).call(&[1, 2, 3]));
    assert!(BinaryMatcher::Exact(vec![]).call(&[]));
    assert!(!BinaryMatcher::Exact(vec![1]).call(&[1, 2]));
}

#[test]
fn text_rules_read_binary_messages() {
    let mut rule = RuleBuilder::text_exact("ok").build();
    assert!(rule.call(&Message::Binary(b"ok".to_vec())));
    assert!(!rule.call(&Message::Binary(vec![0xff, 0xfe])));
    assert!(!rule.call(&Message::Ping(b"ok".to_vec())));
}

#[test]
fn modifiers_cut_the_text() {
    let mut until = RuleBuilder::text_exact("{a}{b}").lstrip_until("{").build();
    assert!(until.call(&text("42{a}{b}")));
    assert!(!until.call(&text("42")));
    let mut back = RuleBuilder::text_exact("a;b;").rstrip_until(";").build();
    assert!(back.call(&text("a;b;c")));
    let mut suffix = RuleBuilder::text_exact("data").rstrip_then("!!").build();
    assert!(suffix.call(&text("data!!")));
    assert!(!suffix.call(&text("data!")));
    let mut whole = RuleBuilder::text_exact("abc").rstrip_until("").build();
    assert!(whole.call(&text("abc")));
}

#[test]
fn modifiers_hand_on_the_rest() {
    let mut modifier = Modifier::LstripThen {
        prefix: "42".to_string(),
        inner: Box::new(RuleBuilder::any().build()),
    };
    match modifier.call(&Message::Binary(b"42rest".to_vec())) {
        Some(Message::Text(rest)) => assert_eq!(rest, "rest"),
        _ => panic!("the rest is text"),
    }
    assert!(modifier.call(&Message::Close(None)).is_none());
}

struct OnlyClose;

impl MessagePredicate for OnlyClose {
    fn test(&self, msg: &Message) -> bool {
        matches!(msg, Message::Close(None))
    }
}

struct DropFrames;

impl MessageTransform for DropFrames {
    fn apply(&self, msg: &Message) -> Option<Message> {
        match msg {
            Message::Frame => None,
            _ => Some(Message::Close(None)),
        }
    }
}

#[test]
fn custom_parts_decide() {
    let mut rule = RuleBuilder::custom(Box::new(OnlyClose)).build();
    assert!(rule.call(&Message::Close(None)));
    assert!(!rule.call(&text("close")));
    let mut gated = RuleBuilder::any()
        .with_condition(Condition::Custom(Box::new(OnlyClose)))
        .build();
    assert!(gated.call(&Message::Close(None)));
    assert!(!gated.call(&text("close")));
    let mut changed = Rule::ModifiedRule(Modifier::Custom(Box::new(DropFrames)));
    assert!(changed.call(&text("x")));
    assert!(!changed.call(&Message::Frame));
}

struct GoneAway;

impl MessagePredicate for GoneAway {
    fn test(&self, msg: &Message) -> bool {
        matches!(msg, Message::Close(Some(frame)) if frame.code == 1001 && frame.reason == "bye")
    }
}

#[test]
fn custom_parts_see_why_a_connection_is_closed() {
    let close = |code: u16| {
        Message::Close(Some(CloseFrame {
            code,
            reason: "bye".to_string(),
        }))
    };
    let mut rule = RuleBuilder::custom(Box::new(GoneAway)).build();
    assert!(rule.call(&close(1001)));
    assert!(!rule.call(&close(1000)));
    assert!(!rule.call(&Message::Close(None)));
    assert!(MessageType::Close.matches(&close(1000)));
}

#[test]
fn conditions_on_other_rules_are_ignored() {
    let mut rule = RuleBuilder::any().not().wait(3).build();
    assert!(!rule.call(&text("a")));
    let mut inverted = RuleBuilder::never().not().wait(3).build();
    assert!(inverted.call(&text("a")));
}

#[test]
fn reset_takes_counters_to_zero() {
    let mut waiting = RuleBuilder::any().wait(5).build();
    assert!(!waiting.call(&text("a")));
    waiting.reset();
    assert!(waiting.call(&text("a")));
    let mut counting = RuleBuilder::any().wait_messages(3).build();
    assert!(counting.call(&text("a")));
    assert!(!counting.call(&text("a")));
    counting.reset();
    assert!(counting.call(&text("a")));
}

#[test]
fn alternatives_are_asked_in_turn() {
    let mut rule = RuleBuilder::or_many(vec![
        RuleBuilder::any().wait(1).build(),
        RuleBuilder::any().wait(2).build(),
    ])
    .build();
    assert!(!rule.call(&text("a")));
    assert!(rule.call(&text("a")));
    let mut all = RuleBuilder::and_many(vec![
        RuleBuilder::any().wait(1).build(),
        RuleBuilder::any().wait(1).build(),
    ])
    .build();
    assert!(!all.call(&text("a")));
    assert!(!all.call(&text("a")));
    assert!(all.call(&text("a")));
}

#[test]
fn and_then_uses_one_message() {
    let mut rule = RuleBuilder::text_starts_with("4")
        .and_then(RuleBuilder::text_ends_with("2").build())
        .build();
    assert!(rule.call(&text("42")));
    assert!(!rule.call(&text("43")));
    assert!(!rule.call(&text("52")));
}

#[test]
fn double_negation_is_the_rule() {
    let mut rule = RuleBuilder::text_exact("a").not().not().build();
    assert!(rule.call(&text("a")));
    assert!(!rule.call(&text("b")));
}

#[test]
fn what_a_rule_would_say_is_foreseen() {
    let mut rule = RuleBuilder::text_starts_with("451").wait(1).build();
    assert_eq!(rule.foresee(&text("451")), Some(false));
    assert_eq!(rule.foresee(&text("451")), Some(false));
    assert_eq!(rule.answer(&text("451")), Some(false));
    assert_eq!(rule.foresee(&text("451")), Some(true));
    assert_eq!(rule.answer(&text("451")), Some(true));
    assert_eq!(rule.foresee(&text("42")), Some(false));
    let next = RuleBuilder::any().build();
    let mut two_step = RuleBuilder::text_exact("a").followed_by(next).build();
    assert_eq!(two_step.answer(&text("a")), Some(false));
    assert_eq!(two_step.foresee(&text("b")), Some(true));
    let both = RuleBuilder::text_contains("a")
        .lstrip_until("[")
        .or(RuleBuilder::text_exact("x").not().build())
        .and(RuleBuilder::any().build())
        .build();
    assert_eq!(both.foresee(&text("x[a")), Some(true));
    assert_eq!(both.foresee(&text("x")), Some(false));
}

#[test]
fn a_rule_that_cannot_answer_says_so() {
    let mut counted = RuleBuilder::text_exact("a").wait_messages(0).build();
    assert_eq!(counted.answer(&text("b")), Some(false));
    assert_eq!(counted.answer(&text("a")), None);
    let empty = RuleBuilder::binary_contains(vec![]).build();
    assert_eq!(empty.foresee(&Message::Binary(vec![1])), None);
    assert_eq!(empty.foresee(&text("a")), Some(false));
    let cut = RuleBuilder::any().rstrip_until("").build();
    assert_eq!(cut.foresee(&text("")), None);
    assert_eq!(cut.foresee(&text("a")), Some(true));
    let guarded = RuleBuilder::text_exact("b")
        .and(RuleBuilder::any().wait_messages(0).build())
        .build();
    assert_eq!(guarded.foresee(&text("a")), Some(false));
    assert_eq!(guarded.foresee(&text("b")), None);
}
