use binary_options_tools::dsl::find_rule_attribute;
use binary_options_tools::dsl::DslError;
use binary_options_tools::dsl::DslNode;
use binary_options_tools::dsl::Group;
use binary_options_tools::dsl::IdentOrString;
use binary_options_tools::dsl::MatcherCall;
use binary_options_tools::dsl::Readings;
use binary_options_tools::dsl::RuleExpr;
use binary_options_tools::dsl::Token;
use zyn::proc_macro2::Delimiter;
use zyn::proc_macro2::Spacing;
use zyn::proc_macro2::TokenStream;
use zyn::proc_macro2::TokenTree;

fn token(tree: TokenTree) -> Token {
    match tree {
        TokenTree::Group(g) => {
            let inner = group(g.stream());
            match g.delimiter() {
                Delimiter::Parenthesis => Token::Paren(inner),
                Delimiter::Brace => Token::Brace(inner),
                _ => Token::Other(g.to_string()),
            }
        }
        TokenTree::Ident(i) => {
            let name = i.to_string();
            match zyn::syn::parse_str::<zyn::syn::Ident>(&name) {
                Ok(_) => Token::Ident(name),
                Err(_) => Token::Other(name),
            }
        }
        TokenTree::Punct(p) => Token::Punct {
            ch: p.as_char(),
            joint: p.spacing() == Spacing::Joint,
        },
        TokenTree::Literal(l) => {
            let text = l.to_string();
            match zyn::syn::parse_str::<zyn::syn::LitStr>(&text) {
                Ok(s) => Token::text(s.value()),
                Err(_) => Token::Other(text),
            }
        }
    }
}

fn group(stream: TokenStream) -> Group {
    let source = stream.to_string();
    Group::new(source, stream.into_iter().map(token).collect())
}

fn parse(source: &str) -> Result<RuleExpr, DslError> {
    RuleExpr::parse(&group(source.parse().expect("tokens")))
}

fn dsl(source: &str) -> DslNode {
    match parse(&format!("{{ {source} }}")) {
        Ok(RuleExpr::Dsl(node)) => node,
        other => panic!("unexpected {other:?}"),
    }
}

fn error(source: &str) -> String {
    match parse(&format!("{{ {source} }}")) {
        Err(DslError::Rule(e)) => e,
        other => panic!("unexpected {other:?}"),
    }
}

/// Brackets around every operator.
fn shape(node: &DslNode) -> String {
    let list = |nodes: &Vec<DslNode>, op: &str| {
        let parts: Vec<String> = nodes.iter().map(shape).collect();
        format!("({})", parts.join(op))
    };
    match node {
        DslNode::Then(a, b) => format!("({}->{})", shape(a), shape(b)),
        DslNode::Or(nodes) => list(nodes, "|"),
        DslNode::And(nodes) => list(nodes, "&"),
        DslNode::Not(a) => format!("!{}", shape(a)),
        DslNode::MethodChain(chain) => match &chain.base {
            MatcherCall::Exact(IdentOrString::Ident(s))
            | MatcherCall::Exact(IdentOrString::String { value: s, .. }) => s.to_string(),
            other => format!("{other:?}"),
        },
    }
}

fn compact(text: &str) -> String {
    text.chars().filter(|c| !c.is_whitespace()).collect()
}

#[test]
fn operators_bind_as_they_should() {
    assert_eq!(shape(&dsl("exact(a) | exact(b) -> exact(c)")), "((a|b)->c)");
    assert_eq!(shape(&dsl("exact(a) -> exact(b) -> exact(c)")), "((a->b)->c)");
    assert_eq!(shape(&dsl("exact(a) | exact(b) & exact(c)")), "(a|(b&c))");
    assert_eq!(shape(&dsl("exact(a) & exact(b) & !exact(c)")), "(a&b&!c)");
    assert_eq!(shape(&dsl("!(exact(a) | exact(\"b\")) & exact(c)")), "(!(a|b)&c)");
    assert_eq!(shape(&dsl("((exact(a)))")), "a");
}

#[test]
fn structs_and_functions_are_payloads() {
    let rule = parse("MyRule").unwrap();
    assert_eq!(compact(&rule.to_tokens()), "::std::boxed::Box::new(MyRule::new())");
    let rule = parse("fn = rules::make").unwrap();
    assert_eq!(compact(&rule.to_tokens()), "::std::boxed::Box::new(rules::make())");
    assert!(matches!(parse("MyRule Other"), Err(DslError::Syntax)));
    assert!(matches!(parse("fn rules"), Err(DslError::Syntax)));
    assert!(matches!(parse("fn = 1 +"), Err(DslError::Syntax)));
    match parse("") {
        Err(DslError::Rule(e)) => assert_eq!(
            e,
            "Expected either a struct ident, a function reference (fn = ...), or a DSL expression!"
        ),
        other => panic!("unexpected {other:?}"),
    }
}

#[test]
fn matchers_become_constructors() {
    let prefix = "::binary_options_tools_core::rules::RuleBuilder::";
    for (source, call) in [
        ("any()", "any()"),
        ("never()", "never()"),
        ("exact(\"a\\\"b\")", "text_exact(\"a\\\"b\")"),
        ("starts_with(PREFIX)", "text_starts_with(PREFIX)"),
        ("ends_with(\"x\")", "text_ends_with(\"x\")"),
        ("contains(\"x\")", "text_contains(\"x\")"),
        ("regex(\"x+\")", "text_regex(\"x+\")"),
        ("binary_exact([1, 2])", "binary_exact([1,2])"),
        ("binary_starts_with(A)", "binary_starts_with(A)"),
        ("binary_ends_with(vec![1])", "binary_ends_with(vec![1])"),
        ("binary_contains([1])", "binary_contains([1])"),
        (
            "message_type(Text)",
            "message_type(::binary_options_tools_core::rules::MessageType::Text)",
        ),
        ("json_schema(Vec<Deal>)", "json_schema::<Vec<Deal>>()"),
        ("custom(|m| m.is_text())", "custom(|m|m.is_text())"),
    ] {
        assert_eq!(
            compact(&dsl(source).to_tokens()),
            format!("{prefix}{call}.build()"),
            "{source}"
        );
    }
}

#[test]
fn methods_and_operators_become_calls() {
    let any = "::binary_options_tools_core::rules::RuleBuilder::any()";
    let wait = dsl("any().wait(1).lstrip_then(\"x\", a + 1)");
    assert_eq!(
        compact(&wait.to_tokens()),
        format!("{any}.wait(1,).lstrip_then(\"x\",a+1,).build()")
    );
    assert_eq!(
        compact(&dsl("any().wait(1,).reset()").to_tokens()),
        format!("{any}.wait(1,).reset().build()")
    );
    assert_eq!(
        compact(&dsl("any() -> any()").to_tokens()),
        format!("{any}.then({any}.build()).build()")
    );
    assert_eq!(
        compact(&dsl("any() | any() | any()").to_tokens()),
        format!("{any}.or({any}.build()).or({any}.build()).build()")
    );
    assert_eq!(
        compact(&dsl("any() & !any()").to_tokens()),
        format!("{any}.and({any}.not().build()).build()")
    );
    assert_eq!(
        compact(&parse("{ any() }").unwrap().to_tokens()),
        format!("::std::boxed::Box::new({any}.build())")
    );
}

#[test]
fn operators_without_operands_panic_where_they_are_used() {
    assert_eq!(
        DslNode::Or(vec![]).to_tokens(),
        "panic!(\"OR operator requires at least one operand\")"
    );
    assert_eq!(
        DslNode::And(vec![]).to_tokens(),
        "panic!(\"AND operator requires at least one operand\")"
    );
}

#[test]
fn errors_of_the_language() {
    assert_eq!(error("any(1)"), "Matcher 'any' does not take any arguments");
    assert_eq!(error("never(x)"), "Matcher 'never' does not take any arguments");
    assert_eq!(
        error("exact(1)"),
        "Expected either an identifier or a string literal"
    );
    assert_eq!(error("unknown()"), "Unknown matcher 'unknown'");
    assert_eq!(error("any"), "Expected parenthesis after matcher 'any'");
    assert_eq!(error("any() |"), "Expected an ident for matcher!");
    assert_eq!(error(""), "Expected an ident for matcher!");
    assert_eq!(error("any().1"), "Expected ident!");
    assert_eq!(error("any().wait"), "Expected parenthesis after ident 'wait'");
}

#[test]
fn nothing_is_left_over() {
    for source in [
        "any() any()",
        "(any() any())",
        "exact(a b)",
        "message_type(Text Binary)",
        "message_type(\"Text\")",
        "binary_exact(1 +)",
        "json_schema(+)",
        "custom(1)",
        "any().wait(1 +)",
    ] {
        assert!(
            matches!(parse(&format!("{{ {source} }}")), Err(DslError::Syntax)),
            "{source}"
        );
    }
    assert!(matches!(parse("{ any() } x"), Err(DslError::Syntax)));
}

#[test]
fn the_first_rule_attribute_counts() {
    let paths = |list: &[&str]| -> Vec<String> { list.iter().map(|p| p.to_string()).collect() };
    assert_eq!(find_rule_attribute(&paths(&["doc", "rule", "rule"])).unwrap(), 1);
    match find_rule_attribute(&paths(&["doc", "rules"])) {
        Err(DslError::Rule(e)) => assert_eq!(e, "missing #[rule(...)] attribute"),
        other => panic!("unexpected {other:?}"),
    }
}

#[test]
fn arguments_in_rust_are_kept_as_they_are_read() {
    let read = |name: &str| MatcherCall::of_reading(name, "x", true).unwrap().0;
    assert!(matches!(read("binary_exact"), MatcherCall::BinaryExact(_)));
    assert!(matches!(read("binary_starts_with"), MatcherCall::BinaryStartsWith(_)));
    assert!(matches!(read("binary_ends_with"), MatcherCall::BinaryEndsWith(_)));
    assert!(matches!(read("binary_contains"), MatcherCall::BinaryContains(_)));
    assert!(matches!(read("json_schema"), MatcherCall::JsonSchema(_)));
    assert!(matches!(read("custom"), MatcherCall::Custom(_)));
    assert!(matches!(MatcherCall::of_reading("custom", "x", false), Err(DslError::Syntax)));
}

#[test]
fn groups_say_what_they_can_be_read_as() {
    let reads = |source: &str| group(source.parse().expect("tokens")).reads;
    let nothing = Readings {
        expr: false,
        ty: false,
        closure: false,
        args: false,
        path: false,
    };
    assert_eq!(reads(""), Readings { args: true, ..nothing });
    assert_eq!(
        reads("PREFIX"),
        Readings {
            expr: true,
            ty: true,
            args: true,
            ..nothing
        }
    );
    assert_eq!(reads("1 , 2"), Readings { args: true, ..nothing });
    assert_eq!(
        reads("| m | m"),
        Readings {
            expr: true,
            closure: true,
            args: true,
            ..nothing
        }
    );
    assert!(reads("fn = rules :: make").path);
    assert!(!reads("fn =").path);
    assert_eq!(reads("1 +"), nothing);
}

#[test]
fn errors_of_the_language_come_before_what_is_left_over() {
    assert_eq!(error("any().wait(1 2) | unknown()"), "Unknown matcher 'unknown'");
    assert_eq!(error("exact(a b) | unknown()"), "Unknown matcher 'unknown'");
}

#[test]
fn what_a_group_can_be_read_as_decides() {
    let group = |readable: bool| Group {
        source: "1 + 2".to_string(),
        tokens: vec![],
        reads: Readings {
            expr: readable,
            ty: readable,
            closure: readable,
            args: readable,
            path: readable,
        },
    };
    let payload = |name: &str, readable: bool| {
        let inner = Group::new(
            String::new(),
            vec![Token::Ident(name.to_string()), Token::Paren(group(readable))],
        );
        RuleExpr::parse(&Group::new(String::new(), vec![Token::Brace(inner)]))
    };
    for name in ["binary_exact", "json_schema", "custom"] {
        assert!(payload(name, true).is_ok());
        assert!(matches!(payload(name, false), Err(DslError::Syntax)));
    }
}

#[test]
fn plain_forms_are_read_as_what_they_are() {
    let reads = |source: &str| Group::new(source.to_string(), vec![]).reads;
    let made_of = |expr: bool, ty: bool, closure: bool, args: bool| Readings {
        expr,
        ty,
        closure,
        args,
        path: false,
    };
    assert_eq!(reads("NAME"), made_of(true, true, false, true));
    assert_eq!(reads("0042"), made_of(true, false, false, true));
    assert_eq!(
        reads("123456789012345678901234567890123456789012345"),
        made_of(true, false, false, true)
    );
    assert_eq!(reads("||NAME"), made_of(true, false, true, true));
    assert_eq!(reads("VEC<DEAL>"), made_of(false, true, false, false));
    for (source, path) in [
        ("fn=NAME", true),
        ("fn = NAME", true),
        ("fn=", false),
        ("fn=42", false),
        ("fn=||NAME", false),
        ("fn=VEC<DEAL>", false),
    ] {
        assert_eq!(reads(source).path, path, "{source}");
    }
}

#[test]
fn strings_are_written_as_literals_of_their_value() {
    for (value, wanted) in [
        ("", "\"\""),
        ("42", "\"42\""),
        ("451-[updateAssets, {} ~ #1]", "\"451-[updateAssets, {} ~ #1]\""),
    ] {
        match Token::text(value.to_string()) {
            Token::Text { value: v, literal } => {
                assert_eq!(v, value);
                assert_eq!(literal, wanted);
            }
            other => panic!("unexpected {other:?}"),
        }
    }
    for value in ["a\"b", "a\\b", "it's", "\n\u{0}7\u{e9}"] {
        match Token::text(value.to_string()) {
            Token::Text { literal, .. } => assert_eq!(
                zyn::syn::parse_str::<zyn::syn::LitStr>(&literal).unwrap().value(),
                value
            ),
            other => panic!("unexpected {other:?}"),
        }
    }
}
