use grammar_kit::grammar::Grammar;
use grammar_kit::json_to_grammar::{json_to_grammar, Error, JsonValue};
use grammar_kit::rules::{Context, RuleStatus};

fn text(s: &str) -> JsonValue {
    JsonValue::String(s.to_string())
}

fn list(items: Vec<JsonValue>) -> JsonValue {
    JsonValue::Array(items)
}

fn object(entries: Vec<(&str, JsonValue)>) -> JsonValue {
    JsonValue::Object(entries.into_iter().map(|(k, v)| (k.to_string(), v)).collect())
}

fn number(n: usize) -> JsonValue {
    JsonValue::Number(Some(n))
}

fn fragment(rule: JsonValue) -> JsonValue {
    object(vec![("rule", rule)])
}

fn start(rule: JsonValue) -> JsonValue {
    object(vec![("main", JsonValue::Bool(true)), ("rule", rule)])
}

fn description(tokens: Vec<(&str, JsonValue)>, fragments: Vec<(&str, JsonValue)>) -> JsonValue {
    object(vec![
        ("grammarName", text("Test")),
        ("tokenDefinitions", object(tokens)),
        ("fragments", object(fragments)),
    ])
}

fn compile(tokens: Vec<(&str, JsonValue)>, fragments: Vec<(&str, JsonValue)>) -> Grammar {
    json_to_grammar(description(tokens, fragments)).expect("the description compiles")
}

fn number_space() -> Vec<(&'static str, JsonValue)> {
    vec![("NUMBER", text("[0-9]+")), ("SPACE", text("[ ]+"))]
}

fn token_text(c: &Context) -> (usize, String) {
    match c {
        Context::Token(t) => (t.0, t.1.clone()),
        other => panic!("not a token context: {:?}", other),
    }
}

#[test]
fn pair_sequence_matches_three_tokens() {
    let g = compile(number_space(), vec![("pair", start(list(vec![text("NUMBER"), text("SPACE"), text("NUMBER")])))]);
    match g.parse_with_depth("12 21", 64) {
        RuleStatus::Valid(Context::Sequence(s), end) => {
            assert_eq!(end, 3);
            assert_eq!(s.0.len(), 3);
            assert_eq!(token_text(&s.0[0]), (0, "12".to_string()));
            assert_eq!(token_text(&s.0[1]), (1, " ".to_string()));
            assert_eq!(token_text(&s.0[2]), (0, "21".to_string()));
        }
        other => panic!("unexpected: {:?}", other),
    }
}

#[test]
fn pair_sequence_fails_without_space() {
    let g = compile(number_space(), vec![("pair", start(list(vec![text("NUMBER"), text("SPACE"), text("NUMBER")])))]);
    assert!(g.parse("12").is_none());
    assert!(matches!(g.parse_with_depth("12", 64), RuleStatus::Invalid));
}

#[test]
fn choice_selects_number_alternative() {
    let value = object(vec![("type", text("or")), ("values", list(vec![text("pair"), text("NUMBER")]))]);
    let g = compile(
        number_space(),
        vec![
            ("pair", fragment(list(vec![text("NUMBER"), text("SPACE"), text("NUMBER")]))),
            ("value", start(value)),
        ],
    );
    match g.parse("7") {
        Some(Context::Or(o)) => {
            assert_eq!(o.0, 1);
            assert_eq!(token_text(&o.1), (0, "7".to_string()));
        }
        other => panic!("unexpected: {:?}", other),
    }
}

#[test]
fn choice_prefers_first_matching_alternative() {
    let value = object(vec![("type", text("or")), ("values", list(vec![text("NUMBER"), text("DIGITS")]))]);
    let g = compile(vec![("NUMBER", text("[0-9]+")), ("DIGITS", text("[0-9]+"))], vec![("value", start(value))]);
    match g.parse("42") {
        Some(Context::Or(o)) => {
            assert_eq!(o.0, 0);
            assert_eq!(token_text(&o.1), (0, "42".to_string()));
        }
        other => panic!("unexpected: {:?}", other),
    }
}

#[test]
fn optional_matches_empty_input() {
    let rule = object(vec![("type", text("optional")), ("value", text("NUMBER"))]);
    let g = compile(number_space(), vec![("maybe", start(rule))]);
    match g.parse_with_depth("", 64) {
        RuleStatus::Valid(Context::Optional(o), end) => {
            assert_eq!(end, 0);
            assert!(o.0.is_none());
        }
        other => panic!("unexpected: {:?}", other),
    }
    match g.parse_with_depth("5", 64) {
        RuleStatus::Valid(Context::Optional(o), end) => {
            assert_eq!(end, 1);
            assert_eq!(token_text(o.0.as_ref().as_ref().unwrap()), (0, "5".to_string()));
        }
        other => panic!("unexpected: {:?}", other),
    }
}

fn digit_loop(min: usize, max: usize) -> Grammar {
    let rule = object(vec![
        ("type", text("loop")),
        ("value", text("DIGIT")),
        ("min", number(min)),
        ("max", number(max)),
    ]);
    compile(vec![("DIGIT", text("[0-9]"))], vec![("digits", start(rule))])
}

#[test]
fn loop_takes_at_most_max() {
    let g = digit_loop(2, 3);
    match g.parse_with_depth("1234", 64) {
        RuleStatus::Valid(Context::Loop(l), end) => {
            assert_eq!(end, 3);
            assert_eq!(l.0.len(), 3);
            assert!(l.1.is_none());
        }
        other => panic!("unexpected: {:?}", other),
    }
}

#[test]
fn loop_below_min_fails() {
    let g = digit_loop(2, 3);
    assert!(matches!(g.parse_with_depth("1", 64), RuleStatus::Invalid));
    assert!(g.parse("1").is_none());
}

#[test]
fn loop_between_min_and_max() {
    let g = digit_loop(2, 3);
    match g.parse_with_depth("12", 64) {
        RuleStatus::Valid(Context::Loop(l), end) => {
            assert_eq!(end, 2);
            assert_eq!(l.0.len(), 2);
        }
        other => panic!("unexpected: {:?}", other),
    }
}

#[test]
fn separator_loop_drops_trailing_separator() {
    let rule = object(vec![("type", text("loop")), ("value", text("R")), ("separator", text("S"))]);
    let g = compile(vec![("R", text("r")), ("S", text("s"))], vec![("items", start(rule))]);
    match g.parse_with_depth("rsrs", 64) {
        RuleStatus::Valid(Context::Loop(l), end) => {
            assert_eq!(end, 3);
            assert_eq!(l.0.len(), 2);
            let separators = l.1.as_ref().expect("a separator list");
            assert_eq!(separators.len(), 1);
            assert_eq!(token_text(&separators[0]), (1, "s".to_string()));
        }
        other => panic!("unexpected: {:?}", other),
    }
}

#[test]
fn separator_loop_empty_when_min_zero() {
    let rule = object(vec![("type", text("loop")), ("value", text("R")), ("separator", text("S"))]);
    let g = compile(vec![("R", text("r")), ("S", text("s"))], vec![("items", start(rule))]);
    match g.parse_with_depth("x", 64) {
        RuleStatus::Valid(Context::Loop(l), end) => {
            assert_eq!(end, 0);
            assert!(l.0.is_empty());
            assert!(l.1.as_ref().unwrap().is_empty());
        }
        other => panic!("unexpected: {:?}", other),
    }
}

#[test]
fn separator_loop_with_min_fails_on_empty() {
    let rule = object(vec![("type", text("loop")), ("value", text("R")), ("separator", text("S")), ("min", number(1))]);
    let g = compile(vec![("R", text("r")), ("S", text("s"))], vec![("items", start(rule))]);
    assert!(matches!(g.parse_with_depth("", 64), RuleStatus::Invalid));
}

#[test]
fn frontier_pinning_rejects_other_definition() {
    // WORD is tried first at position 0 and pins "ab"; KEY would match "a"
    // there but the position keeps its token.
    let value = object(vec![
        ("type", text("or")),
        ("values", list(vec![list(vec![text("WORD"), text("NUMBER")]), text("KEY")])),
    ]);
    let g = compile(
        vec![("WORD", text("[a-z]+")), ("KEY", object(vec![("keyword", text("a"))])), ("NUMBER", text("[0-9]+"))],
        vec![("value", start(value))],
    );
    assert!(matches!(g.parse_with_depth("ab", 64), RuleStatus::Invalid));
}

#[test]
fn fragment_reference_wraps_context() {
    let g = compile(
        number_space(),
        vec![("top", start(list(vec![text("num")]))), ("num", fragment(text("NUMBER")))],
    );
    match g.parse("9") {
        Some(Context::Sequence(s)) => match &s.0[0] {
            Context::Fragment(f) => {
                assert_eq!(f.0, 1);
                assert_eq!(token_text(&f.1), (0, "9".to_string()));
            }
            other => panic!("unexpected: {:?}", other),
        },
        other => panic!("unexpected: {:?}", other),
    }
}

#[test]
fn left_recursion_runs_out_of_depth() {
    let g = compile(number_space(), vec![("expr", start(list(vec![text("expr"), text("NUMBER")])))]);
    assert!(matches!(g.parse_with_depth("1", 32), RuleStatus::DepthExceeded));
    assert!(g.parse("1").is_none());
}

#[test]
fn zero_depth_exceeds_immediately() {
    let g = compile(number_space(), vec![("n", start(text("NUMBER")))]);
    assert!(matches!(g.parse_with_depth("1", 0), RuleStatus::DepthExceeded));
    assert!(matches!(g.parse_with_depth("1", 1), RuleStatus::Valid(_, 1)));
}

#[test]
fn keyword_tokens_match_literally() {
    let g = compile(
        vec![("IF", object(vec![("keyword", text("if"))])), ("ID", object(vec![("regex", text("[a-z]+"))]))],
        vec![("stmt", start(list(vec![text("IF"), text("ID")])))],
    );
    match g.parse_with_depth("ifx", 64) {
        RuleStatus::Valid(Context::Sequence(s), 2) => {
            assert_eq!(token_text(&s.0[0]), (0, "if".to_string()));
            assert_eq!(token_text(&s.0[1]), (1, "x".to_string()));
        }
        other => panic!("unexpected: {:?}", other),
    }
}

#[test]
fn typed_token_and_fragment_references() {
    let g = compile(
        number_space(),
        vec![
            ("top", start(object(vec![("type", text("fragment")), ("value", text("num"))]))),
            ("num", fragment(object(vec![("type", text("token")), ("value", number(0))]))),
        ],
    );
    match g.parse("3") {
        Some(Context::Fragment(f)) => {
            assert_eq!(f.0, 1);
            assert_eq!(token_text(&f.1), (0, "3".to_string()));
        }
        other => panic!("unexpected: {:?}", other),
    }
}

fn json_language() -> Grammar {
    let tokens = vec![
        ("NUMBER", text(r"-?(0|[1-9][0-9]*)(\.[0-9]+)?([eE][+-]?[0-9]+)?")),
        ("NULL", text("null")),
        ("TRUE", text("true")),
        ("FALSE", text("false")),
        ("STRING", text("\"((\\\")|[^\"])*\"")),
        ("LEFT_BRACKET", text("\\[")),
        ("RIGHT_BRACKET", text("\\]")),
        ("LEFT_BRACE", text("\\{")),
        ("RIGHT_BRACE", text("\\}")),
        ("COLON", text(":")),
        ("COMMA", text(",")),
    ];
    let value = object(vec![
        ("type", text("or")),
        (
            "values",
            list(vec![
                text("object"),
                text("array"),
                text("STRING"),
                text("NUMBER"),
                text("TRUE"),
                text("FALSE"),
                text("NULL"),
            ]),
        ),
    ]);
    let members = object(vec![
        ("type", text("loop")),
        ("value", list(vec![text("STRING"), text("COLON"), text("value")])),
        ("separator", text("COMMA")),
    ]);
    let elements = object(vec![("type", text("loop")), ("value", text("value")), ("separator", text("COMMA"))]);
    compile(
        tokens,
        vec![
            ("value", start(value)),
            ("object", fragment(list(vec![text("LEFT_BRACE"), members, text("RIGHT_BRACE")]))),
            ("array", fragment(list(vec![text("LEFT_BRACKET"), elements, text("RIGHT_BRACKET")]))),
        ],
    )
}

#[test]
fn json_language_parses_nested_values() {
    let g = json_language();
    assert!(matches!(g.parse_with_depth("[1,2]", 512), RuleStatus::Valid(_, 5)));
    assert!(matches!(g.parse_with_depth("{\"a\":[true,null,{}]}", 512), RuleStatus::Valid(_, 12)));
    match g.parse("-1.5e3") {
        Some(Context::Or(o)) => {
            assert_eq!(o.0, 3);
            assert_eq!(token_text(&o.1), (0, "-1.5e3".to_string()));
        }
        other => panic!("unexpected: {:?}", other),
    }
}

#[test]
fn json_language_rejects_unclosed_array() {
    let g = json_language();
    assert!(g.parse("[1,2").is_none());
}

#[test]
fn match_need_not_cover_whole_text() {
    let g = compile(number_space(), vec![("n", start(text("NUMBER")))]);
    assert!(matches!(g.parse_with_depth("1 2", 64), RuleStatus::Valid(_, 1)));
}

// Compile errors, one input for each.

fn compile_err(j: JsonValue) -> Error {
    json_to_grammar(j).expect_err("the description is rejected")
}

#[test]
fn error_missing_grammar_name() {
    let e = compile_err(object(vec![("tokenDefinitions", object(vec![])), ("fragments", object(vec![]))]));
    assert!(matches!(e, Error::MissingField(f) if f == "grammarName"));
    assert!(matches!(compile_err(text("x")), Error::MissingField(f) if f == "grammarName"));
}

#[test]
fn error_missing_token_definitions() {
    let e = compile_err(object(vec![("grammarName", text("G")), ("fragments", object(vec![]))]));
    assert!(matches!(e, Error::MissingField(f) if f == "tokenDefinitions"));
}

#[test]
fn error_missing_fragments() {
    let e = compile_err(object(vec![("grammarName", text("G")), ("tokenDefinitions", object(vec![]))]));
    assert!(matches!(e, Error::MissingField(f) if f == "fragments"));
}

#[test]
fn error_null_rule() {
    let e = compile_err(description(number_space(), vec![("f", start(JsonValue::Null))]));
    assert!(matches!(e, Error::NullRule(f) if f == "f"));
    let e = compile_err(description(number_space(), vec![("g", object(vec![("main", JsonValue::Bool(true))]))]));
    assert!(matches!(e, Error::NullRule(f) if f == "g"));
}

#[test]
fn error_undefined_rule() {
    let e = compile_err(description(number_space(), vec![("f", start(JsonValue::Bool(false)))]));
    assert!(matches!(e, Error::UndefinedRule(f) if f == "f"));
}

#[test]
fn error_unknown_rule_type() {
    let e = compile_err(description(number_space(), vec![("f", start(object(vec![("type", text("many"))])))]));
    assert!(matches!(e, Error::UnknownRuleType(t) if t == "many"));
}

#[test]
fn error_undefined_token() {
    let e = compile_err(description(vec![("T", number(3))], vec![("f", start(text("T")))]));
    assert!(matches!(e, Error::UndefinedToken(t) if t == "T"));
    let e = compile_err(description(vec![("U", object(vec![("other", text("x"))]))], vec![("f", start(text("U")))]));
    assert!(matches!(e, Error::UndefinedToken(t) if t == "U"));
}

#[test]
fn error_undefined_regex_expression() {
    let e = compile_err(description(vec![("BAD", text("(unclosed"))], vec![("f", start(text("BAD")))]));
    assert!(matches!(e, Error::UndefinedRegexExpression(r) if r == "(unclosed"));
}

#[test]
fn error_unknown_token_or_fragment() {
    let e = compile_err(description(number_space(), vec![("f", start(text("MISSING")))]));
    assert!(matches!(e, Error::UnknownTokenOrFragment(n) if n == "MISSING"));
}

#[test]
fn error_index_out_of_range() {
    let rule = object(vec![("type", text("token")), ("value", number(7))]);
    let e = compile_err(description(number_space(), vec![("f", start(rule))]));
    assert!(matches!(e, Error::IndexOutOfRange(7)));
}

#[test]
fn error_missing_values() {
    let rule = object(vec![("type", text("sequence"))]);
    let e = compile_err(description(number_space(), vec![("f", start(rule))]));
    assert!(matches!(e, Error::MissingField(f) if f == "values"));
}

#[test]
fn error_start_fragment_count() {
    let e = compile_err(description(number_space(), vec![("f", fragment(text("NUMBER")))]));
    assert!(matches!(e, Error::StartFragment(0)));
    let e = compile_err(description(number_space(), vec![("f", start(text("NUMBER"))), ("g", start(text("SPACE")))]));
    assert!(matches!(e, Error::StartFragment(2)));
}

#[test]
fn forward_references_between_fragments() {
    let g = compile(
        number_space(),
        vec![("a", start(list(vec![text("b"), text("b")]))), ("b", fragment(text("NUMBER")))],
    );
    assert!(matches!(g.parse_with_depth("1 ", 64), RuleStatus::Invalid));
    let g2 = compile(
        number_space(),
        vec![("a", start(list(vec![text("b"), text("SPACE"), text("b")]))), ("b", fragment(text("NUMBER")))],
    );
    assert!(matches!(g2.parse_with_depth("1 2", 64), RuleStatus::Valid(_, 3)));
}
