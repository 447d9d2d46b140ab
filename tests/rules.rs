use grammar_kit::fragment::Fragment;
use grammar_kit::grammar::Grammar;
use grammar_kit::rules::{
    Context, FragmentRule, LoopRule, OptionalRule, OrRule, Rule, RuleStatus, SequenceRule, TokenRule,
};
use grammar_kit::token::{TokenDefinition, Tokenizer};

const NUMBER: usize = 0;
const SPACE: usize = 1;
const WORD: usize = 2;
const KEY: usize = 3;

fn grammar(fragments: Vec<Fragment>) -> Grammar {
    let defs = vec![
        TokenDefinition::new_regex("NUMBER", "^[0-9]+").unwrap(),
        TokenDefinition::new_regex("SPACE", "^[ ]+").unwrap(),
        TokenDefinition::new_regex("WORD", "^[a-z]+").unwrap(),
        TokenDefinition::new_keyword("KEY", "a"),
    ];
    Grammar::new("rules", defs, fragments, 0)
}

fn token(d: usize) -> Rule {
    Rule::Token(TokenRule(d))
}

#[test]
fn failing_sequence_keeps_consumed_tokens() {
    let g = grammar(vec![]);
    let rule = Rule::Sequence(SequenceRule(vec![token(NUMBER), token(SPACE)]));
    let mut tk = Tokenizer::new("12", g.get_tokens_definition());
    assert!(matches!(rule.parse(&mut tk, &g, 0, 16), RuleStatus::Invalid));
    assert_eq!(tk.frontier(), 1);
    assert_eq!(tk.get_token(0).unwrap().slice(), "12");
}

#[test]
fn failing_first_element_scans_nothing() {
    let g = grammar(vec![]);
    let rule = Rule::Sequence(SequenceRule(vec![token(SPACE), token(NUMBER)]));
    let mut tk = Tokenizer::new("12", g.get_tokens_definition());
    assert!(matches!(rule.parse(&mut tk, &g, 0, 16), RuleStatus::Invalid));
    assert_eq!(tk.frontier(), 0);
}

#[test]
fn or_keeps_first_match_when_both_match() {
    let g = grammar(vec![]);
    let rule = Rule::Or(OrRule(vec![token(WORD), Rule::Sequence(SequenceRule(vec![token(WORD)]))]));
    let mut tk = Tokenizer::new("abc", g.get_tokens_definition());
    match rule.parse(&mut tk, &g, 0, 16) {
        RuleStatus::Valid(Context::Or(o), 1) => {
            assert_eq!(o.0, 0);
            assert!(matches!(*o.1, Context::Token(ref t) if t.0 == WORD && t.1 == "abc"));
        }
        other => panic!("unexpected: {:?}", other),
    }
}

#[test]
fn optional_of_failing_rule_matches_empty() {
    let g = grammar(vec![]);
    let rule = Rule::Optional(OptionalRule(Box::new(token(SPACE))));
    let mut tk = Tokenizer::new("x", g.get_tokens_definition());
    match rule.parse(&mut tk, &g, 0, 16) {
        RuleStatus::Valid(Context::Optional(o), 0) => assert!(o.0.is_none()),
        other => panic!("unexpected: {:?}", other),
    }
}

#[test]
fn pinned_position_refuses_other_definition() {
    let g = grammar(vec![]);
    let mut tk = Tokenizer::new("ab", g.get_tokens_definition());
    assert!(matches!(token(WORD).parse(&mut tk, &g, 0, 16), RuleStatus::Valid(_, 1)));
    // KEY's keyword "a" would match the text, but position 0 holds WORD.
    assert!(matches!(token(KEY).parse(&mut tk, &g, 0, 16), RuleStatus::Invalid));
    assert_eq!(tk.frontier(), 1);
}

#[test]
fn trailing_separator_is_scanned_but_not_kept() {
    let g = grammar(vec![]);
    let rule = Rule::Loop(LoopRule::new_zero_or_more(Box::new(token(NUMBER)), Some(Box::new(token(SPACE)))));
    let mut tk = Tokenizer::new("1 2 ", g.get_tokens_definition());
    match rule.parse(&mut tk, &g, 0, 16) {
        RuleStatus::Valid(Context::Loop(l), end) => {
            assert_eq!(end, 3);
            assert_eq!(l.0.len(), 2);
            assert_eq!(l.1.as_ref().unwrap().len(), 1);
        }
        other => panic!("unexpected: {:?}", other),
    }
    assert_eq!(tk.frontier(), 4);
}

#[test]
fn loop_constructors_set_bounds() {
    let l = LoopRule::new_min(Box::new(token(NUMBER)), 2, None);
    assert_eq!((l.min, l.max), (2, usize::MAX));
    assert!(!l.accept_empty());
    let l = LoopRule::new_min_max(Box::new(token(NUMBER)), 1, 4, None);
    assert_eq!((l.min, l.max), (1, 4));
    let l = LoopRule::new_max(Box::new(token(NUMBER)), 5, None);
    assert_eq!((l.min, l.max), (0, 5));
    assert!(l.accept_empty());
    let l = LoopRule::new_zero_or_more(Box::new(token(NUMBER)), None);
    assert_eq!((l.min, l.max), (0, usize::MAX));
    let l = LoopRule::new_one_or_more(Box::new(token(NUMBER)), Some(Box::new(token(SPACE))));
    assert_eq!((l.min, l.max), (1, usize::MAX));
    assert!(l.separator.is_some());
}

#[test]
fn loop_with_max_zero_matches_empty() {
    let g = grammar(vec![]);
    let rule = Rule::Loop(LoopRule::new_max(Box::new(token(NUMBER)), 0, None));
    let mut tk = Tokenizer::new("1", g.get_tokens_definition());
    match rule.parse(&mut tk, &g, 0, 16) {
        RuleStatus::Valid(Context::Loop(l), 0) => assert!(l.0.is_empty()),
        other => panic!("unexpected: {:?}", other),
    }
    assert_eq!(tk.frontier(), 0);
}

#[test]
fn fragment_rule_delegates_and_wraps() {
    let g = grammar(vec![Fragment::new("num", token(NUMBER))]);
    assert_eq!(g.get_fragment(0).get_name(), "num");
    assert_eq!(g.fragments_len(), 1);
    assert_eq!(g.get_name(), "rules");
    assert_eq!(g.get_token_definition(SPACE).name(), "SPACE");
    let mut tk = Tokenizer::new("42", g.get_tokens_definition());
    match Rule::Fragment(FragmentRule(0)).parse(&mut tk, &g, 0, 16) {
        RuleStatus::Valid(Context::Fragment(f), 1) => {
            assert_eq!(f.0, 0);
            assert!(matches!(*f.1, Context::Token(ref t) if t.0 == NUMBER && t.1 == "42"));
        }
        other => panic!("unexpected: {:?}", other),
    }
}

#[test]
fn unknown_fragment_index_does_not_match() {
    let g = grammar(vec![]);
    let mut tk = Tokenizer::new("42", g.get_tokens_definition());
    assert!(matches!(Rule::Fragment(FragmentRule(3)).parse(&mut tk, &g, 0, 16), RuleStatus::Invalid));
    assert!(matches!(token(9).parse(&mut tk, &g, 0, 16), RuleStatus::Invalid));
    assert!(g.parse("42").is_none());
}

#[test]
fn depth_exceeded_stops_the_parse() {
    let g = grammar(vec![Fragment::new("loop", Rule::Fragment(FragmentRule(0)))]);
    assert!(matches!(g.parse_with_depth("1", 100), RuleStatus::DepthExceeded));
    let optional = Rule::Optional(OptionalRule(Box::new(Rule::Fragment(FragmentRule(0)))));
    let mut tk = Tokenizer::new("1", g.get_tokens_definition());
    assert!(matches!(optional.parse(&mut tk, &g, 0, 10), RuleStatus::DepthExceeded));
}
