use grammar_kit::fs::{File, Folder};
use grammar_kit::token::{Pattern, Token, TokenDefinition, Tokenizer};

fn defs() -> Vec<TokenDefinition> {
    vec![
        TokenDefinition::new_regex("NUMBER", "^[0-9]+").unwrap(),
        TokenDefinition::new_regex("DIGITS", "^[0-9]+").unwrap(),
        TokenDefinition::new_keyword("PLUS", "+"),
        TokenDefinition::new("SPACE", Pattern::Regex("^ +".to_string())),
    ]
}

#[test]
fn token_accessors() {
    let t = Token::new(2, "abc", (4, 7));
    assert_eq!(t.definition_index(), 2);
    assert_eq!(t.slice(), "abc");
    assert_eq!(t.position(), (4, 7));
    assert!(t.equal(2));
    assert!(!t.equal(3));
}

#[test]
fn first_declared_definition_wins() {
    let d = defs();
    let mut tk = Tokenizer::new("12+3", &d);
    let t = tk.get_token(0).copied().unwrap();
    assert_eq!(t.definition_index(), 0);
    assert_eq!(t.slice(), "12");
    assert_eq!(t.position(), (0, 2));
}

#[test]
fn constrained_scan_uses_requested_definition_only() {
    let d = defs();
    let mut tk = Tokenizer::new("12+3", &d);
    let t = tk.get_token_from_token_definition(0, 1).copied().unwrap();
    assert_eq!(t.definition_index(), 1);
    assert_eq!(t.slice(), "12");
}

#[test]
fn pinned_position_rejects_other_definition() {
    let d = defs();
    let mut tk = Tokenizer::new("12+3", &d);
    assert!(tk.get_token_from_token_definition(0, 0).is_some());
    assert!(tk.get_token_from_token_definition(0, 1).is_none());
    assert_eq!(tk.get_token(0).unwrap().definition_index(), 0);
}

#[test]
fn failed_scan_leaves_state_unchanged() {
    let d = defs();
    let mut tk = Tokenizer::new("+1", &d);
    assert!(tk.get_token_from_token_definition(0, 0).is_none());
    let t = tk.get_token_from_token_definition(0, 2).copied().unwrap();
    assert_eq!(t.slice(), "+");
    assert_eq!(t.position(), (0, 1));
}

#[test]
fn position_past_frontier_gives_nothing() {
    let d = defs();
    let mut tk = Tokenizer::new("1+2", &d);
    assert!(tk.get_token(1).is_none());
    assert!(tk.get_token_from_token_definition(2, 0).is_none());
}

#[test]
fn empty_text_gives_no_token() {
    let d = defs();
    let mut tk = Tokenizer::new("", &d);
    assert!(tk.get_token(0).is_none());
    assert!(tk.generate_token().is_none());
    let e = vec![TokenDefinition::new_regex("ANY", "^x*").unwrap()];
    let mut tk2 = Tokenizer::new("", &e);
    assert!(tk2.generate_token_from_token_definition(0).is_none());
}

#[test]
fn all_tokens_scans_to_the_end() {
    let d = defs();
    let mut tk = Tokenizer::new("1 + 23", &d);
    let tokens: Vec<(usize, String, (usize, usize))> =
        tk.get_all_tokens().iter().map(|t| (t.definition_index(), t.slice().to_string(), t.position())).collect();
    assert_eq!(
        tokens,
        vec![
            (0, "1".to_string(), (0, 1)),
            (3, " ".to_string(), (1, 2)),
            (2, "+".to_string(), (2, 3)),
            (3, " ".to_string(), (3, 4)),
            (0, "23".to_string(), (4, 6)),
        ]
    );
}

#[test]
fn all_tokens_stops_at_unknown_text() {
    let d = defs();
    let mut tk = Tokenizer::new("1?2", &d);
    assert_eq!(tk.get_all_tokens().len(), 1);
}

#[test]
fn all_tokens_stops_after_empty_token() {
    let d = vec![TokenDefinition::new_regex("AS", "^a*").unwrap()];
    let mut tk = Tokenizer::new("b", &d);
    let tokens = tk.get_all_tokens();
    assert_eq!(tokens.len(), 1);
    assert_eq!(tokens[0].slice(), "");
}

#[test]
fn regex_match_must_start_at_the_text_start() {
    let d = vec![TokenDefinition::new_regex("B", "b").unwrap()];
    let mut tk = Tokenizer::new("ab", &d);
    assert!(tk.get_token(0).is_none());
}

#[test]
fn positions_count_characters() {
    let d = vec![TokenDefinition::new_regex("W", "^[^ ]+").unwrap(), TokenDefinition::new_keyword("SP", " ")];
    let mut tk = Tokenizer::new("héllo wörld", &d);
    let tokens: Vec<(usize, usize)> = tk.get_all_tokens().iter().map(|t| t.position()).collect();
    assert_eq!(tokens, vec![(0, 5), (5, 6), (6, 11)]);
}

#[test]
fn invalid_regex_is_refused() {
    assert!(TokenDefinition::new_regex("BAD", "(").is_none());
    let d = TokenDefinition::new_keyword("K", "let");
    assert_eq!(d.name(), "K");
    assert!(matches!(d.pattern(), Pattern::Keyword(k) if k == "let"));
    assert_eq!(Tokenizer::new("x", &vec![d]).definition_len(), 1);
}

#[test]
fn pattern_that_does_not_compile_matches_nothing() {
    let d = vec![TokenDefinition::new("BAD", Pattern::Regex("(".to_string()))];
    let mut tk = Tokenizer::new("(", &d);
    assert!(tk.get_token(0).is_none());
}

#[test]
fn file_named_from_its_path() {
    let f = File::generate("docs/report.txt");
    assert_eq!(f.name.as_deref(), Some("report"));
    assert_eq!(f.extension.as_deref(), Some("txt"));
    assert!(f.data.is_none());
    let dot = File::generate("home/.bashrc");
    assert_eq!(dot.name.as_deref(), Some(".bashrc"));
    assert!(dot.extension.is_none());
    let d = Folder::generate("a/b", Vec::new());
    assert_eq!(d.name.as_deref(), Some("b"));
    assert!(d.disk_entries.is_empty());
}

#[test]
fn search_outcome_counts_only_at_text_start() {
    let d = defs();
    let mut tk = Tokenizer::new("12+3", &d);
    assert!(!tk.accept_match(0, Some(("1", "2", "+3"))));
    assert!(!tk.accept_match(0, None));
    assert!(tk.accept_match(1, Some(("", "12", "+3"))));
    let t = tk.get_token(0).copied().unwrap();
    assert_eq!(t.definition_index(), 1);
    assert_eq!(t.slice(), "12");
    assert_eq!(t.position(), (0, 2));
    let next = tk.get_token(1).copied().unwrap();
    assert_eq!(next.slice(), "+");
    assert_eq!(next.position(), (2, 3));
}
