use vstd::prelude::*;
use vstd::string::StrSliceExecFns;

use crate::re::{find_regex, regex_compiles, regex_accepts, regex_find};
use crate::text::strip_prefix;

verus! {

// region: ---Models

/// A token as the tokenizer's model sees it: the definition it was scanned
/// with, the text it covers, and its span in characters of the source text.
pub struct TokenModel {
    pub definition: nat,
    pub text: Seq<char>,
    pub span: (nat, nat),
}

/// A pattern of a token definition.
pub enum PatternModel {
    Keyword(Seq<char>),
    Regex(Seq<char>),
}

/// A token definition: its name and its pattern.
pub struct DefModel {
    pub name: Seq<char>,
    pub pattern: PatternModel,
}

/// The state of a tokenizer: the source text, how many of its characters
/// have been consumed, and the tokens generated so far (the frontier is
/// their number).
pub struct TokenizerModel {
    pub text: Seq<char>,
    pub offset: nat,
    pub tokens: Seq<TokenModel>,
}

/// The text that is still to be scanned.
pub open spec fn remaining(st: TokenizerModel) -> Seq<char> {
    st.text.subrange(st.offset as int, st.text.len() as int)
}

/// How many characters at the start of `text` the pattern matches, if it
/// matches there. A keyword matches when it is a prefix; a regular
/// expression matches when its first match starts at the very beginning.
pub open spec fn pattern_match_len(p: PatternModel, text: Seq<char>) -> Option<nat> {
    match p {
        PatternModel::Keyword(k) => if k.is_prefix_of(text) {
            Some(k.len())
        } else {
            None
        },
        PatternModel::Regex(source) => if regex_accepts(source) {
            match regex_find(source, text) {
                Some((start, end)) => if start == 0 && 0 <= end <= text.len() {
                    Some(end as nat)
                } else {
                    None
                },
                None => None,
            }
        } else {
            None
        },
    }
}

/// The state after a token of definition `d` covering the next `n`
/// characters has been generated.
pub open spec fn push_token(st: TokenizerModel, d: nat, n: nat) -> TokenizerModel {
    TokenizerModel {
        text: st.text,
        offset: st.offset + n,
        tokens: st.tokens.push(
            TokenModel {
                definition: d,
                text: remaining(st).subrange(0, n as int),
                span: (st.offset, st.offset + n),
            },
        ),
    }
}

/// Scanning at the frontier against the one definition `d`.
pub open spec fn scan_expecting(defs: Seq<DefModel>, st: TokenizerModel, d: nat) -> Option<
    TokenizerModel,
> {
    if remaining(st).len() == 0 || d >= defs.len() {
        None
    } else {
        match pattern_match_len(defs[d as int].pattern, remaining(st)) {
            Some(n) => Some(push_token(st, d, n)),
            None => None,
        }
    }
}

/// The first definition, from index `from` on, whose pattern matches at the
/// start of `text`, with the length of its match.
pub open spec fn first_match(defs: Seq<DefModel>, text: Seq<char>, from: nat) -> Option<(nat, nat)>
    decreases defs.len() - from,
{
    if from >= defs.len() {
        None
    } else {
        match pattern_match_len(defs[from as int].pattern, text) {
            Some(n) => Some((from, n)),
            None => first_match(defs, text, from + 1),
        }
    }
}

/// Scanning at the frontier against the definitions in declared order: the
/// first one that matches wins.
pub open spec fn scan_first(defs: Seq<DefModel>, st: TokenizerModel) -> Option<TokenizerModel> {
    if remaining(st).len() == 0 {
        None
    } else {
        match first_match(defs, remaining(st), 0) {
            Some((d, n)) => Some(push_token(st, d, n)),
            None => None,
        }
    }
}

/// The token at stream position `index`, and the state afterwards. A
/// position below the frontier gives the token already there; the frontier
/// itself is scanned; a position past the frontier gives nothing.
pub open spec fn token_at(defs: Seq<DefModel>, st: TokenizerModel, index: nat) -> (
    Option<TokenModel>,
    TokenizerModel,
) {
    if index < st.tokens.len() {
        (Some(st.tokens[index as int]), st)
    } else if index == st.tokens.len() {
        match scan_first(defs, st) {
            Some(next) => (Some(next.tokens[index as int]), next),
            None => (None, st),
        }
    } else {
        (None, st)
    }
}

/// The token at stream position `index` if it is of definition `d`, and the
/// state afterwards. A token already generated is never scanned again: one of
/// another definition gives nothing.
pub open spec fn token_at_expecting(
    defs: Seq<DefModel>,
    st: TokenizerModel,
    index: nat,
    d: nat,
) -> (Option<TokenModel>, TokenizerModel) {
    if index < st.tokens.len() {
        if st.tokens[index as int].definition == d {
            (Some(st.tokens[index as int]), st)
        } else {
            (None, st)
        }
    } else if index == st.tokens.len() {
        match scan_expecting(defs, st, d) {
            Some(next) => (Some(next.tokens[index as int]), next),
            None => (None, st),
        }
    } else {
        (None, st)
    }
}

/// The state after scanning at the frontier until nothing matches, or until
/// a token consumed no text.
pub open spec fn scan_all(defs: Seq<DefModel>, st: TokenizerModel) -> TokenizerModel
    decreases st.text.len() - st.offset,
{
    match scan_first(defs, st) {
        Some(next) => if next.offset > st.offset && next.offset <= next.text.len() {
            scan_all(defs, next)
        } else {
            next
        },
        None => st,
    }
}

/// The matched text of a regular expression search outcome (text before
/// the match, match, text after), when the match starts at the very
/// beginning of the searched text.
pub open spec fn anchored_found<'h>(outcome: Option<(&'h str, &'h str, &'h str)>) -> Option<
    Seq<char>,
> {
    match outcome {
        Some((before, found, _)) => if before@.len() == 0 {
            Some(found@)
        } else {
            None
        },
        None => None,
    }
}

// endregion
// region: ---Token

#[derive(Debug, Clone, Copy)]
pub struct Token<'a> {
    definition_index: usize,
    slice: &'a str,
    position: (usize, usize),
}

impl<'a> View for Token<'a> {
    type V = TokenModel;

    closed spec fn view(&self) -> TokenModel {
        TokenModel {
            definition: self.definition_index as nat,
            text: self.slice@,
            span: (self.position.0 as nat, self.position.1 as nat),
        }
    }
}

/// The models of a sequence of tokens.
pub open spec fn token_views<'a>(s: Seq<Token<'a>>) -> Seq<TokenModel> {
    s.map_values(|t: Token<'a>| t@)
}

impl<'a> Token<'a> {
    /// A token of the definition with index `definition_index`, covering
    /// `slice`, whose span in the source text is `position` (start and end,
    /// in characters).
    pub fn new(definition_index: usize, slice: &'a str, position: (usize, usize)) -> (t: Token<'a>)
        ensures
            t@ == (TokenModel {
                definition: definition_index as nat,
                text: slice@,
                span: (position.0 as nat, position.1 as nat),
            }),
    {
        Token { definition_index, slice, position }
    }

    pub fn definition_index(&self) -> (r: usize)
        ensures
            r == self@.definition,
    {
        self.definition_index
    }

    pub fn slice(&self) -> (r: &str)
        ensures
            r@ == self@.text,
    {
        self.slice
    }

    pub fn position(&self) -> (r: (usize, usize))
        ensures
            r.0 == self@.span.0,
            r.1 == self@.span.1,
    {
        self.position
    }

    pub fn equal(&self, definition_index: usize) -> (r: bool)
        ensures
            r == (self@.definition == definition_index),
    {
        self.definition_index == definition_index
    }
}

// endregion
// region: ---Token Definition

#[derive(Debug)]
pub enum Pattern {
    Keyword(String),
    Regex(String),
}

impl View for Pattern {
    type V = PatternModel;

    open spec fn view(&self) -> PatternModel {
        match self {
            Pattern::Keyword(k) => PatternModel::Keyword(k@),
            Pattern::Regex(r) => PatternModel::Regex(r@),
        }
    }
}

#[derive(Debug)]
pub struct TokenDefinition {
    name: String,
    pattern: Pattern,
}

impl View for TokenDefinition {
    type V = DefModel;

    closed spec fn view(&self) -> DefModel {
        DefModel { name: self.name@, pattern: self.pattern@ }
    }
}

/// The models of a sequence of token definitions.
pub open spec fn def_views(s: Seq<TokenDefinition>) -> Seq<DefModel> {
    s.map_values(|d: TokenDefinition| d@)
}

impl TokenDefinition {
    /// A definition whose pattern is the regular expression `regex`, taken
    /// as it is; `None` when it does not compile.
    pub fn new_regex(name: &str, regex: &str) -> (r: Option<Self>)
        ensures
            r is Some <==> regex_accepts(regex@),
            r matches Some(d) ==> d@ == (DefModel {
                name: name@,
                pattern: PatternModel::Regex(regex@),
            }),
    {
        if regex_compiles(regex) {
            Some(TokenDefinition { name: name.to_owned(), pattern: Pattern::Regex(regex.to_owned()) })
        } else {
            None
        }
    }

    /// A definition that matches the literal text `keyword`.
    pub fn new_keyword(name: &str, keyword: &str) -> (r: Self)
        ensures
            r@ == (DefModel { name: name@, pattern: PatternModel::Keyword(keyword@) }),
    {
        TokenDefinition { name: name.to_owned(), pattern: Pattern::Keyword(keyword.to_owned()) }
    }

    pub fn new(name: &str, pattern: Pattern) -> (r: Self)
        ensures
            r@ == (DefModel { name: name@, pattern: pattern@ }),
    {
        TokenDefinition { name: name.to_owned(), pattern }
    }

    pub fn name(&self) -> (r: &str)
        ensures
            r@ == self@.name,
    {
        self.name.as_str()
    }

    pub fn pattern(&self) -> (r: &Pattern)
        ensures
            r@ == self@.pattern,
    {
        &self.pattern
    }
}

// endregion
// region: ---Tokenizer

#[derive(Debug)]
pub struct Tokenizer<'a> {
    text: &'a str,
    current_text: &'a str,
    tokens_definition: &'a Vec<TokenDefinition>,
    tokens: Vec<Token<'a>>,
    current_position: usize,
    text_len: usize,
}

impl<'a> View for Tokenizer<'a> {
    type V = TokenizerModel;

    closed spec fn view(&self) -> TokenizerModel {
        TokenizerModel {
            text: self.text@,
            offset: self.current_position as nat,
            tokens: token_views(self.tokens@),
        }
    }
}

impl<'a> Tokenizer<'a> {
    /// The tokenizer's internal consistency: the unscanned text is the
    /// source text after the consumed characters.
    pub closed spec fn wf(&self) -> bool {
        &&& self.text_len == self.text@.len()
        &&& self.current_position <= self.text_len
        &&& self.current_text@ == self.text@.subrange(
            self.current_position as int,
            self.text@.len() as int,
        )
    }

    /// The token definitions this tokenizer scans with.
    pub closed spec fn definitions(&self) -> Seq<DefModel> {
        def_views(self.tokens_definition@)
    }

    pub fn new(text: &'a str, tokens_definition: &'a Vec<TokenDefinition>) -> (t: Tokenizer<'a>)
        ensures
            t.wf(),
            t@ == (TokenizerModel { text: text@, offset: 0, tokens: Seq::empty() }),
            t.definitions() == def_views(tokens_definition@),
    {
        let text_len = text.unicode_len();
        let t = Tokenizer {
            text,
            current_text: text,
            tokens_definition,
            tokens: Vec::new(),
            current_position: 0,
            text_len,
        };
        assert(text@.subrange(0, text@.len() as int) =~= text@);
        assert(token_views(t.tokens@) =~= Seq::<TokenModel>::empty());
        t
    }

    /// Scans the unscanned text against definition `definition_index` and
    /// appends the token when it matches.
    fn scan_definition(&mut self, definition_index: usize) -> (r: bool)
        requires
            old(self).wf(),
            definition_index < old(self).definitions().len(),
        ensures
            final(self).wf(),
            final(self).definitions() == old(self).definitions(),
            match pattern_match_len(
                old(self).definitions()[definition_index as int].pattern,
                remaining(old(self)@),
            ) {
                Some(n) => r && final(self)@ == push_token(old(self)@, definition_index as nat, n)
                    && old(self)@.tokens.len() < usize::MAX,
                None => !r && final(self)@ == old(self)@,
            },
    {
        let defs: &'a Vec<TokenDefinition> = self.tokens_definition;
        let definition: &'a TokenDefinition = &defs[definition_index];
        assert(self.definitions()[definition_index as int] == definition@);
        match &definition.pattern {
            Pattern::Keyword(keyword) => {
                let keyword: &'a str = keyword.as_str();
                match strip_prefix(self.current_text, keyword) {
                    Some(rest) => {
                        self.push_match(definition_index, keyword, rest);
                        true
                    },
                    None => false,
                }
            },
            Pattern::Regex(source) => {
                let outcome = find_regex(source.as_str(), self.current_text);
                self.accept_match(definition_index, outcome)
            },
        }
    }

    /// Takes what a regular expression search of the unscanned text
    /// reported for definition `definition_index`: the text before the
    /// match, the match and the text after it. The match is a token only
    /// when nothing comes before it; then it is appended at the frontier.
    pub fn accept_match(
        &mut self,
        definition_index: usize,
        outcome: Option<(&'a str, &'a str, &'a str)>,
    ) -> (r: bool)
        requires
            old(self).wf(),
            outcome matches Some((before, found, after)) ==> remaining(old(self)@) == before@
                + found@ + after@,
        ensures
            final(self).wf(),
            final(self).definitions() == old(self).definitions(),
            match anchored_found(outcome) {
                Some(found) => r && final(self)@ == push_token(
                    old(self)@,
                    definition_index as nat,
                    found.len(),
                ) && old(self)@.tokens.len() < usize::MAX,
                None => !r && final(self)@ == old(self)@,
            },
    {
        match outcome {
            Some((before, found, after)) => {
                if before.is_empty() {
                    assert(self.current_text@ =~= found@ + after@);
                    self.push_match(definition_index, found, after);
                    true
                } else {
                    false
                }
            },
            None => false,
        }
    }

    /// Appends the token `found` of definition `definition_index` and moves
    /// the unscanned text on to `rest`.
    fn push_match(&mut self, definition_index: usize, found: &'a str, rest: &'a str)
        requires
            old(self).wf(),
            old(self).current_text@ == found@ + rest@,
        ensures
            final(self).wf(),
            final(self).definitions() == old(self).definitions(),
            final(self)@ == push_token(old(self)@, definition_index as nat, found@.len()),
            old(self)@.tokens.len() < usize::MAX,
            final(self).tokens@.len() == old(self).tokens@.len() + 1,
    {
        let ghost before = self@;
        let ghost cur = self.current_text@;
        let found_len = found.unicode_len();
        let start = self.current_position;
        assert(cur.len() == self.text_len - start);
        assert(cur.len() == found@.len() + rest@.len());
        assert(found@ =~= remaining(before).subrange(0, found_len as int));
        assert(rest@ =~= self.text@.subrange(start + found_len, self.text@.len() as int)) by {
            assert(rest@ =~= cur.subrange(found_len as int, cur.len() as int));
        }
        let token = Token::new(definition_index, found, (start, start + found_len));
        let ghost old_tokens = self.tokens@;
        self.tokens.push(token);
        // the new length is a usize, so the old one was below usize::MAX
        let _new_len = self.tokens.len();
        self.current_text = rest;
        self.current_position = start + found_len;
        assert(token_views(self.tokens@) =~= token_views(old_tokens).push(token@));
    }

    /// Scans the unscanned text against the definitions in declared order
    /// and appends the token of the first that matches.
    pub fn generate_token(&mut self) -> (r: Option<&Token<'a>>)
        requires
            old(self).wf(),
        ensures
            final(self).wf(),
            final(self).definitions() == old(self).definitions(),
            match scan_first(old(self).definitions(), old(self)@) {
                Some(next) => final(self)@ == next && (r matches Some(t) && t@ == next.tokens.last()),
                None => final(self)@ == old(self)@ && r is None,
            },
            r is Some ==> old(self)@.tokens.len() < usize::MAX,
    {
        if self.current_text.is_empty() {
            return None;
        }
        let ghost defs = self.definitions();
        let ghost before = self@;
        let n = self.tokens_definition.len();
        let mut definition_index: usize = 0;
        while definition_index < n
            invariant
                self.wf(),
                self.definitions() == defs,
                self@ == before,
                before == old(self)@,
                defs == old(self).definitions(),
                n == defs.len(),
                definition_index <= n,
                remaining(self@).len() > 0,
                first_match(defs, remaining(self@), 0) == first_match(
                    defs,
                    remaining(self@),
                    definition_index as nat,
                ),
            decreases n - definition_index,
        {
            if self.scan_definition(definition_index) {
                assert(token_views(self.tokens@).len() == self.tokens@.len());
                let last = self.tokens.len() - 1;
                assert(token_views(self.tokens@)[last as int] == self.tokens@[last as int]@);
                return Some(&self.tokens[last]);
            }
            definition_index += 1;
        }
        None
    }

    /// Scans the unscanned text against definition `definition_index` alone
    /// and appends the token if it matches.
    pub fn generate_token_from_token_definition(&mut self, definition_index: usize) -> (r: Option<
        &Token<'a>,
    >)
        requires
            old(self).wf(),
        ensures
            final(self).wf(),
            final(self).definitions() == old(self).definitions(),
            match scan_expecting(old(self).definitions(), old(self)@, definition_index as nat) {
                Some(next) => final(self)@ == next && (r matches Some(t) && t@ == next.tokens.last()),
                None => final(self)@ == old(self)@ && r is None,
            },
            r is Some ==> old(self)@.tokens.len() < usize::MAX,
    {
        if self.current_text.is_empty() || definition_index >= self.tokens_definition.len() {
            return None;
        }
        if self.scan_definition(definition_index) {
            assert(token_views(self.tokens@).len() == self.tokens@.len());
            let last = self.tokens.len() - 1;
            assert(token_views(self.tokens@)[last as int] == self.tokens@[last as int]@);
            Some(&self.tokens[last])
        } else {
            None
        }
    }

    /// The token at stream position `index`, scanning it if `index` is the
    /// frontier.
    pub fn get_token(&mut self, index: usize) -> (r: Option<&Token<'a>>)
        requires
            old(self).wf(),
        ensures
            final(self).wf(),
            final(self).definitions() == old(self).definitions(),
            final(self)@ == token_at(old(self).definitions(), old(self)@, index as nat).1,
            match token_at(old(self).definitions(), old(self)@, index as nat).0 {
                Some(tm) => (r matches Some(t) && t@ == tm && index < usize::MAX),
                None => r is None,
            },
    {
        let frontier = self.tokens.len();
        if index < frontier {
            assert(token_views(self.tokens@)[index as int] == self.tokens@[index as int]@);
            Some(&self.tokens[index])
        } else if index == frontier {
            self.generate_token()
        } else {
            None
        }
    }

    /// The token at stream position `index` if it is of definition
    /// `definition_index`; at the frontier only that definition is scanned.
    pub fn get_token_from_token_definition(&mut self, index: usize, definition_index: usize) -> (r:
        Option<&Token<'a>>)
        requires
            old(self).wf(),
        ensures
            final(self).wf(),
            final(self).definitions() == old(self).definitions(),
            final(self)@ == token_at_expecting(
                old(self).definitions(),
                old(self)@,
                index as nat,
                definition_index as nat,
            ).1,
            match token_at_expecting(
                old(self).definitions(),
                old(self)@,
                index as nat,
                definition_index as nat,
            ).0 {
                Some(tm) => (r matches Some(t) && t@ == tm && index < usize::MAX),
                None => r is None,
            },
    {
        let frontier = self.tokens.len();
        if index < frontier {
            let token = &self.tokens[index];
            assert(token_views(self.tokens@)[index as int] == token@);
            if token.definition_index() == definition_index {
                Some(token)
            } else {
                None
            }
        } else if index == frontier {
            self.generate_token_from_token_definition(definition_index)
        } else {
            None
        }
    }

    /// The frontier: how many tokens have been generated.
    pub fn frontier(&self) -> (r: usize)
        ensures
            r == self@.tokens.len(),
    {
        self.tokens.len()
    }

    pub fn definition_len(&self) -> (r: usize)
        ensures
            r == self.definitions().len(),
    {
        self.tokens_definition.len()
    }

    /// Scans the rest of the text: generates tokens until nothing matches,
    /// or until a token consumed no text, and returns every token generated.
    pub fn get_all_tokens(&mut self) -> (r: &Vec<Token<'a>>)
        requires
            old(self).wf(),
        ensures
            final(self).wf(),
            final(self).definitions() == old(self).definitions(),
            final(self)@ == scan_all(old(self).definitions(), old(self)@),
            token_views(r@) == final(self)@.tokens,
    {
        let ghost defs = self.definitions();
        let ghost start = self@;
        loop
            invariant_except_break
                scan_all(defs, self@) == scan_all(defs, start),
            invariant
                self.wf(),
                self.definitions() == defs,
            ensures
                self.wf(),
                self.definitions() == defs,
                self@ == scan_all(defs, start),
            decreases self.text_len - self.current_position,
        {
            let before = self.current_position;
            match self.generate_token() {
                Some(_) => {
                    if self.current_position <= before {
                        break;
                    }
                },
                None => {
                    break;
                },
            }
        }
        &self.tokens
    }
}

// endregion

} // verus!
