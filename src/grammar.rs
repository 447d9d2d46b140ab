use vstd::prelude::*;

use crate::fragment::{fragment_views, Fragment, FragmentModel};
use crate::rules::{parse_rule, Context, Rule, RuleStatus, StatusModel};
use crate::token::{def_views, DefModel, TokenDefinition, Tokenizer, TokenizerModel};

verus! {

/// How many nested rule applications `Grammar::parse` allows.
pub const DEFAULT_DEPTH: usize = 512;

/// A grammar as a mathematical value.
pub struct GrammarModel {
    pub name: Seq<char>,
    pub defs: Seq<DefModel>,
    pub fragments: Seq<FragmentModel>,
    pub main: nat,
}

/// The tokenizer state a parse of `text` starts from.
pub open spec fn start_state(text: Seq<char>) -> TokenizerModel {
    TokenizerModel { text, offset: 0, tokens: Seq::empty() }
}

/// Parsing `text` with the grammar's start fragment from stream position 0,
/// allowing `depth` nested rule applications. A start index that names no
/// fragment gives no match.
pub open spec fn parse_text(g: GrammarModel, text: Seq<char>, depth: nat) -> (
    StatusModel,
    TokenizerModel,
) {
    if g.main < g.fragments.len() {
        parse_rule(g, g.fragments[g.main as int].rule, start_state(text), 0, depth)
    } else {
        (StatusModel::Invalid, start_state(text))
    }
}

#[derive(Debug)]
pub struct Grammar {
    name: String,
    tokens_definition: Vec<TokenDefinition>,
    fragments: Vec<Fragment>,
    main_fragment_index: usize,
}

impl View for Grammar {
    type V = GrammarModel;

    closed spec fn view(&self) -> GrammarModel {
        GrammarModel {
            name: self.name@,
            defs: def_views(self.tokens_definition@),
            fragments: fragment_views(self.fragments@),
            main: self.main_fragment_index as nat,
        }
    }
}

impl Grammar {
    pub fn new(
        name: &str,
        tokens_definition: Vec<TokenDefinition>,
        fragments: Vec<Fragment>,
        main_fragment: usize,
    ) -> (r: Self)
        ensures
            r@ == (GrammarModel {
                name: name@,
                defs: def_views(tokens_definition@),
                fragments: fragment_views(fragments@),
                main: main_fragment as nat,
            }),
    {
        Grammar { name: name.to_owned(), tokens_definition, fragments, main_fragment_index: main_fragment }
    }

    /// Parses `text` from its start with the start fragment, allowing
    /// `depth` nested rule applications. The match need not cover the
    /// whole text: the end position in the result says how many tokens it
    /// used.
    pub fn parse_with_depth(&self, text: &str, depth: usize) -> (r: RuleStatus)
        ensures
            r@ == parse_text(self@, text@, depth as nat).0,
    {
        let mut tokenizer = Tokenizer::new(text, &self.tokens_definition);
        if self.main_fragment_index >= self.fragments.len() {
            return RuleStatus::Invalid;
        }
        self.get_rule_of_fragment(self.main_fragment_index).parse(&mut tokenizer, self, 0, depth)
    }

    /// Parses `text` from its start with the start fragment: the parse tree
    /// when it matches, `None` when it does not or when the match nests
    /// deeper than `DEFAULT_DEPTH` rule applications.
    pub fn parse(&self, text: &str) -> (r: Option<Context>)
        ensures
            match parse_text(self@, text@, DEFAULT_DEPTH as nat).0 {
                StatusModel::Valid(c, _) => r matches Some(rc) && rc@ == c,
                _ => r is None,
            },
    {
        match self.parse_with_depth(text, DEFAULT_DEPTH) {
            RuleStatus::Valid(context, _) => Some(context),
            _ => None,
        }
    }

    pub fn get_name(&self) -> (r: &str)
        ensures
            r@ == self@.name,
    {
        self.name.as_str()
    }

    pub fn get_tokens_definition(&self) -> (r: &Vec<TokenDefinition>)
        ensures
            def_views(r@) == self@.defs,
    {
        &self.tokens_definition
    }

    pub fn get_token_definition(&self, index: usize) -> (r: &TokenDefinition)
        requires
            index < self@.defs.len(),
        ensures
            r@ == self@.defs[index as int],
    {
        &self.tokens_definition[index]
    }

    pub fn fragments_len(&self) -> (r: usize)
        ensures
            r == self@.fragments.len(),
    {
        self.fragments.len()
    }

    pub fn get_fragment(&self, index: usize) -> (r: &Fragment)
        requires
            index < self@.fragments.len(),
        ensures
            r@ == self@.fragments[index as int],
    {
        &self.fragments[index]
    }

    pub fn get_rule_of_fragment(&self, index: usize) -> (r: &Rule)
        requires
            index < self@.fragments.len(),
        ensures
            r@ == self@.fragments[index as int].rule,
    {
        self.fragments[index].get_rule()
    }
}

} // verus!
