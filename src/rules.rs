use vstd::prelude::*;

use crate::grammar::{Grammar, GrammarModel};
use crate::token::{token_at_expecting, TokenizerModel, Tokenizer};

verus! {

// region: ---Models

/// A rule as a mathematical value.
pub enum RuleModel {
    Token(nat),
    Fragment(nat),
    Sequence(Seq<RuleModel>),
    Or(Seq<RuleModel>),
    Optional(Box<RuleModel>),
    Loop { rule: Box<RuleModel>, separator: Option<Box<RuleModel>>, min: nat, max: nat },
}

/// A parse tree as a mathematical value.
pub enum CtxModel {
    Token(nat, Seq<char>),
    Fragment(nat, Box<CtxModel>),
    Sequence(Seq<CtxModel>),
    Or(nat, Box<CtxModel>),
    Optional(Option<Box<CtxModel>>),
    Loop(Seq<CtxModel>, Option<Seq<CtxModel>>),
}

/// The outcome of a rule: a match with its parse tree and the stream
/// position after it, no match, or the recursion budget used up.
pub enum StatusModel {
    Valid(CtxModel, nat),
    Invalid,
    DepthExceeded,
}

// endregion
// region: ---Parsing semantics

/// Parsing rule `r` at stream position `pos` with tokenizer state `st`,
/// allowing `depth` nested rule applications: the outcome and the tokenizer
/// state afterwards. The tokenizer state is shared by every attempt, also by
/// those that fail, so a position is tokenized once for the whole parse.
pub open spec fn parse_rule(
    g: GrammarModel,
    r: RuleModel,
    st: TokenizerModel,
    pos: nat,
    depth: nat,
) -> (StatusModel, TokenizerModel)
    decreases depth, 0nat,
{
    if depth == 0 {
        (StatusModel::DepthExceeded, st)
    } else {
        let d = (depth - 1) as nat;
        match r {
            RuleModel::Token(i) => {
                let (found, next) = token_at_expecting(g.defs, st, pos, i);
                match found {
                    Some(t) => (StatusModel::Valid(CtxModel::Token(i, t.text), pos + 1), next),
                    None => (StatusModel::Invalid, next),
                }
            },
            RuleModel::Fragment(f) => if f < g.fragments.len() {
                let (res, next) = parse_rule(g, g.fragments[f as int].rule, st, pos, d);
                match res {
                    StatusModel::Valid(c, end) => (
                        StatusModel::Valid(CtxModel::Fragment(f, Box::new(c)), end),
                        next,
                    ),
                    _ => (res, next),
                }
            } else {
                (StatusModel::Invalid, st)
            },
            RuleModel::Sequence(rules) => parse_sequence(g, rules, Seq::empty(), st, pos, d),
            RuleModel::Or(rules) => parse_or(g, rules, 0, st, pos, d),
            RuleModel::Optional(inner) => {
                let (res, next) = parse_rule(g, *inner, st, pos, d);
                match res {
                    StatusModel::Valid(c, end) => (
                        StatusModel::Valid(CtxModel::Optional(Some(Box::new(c))), end),
                        next,
                    ),
                    StatusModel::Invalid => (
                        StatusModel::Valid(CtxModel::Optional(None), pos),
                        next,
                    ),
                    StatusModel::DepthExceeded => (StatusModel::DepthExceeded, next),
                }
            },
            RuleModel::Loop { rule, separator, min, max } => match separator {
                None => parse_repeat(g, *rule, min, max, Seq::empty(), st, pos, d),
                Some(sep) => parse_separated_loop(g, *rule, *sep, min, max, st, pos, d),
            },
        }
    }
}

/// A loop with separator: its first value, then the repetitions of
/// separator and value. A loop whose first value fails matches, empty, only
/// when `min` is 0.
pub open spec fn parse_separated_loop(
    g: GrammarModel,
    rule: RuleModel,
    separator: RuleModel,
    min: nat,
    max: nat,
    st: TokenizerModel,
    pos: nat,
    depth: nat,
) -> (StatusModel, TokenizerModel)
    decreases depth, max + 2,
{
    let (res, next) = parse_rule(g, rule, st, pos, depth);
    match res {
        StatusModel::Valid(c, end) => parse_separated(
            g,
            rule,
            separator,
            min,
            max,
            seq![c],
            Seq::empty(),
            next,
            end,
            depth,
        ),
        StatusModel::Invalid => if min == 0 {
            (StatusModel::Valid(CtxModel::Loop(Seq::empty(), Some(Seq::empty())), pos), next)
        } else {
            (StatusModel::Invalid, next)
        },
        StatusModel::DepthExceeded => (StatusModel::DepthExceeded, next),
    }
}

/// The rest of a sequence, once the parse trees `done` of its first
/// elements are in hand: every remaining element must match, each where the
/// previous one ended.
pub open spec fn parse_sequence(
    g: GrammarModel,
    rules: Seq<RuleModel>,
    done: Seq<CtxModel>,
    st: TokenizerModel,
    pos: nat,
    depth: nat,
) -> (StatusModel, TokenizerModel)
    decreases depth, rules.len() - done.len() + 1,
{
    if done.len() >= rules.len() {
        (StatusModel::Valid(CtxModel::Sequence(done), pos), st)
    } else {
        let (res, next) = parse_rule(g, rules[done.len() as int], st, pos, depth);
        match res {
            StatusModel::Valid(c, end) => parse_sequence(g, rules, done.push(c), next, end, depth),
            _ => (res, next),
        }
    }
}

/// The alternatives of an ordered choice from index `i` on, all tried at
/// `pos`: the first that matches wins.
pub open spec fn parse_or(
    g: GrammarModel,
    rules: Seq<RuleModel>,
    i: nat,
    st: TokenizerModel,
    pos: nat,
    depth: nat,
) -> (StatusModel, TokenizerModel)
    decreases depth, rules.len() - i + 1,
{
    if i >= rules.len() {
        (StatusModel::Invalid, st)
    } else {
        let (res, next) = parse_rule(g, rules[i as int], st, pos, depth);
        match res {
            StatusModel::Valid(c, end) => (StatusModel::Valid(CtxModel::Or(i, Box::new(c)), end), next),
            StatusModel::Invalid => parse_or(g, rules, i + 1, next, pos, depth),
            StatusModel::DepthExceeded => (StatusModel::DepthExceeded, next),
        }
    }
}

/// How a loop ends once it stops repeating: it matches when it collected at
/// least `min` values.
pub open spec fn finish_loop(
    values: Seq<CtxModel>,
    separators: Option<Seq<CtxModel>>,
    min: nat,
    st: TokenizerModel,
    pos: nat,
) -> (StatusModel, TokenizerModel) {
    if values.len() < min {
        (StatusModel::Invalid, st)
    } else {
        (StatusModel::Valid(CtxModel::Loop(values, separators), pos), st)
    }
}

/// A loop without separator, after the values `values`: repeats `rule`
/// greedily until it fails or `max` values are collected.
pub open spec fn parse_repeat(
    g: GrammarModel,
    rule: RuleModel,
    min: nat,
    max: nat,
    values: Seq<CtxModel>,
    st: TokenizerModel,
    pos: nat,
    depth: nat,
) -> (StatusModel, TokenizerModel)
    decreases depth, max - values.len() + 1,
{
    if values.len() >= max {
        finish_loop(values, None, min, st, pos)
    } else {
        let (res, next) = parse_rule(g, rule, st, pos, depth);
        match res {
            StatusModel::Valid(c, end) => parse_repeat(
                g,
                rule,
                min,
                max,
                values.push(c),
                next,
                end,
                depth,
            ),
            StatusModel::Invalid => finish_loop(values, None, min, next, pos),
            StatusModel::DepthExceeded => (StatusModel::DepthExceeded, next),
        }
    }
}

/// A loop with separator, after its first value: repeats separator then
/// value until either fails or `max` values are collected. A separator
/// counts only when the value after it matches.
pub open spec fn parse_separated(
    g: GrammarModel,
    rule: RuleModel,
    separator: RuleModel,
    min: nat,
    max: nat,
    values: Seq<CtxModel>,
    separators: Seq<CtxModel>,
    st: TokenizerModel,
    pos: nat,
    depth: nat,
) -> (StatusModel, TokenizerModel)
    decreases depth, max - values.len() + 1,
{
    if values.len() >= max {
        finish_loop(values, Some(separators), min, st, pos)
    } else {
        let (sep_res, after_sep) = parse_rule(g, separator, st, pos, depth);
        match sep_res {
            StatusModel::Valid(sc, sep_end) => {
                let (res, next) = parse_rule(g, rule, after_sep, sep_end, depth);
                match res {
                    StatusModel::Valid(c, end) => parse_separated(
                        g,
                        rule,
                        separator,
                        min,
                        max,
                        values.push(c),
                        separators.push(sc),
                        next,
                        end,
                        depth,
                    ),
                    StatusModel::Invalid => finish_loop(values, Some(separators), min, next, pos),
                    StatusModel::DepthExceeded => (StatusModel::DepthExceeded, next),
                }
            },
            StatusModel::Invalid => finish_loop(values, Some(separators), min, after_sep, pos),
            StatusModel::DepthExceeded => (StatusModel::DepthExceeded, after_sep),
        }
    }
}

// endregion
// region: ---Rule Status

#[derive(Debug)]
pub enum RuleStatus {
    Valid(Context, usize),
    Invalid,
    DepthExceeded,
}

impl View for RuleStatus {
    type V = StatusModel;

    open spec fn view(&self) -> StatusModel {
        match self {
            RuleStatus::Valid(c, end) => StatusModel::Valid(c@, *end as nat),
            RuleStatus::Invalid => StatusModel::Invalid,
            RuleStatus::DepthExceeded => StatusModel::DepthExceeded,
        }
    }
}

// endregion
// region: ---Context

#[derive(Debug)]
pub enum Context {
    Token(TokenContext),
    Fragment(FragmentContext),
    Sequence(SequenceContext),
    Or(OrContext),
    Optional(OptionalContext),
    Loop(LoopContext),
}

/// The definition index of the matched token and its text.
#[derive(Debug)]
pub struct TokenContext(pub usize, pub String);

/// The fragment index and the parse tree of the fragment's rule.
#[derive(Debug)]
pub struct FragmentContext(pub usize, pub Box<Context>);

/// The parse trees of the sequence's elements.
#[derive(Debug)]
pub struct SequenceContext(pub Vec<Context>);

/// The index of the alternative that matched and its parse tree.
#[derive(Debug)]
pub struct OrContext(pub usize, pub Box<Context>);

/// The parse tree of the optional rule, when it matched.
#[derive(Debug)]
pub struct OptionalContext(pub Box<Option<Context>>);

/// The parse trees of the values and, for a loop with a separator, of the
/// separators.
#[derive(Debug)]
pub struct LoopContext(pub Vec<Context>, pub Option<Vec<Context>>);

impl View for Context {
    type V = CtxModel;

    open spec fn view(&self) -> CtxModel
        decreases self,
    {
        match self {
            Context::Token(t) => CtxModel::Token(t.0 as nat, t.1@),
            Context::Fragment(f) => CtxModel::Fragment(f.0 as nat, Box::new((*f.1).view())),
            Context::Sequence(s) => CtxModel::Sequence(ctx_views(s.0@)),
            Context::Or(o) => CtxModel::Or(o.0 as nat, Box::new((*o.1).view())),
            Context::Optional(o) => CtxModel::Optional(
                match &*o.0 {
                    Some(c) => Some(Box::new(c.view())),
                    None => None,
                },
            ),
            Context::Loop(l) => CtxModel::Loop(
                ctx_views(l.0@),
                match &l.1 {
                    Some(seps) => Some(ctx_views(seps@)),
                    None => None,
                },
            ),
        }
    }
}

/// The models of a sequence of parse trees.
pub open spec fn ctx_views(s: Seq<Context>) -> Seq<CtxModel>
    decreases s,
{
    if s.len() == 0 {
        Seq::empty()
    } else {
        ctx_views(s.drop_last()).push(s.last().view())
    }
}

proof fn lemma_ctx_views_push(s: Seq<Context>, c: Context)
    ensures
        ctx_views(s.push(c)) == ctx_views(s).push(c@),
{
    assert(s.push(c).drop_last() =~= s);
}

proof fn lemma_ctx_views_len(s: Seq<Context>)
    ensures
        ctx_views(s).len() == s.len(),
    decreases s.len(),
{
    if s.len() > 0 {
        lemma_ctx_views_len(s.drop_last());
        assert(ctx_views(s) == ctx_views(s.drop_last()).push(s.last()@));
    } else {
        assert(ctx_views(s) == Seq::<CtxModel>::empty());
    }
}

proof fn lemma_ctx_views_empty(s: Seq<Context>)
    requires
        s.len() == 0,
    ensures
        ctx_views(s) == Seq::<CtxModel>::empty(),
{
}

// endregion
// region: ---Rules

#[derive(Debug)]
pub enum Rule {
    Token(TokenRule),
    Fragment(FragmentRule),
    Sequence(SequenceRule),
    Or(OrRule),
    Optional(OptionalRule),
    Loop(LoopRule),
}

/// Matches one token of the definition with this index.
#[derive(Debug)]
pub struct TokenRule(pub usize);

/// Delegates to the fragment with this index.
#[derive(Debug)]
pub struct FragmentRule(pub usize);

/// Matches its rules one after the other.
#[derive(Debug)]
pub struct SequenceRule(pub Vec<Rule>);

/// Matches the first of its rules that matches.
#[derive(Debug)]
pub struct OrRule(pub Vec<Rule>);

/// Matches its rule, or nothing.
#[derive(Debug)]
pub struct OptionalRule(pub Box<Rule>);

/// Repeats its rule, between `min` and `max` times, with an optional
/// separator between repetitions.
#[derive(Debug)]
pub struct LoopRule {
    pub rule: Box<Rule>,
    pub separator: Option<Box<Rule>>,
    pub min: usize,
    pub max: usize,
}

impl View for Rule {
    type V = RuleModel;

    open spec fn view(&self) -> RuleModel
        decreases self,
    {
        match self {
            Rule::Token(t) => RuleModel::Token(t.0 as nat),
            Rule::Fragment(f) => RuleModel::Fragment(f.0 as nat),
            Rule::Sequence(s) => RuleModel::Sequence(rule_views(s.0@)),
            Rule::Or(o) => RuleModel::Or(rule_views(o.0@)),
            Rule::Optional(o) => RuleModel::Optional(Box::new((*o.0).view())),
            Rule::Loop(l) => RuleModel::Loop {
                rule: Box::new((*l.rule).view()),
                separator: match &l.separator {
                    Some(s) => Some(Box::new((**s).view())),
                    None => None,
                },
                min: l.min as nat,
                max: l.max as nat,
            },
        }
    }
}

/// The models of a sequence of rules.
pub open spec fn rule_views(s: Seq<Rule>) -> Seq<RuleModel>
    decreases s,
{
    if s.len() == 0 {
        Seq::empty()
    } else {
        rule_views(s.drop_last()).push(s.last().view())
    }
}

pub(crate) proof fn lemma_rule_views(s: Seq<Rule>)
    ensures
        rule_views(s).len() == s.len(),
        forall|i: int| 0 <= i < s.len() ==> #[trigger] rule_views(s)[i] == s[i]@,
    decreases s.len(),
{
    if s.len() > 0 {
        lemma_rule_views(s.drop_last());
        assert(rule_views(s) == rule_views(s.drop_last()).push(s.last()@));
        assert forall|i: int| 0 <= i < s.len() implies #[trigger] rule_views(s)[i] == s[i]@ by {
            if i < s.len() - 1 {
                assert(s.drop_last()[i] == s[i]);
            }
        }
    } else {
        assert(rule_views(s) == Seq::<RuleModel>::empty());
    }
}

pub(crate) proof fn lemma_rule_views_push(s: Seq<Rule>, r: Rule)
    ensures
        rule_views(s.push(r)) == rule_views(s).push(r@),
{
    assert(s.push(r).drop_last() =~= s);
}

pub(crate) proof fn lemma_rule_views_empty(s: Seq<Rule>)
    requires
        s.len() == 0,
    ensures
        rule_views(s) == Seq::<RuleModel>::empty(),
{
}

impl Rule {
    /// Parses this rule at stream position `index_start`, allowing `depth`
    /// nested rule applications.
    pub fn parse<'a>(
        &self,
        tokenizer: &mut Tokenizer<'a>,
        grammar: &Grammar,
        index_start: usize,
        depth: usize,
    ) -> (r: RuleStatus)
        requires
            old(tokenizer).wf(),
            old(tokenizer).definitions() == grammar@.defs,
        ensures
            final(tokenizer).wf(),
            final(tokenizer).definitions() == old(tokenizer).definitions(),
            (r@, final(tokenizer)@) == parse_rule(
                grammar@,
                self@,
                old(tokenizer)@,
                index_start as nat,
                depth as nat,
            ),
        decreases depth, 0nat,
    {
        if depth == 0 {
            return RuleStatus::DepthExceeded;
        }
        let d = depth - 1;
        match self {
            Rule::Token(t) => t.parse(tokenizer, grammar, index_start),
            Rule::Fragment(f) => f.parse(tokenizer, grammar, index_start, d),
            Rule::Sequence(s) => s.parse(tokenizer, grammar, index_start, d),
            Rule::Or(o) => o.parse(tokenizer, grammar, index_start, d),
            Rule::Optional(o) => o.parse(tokenizer, grammar, index_start, d),
            Rule::Loop(l) => l.parse(tokenizer, grammar, index_start, d),
        }
    }
}

impl TokenRule {
    pub fn parse<'a>(&self, tokenizer: &mut Tokenizer<'a>, grammar: &Grammar, index_start: usize) -> (r:
        RuleStatus)
        requires
            old(tokenizer).wf(),
            old(tokenizer).definitions() == grammar@.defs,
        ensures
            final(tokenizer).wf(),
            final(tokenizer).definitions() == old(tokenizer).definitions(),
            (r@, final(tokenizer)@) == parse_rule(
                grammar@,
                RuleModel::Token(self.0 as nat),
                old(tokenizer)@,
                index_start as nat,
                1,
            ),
    {
        match tokenizer.get_token_from_token_definition(index_start, self.0) {
            Some(token) => {
                let text = token.slice().to_owned();
                RuleStatus::Valid(Context::Token(TokenContext(self.0, text)), index_start + 1)
            },
            None => RuleStatus::Invalid,
        }
    }
}

impl FragmentRule {
    pub fn parse<'a>(
        &self,
        tokenizer: &mut Tokenizer<'a>,
        grammar: &Grammar,
        index_start: usize,
        depth: usize,
    ) -> (r: RuleStatus)
        requires
            old(tokenizer).wf(),
            old(tokenizer).definitions() == grammar@.defs,
        ensures
            final(tokenizer).wf(),
            final(tokenizer).definitions() == old(tokenizer).definitions(),
            (r@, final(tokenizer)@) == parse_rule(
                grammar@,
                RuleModel::Fragment(self.0 as nat),
                old(tokenizer)@,
                index_start as nat,
                (depth + 1) as nat,
            ),
        decreases depth, 1nat,
    {
        if self.0 >= grammar.fragments_len() {
            return RuleStatus::Invalid;
        }
        let rule = grammar.get_rule_of_fragment(self.0);
        match rule.parse(tokenizer, grammar, index_start, depth) {
            RuleStatus::Valid(context, index_end) => RuleStatus::Valid(
                Context::Fragment(FragmentContext(self.0, Box::new(context))),
                index_end,
            ),
            RuleStatus::Invalid => RuleStatus::Invalid,
            RuleStatus::DepthExceeded => RuleStatus::DepthExceeded,
        }
    }
}

impl SequenceRule {
    pub fn parse<'a>(
        &self,
        tokenizer: &mut Tokenizer<'a>,
        grammar: &Grammar,
        index_start: usize,
        depth: usize,
    ) -> (r: RuleStatus)
        requires
            old(tokenizer).wf(),
            old(tokenizer).definitions() == grammar@.defs,
        ensures
            final(tokenizer).wf(),
            final(tokenizer).definitions() == old(tokenizer).definitions(),
            (r@, final(tokenizer)@) == parse_sequence(
                grammar@,
                rule_views(self.0@),
                Seq::empty(),
                old(tokenizer)@,
                index_start as nat,
                depth as nat,
            ),
        decreases depth, 1nat,
    {
        let ghost rules = rule_views(self.0@);
        let mut index = index_start;
        let mut sequence_context: Vec<Context> = Vec::new();
        proof {
            lemma_ctx_views_empty(sequence_context@);
        }
        let mut i: usize = 0;
        while i < self.0.len()
            invariant
                tokenizer.wf(),
                tokenizer.definitions() == grammar@.defs,
                tokenizer.definitions() == old(tokenizer).definitions(),
                rules == rule_views(self.0@),
                i == sequence_context@.len(),
                i <= self.0@.len(),
                parse_sequence(
                    grammar@,
                    rules,
                    ctx_views(sequence_context@),
                    tokenizer@,
                    index as nat,
                    depth as nat,
                ) == parse_sequence(
                    grammar@,
                    rules,
                    Seq::empty(),
                    old(tokenizer)@,
                    index_start as nat,
                    depth as nat,
                ),
            decreases self.0@.len() - i,
        {
            proof {
                lemma_rule_views(self.0@);
                lemma_ctx_views_len(sequence_context@);
            }
            match self.0[i].parse(tokenizer, grammar, index, depth) {
                RuleStatus::Valid(context, index_end) => {
                    proof {
                        lemma_ctx_views_push(sequence_context@, context);
                    }
                    index = index_end;
                    sequence_context.push(context);
                },
                RuleStatus::Invalid => return RuleStatus::Invalid,
                RuleStatus::DepthExceeded => return RuleStatus::DepthExceeded,
            }
            i += 1;
        }
        proof {
            lemma_rule_views(self.0@);
            lemma_ctx_views_len(sequence_context@);
        }
        RuleStatus::Valid(Context::Sequence(SequenceContext(sequence_context)), index)
    }
}

impl OrRule {
    pub fn parse<'a>(
        &self,
        tokenizer: &mut Tokenizer<'a>,
        grammar: &Grammar,
        index_start: usize,
        depth: usize,
    ) -> (r: RuleStatus)
        requires
            old(tokenizer).wf(),
            old(tokenizer).definitions() == grammar@.defs,
        ensures
            final(tokenizer).wf(),
            final(tokenizer).definitions() == old(tokenizer).definitions(),
            (r@, final(tokenizer)@) == parse_or(
                grammar@,
                rule_views(self.0@),
                0,
                old(tokenizer)@,
                index_start as nat,
                depth as nat,
            ),
        decreases depth, 1nat,
    {
        let ghost rules = rule_views(self.0@);
        let mut index_rule: usize = 0;
        while index_rule < self.0.len()
            invariant
                tokenizer.wf(),
                tokenizer.definitions() == grammar@.defs,
                tokenizer.definitions() == old(tokenizer).definitions(),
                rules == rule_views(self.0@),
                index_rule <= self.0@.len(),
                parse_or(grammar@, rules, index_rule as nat, tokenizer@, index_start as nat, depth as nat)
                    == parse_or(
                    grammar@,
                    rules,
                    0,
                    old(tokenizer)@,
                    index_start as nat,
                    depth as nat,
                ),
            decreases self.0@.len() - index_rule,
        {
            proof {
                lemma_rule_views(self.0@);
            }
            match self.0[index_rule].parse(tokenizer, grammar, index_start, depth) {
                RuleStatus::Valid(context, index_end) => {
                    return RuleStatus::Valid(
                        Context::Or(OrContext(index_rule, Box::new(context))),
                        index_end,
                    );
                },
                RuleStatus::Invalid => {},
                RuleStatus::DepthExceeded => return RuleStatus::DepthExceeded,
            }
            index_rule += 1;
        }
        proof {
            lemma_rule_views(self.0@);
        }
        RuleStatus::Invalid
    }
}

impl OptionalRule {
    pub fn parse<'a>(
        &self,
        tokenizer: &mut Tokenizer<'a>,
        grammar: &Grammar,
        index_start: usize,
        depth: usize,
    ) -> (r: RuleStatus)
        requires
            old(tokenizer).wf(),
            old(tokenizer).definitions() == grammar@.defs,
        ensures
            final(tokenizer).wf(),
            final(tokenizer).definitions() == old(tokenizer).definitions(),
            (r@, final(tokenizer)@) == parse_rule(
                grammar@,
                RuleModel::Optional(Box::new((*self.0)@)),
                old(tokenizer)@,
                index_start as nat,
                (depth + 1) as nat,
            ),
        decreases depth, 1nat,
    {
        match self.0.parse(tokenizer, grammar, index_start, depth) {
            RuleStatus::Valid(context, index_end) => RuleStatus::Valid(
                Context::Optional(OptionalContext(Box::new(Some(context)))),
                index_end,
            ),
            RuleStatus::Invalid => RuleStatus::Valid(
                Context::Optional(OptionalContext(Box::new(None))),
                index_start,
            ),
            RuleStatus::DepthExceeded => RuleStatus::DepthExceeded,
        }
    }
}

// endregion

/// The model of a loop rule with these parts.
pub open spec fn loop_model(
    rule: &Box<Rule>,
    separator: &Option<Box<Rule>>,
    min: usize,
    max: usize,
) -> RuleModel {
    RuleModel::Loop {
        rule: Box::new((**rule)@),
        separator: match separator {
            Some(s) => Some(Box::new((**s)@)),
            None => None,
        },
        min: min as nat,
        max: max as nat,
    }
}

impl LoopRule {
    /// At least `min` repetitions, with no upper bound.
    pub fn new_min(rule: Box<Rule>, min: usize, separator: Option<Box<Rule>>) -> (r: LoopRule)
        ensures
            r.rule == rule,
            r.separator == separator,
            r.min == min,
            r.max == usize::MAX,
    {
        LoopRule { rule, min, max: usize::MAX, separator }
    }

    /// Between `min` and `max` repetitions.
    pub fn new_min_max(rule: Box<Rule>, min: usize, max: usize, separator: Option<Box<Rule>>) -> (r:
        LoopRule)
        ensures
            r.rule == rule,
            r.separator == separator,
            r.min == min,
            r.max == max,
    {
        LoopRule { rule, min, max, separator }
    }

    /// At most `max` repetitions.
    pub fn new_max(rule: Box<Rule>, max: usize, separator: Option<Box<Rule>>) -> (r: LoopRule)
        ensures
            r.rule == rule,
            r.separator == separator,
            r.min == 0,
            r.max == max,
    {
        LoopRule { rule, min: 0, max, separator }
    }

    /// Any number of repetitions.
    pub fn new_zero_or_more(rule: Box<Rule>, separator: Option<Box<Rule>>) -> (r: LoopRule)
        ensures
            r.rule == rule,
            r.separator == separator,
            r.min == 0,
            r.max == usize::MAX,
    {
        LoopRule { rule, min: 0, max: usize::MAX, separator }
    }

    /// At least one repetition.
    pub fn new_one_or_more(rule: Box<Rule>, separator: Option<Box<Rule>>) -> (r: LoopRule)
        ensures
            r.rule == rule,
            r.separator == separator,
            r.min == 1,
            r.max == usize::MAX,
    {
        LoopRule { rule, min: 1, max: usize::MAX, separator }
    }

    fn parse_without_separator<'a>(
        &self,
        tokenizer: &mut Tokenizer<'a>,
        grammar: &Grammar,
        index_start: usize,
        depth: usize,
    ) -> (r: RuleStatus)
        requires
            old(tokenizer).wf(),
            old(tokenizer).definitions() == grammar@.defs,
        ensures
            final(tokenizer).wf(),
            final(tokenizer).definitions() == old(tokenizer).definitions(),
            (r@, final(tokenizer)@) == parse_repeat(
                grammar@,
                (*self.rule)@,
                self.min as nat,
                self.max as nat,
                Seq::empty(),
                old(tokenizer)@,
                index_start as nat,
                depth as nat,
            ),
        decreases depth, 1nat,
    {
        let ghost target = parse_repeat(
            grammar@,
            (*self.rule)@,
            self.min as nat,
            self.max as nat,
            Seq::empty(),
            tokenizer@,
            index_start as nat,
            depth as nat,
        );
        let mut context_values: Vec<Context> = Vec::new();
        let mut index = index_start;
        proof {
            lemma_ctx_views_empty(context_values@);
        }
        loop
            invariant_except_break
                parse_repeat(
                    grammar@,
                    (*self.rule)@,
                    self.min as nat,
                    self.max as nat,
                    ctx_views(context_values@),
                    tokenizer@,
                    index as nat,
                    depth as nat,
                ) == target,
            invariant
                tokenizer.wf(),
                tokenizer.definitions() == grammar@.defs,
                tokenizer.definitions() == old(tokenizer).definitions(),
                target == parse_repeat(
                    grammar@,
                    (*self.rule)@,
                    self.min as nat,
                    self.max as nat,
                    Seq::empty(),
                    old(tokenizer)@,
                    index_start as nat,
                    depth as nat,
                ),
                context_values@.len() <= self.max,
            ensures
                target == finish_loop(
                    ctx_views(context_values@),
                    None,
                    self.min as nat,
                    tokenizer@,
                    index as nat,
                ),
            decreases self.max - context_values@.len(),
        {
            proof {
                lemma_ctx_views_len(context_values@);
            }
            if context_values.len() >= self.max {
                break;
            }
            match self.rule.parse(tokenizer, grammar, index, depth) {
                RuleStatus::Valid(context, index_end) => {
                    proof {
                        lemma_ctx_views_push(context_values@, context);
                    }
                    index = index_end;
                    context_values.push(context);
                },
                RuleStatus::Invalid => break,
                RuleStatus::DepthExceeded => return RuleStatus::DepthExceeded,
            }
        }
        proof {
            lemma_ctx_views_len(context_values@);
        }
        if context_values.len() < self.min {
            return RuleStatus::Invalid;
        }
        RuleStatus::Valid(Context::Loop(LoopContext(context_values, None)), index)
    }

    /// True when the loop matches with no repetition at all.
    pub fn accept_empty(&self) -> (r: bool)
        ensures
            r == (self.min == 0),
    {
        self.min == 0
    }

    fn parse_with_separator<'a>(
        &self,
        separator: &Rule,
        tokenizer: &mut Tokenizer<'a>,
        grammar: &Grammar,
        index_start: usize,
        depth: usize,
    ) -> (r: RuleStatus)
        requires
            old(tokenizer).wf(),
            old(tokenizer).definitions() == grammar@.defs,
        ensures
            final(tokenizer).wf(),
            final(tokenizer).definitions() == old(tokenizer).definitions(),
            (r@, final(tokenizer)@) == parse_separated_loop(
                grammar@,
                (*self.rule)@,
                separator@,
                self.min as nat,
                self.max as nat,
                old(tokenizer)@,
                index_start as nat,
                depth as nat,
            ),
        decreases depth, 1nat,
    {
        let mut context_values: Vec<Context> = Vec::new();
        let mut context_separators: Vec<Context> = Vec::new();
        let mut index = index_start;

        // parse first value
        match self.rule.parse(tokenizer, grammar, index, depth) {
            RuleStatus::Valid(context, index_end) => {
                proof {
                    lemma_ctx_views_push(context_values@, context);
                }
                index = index_end;
                context_values.push(context);
            },
            RuleStatus::Invalid => {
                proof {
                    lemma_ctx_views_empty(context_values@);
                    lemma_ctx_views_empty(context_separators@);
                }
                return if self.accept_empty() {
                    RuleStatus::Valid(
                        Context::Loop(LoopContext(context_values, Some(context_separators))),
                        index,
                    )
                } else {
                    RuleStatus::Invalid
                };
            },
            RuleStatus::DepthExceeded => return RuleStatus::DepthExceeded,
        }
        proof {
            lemma_ctx_views_empty(Seq::<Context>::empty());
            assert(ctx_views(context_values@) =~= seq![context_values@[0]@]);
            lemma_ctx_views_empty(context_separators@);
        }
        let ghost target = parse_separated(
            grammar@,
            (*self.rule)@,
            separator@,
            self.min as nat,
            self.max as nat,
            ctx_views(context_values@),
            ctx_views(context_separators@),
            tokenizer@,
            index as nat,
            depth as nat,
        );
        loop
            invariant_except_break
                parse_separated(
                    grammar@,
                    (*self.rule)@,
                    separator@,
                    self.min as nat,
                    self.max as nat,
                    ctx_views(context_values@),
                    ctx_views(context_separators@),
                    tokenizer@,
                    index as nat,
                    depth as nat,
                ) == target,
            invariant
                tokenizer.wf(),
                tokenizer.definitions() == grammar@.defs,
                tokenizer.definitions() == old(tokenizer).definitions(),
                target == parse_separated_loop(
                    grammar@,
                    (*self.rule)@,
                    separator@,
                    self.min as nat,
                    self.max as nat,
                    old(tokenizer)@,
                    index_start as nat,
                    depth as nat,
                ),
            ensures
                target == finish_loop(
                    ctx_views(context_values@),
                    Some(ctx_views(context_separators@)),
                    self.min as nat,
                    tokenizer@,
                    index as nat,
                ),
            decreases self.max - context_values@.len(),
        {
            proof {
                lemma_ctx_views_len(context_values@);
                lemma_ctx_views_len(context_separators@);
            }
            if context_values.len() >= self.max {
                break;
            }
            // parse separator
            let separator_context: Context;
            let separator_index_end: usize;
            match separator.parse(tokenizer, grammar, index, depth) {
                RuleStatus::Valid(context, index_end) => {
                    separator_index_end = index_end;
                    separator_context = context;
                },
                RuleStatus::Invalid => break,
                RuleStatus::DepthExceeded => return RuleStatus::DepthExceeded,
            }
            // parse value
            match self.rule.parse(tokenizer, grammar, separator_index_end, depth) {
                RuleStatus::Valid(context, index_end) => {
                    proof {
                        lemma_ctx_views_push(context_values@, context);
                    }
                    index = index_end;
                    context_values.push(context);
                },
                RuleStatus::Invalid => break,
                RuleStatus::DepthExceeded => return RuleStatus::DepthExceeded,
            }
            // keep the separator: a value follows it
            proof {
                lemma_ctx_views_push(context_separators@, separator_context);
            }
            context_separators.push(separator_context);
        }
        proof {
            lemma_ctx_views_len(context_values@);
        }
        if context_values.len() < self.min {
            return RuleStatus::Invalid;
        }
        RuleStatus::Valid(
            Context::Loop(LoopContext(context_values, Some(context_separators))),
            index,
        )
    }

    pub fn parse<'a>(
        &self,
        tokenizer: &mut Tokenizer<'a>,
        grammar: &Grammar,
        index_start: usize,
        depth: usize,
    ) -> (r: RuleStatus)
        requires
            old(tokenizer).wf(),
            old(tokenizer).definitions() == grammar@.defs,
        ensures
            final(tokenizer).wf(),
            final(tokenizer).definitions() == old(tokenizer).definitions(),
            (r@, final(tokenizer)@) == parse_rule(
                grammar@,
                loop_model(&self.rule, &self.separator, self.min, self.max),
                old(tokenizer)@,
                index_start as nat,
                (depth + 1) as nat,
            ),
        decreases depth, 2nat,
    {
        match &self.separator {
            Some(separator) => self.parse_with_separator(separator, tokenizer, grammar, index_start, depth),
            None => self.parse_without_separator(tokenizer, grammar, index_start, depth),
        }
    }
}

// endregion

} // verus!
