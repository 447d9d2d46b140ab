use vstd::prelude::*;
use vstd::string::StringExecFns;

use crate::fragment::{fragment_views, Fragment, FragmentModel};
use crate::grammar::{Grammar, GrammarModel};
use crate::re::{regex_accepts, regex_compiles};
use crate::rules::{
    lemma_rule_views, lemma_rule_views_empty, lemma_rule_views_push, rule_views, FragmentRule,
    LoopRule, OptionalRule, OrRule, Rule, RuleModel, SequenceRule, TokenRule,
};
use crate::token::{def_views, DefModel, PatternModel, Pattern, TokenDefinition};

verus! {

// region: ---Description

/// A grammar description: the JSON values the compiler reads. An object
/// keeps its entries in the order they were written.
#[derive(Debug)]
pub enum JsonValue {
    Null,
    Bool(bool),
    /// A number, with its value when it is a non-negative integer that fits
    /// in `usize`.
    Number(Option<usize>),
    String(String),
    Array(Vec<JsonValue>),
    Object(Vec<(String, JsonValue)>),
}

/// What went wrong while compiling a description.
#[derive(Debug)]
pub enum Error {
    Default,
    /// The rule of this fragment is null or missing.
    NullRule(String),
    /// The rule of this fragment is neither a name, a list nor an object.
    UndefinedRule(String),
    /// A rule object has this unknown `type`.
    UnknownRuleType(String),
    /// This token's definition is neither a string, `{regex}` nor `{keyword}`.
    UndefinedToken(String),
    /// This regular expression does not compile.
    UndefinedRegexExpression(String),
    /// No token or fragment has this name.
    UnknownTokenOrFragment(String),
    /// A rule refers to this token or fragment index, which does not exist.
    IndexOutOfRange(usize),
    /// This field is missing, or is not of the kind required.
    MissingField(String),
    /// This many fragments are marked `"main": true`, instead of one.
    StartFragment(usize),
}

/// An error as a mathematical value.
pub enum ErrorModel {
    Default,
    NullRule(Seq<char>),
    UndefinedRule(Seq<char>),
    UnknownRuleType(Seq<char>),
    UndefinedToken(Seq<char>),
    UndefinedRegexExpression(Seq<char>),
    UnknownTokenOrFragment(Seq<char>),
    IndexOutOfRange(nat),
    MissingField(Seq<char>),
    StartFragment(nat),
}

impl View for Error {
    type V = ErrorModel;

    open spec fn view(&self) -> ErrorModel {
        match self {
            Error::Default => ErrorModel::Default,
            Error::NullRule(s) => ErrorModel::NullRule(s@),
            Error::UndefinedRule(s) => ErrorModel::UndefinedRule(s@),
            Error::UnknownRuleType(s) => ErrorModel::UnknownRuleType(s@),
            Error::UndefinedToken(s) => ErrorModel::UndefinedToken(s@),
            Error::UndefinedRegexExpression(s) => ErrorModel::UndefinedRegexExpression(s@),
            Error::UnknownTokenOrFragment(s) => ErrorModel::UnknownTokenOrFragment(s@),
            Error::IndexOutOfRange(i) => ErrorModel::IndexOutOfRange(*i as nat),
            Error::MissingField(s) => ErrorModel::MissingField(s@),
            Error::StartFragment(n) => ErrorModel::StartFragment(*n as nat),
        }
    }
}

/// The names a rule can refer to: token names and fragment names, each
/// list in declaration order.
pub struct NameTables {
    pub tokens: Seq<Seq<char>>,
    pub fragments: Seq<Seq<char>>,
}

// endregion
// region: ---Compilation semantics

/// The position of the first entry, from `from` on, whose key is `key`.
pub open spec fn field_index(entries: Seq<(String, JsonValue)>, key: Seq<char>, from: nat) -> Option<
    nat,
>
    decreases entries.len() - from,
{
    if from >= entries.len() {
        None
    } else if entries[from as int].0@ == key {
        Some(from)
    } else {
        field_index(entries, key, from + 1)
    }
}

/// The value of the first entry whose key is `key`.
pub open spec fn field(entries: Seq<(String, JsonValue)>, key: Seq<char>) -> Option<JsonValue> {
    match field_index(entries, key, 0) {
        Some(k) => if k < entries.len() {
            Some(entries[k as int].1)
        } else {
            None
        },
        None => None,
    }
}

/// The keys of an object's entries, in order.
pub open spec fn keys(entries: Seq<(String, JsonValue)>) -> Seq<Seq<char>> {
    entries.map_values(|e: (String, JsonValue)| e.0@)
}

/// The position of the first name, from `from` on, equal to `name`.
pub open spec fn name_index(names: Seq<Seq<char>>, name: Seq<char>, from: nat) -> Option<nat>
    decreases names.len() - from,
{
    if from >= names.len() {
        None
    } else if names[from as int] == name {
        Some(from)
    } else {
        name_index(names, name, from + 1)
    }
}

/// A name used as a rule: a fragment reference when a fragment has that
/// name, else a token reference when a token has it.
pub open spec fn resolve_name(names: NameTables, name: Seq<char>) -> Result<RuleModel, ErrorModel> {
    match name_index(names.fragments, name, 0) {
        Some(i) => Ok(RuleModel::Fragment(i)),
        None => match name_index(names.tokens, name, 0) {
            Some(i) => Ok(RuleModel::Token(i)),
            None => Err(ErrorModel::UnknownTokenOrFragment(name)),
        },
    }
}

/// The pattern source a regular expression token compiles to: anchored at
/// the start of the text.
pub open spec fn anchored(source: Seq<char>) -> Seq<char> {
    "^"@ + source
}

pub open spec fn compile_regex(source: Seq<char>) -> Result<PatternModel, ErrorModel> {
    if regex_accepts(anchored(source)) {
        Ok(PatternModel::Regex(anchored(source)))
    } else {
        Err(ErrorModel::UndefinedRegexExpression(source))
    }
}

/// A token definition: a string is a regular expression; an object gives
/// `regex` or `keyword`.
pub open spec fn compile_token(name: Seq<char>, j: JsonValue) -> Result<DefModel, ErrorModel> {
    let pattern = match j {
        JsonValue::String(s) => compile_regex(s@),
        JsonValue::Object(entries) => match field(entries@, "regex"@) {
            Some(JsonValue::String(s)) => compile_regex(s@),
            Some(_) => Err(ErrorModel::UndefinedToken(name)),
            None => match field(entries@, "keyword"@) {
                Some(JsonValue::String(k)) => Ok(PatternModel::Keyword(k@)),
                _ => Err(ErrorModel::UndefinedToken(name)),
            },
        },
        _ => Err(ErrorModel::UndefinedToken(name)),
    };
    match pattern {
        Ok(p) => Ok(DefModel { name, pattern: p }),
        Err(e) => Err(e),
    }
}

/// The token definitions from entry `i` on, after the definitions `done`.
pub open spec fn compile_tokens(entries: Seq<(String, JsonValue)>, done: Seq<DefModel>) -> Result<
    Seq<DefModel>,
    ErrorModel,
>
    decreases entries.len() - done.len(),
{
    if done.len() >= entries.len() {
        Ok(done)
    } else {
        let e = entries[done.len() as int];
        match compile_token(e.0@, e.1) {
            Ok(d) => compile_tokens(entries, done.push(d)),
            Err(err) => Err(err),
        }
    }
}

/// A `token` or `fragment` reference given by `value`: an index, or a
/// name of that kind.
pub open spec fn compile_reference(
    entries: Seq<(String, JsonValue)>,
    names: NameTables,
    is_token: bool,
) -> Result<RuleModel, ErrorModel> {
    let table = if is_token {
        names.tokens
    } else {
        names.fragments
    };
    match field(entries, "value"@) {
        Some(JsonValue::Number(Some(i))) => if i < table.len() {
            Ok(
                if is_token {
                    RuleModel::Token(i as nat)
                } else {
                    RuleModel::Fragment(i as nat)
                },
            )
        } else {
            Err(ErrorModel::IndexOutOfRange(i as nat))
        },
        Some(JsonValue::String(s)) => match name_index(table, s@, 0) {
            Some(i) => Ok(
                if is_token {
                    RuleModel::Token(i)
                } else {
                    RuleModel::Fragment(i)
                },
            ),
            None => Err(ErrorModel::UnknownTokenOrFragment(s@)),
        },
        _ => Err(ErrorModel::MissingField("value"@)),
    }
}

/// An optional count field of a loop: absent gives `default`.
pub open spec fn count_field(entries: Seq<(String, JsonValue)>, key: Seq<char>, default: nat) -> Result<
    nat,
    ErrorModel,
> {
    match field(entries, key) {
        None => Ok(default),
        Some(JsonValue::Number(Some(n))) => Ok(n as nat),
        Some(_) => Err(ErrorModel::MissingField(key)),
    }
}

/// A rule body of fragment `frag`.
pub open spec fn compile_rule(j: JsonValue, names: NameTables, frag: Seq<char>) -> Result<
    RuleModel,
    ErrorModel,
>
    decreases j, 0nat,
{
    match j {
        JsonValue::Null => Err(ErrorModel::NullRule(frag)),
        JsonValue::String(s) => resolve_name(names, s@),
        JsonValue::Array(items) => match compile_rules(items@, Seq::empty(), names, frag) {
            Ok(rules) => Ok(RuleModel::Sequence(rules)),
            Err(e) => Err(e),
        },
        JsonValue::Object(entries) => match field_index(entries@, "type"@, 0) {
            Some(k) => if k < entries@.len() {
                match entries@[k as int].1 {
                    JsonValue::String(t) => compile_typed(entries@, t@, names, frag),
                    _ => Err(ErrorModel::MissingField("type"@)),
                }
            } else {
                Err(ErrorModel::MissingField("type"@))
            },
            None => Err(ErrorModel::MissingField("type"@)),
        },
        _ => Err(ErrorModel::UndefinedRule(frag)),
    }
}

/// The rules listed in the `values` field of a rule object.
pub open spec fn compile_values(entries: Seq<(String, JsonValue)>, names: NameTables, frag: Seq<char>) -> Result<
    Seq<RuleModel>,
    ErrorModel,
>
    decreases entries, 2nat,
{
    match field_index(entries, "values"@, 0) {
        Some(k) => if k < entries.len() {
            match entries[k as int].1 {
                JsonValue::Array(items) => compile_rules(items@, Seq::empty(), names, frag),
                _ => Err(ErrorModel::MissingField("values"@)),
            }
        } else {
            Err(ErrorModel::MissingField("values"@))
        },
        None => Err(ErrorModel::MissingField("values"@)),
    }
}

/// The rule in the `value` field of a rule object.
pub open spec fn compile_value(entries: Seq<(String, JsonValue)>, names: NameTables, frag: Seq<char>) -> Result<
    RuleModel,
    ErrorModel,
>
    decreases entries, 2nat,
{
    match field_index(entries, "value"@, 0) {
        Some(k) => if k < entries.len() {
            compile_rule(entries[k as int].1, names, frag)
        } else {
            Err(ErrorModel::MissingField("value"@))
        },
        None => Err(ErrorModel::MissingField("value"@)),
    }
}

/// The rule in the optional `separator` field of a loop object.
pub open spec fn compile_separator(
    entries: Seq<(String, JsonValue)>,
    names: NameTables,
    frag: Seq<char>,
) -> Result<Option<RuleModel>, ErrorModel>
    decreases entries, 2nat,
{
    match field_index(entries, "separator"@, 0) {
        Some(k) => if k < entries.len() {
            match compile_rule(entries[k as int].1, names, frag) {
                Ok(r) => Ok(Some(r)),
                Err(e) => Err(e),
            }
        } else {
            Ok(None)
        },
        None => Ok(None),
    }
}

/// A loop object: `value`, optional `separator`, optional `min` (0 by
/// default) and `max` (`usize::MAX` by default).
pub open spec fn compile_loop(entries: Seq<(String, JsonValue)>, names: NameTables, frag: Seq<char>) -> Result<
    RuleModel,
    ErrorModel,
>
    decreases entries, 3nat,
{
    match compile_value(entries, names, frag) {
        Ok(r) => match compile_separator(entries, names, frag) {
            Ok(sep) => match count_field(entries, "min"@, 0) {
                Ok(min) => match count_field(entries, "max"@, usize::MAX as nat) {
                    Ok(max) => Ok(
                        RuleModel::Loop {
                            rule: Box::new(r),
                            separator: match sep {
                                Some(sr) => Some(Box::new(sr)),
                                None => None,
                            },
                            min,
                            max,
                        },
                    ),
                    Err(e) => Err(e),
                },
                Err(e) => Err(e),
            },
            Err(e) => Err(e),
        },
        Err(e) => Err(e),
    }
}

/// A rule object whose `type` is `t`.
pub open spec fn compile_typed(
    entries: Seq<(String, JsonValue)>,
    t: Seq<char>,
    names: NameTables,
    frag: Seq<char>,
) -> Result<RuleModel, ErrorModel>
    decreases entries, 4nat,
{
    if t == "token"@ {
        compile_reference(entries, names, true)
    } else if t == "fragment"@ {
        compile_reference(entries, names, false)
    } else if t == "sequence"@ {
        match compile_values(entries, names, frag) {
            Ok(rules) => Ok(RuleModel::Sequence(rules)),
            Err(e) => Err(e),
        }
    } else if t == "or"@ {
        match compile_values(entries, names, frag) {
            Ok(rules) => Ok(RuleModel::Or(rules)),
            Err(e) => Err(e),
        }
    } else if t == "optional"@ {
        match compile_value(entries, names, frag) {
            Ok(r) => Ok(RuleModel::Optional(Box::new(r))),
            Err(e) => Err(e),
        }
    } else if t == "loop"@ {
        compile_loop(entries, names, frag)
    } else {
        Err(ErrorModel::UnknownRuleType(t))
    }
}

/// The rules of a list from position `done.len()` on, after the rules
/// `done`.
pub open spec fn compile_rules(
    items: Seq<JsonValue>,
    done: Seq<RuleModel>,
    names: NameTables,
    frag: Seq<char>,
) -> Result<Seq<RuleModel>, ErrorModel>
    decreases items, items.len() - done.len(),
{
    if done.len() >= items.len() {
        Ok(done)
    } else {
        match compile_rule(items[done.len() as int], names, frag) {
            Ok(r) => compile_rules(items, done.push(r), names, frag),
            Err(e) => Err(e),
        }
    }
}

/// A fragment description: an object whose `rule` is the rule body.
pub open spec fn compile_fragment(name: Seq<char>, j: JsonValue, names: NameTables) -> Result<
    FragmentModel,
    ErrorModel,
> {
    match j {
        JsonValue::Object(entries) => match field(entries@, "rule"@) {
            Some(body) => match compile_rule(body, names, name) {
                Ok(rule) => Ok(FragmentModel { name, rule }),
                Err(e) => Err(e),
            },
            None => Err(ErrorModel::NullRule(name)),
        },
        _ => Err(ErrorModel::NullRule(name)),
    }
}

/// The fragments from entry `done.len()` on, after the fragments `done`.
pub open spec fn compile_fragments(
    entries: Seq<(String, JsonValue)>,
    done: Seq<FragmentModel>,
    names: NameTables,
) -> Result<Seq<FragmentModel>, ErrorModel>
    decreases entries.len() - done.len(),
{
    if done.len() >= entries.len() {
        Ok(done)
    } else {
        let e = entries[done.len() as int];
        match compile_fragment(e.0@, e.1, names) {
            Ok(f) => compile_fragments(entries, done.push(f), names),
            Err(err) => Err(err),
        }
    }
}

/// Whether a fragment description is marked as the start fragment.
pub open spec fn is_marked(j: JsonValue) -> bool {
    match j {
        JsonValue::Object(entries) => field(entries@, "main"@) == Some(JsonValue::Bool(true)),
        _ => false,
    }
}

/// How many of the entries from `from` on are marked.
pub open spec fn marked_count(entries: Seq<(String, JsonValue)>, from: nat) -> nat
    decreases entries.len() - from,
{
    if from >= entries.len() {
        0
    } else {
        (if is_marked(entries[from as int].1) {
            1nat
        } else {
            0nat
        }) + marked_count(entries, from + 1)
    }
}

/// The position of the first marked entry from `from` on.
pub open spec fn first_marked(entries: Seq<(String, JsonValue)>, from: nat) -> Option<nat>
    decreases entries.len() - from,
{
    if from >= entries.len() {
        None
    } else if is_marked(entries[from as int].1) {
        Some(from)
    } else {
        first_marked(entries, from + 1)
    }
}

/// The start fragment: the one fragment marked `"main": true`.
pub open spec fn start_fragment(entries: Seq<(String, JsonValue)>) -> Result<nat, ErrorModel> {
    if marked_count(entries, 0) == 1 {
        match first_marked(entries, 0) {
            Some(i) => Ok(i),
            None => Err(ErrorModel::StartFragment(0)),
        }
    } else {
        Err(ErrorModel::StartFragment(marked_count(entries, 0)))
    }
}

/// The grammar a description compiles to, or the first error met, checking
/// in this order: `grammarName`, `tokenDefinitions` with each definition in
/// order, `fragments` with each fragment in order, the start fragment.
pub open spec fn compile(j: JsonValue) -> Result<GrammarModel, ErrorModel> {
    match j {
        JsonValue::Object(top) => match field(top@, "grammarName"@) {
            Some(JsonValue::String(name)) => match field(top@, "tokenDefinitions"@) {
                Some(JsonValue::Object(token_entries)) => match compile_tokens(
                    token_entries@,
                    Seq::empty(),
                ) {
                    Ok(defs) => match field(top@, "fragments"@) {
                        Some(JsonValue::Object(fragment_entries)) => {
                            let names = NameTables {
                                tokens: keys(token_entries@),
                                fragments: keys(fragment_entries@),
                            };
                            match compile_fragments(fragment_entries@, Seq::empty(), names) {
                                Ok(fragments) => match start_fragment(fragment_entries@) {
                                    Ok(main) => Ok(
                                        GrammarModel { name: name@, defs, fragments, main },
                                    ),
                                    Err(e) => Err(e),
                                },
                                Err(e) => Err(e),
                            }
                        },
                        _ => Err(ErrorModel::MissingField("fragments"@)),
                    },
                    Err(e) => Err(e),
                },
                _ => Err(ErrorModel::MissingField("tokenDefinitions"@)),
            },
            _ => Err(ErrorModel::MissingField("grammarName"@)),
        },
        _ => Err(ErrorModel::MissingField("grammarName"@)),
    }
}

// endregion

// region: ---GrammarData

/// The views of a sequence of strings.
pub open spec fn string_views(s: Seq<String>) -> Seq<Seq<char>> {
    s.map_values(|x: String| x@)
}

/// The names a rule body can refer to, each list in declaration order; a
/// name's index is its position.
pub struct GrammarData {
    token_names: Vec<String>,
    fragment_names: Vec<String>,
}

impl View for GrammarData {
    type V = NameTables;

    closed spec fn view(&self) -> NameTables {
        NameTables {
            tokens: string_views(self.token_names@),
            fragments: string_views(self.fragment_names@),
        }
    }
}

fn same_text(a: &str, b: &str) -> (r: bool)
    ensures
        r == (a@ == b@),
{
    let x = a.to_owned();
    let y = b.to_owned();
    x == y
}

fn name_position(names: &Vec<String>, name: &str) -> (r: Option<usize>)
    ensures
        match name_index(string_views(names@), name@, 0) {
            Some(i) => (r matches Some(x) && x == i) && i < names@.len(),
            None => r is None,
        },
{
    let ghost views = string_views(names@);
    let mut i: usize = 0;
    while i < names.len()
        invariant
            i <= names@.len(),
            views == string_views(names@),
            name_index(views, name@, 0) == name_index(views, name@, i as nat),
        decreases names@.len() - i,
    {
        if same_text(names[i].as_str(), name) {
            return Some(i);
        }
        i += 1;
    }
    None
}

impl GrammarData {
    pub fn new(token_names: Vec<String>, fragment_names: Vec<String>) -> (r: Self)
        ensures
            r@ == (NameTables {
                tokens: string_views(token_names@),
                fragments: string_views(fragment_names@),
            }),
    {
        GrammarData { token_names, fragment_names }
    }

    pub fn token_count(&self) -> (r: usize)
        ensures
            r == self@.tokens.len(),
    {
        self.token_names.len()
    }

    pub fn fragment_count(&self) -> (r: usize)
        ensures
            r == self@.fragments.len(),
    {
        self.fragment_names.len()
    }

    pub fn get_token_definition_index(&self, name: &str) -> (r: Result<usize, Error>)
        ensures
            match name_index(self@.tokens, name@, 0) {
                Some(i) => r matches Ok(x) && x == i,
                None => r matches Err(e) && e@ == ErrorModel::UnknownTokenOrFragment(name@),
            },
    {
        match name_position(&self.token_names, name) {
            Some(index) => Ok(index),
            None => Err(Error::UnknownTokenOrFragment(name.to_owned())),
        }
    }

    pub fn get_fragment_index(&self, name: &str) -> (r: Result<usize, Error>)
        ensures
            match name_index(self@.fragments, name@, 0) {
                Some(i) => r matches Ok(x) && x == i,
                None => r matches Err(e) && e@ == ErrorModel::UnknownTokenOrFragment(name@),
            },
    {
        match name_position(&self.fragment_names, name) {
            Some(index) => Ok(index),
            None => Err(Error::UnknownTokenOrFragment(name.to_owned())),
        }
    }

    /// The rule a bare name stands for: a fragment reference first, else a
    /// token reference.
    pub fn get_rule(&self, name: &str) -> (r: Result<Rule, Error>)
        ensures
            viewed(r) == resolve_name(self@, name@),
    {
        if let Ok(index) = self.get_fragment_index(name) {
            Ok(Rule::Fragment(FragmentRule(index)))
        } else if let Ok(index) = self.get_token_definition_index(name) {
            Ok(Rule::Token(TokenRule(index)))
        } else {
            Err(Error::UnknownTokenOrFragment(name.to_owned()))
        }
    }
}

// endregion
// region: ---Compiler

/// The model of a compilation result.
pub open spec fn viewed<T: View>(r: Result<T, Error>) -> Result<T::V, ErrorModel> {
    match r {
        Ok(x) => Ok(x@),
        Err(e) => Err(e@),
    }
}

fn field_position(entries: &Vec<(String, JsonValue)>, key: &str) -> (r: Option<usize>)
    ensures
        match field_index(entries@, key@, 0) {
            Some(k) => (r matches Some(x) && x == k) && k < entries@.len(),
            None => r is None,
        },
{
    let mut i: usize = 0;
    while i < entries.len()
        invariant
            i <= entries@.len(),
            field_index(entries@, key@, 0) == field_index(entries@, key@, i as nat),
        decreases entries@.len() - i,
    {
        if same_text(entries[i].0.as_str(), key) {
            return Some(i);
        }
        i += 1;
    }
    None
}

fn get_field<'j>(entries: &'j Vec<(String, JsonValue)>, key: &str) -> (r: Option<&'j JsonValue>)
    ensures
        match field(entries@, key@) {
            Some(v) => r matches Some(x) && *x == v,
            None => r is None,
        },
{
    match field_position(entries, key) {
        Some(k) => Some(&entries[k].1),
        None => None,
    }
}

fn string_to_pattern(string: &String) -> (r: Result<Pattern, Error>)
    ensures
        viewed(r) == compile_regex(string@),
{
    let mut source = String::from_str("^");
    source.append(string.as_str());
    if regex_compiles(source.as_str()) {
        Ok(Pattern::Regex(source))
    } else {
        Err(Error::UndefinedRegexExpression(string.clone()))
    }
}

fn json_to_token_definition(json: &JsonValue, name: &str) -> (r: Result<TokenDefinition, Error>)
    ensures
        viewed(r) == compile_token(name@, *json),
{
    match json {
        JsonValue::String(string) => match string_to_pattern(string) {
            Ok(pattern) => Ok(TokenDefinition::new(name, pattern)),
            Err(e) => Err(e),
        },
        JsonValue::Object(object) => match get_field(object, "regex") {
            Some(JsonValue::String(regex)) => match string_to_pattern(regex) {
                Ok(pattern) => Ok(TokenDefinition::new(name, pattern)),
                Err(e) => Err(e),
            },
            Some(_) => Err(Error::UndefinedToken(name.to_owned())),
            None => match get_field(object, "keyword") {
                Some(JsonValue::String(keyword)) => Ok(
                    TokenDefinition::new_keyword(name, keyword.as_str()),
                ),
                _ => Err(Error::UndefinedToken(name.to_owned())),
            },
        },
        _ => Err(Error::UndefinedToken(name.to_owned())),
    }
}

/// Compiles the token definitions in order; gives them with their names.
fn json_to_tokens_definition(entries: &Vec<(String, JsonValue)>) -> (r: Result<
    (Vec<TokenDefinition>, Vec<String>),
    Error,
>)
    ensures
        match compile_tokens(entries@, Seq::empty()) {
            Ok(defs) => r matches Ok((d, n)) && def_views(d@) == defs && string_views(n@) == keys(
                entries@,
            ),
            Err(e) => r matches Err(x) && x@ == e,
        },
{
    let mut tokens: Vec<TokenDefinition> = Vec::new();
    let mut names: Vec<String> = Vec::new();
    let mut i: usize = 0;
    proof {
        assert(def_views(tokens@) =~= Seq::<DefModel>::empty());
    }
    while i < entries.len()
        invariant
            i <= entries@.len(),
            tokens@.len() == i,
            names@.len() == i,
            compile_tokens(entries@, def_views(tokens@)) == compile_tokens(entries@, Seq::empty()),
            string_views(names@) =~= keys(entries@).subrange(0, i as int),
        decreases entries@.len() - i,
    {
        let (name, token) = (&entries[i].0, &entries[i].1);
        match json_to_token_definition(token, name.as_str()) {
            Ok(definition) => {
                let ghost before = tokens@;
                tokens.push(definition);
                names.push(name.clone());
                assert(def_views(tokens@) =~= def_views(before).push(definition@));
            },
            Err(e) => return Err(e),
        }
        i += 1;
    }
    assert(keys(entries@).subrange(0, i as int) =~= keys(entries@));
    Ok((tokens, names))
}

fn json_to_token_or_fragment_rule(value: &String, grammar_data: &GrammarData) -> (r: Result<
    Rule,
    Error,
>)
    ensures
        viewed(r) == resolve_name(grammar_data@, value@),
{
    grammar_data.get_rule(value.as_str())
}

fn json_to_token_rule(object: &Vec<(String, JsonValue)>, grammar_data: &GrammarData) -> (r: Result<
    Rule,
    Error,
>)
    ensures
        viewed(r) == compile_reference(object@, grammar_data@, true),
{
    match get_field(object, "value") {
        Some(JsonValue::Number(Some(index))) => if *index < grammar_data.token_count() {
            Ok(Rule::Token(TokenRule(*index)))
        } else {
            Err(Error::IndexOutOfRange(*index))
        },
        Some(JsonValue::String(name)) => match grammar_data.get_token_definition_index(
            name.as_str(),
        ) {
            Ok(index) => Ok(Rule::Token(TokenRule(index))),
            Err(e) => Err(e),
        },
        _ => Err(Error::MissingField("value".to_owned())),
    }
}

fn json_to_fragment_rule(object: &Vec<(String, JsonValue)>, grammar_data: &GrammarData) -> (r:
    Result<Rule, Error>)
    ensures
        viewed(r) == compile_reference(object@, grammar_data@, false),
{
    match get_field(object, "value") {
        Some(JsonValue::Number(Some(index))) => if *index < grammar_data.fragment_count() {
            Ok(Rule::Fragment(FragmentRule(*index)))
        } else {
            Err(Error::IndexOutOfRange(*index))
        },
        Some(JsonValue::String(name)) => match grammar_data.get_fragment_index(name.as_str()) {
            Ok(index) => Ok(Rule::Fragment(FragmentRule(index))),
            Err(e) => Err(e),
        },
        _ => Err(Error::MissingField("value".to_owned())),
    }
}

/// Compiles the rules of a list, in order.
fn json_to_rules(array: &Vec<JsonValue>, grammar_data: &GrammarData, fragment: &str) -> (r: Result<
    Vec<Rule>,
    Error,
>)
    ensures
        match compile_rules(array@, Seq::empty(), grammar_data@, fragment@) {
            Ok(rules) => r matches Ok(v) && rule_views(v@) == rules,
            Err(e) => r matches Err(x) && x@ == e,
        },
    decreases array@, 0nat,
{
    let mut rules: Vec<Rule> = Vec::with_capacity(array.len());
    let mut i: usize = 0;
    proof {
        lemma_rule_views_empty(rules@);
    }
    while i < array.len()
        invariant
            i <= array@.len(),
            rules@.len() == i,
            compile_rules(array@, rule_views(rules@), grammar_data@, fragment@) == compile_rules(
                array@,
                Seq::empty(),
                grammar_data@,
                fragment@,
            ),
        decreases array@.len() - i,
    {
        proof {
            lemma_rule_views(rules@);
        }
        match json_to_rule(&array[i], grammar_data, fragment) {
            Ok(rule) => {
                proof {
                    lemma_rule_views_push(rules@, rule);
                }
                rules.push(rule);
            },
            Err(e) => return Err(e),
        }
        i += 1;
    }
    proof {
        lemma_rule_views(rules@);
    }
    Ok(rules)
}

fn json_to_sequence_rule_from_array(
    array: &Vec<JsonValue>,
    grammar_data: &GrammarData,
    fragment: &str,
) -> (r: Result<Rule, Error>)
    ensures
        viewed(r) == match compile_rules(array@, Seq::empty(), grammar_data@, fragment@) {
            Ok(rules) => Ok(RuleModel::Sequence(rules)),
            Err(e) => Err(e),
        },
    decreases array@, 1nat,
{
    match json_to_rules(array, grammar_data, fragment) {
        Ok(rules) => Ok(Rule::Sequence(SequenceRule(rules))),
        Err(e) => Err(e),
    }
}

/// The rules listed under `values`.
fn get_rules(object: &Vec<(String, JsonValue)>, grammar_data: &GrammarData, fragment: &str) -> (r:
    Result<Vec<Rule>, Error>)
    ensures
        match compile_values(object@, grammar_data@, fragment@) {
            Ok(rules) => r matches Ok(v) && rule_views(v@) == rules,
            Err(e) => r matches Err(x) && x@ == e,
        },
    decreases object@, 2nat,
{
    match field_position(object, "values") {
        Some(k) => match &object[k].1 {
            JsonValue::Array(array) => json_to_rules(array, grammar_data, fragment),
            _ => Err(Error::MissingField("values".to_owned())),
        },
        None => Err(Error::MissingField("values".to_owned())),
    }
}

/// The rule under `value`.
fn get_value_rule(object: &Vec<(String, JsonValue)>, grammar_data: &GrammarData, fragment: &str) -> (r:
    Result<Rule, Error>)
    ensures
        viewed(r) == compile_value(object@, grammar_data@, fragment@),
    decreases object@, 2nat,
{
    match field_position(object, "value") {
        Some(k) => json_to_rule(&object[k].1, grammar_data, fragment),
        None => Err(Error::MissingField("value".to_owned())),
    }
}

/// The rule under `separator`, when there is one.
fn get_separator_rule(
    object: &Vec<(String, JsonValue)>,
    grammar_data: &GrammarData,
    fragment: &str,
) -> (r: Result<Option<Rule>, Error>)
    ensures
        match compile_separator(object@, grammar_data@, fragment@) {
            Ok(Some(m)) => r matches Ok(Some(x)) && x@ == m,
            Ok(None) => r matches Ok(None),
            Err(e) => r matches Err(x) && x@ == e,
        },
    decreases object@, 2nat,
{
    match field_position(object, "separator") {
        Some(k) => match json_to_rule(&object[k].1, grammar_data, fragment) {
            Ok(rule) => Ok(Some(rule)),
            Err(e) => Err(e),
        },
        None => Ok(None),
    }
}

/// The optional count under `key`.
fn get_count(object: &Vec<(String, JsonValue)>, key: &str, default: usize) -> (r: Result<usize, Error>)
    ensures
        match count_field(object@, key@, default as nat) {
            Ok(n) => r matches Ok(x) && x == n,
            Err(e) => r matches Err(x) && x@ == e,
        },
{
    match get_field(object, key) {
        None => Ok(default),
        Some(JsonValue::Number(Some(n))) => Ok(*n),
        Some(_) => Err(Error::MissingField(key.to_owned())),
    }
}

fn json_to_sequence_rule(object: &Vec<(String, JsonValue)>, grammar_data: &GrammarData, fragment: &str) -> (r:
    Result<Rule, Error>)
    ensures
        viewed(r) == match compile_values(object@, grammar_data@, fragment@) {
            Ok(rules) => Ok(RuleModel::Sequence(rules)),
            Err(e) => Err(e),
        },
    decreases object@, 3nat,
{
    match get_rules(object, grammar_data, fragment) {
        Ok(rules) => Ok(Rule::Sequence(SequenceRule(rules))),
        Err(e) => Err(e),
    }
}

fn json_to_or_rule(object: &Vec<(String, JsonValue)>, grammar_data: &GrammarData, fragment: &str) -> (r:
    Result<Rule, Error>)
    ensures
        viewed(r) == match compile_values(object@, grammar_data@, fragment@) {
            Ok(rules) => Ok(RuleModel::Or(rules)),
            Err(e) => Err(e),
        },
    decreases object@, 3nat,
{
    match get_rules(object, grammar_data, fragment) {
        Ok(rules) => Ok(Rule::Or(OrRule(rules))),
        Err(e) => Err(e),
    }
}

fn json_to_optional_rule(object: &Vec<(String, JsonValue)>, grammar_data: &GrammarData, fragment: &str) -> (r:
    Result<Rule, Error>)
    ensures
        viewed(r) == match compile_value(object@, grammar_data@, fragment@) {
            Ok(rule) => Ok(RuleModel::Optional(Box::new(rule))),
            Err(e) => Err(e),
        },
    decreases object@, 3nat,
{
    match get_value_rule(object, grammar_data, fragment) {
        Ok(rule) => Ok(Rule::Optional(OptionalRule(Box::new(rule)))),
        Err(e) => Err(e),
    }
}

fn json_to_loop_rule(object: &Vec<(String, JsonValue)>, grammar_data: &GrammarData, fragment: &str) -> (r:
    Result<Rule, Error>)
    ensures
        viewed(r) == compile_loop(object@, grammar_data@, fragment@),
    decreases object@, 3nat,
{
    let rule = match get_value_rule(object, grammar_data, fragment) {
        Ok(rule) => rule,
        Err(e) => return Err(e),
    };
    let separator = match get_separator_rule(object, grammar_data, fragment) {
        Ok(separator) => separator,
        Err(e) => return Err(e),
    };
    let min = match get_count(object, "min", 0) {
        Ok(min) => min,
        Err(e) => return Err(e),
    };
    let max = match get_count(object, "max", usize::MAX) {
        Ok(max) => max,
        Err(e) => return Err(e),
    };
    let separator = match separator {
        Some(s) => Some(Box::new(s)),
        None => None,
    };
    Ok(Rule::Loop(LoopRule::new_min_max(Box::new(rule), min, max, separator)))
}

/// A rule object, by its `type`.
fn json_to_typed_rule(
    object: &Vec<(String, JsonValue)>,
    rule_type: &str,
    grammar_data: &GrammarData,
    fragment: &str,
) -> (r: Result<Rule, Error>)
    ensures
        viewed(r) == compile_typed(object@, rule_type@, grammar_data@, fragment@),
    decreases object@, 4nat,
{
    if same_text(rule_type, "token") {
        json_to_token_rule(object, grammar_data)
    } else if same_text(rule_type, "fragment") {
        json_to_fragment_rule(object, grammar_data)
    } else if same_text(rule_type, "sequence") {
        json_to_sequence_rule(object, grammar_data, fragment)
    } else if same_text(rule_type, "or") {
        json_to_or_rule(object, grammar_data, fragment)
    } else if same_text(rule_type, "optional") {
        json_to_optional_rule(object, grammar_data, fragment)
    } else if same_text(rule_type, "loop") {
        json_to_loop_rule(object, grammar_data, fragment)
    } else {
        Err(Error::UnknownRuleType(rule_type.to_owned()))
    }
}

/// Compiles a rule body of fragment `fragment`: a name, a list (a
/// sequence) or a rule object.
pub fn json_to_rule(json: &JsonValue, grammar_data: &GrammarData, fragment: &str) -> (r: Result<
    Rule,
    Error,
>)
    ensures
        viewed(r) == compile_rule(*json, grammar_data@, fragment@),
    decreases json, 0nat,
{
    match json {
        JsonValue::Null => Err(Error::NullRule(fragment.to_owned())),
        JsonValue::String(string) => json_to_token_or_fragment_rule(string, grammar_data),
        JsonValue::Array(array) => json_to_sequence_rule_from_array(array, grammar_data, fragment),
        JsonValue::Object(object) => match field_position(object, "type") {
            Some(k) => match &object[k].1 {
                JsonValue::String(rule_type) => json_to_typed_rule(
                    object,
                    rule_type.as_str(),
                    grammar_data,
                    fragment,
                ),
                _ => Err(Error::MissingField("type".to_owned())),
            },
            None => Err(Error::MissingField("type".to_owned())),
        },
        _ => Err(Error::UndefinedRule(fragment.to_owned())),
    }
}

fn json_to_fragment(json: &JsonValue, name: &str, grammar_data: &GrammarData) -> (r: Result<
    Fragment,
    Error,
>)
    ensures
        viewed(r) == compile_fragment(name@, *json, grammar_data@),
{
    match json {
        JsonValue::Object(object) => match get_field(object, "rule") {
            Some(body) => match json_to_rule(body, grammar_data, name) {
                Ok(rule) => Ok(Fragment::new(name, rule)),
                Err(e) => Err(e),
            },
            None => Err(Error::NullRule(name.to_owned())),
        },
        _ => Err(Error::NullRule(name.to_owned())),
    }
}

/// The names of the fragments, in order.
fn fragment_names(entries: &Vec<(String, JsonValue)>) -> (r: Vec<String>)
    ensures
        string_views(r@) == keys(entries@),
{
    let mut names: Vec<String> = Vec::with_capacity(entries.len());
    let mut i: usize = 0;
    while i < entries.len()
        invariant
            i <= entries@.len(),
            string_views(names@) =~= keys(entries@).subrange(0, i as int),
        decreases entries@.len() - i,
    {
        let ghost before = names@;
        names.push(entries[i].0.clone());
        assert(string_views(names@) =~= string_views(before).push(entries@[i as int].0@));
        i += 1;
    }
    assert(keys(entries@).subrange(0, i as int) =~= keys(entries@));
    names
}

/// Compiles the fragments in order. `grammar_data` names every fragment,
/// so rules may refer to fragments declared after them.
fn json_to_fragments(entries: &Vec<(String, JsonValue)>, grammar_data: &GrammarData) -> (r: Result<
    Vec<Fragment>,
    Error,
>)
    ensures
        match compile_fragments(entries@, Seq::empty(), grammar_data@) {
            Ok(fragments) => r matches Ok(v) && fragment_views(v@) == fragments,
            Err(e) => r matches Err(x) && x@ == e,
        },
{
    let mut fragments: Vec<Fragment> = Vec::with_capacity(entries.len());
    proof {
        assert(fragment_views(fragments@) =~= Seq::<FragmentModel>::empty());
    }
    let mut j: usize = 0;
    while j < entries.len()
        invariant
            j <= entries@.len(),
            fragments@.len() == j,
            compile_fragments(entries@, fragment_views(fragments@), grammar_data@)
                == compile_fragments(entries@, Seq::empty(), grammar_data@),
        decreases entries@.len() - j,
    {
        match json_to_fragment(&entries[j].1, entries[j].0.as_str(), grammar_data) {
            Ok(fragment) => {
                let ghost before = fragments@;
                fragments.push(fragment);
                assert(fragment_views(fragments@) =~= fragment_views(before).push(fragment@));
            },
            Err(e) => return Err(e),
        }
        j += 1;
    }
    Ok(fragments)
}

fn is_start(json: &JsonValue) -> (r: bool)
    ensures
        r == is_marked(*json),
{
    match json {
        JsonValue::Object(object) => match get_field(object, "main") {
            Some(JsonValue::Bool(b)) => *b,
            _ => false,
        },
        _ => false,
    }
}

/// The index of the one fragment marked `"main": true`.
fn start_fragment_index(entries: &Vec<(String, JsonValue)>) -> (r: Result<usize, Error>)
    ensures
        match start_fragment(entries@) {
            Ok(i) => r matches Ok(x) && x == i,
            Err(e) => r matches Err(x) && x@ == e,
        },
{
    let mut count: usize = 0;
    let mut first: Option<usize> = None;
    let mut i: usize = 0;
    while i < entries.len()
        invariant
            i <= entries@.len(),
            count <= i,
            marked_count(entries@, 0) == count + marked_count(entries@, i as nat),
            match first {
                Some(f) => first_marked(entries@, 0) == Some(f as nat) && count >= 1,
                None => first_marked(entries@, 0) == first_marked(entries@, i as nat) && count == 0,
            },
        decreases entries@.len() - i,
    {
        if is_start(&entries[i].1) {
            if first.is_none() {
                first = Some(i);
            }
            count += 1;
        }
        i += 1;
    }
    if count == 1 {
        match first {
            Some(index) => Ok(index),
            None => Err(Error::StartFragment(0)),
        }
    } else {
        Err(Error::StartFragment(count))
    }
}

/// Compiles a grammar description: `grammarName`, `tokenDefinitions` (each
/// a regular expression string, `{regex}` or `{keyword}`) and `fragments`
/// (each `{rule}`, exactly one also marked `"main": true`).
pub fn json_to_grammar(json: JsonValue) -> (r: Result<Grammar, Error>)
    ensures
        viewed(r) == compile(json),
{
    let top = match &json {
        JsonValue::Object(top) => top,
        _ => return Err(Error::MissingField("grammarName".to_owned())),
    };
    let grammar_name = match get_field(top, "grammarName") {
        Some(JsonValue::String(name)) => name,
        _ => return Err(Error::MissingField("grammarName".to_owned())),
    };
    let token_entries = match get_field(top, "tokenDefinitions") {
        Some(JsonValue::Object(entries)) => entries,
        _ => return Err(Error::MissingField("tokenDefinitions".to_owned())),
    };
    let (token_definitions, token_names) = match json_to_tokens_definition(token_entries) {
        Ok(compiled) => compiled,
        Err(e) => return Err(e),
    };
    let fragment_entries = match get_field(top, "fragments") {
        Some(JsonValue::Object(entries)) => entries,
        _ => return Err(Error::MissingField("fragments".to_owned())),
    };
    let grammar_data = GrammarData::new(token_names, fragment_names(fragment_entries));
    let fragments = match json_to_fragments(fragment_entries, &grammar_data) {
        Ok(fragments) => fragments,
        Err(e) => return Err(e),
    };
    let main_fragment = match start_fragment_index(fragment_entries) {
        Ok(index) => index,
        Err(e) => return Err(e),
    };
    Ok(Grammar::new(grammar_name.as_str(), token_definitions, fragments, main_fragment))
}

// endregion

} // verus!
