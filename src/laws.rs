//! Properties of the parsing semantics that hold for every grammar, text
//! and tokenizer state.

use vstd::prelude::*;

use crate::grammar::GrammarModel;
use crate::rules::{
    finish_loop, parse_or, parse_repeat, parse_rule, parse_separated, parse_separated_loop,
    parse_sequence, CtxModel, RuleModel,
    StatusModel,
};
use crate::token::{
    first_match, pattern_match_len, remaining, token_at, token_at_expecting, DefModel, TokenModel,
    TokenizerModel,
};

verus! {

// region: ---Tokenizer

proof fn lemma_first_match_reaches(defs: Seq<DefModel>, text: Seq<char>, from: nat, i: nat)
    requires
        from <= i < defs.len(),
        pattern_match_len(defs[i as int].pattern, text) is Some,
    ensures
        first_match(defs, text, from) matches Some((d, n)) && from <= d <= i && pattern_match_len(
            defs[d as int].pattern,
            text,
        ) == Some(n) && forall|k: nat|
            from <= k < d ==> #[trigger] pattern_match_len(defs[k as int].pattern, text) is None,
    decreases i - from,
{
    if pattern_match_len(defs[from as int].pattern, text) is None {
        lemma_first_match_reaches(defs, text, from + 1, i);
    }
}

/// Token priority: when definitions `i < j` both match at the frontier,
/// unconstrained scanning never yields `j`; it yields the first definition
/// in declared order that matches, which is `i` or one declared before it.
pub proof fn lemma_token_priority(defs: Seq<DefModel>, st: TokenizerModel, i: nat, j: nat)
    requires
        i < j < defs.len(),
        st.offset <= st.text.len(),
        remaining(st).len() > 0,
        pattern_match_len(defs[i as int].pattern, remaining(st)) is Some,
        pattern_match_len(defs[j as int].pattern, remaining(st)) is Some,
    ensures
        token_at(defs, st, st.tokens.len()).0 matches Some(t) && t.definition <= i && t.definition
            != j && pattern_match_len(defs[t.definition as int].pattern, remaining(st)) is Some
            && forall|k: nat|
            k < t.definition ==> #[trigger] pattern_match_len(defs[k as int].pattern, remaining(st))
                is None,
{
    lemma_first_match_reaches(defs, remaining(st), 0, i);
}

/// Frontier pinning: a position already tokenized keeps its token. Asking
/// for it with another definition gives nothing and scans nothing, even
/// where that definition's pattern would match the text there; so a token
/// rule expecting that definition does not match.
pub proof fn lemma_frontier_pinning(
    g: GrammarModel,
    st: TokenizerModel,
    index: nat,
    d: nat,
    depth: nat,
)
    requires
        index < st.tokens.len(),
        st.tokens[index as int].definition != d,
        depth > 0,
    ensures
        token_at_expecting(g.defs, st, index, d) == (None::<TokenModel>, st),
        parse_rule(g, RuleModel::Token(d), st, index, depth) == (StatusModel::Invalid, st),
{
}

// endregion
// region: ---Sequence

/// The state after the first `n` elements of a sequence all matched, each
/// where the previous one ended: their parse trees, the tokenizer state and
/// the position reached; `None` when one of them did not match.
pub open spec fn sequence_prefix(
    g: GrammarModel,
    rules: Seq<RuleModel>,
    n: nat,
    st: TokenizerModel,
    pos: nat,
    depth: nat,
) -> Option<(Seq<CtxModel>, TokenizerModel, nat)>
    decreases n,
{
    if n == 0 {
        Some((Seq::empty(), st, pos))
    } else {
        match sequence_prefix(g, rules, (n - 1) as nat, st, pos, depth) {
            Some((done, s, p)) => match parse_rule(g, rules[n - 1], s, p, depth) {
                (StatusModel::Valid(c, end), next) => Some((done.push(c), next, end)),
                _ => None,
            },
            None => None,
        }
    }
}

proof fn lemma_sequence_prefix(
    g: GrammarModel,
    rules: Seq<RuleModel>,
    n: nat,
    st: TokenizerModel,
    pos: nat,
    depth: nat,
)
    requires
        n <= rules.len(),
        sequence_prefix(g, rules, n, st, pos, depth) is Some,
    ensures
        sequence_prefix(g, rules, n, st, pos, depth) matches Some((done, s, p)) && done.len() == n
            && parse_sequence(g, rules, Seq::empty(), st, pos, depth) == parse_sequence(
            g,
            rules,
            done,
            s,
            p,
            depth,
        ),
    decreases n,
{
    if n > 0 {
        lemma_sequence_prefix(g, rules, (n - 1) as nat, st, pos, depth);
    }
}

/// Sequence atomicity: when elements `0..k` match in turn and element `k`
/// does not, the sequence does not match either, and the tokenizer keeps
/// what the elements before `k` and the failed attempt scanned: progress is
/// not rolled back.
pub proof fn lemma_sequence_atomic(
    g: GrammarModel,
    rules: Seq<RuleModel>,
    k: nat,
    st: TokenizerModel,
    pos: nat,
    depth: nat,
)
    requires
        k < rules.len(),
        sequence_prefix(g, rules, k, st, pos, depth) is Some,
        !(parse_rule(
            g,
            rules[k as int],
            sequence_prefix(g, rules, k, st, pos, depth)->Some_0.1,
            sequence_prefix(g, rules, k, st, pos, depth)->Some_0.2,
            depth,
        ).0 is Valid),
    ensures
        parse_rule(g, RuleModel::Sequence(rules), st, pos, depth + 1) == parse_rule(
            g,
            rules[k as int],
            sequence_prefix(g, rules, k, st, pos, depth)->Some_0.1,
            sequence_prefix(g, rules, k, st, pos, depth)->Some_0.2,
            depth,
        ),
{
    lemma_sequence_prefix(g, rules, k, st, pos, depth);
}

// endregion
// region: ---Or and Optional

/// Ordered choice: when the first alternative matches, the choice is that
/// match, whatever the other alternatives would do.
pub proof fn lemma_or_first_alternative(
    g: GrammarModel,
    rules: Seq<RuleModel>,
    st: TokenizerModel,
    pos: nat,
    depth: nat,
)
    requires
        rules.len() > 0,
        parse_rule(g, rules[0], st, pos, depth).0 is Valid,
    ensures
        ({
            let (res, next) = parse_rule(g, rules[0], st, pos, depth);
            match res {
                StatusModel::Valid(c, end) => parse_rule(g, RuleModel::Or(rules), st, pos, depth + 1)
                    == (StatusModel::Valid(CtxModel::Or(0, Box::new(c)), end), next),
                _ => false,
            }
        }),
{
    assert(parse_rule(g, RuleModel::Or(rules), st, pos, depth + 1) == parse_or(
        g,
        rules,
        0,
        st,
        pos,
        depth,
    ));
}

/// An optional rule never reports a non-match: it matches, possibly
/// empty, unless the recursion budget runs out.
pub proof fn lemma_optional_never_fails(
    g: GrammarModel,
    r: RuleModel,
    st: TokenizerModel,
    pos: nat,
    depth: nat,
)
    ensures
        !(parse_rule(g, RuleModel::Optional(Box::new(r)), st, pos, depth).0 is Invalid),
{
}

// endregion
// region: ---Loop

/// The state after `n` consecutive matches of `rule`: their parse trees,
/// the tokenizer state and the position reached; `None` when fewer match.
pub open spec fn repeat_prefix(
    g: GrammarModel,
    rule: RuleModel,
    n: nat,
    st: TokenizerModel,
    pos: nat,
    depth: nat,
) -> Option<(Seq<CtxModel>, TokenizerModel, nat)>
    decreases n,
{
    if n == 0 {
        Some((Seq::empty(), st, pos))
    } else {
        match repeat_prefix(g, rule, (n - 1) as nat, st, pos, depth) {
            Some((done, s, p)) => match parse_rule(g, rule, s, p, depth) {
                (StatusModel::Valid(c, end), next) => Some((done.push(c), next, end)),
                _ => None,
            },
            None => None,
        }
    }
}

proof fn lemma_repeat_prefix(
    g: GrammarModel,
    rule: RuleModel,
    min: nat,
    max: nat,
    n: nat,
    st: TokenizerModel,
    pos: nat,
    depth: nat,
)
    requires
        n <= max,
        repeat_prefix(g, rule, n, st, pos, depth) is Some,
    ensures
        repeat_prefix(g, rule, n, st, pos, depth) matches Some((done, s, p)) && done.len() == n
            && parse_repeat(g, rule, min, max, Seq::empty(), st, pos, depth) == parse_repeat(
            g,
            rule,
            min,
            max,
            done,
            s,
            p,
            depth,
        ),
    decreases n,
{
    if n > 0 {
        lemma_repeat_prefix(g, rule, min, max, (n - 1) as nat, st, pos, depth);
    }
}

/// Loop upper bound: when `rule` can match `max` times in a row, a loop
/// without separator takes exactly those `max` matches, ends where the last
/// one ended, and matches when `max >= min`.
pub proof fn lemma_loop_stops_at_max(
    g: GrammarModel,
    rule: RuleModel,
    min: nat,
    max: nat,
    st: TokenizerModel,
    pos: nat,
    depth: nat,
)
    requires
        repeat_prefix(g, rule, max, st, pos, depth) is Some,
    ensures
        ({
            let (done, s, p) = repeat_prefix(g, rule, max, st, pos, depth)->Some_0;
            parse_rule(
                g,
                RuleModel::Loop { rule: Box::new(rule), separator: None, min, max },
                st,
                pos,
                depth + 1,
            ) == finish_loop(done, None, min, s, p)
        }),
{
    lemma_repeat_prefix(g, rule, min, max, max, st, pos, depth);
}

/// Loop lower bound: when `rule` matches only `n < min` times in a row
/// (and `n < max`), a loop without separator does not match.
pub proof fn lemma_loop_below_min(
    g: GrammarModel,
    rule: RuleModel,
    min: nat,
    max: nat,
    n: nat,
    st: TokenizerModel,
    pos: nat,
    depth: nat,
)
    requires
        n < min,
        n < max,
        repeat_prefix(g, rule, n, st, pos, depth) is Some,
        parse_rule(
            g,
            rule,
            repeat_prefix(g, rule, n, st, pos, depth)->Some_0.1,
            repeat_prefix(g, rule, n, st, pos, depth)->Some_0.2,
            depth,
        ).0 is Invalid,
    ensures
        parse_rule(
            g,
            RuleModel::Loop { rule: Box::new(rule), separator: None, min, max },
            st,
            pos,
            depth + 1,
        ).0 is Invalid,
{
    lemma_repeat_prefix(g, rule, min, max, n, st, pos, depth);
}

/// A trailing separator is not part of a loop: over value, separator,
/// value, separator, and then no value, a loop with separator (`min <= 2 <
/// max`) takes two values and the one separator between them, and ends
/// right after the second value. The tokenizer keeps the trailing
/// separator's token all the same.
pub proof fn lemma_trailing_separator(
    g: GrammarModel,
    rule: RuleModel,
    separator: RuleModel,
    min: nat,
    max: nat,
    depth: nat,
    st0: TokenizerModel,
    p0: nat,
    c1: CtxModel,
    p1: nat,
    st1: TokenizerModel,
    sc1: CtxModel,
    p2: nat,
    st2: TokenizerModel,
    c2: CtxModel,
    p3: nat,
    st3: TokenizerModel,
    sc2: CtxModel,
    p4: nat,
    st4: TokenizerModel,
    st5: TokenizerModel,
)
    requires
        min <= 2 < max,
        parse_rule(g, rule, st0, p0, depth) == (StatusModel::Valid(c1, p1), st1),
        parse_rule(g, separator, st1, p1, depth) == (StatusModel::Valid(sc1, p2), st2),
        parse_rule(g, rule, st2, p2, depth) == (StatusModel::Valid(c2, p3), st3),
        parse_rule(g, separator, st3, p3, depth) == (StatusModel::Valid(sc2, p4), st4),
        parse_rule(g, rule, st4, p4, depth) == (StatusModel::Invalid, st5),
    ensures
        parse_rule(
            g,
            RuleModel::Loop { rule: Box::new(rule), separator: Some(Box::new(separator)), min, max },
            st0,
            p0,
            depth + 1,
        ) == (StatusModel::Valid(CtxModel::Loop(seq![c1, c2], Some(seq![sc1])), p3), st5),
{
    let values1 = seq![c1];
    let seps0 = Seq::<CtxModel>::empty();
    assert(parse_rule(
        g,
        RuleModel::Loop { rule: Box::new(rule), separator: Some(Box::new(separator)), min, max },
        st0,
        p0,
        depth + 1,
    ) == parse_separated_loop(g, rule, separator, min, max, st0, p0, depth));
    assert(parse_separated_loop(g, rule, separator, min, max, st0, p0, depth) == parse_separated(
        g,
        rule,
        separator,
        min,
        max,
        values1,
        seps0,
        st1,
        p1,
        depth,
    ));
    assert(parse_separated(g, rule, separator, min, max, values1, seps0, st1, p1, depth)
        == parse_separated(g, rule, separator, min, max, values1.push(c2), seps0.push(sc1), st3, p3, depth));
    assert(values1.push(c2) =~= seq![c1, c2]);
    assert(seps0.push(sc1) =~= seq![sc1]);
    assert(parse_separated(g, rule, separator, min, max, values1.push(c2), seps0.push(sc1), st3, p3, depth)
        == finish_loop(values1.push(c2), Some(seps0.push(sc1)), min, st5, p3));
}

// endregion

// region: ---Tokens are kept

/// `later` keeps the text of `earlier` and every token of it, at the same
/// positions, possibly with more tokens after them.
pub open spec fn keeps_tokens(earlier: TokenizerModel, later: TokenizerModel) -> bool {
    &&& later.text == earlier.text
    &&& earlier.tokens.len() <= later.tokens.len()
    &&& forall|i: int| 0 <= i < earlier.tokens.len() ==> #[trigger] later.tokens[i] == earlier.tokens[i]
}

proof fn lemma_token_rule_keeps(defs: Seq<DefModel>, st: TokenizerModel, index: nat, d: nat)
    ensures
        keeps_tokens(st, token_at_expecting(defs, st, index, d).1),
{
}

proof fn lemma_rule_keeps(g: GrammarModel, r: RuleModel, st: TokenizerModel, pos: nat, depth: nat)
    ensures
        keeps_tokens(st, parse_rule(g, r, st, pos, depth).1),
    decreases depth, 0nat,
{
    if depth > 0 {
        let d = (depth - 1) as nat;
        match r {
            RuleModel::Token(i) => lemma_token_rule_keeps(g.defs, st, pos, i),
            RuleModel::Fragment(f) => if f < g.fragments.len() {
                lemma_rule_keeps(g, g.fragments[f as int].rule, st, pos, d);
            },
            RuleModel::Sequence(rules) => lemma_sequence_keeps(g, rules, Seq::empty(), st, pos, d),
            RuleModel::Or(rules) => lemma_or_keeps(g, rules, 0, st, pos, d),
            RuleModel::Optional(inner) => lemma_rule_keeps(g, *inner, st, pos, d),
            RuleModel::Loop { rule, separator, min, max } => match separator {
                None => lemma_repeat_keeps(g, *rule, min, max, Seq::empty(), st, pos, d),
                Some(sep) => lemma_separated_loop_keeps(g, *rule, *sep, min, max, st, pos, d),
            },
        }
    }
}

proof fn lemma_sequence_keeps(
    g: GrammarModel,
    rules: Seq<RuleModel>,
    done: Seq<CtxModel>,
    st: TokenizerModel,
    pos: nat,
    depth: nat,
)
    ensures
        keeps_tokens(st, parse_sequence(g, rules, done, st, pos, depth).1),
    decreases depth, rules.len() - done.len() + 1,
{
    if done.len() < rules.len() {
        lemma_rule_keeps(g, rules[done.len() as int], st, pos, depth);
        let (res, next) = parse_rule(g, rules[done.len() as int], st, pos, depth);
        if let StatusModel::Valid(c, end) = res {
            lemma_sequence_keeps(g, rules, done.push(c), next, end, depth);
        }
    }
}

proof fn lemma_or_keeps(
    g: GrammarModel,
    rules: Seq<RuleModel>,
    i: nat,
    st: TokenizerModel,
    pos: nat,
    depth: nat,
)
    ensures
        keeps_tokens(st, parse_or(g, rules, i, st, pos, depth).1),
    decreases depth, rules.len() - i + 1,
{
    if i < rules.len() {
        lemma_rule_keeps(g, rules[i as int], st, pos, depth);
        let (res, next) = parse_rule(g, rules[i as int], st, pos, depth);
        if res is Invalid {
            lemma_or_keeps(g, rules, i + 1, next, pos, depth);
        }
    }
}

proof fn lemma_repeat_keeps(
    g: GrammarModel,
    rule: RuleModel,
    min: nat,
    max: nat,
    values: Seq<CtxModel>,
    st: TokenizerModel,
    pos: nat,
    depth: nat,
)
    ensures
        keeps_tokens(st, parse_repeat(g, rule, min, max, values, st, pos, depth).1),
    decreases depth, max - values.len() + 1,
{
    if values.len() < max {
        lemma_rule_keeps(g, rule, st, pos, depth);
        let (res, next) = parse_rule(g, rule, st, pos, depth);
        if let StatusModel::Valid(c, end) = res {
            lemma_repeat_keeps(g, rule, min, max, values.push(c), next, end, depth);
        }
    }
}

proof fn lemma_separated_keeps(
    g: GrammarModel,
    rule: RuleModel,
    separator: RuleModel,
    min: nat,
    max: nat,
    values: Seq<CtxModel>,
    separators: Seq<CtxModel>,
    st: TokenizerModel,
    pos: nat,
    depth: nat,
)
    ensures
        keeps_tokens(
            st,
            parse_separated(g, rule, separator, min, max, values, separators, st, pos, depth).1,
        ),
    decreases depth, max - values.len() + 1,
{
    if values.len() < max {
        lemma_rule_keeps(g, separator, st, pos, depth);
        let (sep_res, after_sep) = parse_rule(g, separator, st, pos, depth);
        if let StatusModel::Valid(sc, sep_end) = sep_res {
            lemma_rule_keeps(g, rule, after_sep, sep_end, depth);
            let (res, next) = parse_rule(g, rule, after_sep, sep_end, depth);
            if let StatusModel::Valid(c, end) = res {
                lemma_separated_keeps(
                    g,
                    rule,
                    separator,
                    min,
                    max,
                    values.push(c),
                    separators.push(sc),
                    next,
                    end,
                    depth,
                );
            }
        }
    }
}

proof fn lemma_separated_loop_keeps(
    g: GrammarModel,
    rule: RuleModel,
    separator: RuleModel,
    min: nat,
    max: nat,
    st: TokenizerModel,
    pos: nat,
    depth: nat,
)
    ensures
        keeps_tokens(st, parse_separated_loop(g, rule, separator, min, max, st, pos, depth).1),
    decreases depth, max + 2,
{
    lemma_rule_keeps(g, rule, st, pos, depth);
    let (res, next) = parse_rule(g, rule, st, pos, depth);
    if let StatusModel::Valid(c, end) = res {
        lemma_separated_keeps(g, rule, separator, min, max, seq![c], Seq::empty(), next, end, depth);
    }
}

/// Tokens are never rescanned: whatever rule runs, the tokenizer state
/// afterwards keeps the text and every token that was already generated,
/// at the same positions.
pub proof fn lemma_tokens_are_kept(
    g: GrammarModel,
    r: RuleModel,
    st: TokenizerModel,
    pos: nat,
    depth: nat,
)
    ensures
        keeps_tokens(st, parse_rule(g, r, st, pos, depth).1),
{
    lemma_rule_keeps(g, r, st, pos, depth);
}

/// Frontier pinning across a parse: once position `index` holds a token of
/// another definition than `d`, a token rule expecting `d` at `index` fails
/// after any rule has run, and scans nothing.
pub proof fn lemma_pinned_token_stays(
    g: GrammarModel,
    r: RuleModel,
    st: TokenizerModel,
    pos: nat,
    depth: nat,
    index: nat,
    d: nat,
    later_depth: nat,
)
    requires
        index < st.tokens.len(),
        st.tokens[index as int].definition != d,
        later_depth > 0,
    ensures
        ({
            let after = parse_rule(g, r, st, pos, depth).1;
            parse_rule(g, RuleModel::Token(d), after, index, later_depth) == (
                StatusModel::Invalid,
                after,
            )
        }),
{
    lemma_rule_keeps(g, r, st, pos, depth);
    let after = parse_rule(g, r, st, pos, depth).1;
    assert(after.tokens[index as int] == st.tokens[index as int]);
    lemma_frontier_pinning(g, after, index, d, later_depth);
}

// endregion

} // verus!
