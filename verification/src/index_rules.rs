//! Index rules: which grouping strategy and scan path apply to a repository subdir.
use vstd::prelude::*;

use crate::json::str_eq;
use crate::llm_eval::{byte_len, regex_is_match, regex_match_outcome};
use crate::text::{
    chars_eq, chars_of, slice_vec, string_of, trim, trim_at, trim_end_matches,
    trim_end_matches_at, trim_start_matches, trim_start_matches_at,
};

verus! {

broadcast use vstd::string::group_string_axioms;

/// The resolved indexing strategy for a given git URL + subdir.
/// Used during flock generation to determine how skills are grouped.
#[derive(Debug, Clone, Copy, PartialEq, Eq, Structural)]
pub enum IndexStrategy {
    /// Every matched directory becomes its own flock.
    EachDirAsFlock,
    /// Default LCA-based smart grouping.
    Smart,
}

/// Result of resolving index rules: which strategy to use and where to scan.
#[derive(Debug, Clone, PartialEq, Eq)]
pub struct ResolvedRule {
    pub strategy: IndexStrategy,
    /// The scan path inside the repo. `"."` means scan from root.
    pub scan_path: String,
}

/// An index rule as stored for a repository: a concrete path, the wildcard `*`, or a
/// regular expression matched against the subdir, and the strategy it selects.
#[derive(Debug, Clone)]
pub struct IndexRule {
    pub path_regex: String,
    pub strategy: String,
}

/// A rule that matched, with its priority (higher wins).
struct RuleMatch {
    resolved: ResolvedRule,
    score: u128,
}

/// A resolved rule as plain values.
pub type ResolvedView = (IndexStrategy, Seq<char>);

/// `"."`.
pub open spec fn dot() -> Seq<char> {
    seq!['.']
}

/// The strategy a rule's strategy text selects.
pub open spec fn strategy_of(value: Seq<char>) -> IndexStrategy {
    let v = trim(value);
    if v == "each_dir_as_flock"@ || v == "subdirs_as_flocks"@ {
        IndexStrategy::EachDirAsFlock
    } else {
        IndexStrategy::Smart
    }
}

/// A subdir with surrounding whitespace and slashes removed; the root is `"."`.
pub open spec fn normalized_subdir(subdir: Seq<char>) -> Seq<char> {
    let t = trim_end_matches(trim_start_matches(trim(subdir), seq!['/']), seq!['/']);
    if t.len() == 0 {
        dot()
    } else {
        t
    }
}

/// Whether a pattern is the wildcard `*`.
pub open spec fn is_wildcard(pattern: Seq<char>) -> bool {
    trim(pattern) == seq!['*']
}

/// Whether `c` is a regular-expression metacharacter.
pub open spec fn is_regex_meta(c: char) -> bool {
    c == '\\' || c == '^' || c == '$' || c == '|' || c == '?' || c == '*' || c == '+' || c == '('
        || c == ')' || c == '[' || c == ']' || c == '{' || c == '}'
}

/// Whether a pattern is a concrete path: not empty, not the wildcard, and free of
/// regular-expression metacharacters.
pub open spec fn is_concrete(pattern: Seq<char>) -> bool {
    pattern.len() > 0 && !is_wildcard(pattern) && forall|k: int|
        0 <= k < pattern.len() ==> !is_regex_meta(#[trigger] pattern[k])
}

/// How a rule matches a normalized subdir: the resolved rule and its score.
pub open spec fn rule_match(path_regex: Seq<char>, strategy: Seq<char>, subdir: Seq<char>) -> Option<
    (ResolvedView, int),
> {
    let pattern = trim(path_regex);
    if pattern.len() == 0 {
        None
    } else if is_wildcard(pattern) {
        Some(((strategy_of(strategy), subdir), 1000))
    } else if is_concrete(pattern) {
        let rule_path = normalized_subdir(pattern);
        if subdir == dot() || subdir == rule_path {
            let score = if subdir == rule_path {
                4000 + byte_len(rule_path)
            } else {
                3000 + byte_len(rule_path)
            };
            Some(((strategy_of(strategy), rule_path), score))
        } else {
            None
        }
    } else if regex_match_outcome(pattern, subdir) == Some(true) {
        Some(((strategy_of(strategy), subdir), 2000 + byte_len(pattern)))
    } else {
        None
    }
}

/// The matches of some rules, in order.
pub open spec fn rule_matches(rules: Seq<IndexRule>, subdir: Seq<char>) -> Seq<(ResolvedView, int)>
    decreases rules.len(),
{
    if rules.len() == 0 {
        Seq::empty()
    } else {
        let prev = rule_matches(rules.drop_last(), subdir);
        match rule_match(rules.last().path_regex@, rules.last().strategy@, subdir) {
            Some(m) => prev.push(m),
            None => prev,
        }
    }
}

/// The match with the highest score; among equal scores, the last one.
pub open spec fn best_match(ms: Seq<(ResolvedView, int)>) -> Option<(ResolvedView, int)>
    decreases ms.len(),
{
    if ms.len() == 0 {
        None
    } else {
        match best_match(ms.drop_last()) {
            Some(b) => if ms.last().1 >= b.1 {
                Some(ms.last())
            } else {
                Some(b)
            },
            None => Some(ms.last()),
        }
    }
}

/// The rule that resolves a normalized subdir, if any rule matches it.
pub open spec fn resolved_rule(rules: Seq<IndexRule>, subdir: Seq<char>) -> Option<ResolvedView> {
    match best_match(rule_matches(rules, subdir)) {
        Some(m) => Some(m.0),
        None => None,
    }
}

/// The strategy a rule's strategy text selects.
pub fn parse_strategy(value: &str) -> (r: IndexStrategy)
    ensures
        r == strategy_of(value@),
{
    let t = string_of(&crate::text::trim_vec(&chars_of(value)));
    if str_eq(t.as_str(), "each_dir_as_flock") || str_eq(t.as_str(), "subdirs_as_flocks") {
        IndexStrategy::EachDirAsFlock
    } else {
        IndexStrategy::Smart
    }
}

/// Normalize a subdir: "." and "" both become ".", trim slashes.
pub fn normalize_subdir(subdir: &str) -> (r: String)
    ensures
        r@ == normalized_subdir(subdir@),
{
    let v = chars_of(subdir);
    let n = v.len();
    assert(v@.subrange(0, n as int) =~= v@);
    let (a, b) = trim_at(&v, 0, n);
    let slash = vec!['/'];
    assert(slash@ =~= seq!['/']);
    let a = trim_start_matches_at(&v, a, b, &slash);
    let b = trim_end_matches_at(&v, a, b, &slash);
    if a == b {
        let dot_chars = vec!['.'];
        assert(dot_chars@ =~= dot());
        string_of(&dot_chars)
    } else {
        string_of(&slice_vec(&v, a, b))
    }
}

/// Whether a pattern is the wildcard `*`.
pub fn is_wildcard_rule(pattern: &str) -> (r: bool)
    ensures
        r == is_wildcard(pattern@),
{
    let star = vec!['*'];
    assert(star@ =~= seq!['*']);
    chars_eq(&crate::text::trim_vec(&chars_of(pattern)), &star)
}

/// Whether a pattern is a concrete path rather than the wildcard or a regex.
pub fn is_concrete_rule_path(pattern: &str) -> (r: bool)
    ensures
        r == is_concrete(pattern@),
{
    let v = chars_of(pattern);
    if v.len() == 0 || is_wildcard_rule(pattern) {
        return false;
    }
    let mut i: usize = 0;
    while i < v.len()
        invariant
            i <= v.len(),
            v@ == pattern@,
            forall|k: int| 0 <= k < i ==> !is_regex_meta(#[trigger] v@[k]),
        decreases v.len() - i,
    {
        let c = v[i];
        if c == '\\' || c == '^' || c == '$' || c == '|' || c == '?' || c == '*' || c == '+' || c
            == '(' || c == ')' || c == '[' || c == ']' || c == '{' || c == '}' {
            assert(is_regex_meta(pattern@[i as int]));
            return false;
        }
        i += 1;
    }
    true
}

/// How a rule matches a normalized subdir.
fn match_rule(rule: &IndexRule, subdir_normalized: &str) -> (r: Option<RuleMatch>)
    ensures
        match r {
            Some(m) => rule_match(rule.path_regex@, rule.strategy@, subdir_normalized@) == Some(
                ((m.resolved.strategy, m.resolved.scan_path@), m.score as int),
            ),
            None => rule_match(rule.path_regex@, rule.strategy@, subdir_normalized@) is None,
        },
{
    let pattern = string_of(&crate::text::trim_vec(&chars_of(rule.path_regex.as_str())));
    let p = pattern.as_str();
    if chars_of(p).len() == 0 {
        return None;
    }
    if is_wildcard_rule(p) {
        return Some(
            RuleMatch {
                resolved: ResolvedRule {
                    strategy: parse_strategy(rule.strategy.as_str()),
                    scan_path: subdir_normalized.to_string(),
                },
                score: 1000,
            },
        );
    }
    if is_concrete_rule_path(p) {
        let rule_path = normalize_subdir(p);
        let exact = str_eq(subdir_normalized, rule_path.as_str());
        let root = str_eq(subdir_normalized, ".");
        assert(".".view() == dot()) by {
            reveal_strlit(".");
        }
        if !(root || exact) {
            return None;
        }
        let len = rule_path.as_str().len() as u128;
        let score = if exact {
            4000 + len
        } else {
            3000 + len
        };
        return Some(
            RuleMatch {
                resolved: ResolvedRule {
                    strategy: parse_strategy(rule.strategy.as_str()),
                    scan_path: rule_path,
                },
                score,
            },
        );
    }
    match regex_is_match(p, subdir_normalized) {
        Some(true) => Some(
            RuleMatch {
                resolved: ResolvedRule {
                    strategy: parse_strategy(rule.strategy.as_str()),
                    scan_path: subdir_normalized.to_string(),
                },
                score: 2000 + p.len() as u128,
            },
        ),
        _ => None,
    }
}

/// The best-matching rule for a normalized subdir: the highest score wins, and among
/// equal scores the last rule.
pub fn resolve_rule_from_rows(rules: &[IndexRule], subdir_normalized: &str) -> (r: Option<
    ResolvedRule,
>)
    ensures
        match r {
            Some(res) => resolved_rule(rules@, subdir_normalized@) == Some(
                (res.strategy, res.scan_path@),
            ),
            None => resolved_rule(rules@, subdir_normalized@) is None,
        },
{
    let mut best: Option<RuleMatch> = None;
    let mut i: usize = 0;
    while i < rules.len()
        invariant
            i <= rules.len(),
            match best {
                Some(m) => best_match(rule_matches(rules@.take(i as int), subdir_normalized@))
                    == Some(((m.resolved.strategy, m.resolved.scan_path@), m.score as int)),
                None => best_match(rule_matches(rules@.take(i as int), subdir_normalized@)) is None,
            },
        decreases rules.len() - i,
    {
        assert(rules@.take(i + 1).drop_last() =~= rules@.take(i as int));
        assert(rules@.take(i + 1).last() == rules@[i as int]);
        let found = match_rule(&rules[i], subdir_normalized);
        proof {
            if let Some(m) = &found {
                let prev = rule_matches(rules@.take(i as int), subdir_normalized@);
                let mv = ((m.resolved.strategy, m.resolved.scan_path@), m.score as int);
                assert(prev.push(mv).drop_last() =~= prev);
            }
        }
        match found {
            Some(m) => {
                let replace = match &best {
                    Some(b) => m.score >= b.score,
                    None => true,
                };
                if replace {
                    best = Some(m);
                }
            },
            None => {},
        }
        i += 1;
    }
    assert(rules@.take(rules.len() as int) =~= rules@);
    match best {
        Some(m) => Some(m.resolved),
        None => None,
    }
}

/// The rule that applies to `subdir` given a repository's rules: the best match, or the
/// smart strategy over the normalized subdir when no rule matches.
pub fn choose_index_rule(rules: &[IndexRule], subdir: &str) -> (r: ResolvedRule)
    ensures
        (r.strategy, r.scan_path@) == match resolved_rule(rules@, normalized_subdir(subdir@)) {
            Some(v) => v,
            None => (IndexStrategy::Smart, normalized_subdir(subdir@)),
        },
{
    let normalized = normalize_subdir(subdir);
    match resolve_rule_from_rows(rules, normalized.as_str()) {
        Some(resolved) => resolved,
        None => ResolvedRule { strategy: IndexStrategy::Smart, scan_path: normalized },
    }
}


/// The best match is a match with the highest score, and no later match scores as high
/// (so among equal scores the last one wins).
proof fn lemma_best_match(ms: Seq<(ResolvedView, int)>)
    ensures
        best_match(ms) is None <==> ms.len() == 0,
        best_match(ms) matches Some(b) ==> exists|i: int|
            0 <= i < ms.len() && ms[i] == b && (forall|k: int| i < k < ms.len() ==> ms[k].1 < b.1),
        best_match(ms) matches Some(b) ==> forall|k: int| 0 <= k < ms.len() ==> ms[k].1 <= b.1,
    decreases ms.len(),
{
    if ms.len() > 0 {
        let d = ms.drop_last();
        lemma_best_match(d);
        let b = best_match(ms)->0;
        match best_match(d) {
            Some(p) => {
                if ms.last().1 >= p.1 {
                    assert(ms[ms.len() - 1] == b);
                } else {
                    let i = choose|i: int|
                        0 <= i < d.len() && d[i] == p && (forall|k: int| i < k < d.len() ==> d[k].1 < p.1);
                    assert(ms[i] == b);
                    assert forall|k: int| i < k < ms.len() implies ms[k].1 < b.1 by {
                        if k < d.len() {
                            assert(ms[k] == d[k]);
                        }
                    }
                }
                assert forall|k: int| 0 <= k < ms.len() implies ms[k].1 <= b.1 by {
                    if k < d.len() {
                        assert(ms[k] == d[k]);
                    }
                }
            },
            None => {
                assert(ms[ms.len() - 1] == b);
            },
        }
    }
}

/// The rule chosen for a subdir is a matching rule with the highest score, and no later
/// matching rule scores as high; no rule is chosen only when none matches. (So an exact
/// concrete rule, scoring 4000 and more, beats a wildcard, which scores 1000.)
pub proof fn law_highest_scoring_rule_wins(rules: Seq<IndexRule>, subdir: Seq<char>)
    ensures
        ({
            let ms = rule_matches(rules, subdir);
            &&& resolved_rule(rules, subdir) is None <==> ms.len() == 0
            &&& best_match(ms) matches Some(b) ==> (resolved_rule(rules, subdir) == Some(b.0)
                && (forall|k: int| 0 <= k < ms.len() ==> ms[k].1 <= b.1) && exists|i: int|
                0 <= i < ms.len() && ms[i] == b && (forall|k: int|
                    i < k < ms.len() ==> ms[k].1 < b.1))
        }),
{
    lemma_best_match(rule_matches(rules, subdir));
}

/// A rule's match is among the matches of the rules it belongs to, and every match is
/// some rule's.
proof fn lemma_matches_of_rules(rules: Seq<IndexRule>, subdir: Seq<char>)
    ensures
        forall|i: int|
            0 <= i < rules.len() && (#[trigger] rule_match(
                rules[i].path_regex@,
                rules[i].strategy@,
                subdir,
            )) is Some ==> rule_matches(rules, subdir).contains(
                rule_match(rules[i].path_regex@, rules[i].strategy@, subdir).unwrap(),
            ),
        forall|k: int|
            0 <= k < rule_matches(rules, subdir).len() ==> exists|i: int|
                0 <= i < rules.len() && rule_match(rules[i].path_regex@, rules[i].strategy@, subdir)
                    == Some(#[trigger] rule_matches(rules, subdir)[k]),
    decreases rules.len(),
{
    if rules.len() > 0 {
        let prev = rules.drop_last();
        lemma_matches_of_rules(prev, subdir);
        let pm = rule_matches(prev, subdir);
        let ms = rule_matches(rules, subdir);
        let n = rules.len() - 1;
        assert forall|i: int|
            0 <= i < rules.len() && (#[trigger] rule_match(
                rules[i].path_regex@,
                rules[i].strategy@,
                subdir,
            )) is Some implies ms.contains(
                rule_match(rules[i].path_regex@, rules[i].strategy@, subdir).unwrap(),
            ) by {
            let m = rule_match(rules[i].path_regex@, rules[i].strategy@, subdir).unwrap();
            if i < n {
                assert(prev[i] == rules[i]);
                assert(pm.contains(m));
                let k = choose|k: int| 0 <= k < pm.len() && pm[k] == m;
                assert(ms[k] == m);
            } else {
                assert(ms[ms.len() - 1] == m);
            }
        }
        assert forall|k: int| 0 <= k < ms.len() implies exists|i: int|
            0 <= i < rules.len() && rule_match(rules[i].path_regex@, rules[i].strategy@, subdir)
                == Some(#[trigger] ms[k]) by {
            if k < pm.len() {
                assert(ms[k] == pm[k]);
                let i = choose|i: int|
                    0 <= i < prev.len() && rule_match(prev[i].path_regex@, prev[i].strategy@, subdir)
                        == Some(pm[k]);
                assert(prev[i] == rules[i]);
            } else {
                assert(rule_match(rules[n].path_regex@, rules[n].strategy@, subdir) == Some(ms[k]));
            }
        }
    }
}

/// How rules rank: a wildcard rule scores 1000; any other rule that matches scores at
/// least 2000 (a regular expression 2000 and its length); a concrete path scores at least
/// 3000 when it matches as the root's rule and at least 4000 when it names the subdir.
/// So a matching regular-expression or concrete rule always outranks the wildcard.
pub proof fn law_rule_scores(path_regex: Seq<char>, strategy: Seq<char>, subdir: Seq<char>)
    ensures
        rule_match(path_regex, strategy, subdir) matches Some(m) ==> {
            &&& is_wildcard(trim(path_regex)) ==> m.1 == 1000
            &&& !is_wildcard(trim(path_regex)) ==> m.1 >= 2000
            &&& is_concrete(trim(path_regex)) ==> m.1 >= 3000
            &&& is_concrete(trim(path_regex)) && m.0.1 == subdir && subdir != dot() ==> m.1 >= 4000
        },
{
}

/// A specific rule beats the wildcard, whatever the order of the rules: when a rule that
/// is not the wildcard matches a subdir, the subdir resolves to the match of a rule that
/// is not the wildcard either.
pub proof fn law_specific_rule_beats_wildcard(rules: Seq<IndexRule>, subdir: Seq<char>, i: int)
    requires
        0 <= i < rules.len(),
        rule_match(rules[i].path_regex@, rules[i].strategy@, subdir) is Some,
        !is_wildcard(trim(rules[i].path_regex@)),
    ensures
        resolved_rule(rules, subdir) is Some,
        exists|j: int|
            0 <= j < rules.len() && !is_wildcard(trim(rules[j].path_regex@)) && {
                let m = #[trigger] rule_match(rules[j].path_regex@, rules[j].strategy@, subdir);
                m is Some && resolved_rule(rules, subdir) == Some(m.unwrap().0)
            },
{
    let ms = rule_matches(rules, subdir);
    lemma_matches_of_rules(rules, subdir);
    law_highest_scoring_rule_wins(rules, subdir);
    let mi = rule_match(rules[i].path_regex@, rules[i].strategy@, subdir).unwrap();
    law_rule_scores(rules[i].path_regex@, rules[i].strategy@, subdir);
    assert(ms.contains(mi));
    let ki = choose|k: int| 0 <= k < ms.len() && ms[k] == mi;
    let b = best_match(ms).unwrap();
    assert(ms[ki].1 <= b.1);
    let kb = choose|k: int|
        0 <= k < ms.len() && ms[k] == b && (forall|k2: int| k < k2 < ms.len() ==> ms[k2].1 < b.1);
    let j = choose|j: int|
        0 <= j < rules.len() && rule_match(rules[j].path_regex@, rules[j].strategy@, subdir)
            == Some(ms[kb]);
    law_rule_scores(rules[j].path_regex@, rules[j].strategy@, subdir);
}

} // verus!
