//! The rule engine: filters the URL, then picks the enabled matching rule of
//! highest priority (the earliest one among equals) and turns its action into
//! a routing decision.
use vstd::prelude::*;

use crate::filters::{any_glob, apply_filters, glob_match, matches_any_glob, spec_apply_filters};
use crate::glob::glob;
use crate::model::{
    Action, Config, DecisionView, DefaultAction, MatchCondition, QueryParamMatch, Rule, RoutingContext,
    RoutingDecision, RoutingExplanation,
};
use crate::text::{
    chars_of, clone_strings, eq_ignore_ascii_case, eq_ignore_case, eq_str, owned, starts_with,
    starts_with_at, string_of_range, views,
};
use crate::urls::{pair_views, parse_url, regex_is_match, spec_regex_is_match, spec_url_parse};

verus! {

/// A URL pattern matches: a `regex:` pattern when the regular expression after
/// the prefix matches (an invalid one never does), any other pattern by glob.
pub open spec fn pattern_matches(pattern: Seq<char>, url: Seq<char>) -> bool {
    if starts_with(pattern, "regex:"@) {
        spec_regex_is_match(pattern.skip(6), url) == Some(true)
    } else {
        glob(pattern, url)
    }
}

/// Some pattern of `patterns` matches `url`.
pub open spec fn any_pattern(patterns: Seq<String>, url: Seq<char>) -> bool {
    exists|i: int| 0 <= i < patterns.len() && pattern_matches(#[trigger] patterns[i]@, url)
}

/// The host of `url`, or the empty string when it does not parse or has none.
pub open spec fn url_host(url: Seq<char>) -> Seq<char> {
    match spec_url_parse(url) {
        Some(u) => match u.host {
            Some(h) => h,
            None => Seq::<char>::empty(),
        },
        None => Seq::<char>::empty(),
    }
}

/// Some name of `apps` equals `app` up to ASCII case.
pub open spec fn any_app(apps: Seq<String>, app: Seq<char>) -> bool {
    exists|i: int| 0 <= i < apps.len() && eq_ignore_ascii_case(#[trigger] apps[i]@, app)
}

/// The path of `url`, or the empty string when it does not parse.
pub open spec fn url_path(url: Seq<char>) -> Seq<char> {
    match spec_url_parse(url) {
        Some(u) => u.path,
        None => Seq::<char>::empty(),
    }
}

/// The decoded query pairs of `url`, or none when it does not parse.
pub open spec fn url_query(url: Seq<char>) -> Seq<(Seq<char>, Seq<char>)> {
    match spec_url_parse(url) {
        Some(u) => u.query,
        None => Seq::empty(),
    }
}

/// The name a query-parameter condition asks for.
pub open spec fn param_name(q: QueryParamMatch) -> Seq<char> {
    match q {
        QueryParamMatch::Name(n) => n@,
        QueryParamMatch::Condition { name, .. } => name@,
    }
}

/// The value a query-parameter condition asks for, if any.
pub open spec fn param_value(q: QueryParamMatch) -> Option<Seq<char>> {
    match q {
        QueryParamMatch::Name(_) => None,
        QueryParamMatch::Condition { value, .. } => match value {
            Some(v) => Some(v@),
            None => None,
        },
    }
}

/// The pair `p` satisfies `q`: it has the name, and the value when one is asked.
pub open spec fn pair_satisfies(q: QueryParamMatch, p: (Seq<char>, Seq<char>)) -> bool {
    &&& p.0 == param_name(q)
    &&& (param_value(q) matches Some(v) ==> p.1 == v)
}

/// Some pair of `pairs` satisfies `q`.
pub open spec fn param_present(q: QueryParamMatch, pairs: Seq<(Seq<char>, Seq<char>)>) -> bool {
    exists|k: int| 0 <= k < pairs.len() && pair_satisfies(q, #[trigger] pairs[k])
}

/// Every condition of `qs` is satisfied by some pair of `pairs`.
pub open spec fn all_params_present(qs: Seq<QueryParamMatch>, pairs: Seq<(Seq<char>, Seq<char>)>) -> bool {
    forall|i: int| 0 <= i < qs.len() ==> param_present(#[trigger] qs[i], pairs)
}

/// `held` contains `key`.
pub open spec fn key_held(key: Seq<char>, held: Seq<String>) -> bool {
    exists|j: int| 0 <= j < held.len() && (#[trigger] held[j])@ == key
}

/// Every key of `keys` is held.
pub open spec fn all_keys_held(keys: Seq<String>, held: Seq<String>) -> bool {
    forall|i: int| 0 <= i < keys.len() ==> key_held((#[trigger] keys[i])@, held)
}

/// A rule's conditions all hold: each non-empty list of URL patterns, host
/// globs, path globs and source apps has a member that matches (a source-app
/// condition needs a known source app), every listed query parameter is in
/// the URL's query (with the value, when one is given), and every listed
/// modifier key is held.
pub open spec fn spec_matches(cond: MatchCondition, url: Seq<char>, ctx: RoutingContext) -> bool {
    &&& (cond.url_pattern@.len() == 0 || any_pattern(cond.url_pattern@, url))
    &&& (cond.host@.len() == 0 || matches_any_glob(cond.host@, url_host(url)))
    &&& (cond.path@.len() == 0 || matches_any_glob(cond.path@, url_path(url)))
    &&& all_params_present(cond.query_param@, url_query(url))
    &&& (cond.source_app@.len() == 0 || match ctx.source_app {
        Some(app) => any_app(cond.source_app@, app@),
        None => false,
    })
    &&& all_keys_held(cond.modifier_keys@, ctx.modifier_keys@)
}

/// A list of URL patterns matches a URL as soon as one of its patterns
/// does, and only then: adding patterns to a list, before or after, never
/// turns a match into a miss, and a rule whose only condition is the list
/// applies exactly when one of its patterns matches.
pub proof fn law_one_pattern_is_enough(
    patterns: Seq<String>,
    url: Seq<char>,
    before: Seq<String>,
    after: Seq<String>,
    cond: MatchCondition,
    ctx: RoutingContext,
)
    ensures
        any_pattern(patterns, url) <==> exists|i: int|
            0 <= i < patterns.len() && pattern_matches(#[trigger] patterns[i]@, url),
        any_pattern(patterns, url) ==> any_pattern(before + patterns + after, url),
        cond.url_pattern@ == patterns && patterns.len() > 0 && cond.host@.len() == 0
            && cond.path@.len() == 0 && cond.query_param@.len() == 0 && cond.source_app@.len() == 0
            && cond.modifier_keys@.len() == 0 ==> (spec_matches(cond, url, ctx) <==> exists|i: int|
            0 <= i < patterns.len() && pattern_matches(#[trigger] patterns[i]@, url)),
{
    if any_pattern(patterns, url) {
        let i = choose|i: int| 0 <= i < patterns.len() && pattern_matches(#[trigger] patterns[i]@, url);
        let all = before + patterns + after;
        assert(all[before.len() + i] == patterns[i]);
        assert(pattern_matches(all[before.len() + i]@, url));
    }
    if cond.query_param@.len() == 0 {
        assert(all_params_present(cond.query_param@, url_query(url)));
    }
    if cond.modifier_keys@.len() == 0 {
        assert(all_keys_held(cond.modifier_keys@, ctx.modifier_keys@));
    }
}

/// Rule `i` is enabled and its conditions hold.
pub open spec fn eligible(rules: Seq<Rule>, i: int, url: Seq<char>, ctx: RoutingContext) -> bool {
    &&& 0 <= i < rules.len()
    &&& rules[i].enabled
    &&& spec_matches(rules[i].match_, url, ctx)
}

/// Rule `i` is the one that routes `url`: it is eligible, and every eligible
/// rule has a lower priority or the same priority and a later position.
pub open spec fn is_winner(rules: Seq<Rule>, i: int, url: Seq<char>, ctx: RoutingContext) -> bool {
    &&& eligible(rules, i, url, ctx)
    &&& forall|j: int|
        #![trigger eligible(rules, j, url, ctx)]
        eligible(rules, j, url, ctx) ==> rules[j].priority < rules[i].priority || (
        rules[j].priority == rules[i].priority && i <= j)
}

/// The rule that routes `url`, if any rule is eligible.
pub open spec fn spec_winner(rules: Seq<Rule>, url: Seq<char>, ctx: RoutingContext) -> Option<int> {
    if exists|i: int| is_winner(rules, i, url, ctx) {
        Some(choose|i: int| is_winner(rules, i, url, ctx))
    } else {
        None
    }
}

/// Rule `r` is enabled and its conditions hold.
pub open spec fn rule_applies(r: Rule, url: Seq<char>, ctx: RoutingContext) -> bool {
    r.enabled && spec_matches(r.match_, url, ctx)
}

/// The rule that wins after `best` once `r` is looked at: `r` when it
/// applies and beats `best`'s priority (or there is no `best` yet).
pub open spec fn better_rule(best: Option<Rule>, r: Rule, url: Seq<char>, ctx: RoutingContext) -> Option<Rule> {
    if rule_applies(r, url, ctx) && (best matches Some(b) ==> r.priority > b.priority) {
        Some(r)
    } else {
        best
    }
}

/// The rule that routes `url`, found by looking at the rules in order.
pub open spec fn best_rule(rules: Seq<Rule>, url: Seq<char>, ctx: RoutingContext) -> Option<Rule>
    decreases rules.len(),
{
    if rules.len() == 0 {
        None
    } else {
        better_rule(best_rule(rules.drop_last(), url, ctx), rules.last(), url, ctx)
    }
}

/// The rule that routes `url`, if any, as [`spec_winner`] names it.
pub open spec fn winning_rule(rules: Seq<Rule>, url: Seq<char>, ctx: RoutingContext) -> Option<Rule> {
    match spec_winner(rules, url, ctx) {
        Some(i) => Some(rules[i]),
        None => None,
    }
}

/// The rule found in order is the winner: none when no rule applies, else
/// a rule of the list that is the winner at some position.
proof fn lemma_best_rule_wins(rules: Seq<Rule>, url: Seq<char>, ctx: RoutingContext)
    ensures
        best_rule(rules, url, ctx) is None ==> forall|j: int| !eligible(rules, j, url, ctx),
        best_rule(rules, url, ctx) matches Some(b) ==> exists|i: int|
            is_winner(rules, i, url, ctx) && rules[i] == b,
    decreases rules.len(),
{
    if rules.len() > 0 {
        let d = rules.drop_last();
        let l = rules.last();
        let n = rules.len() - 1;
        lemma_best_rule_wins(d, url, ctx);
        assert forall|j: int| 0 <= j < n implies #[trigger] eligible(rules, j, url, ctx) == eligible(d, j, url, ctx) by {
            assert(rules[j] == d[j]);
        }
        assert(eligible(rules, n, url, ctx) == rule_applies(l, url, ctx));
        match best_rule(d, url, ctx) {
            None => {
                if rule_applies(l, url, ctx) {
                    assert forall|j: int| #![trigger eligible(rules, j, url, ctx)] eligible(rules, j, url, ctx) implies rules[j].priority
                        < rules[n].priority || (rules[j].priority == rules[n].priority && n <= j) by {
                        if j < n {
                            assert(eligible(d, j, url, ctx));
                        }
                    }
                    assert(is_winner(rules, n, url, ctx));
                } else {
                    assert forall|j: int| !eligible(rules, j, url, ctx) by {
                        if 0 <= j < n {
                            assert(!eligible(d, j, url, ctx));
                        }
                    }
                }
            },
            Some(b) => {
                let i = choose|i: int| is_winner(d, i, url, ctx) && d[i] == b;
                if rule_applies(l, url, ctx) && l.priority > b.priority {
                    assert forall|j: int| #![trigger eligible(rules, j, url, ctx)] eligible(rules, j, url, ctx) implies rules[j].priority
                        < rules[n].priority || (rules[j].priority == rules[n].priority && n <= j) by {
                        if j < n {
                            assert(eligible(d, j, url, ctx));
                        }
                    }
                    assert(is_winner(rules, n, url, ctx));
                } else {
                    assert(rules[i] == d[i]);
                    assert forall|j: int| #![trigger eligible(rules, j, url, ctx)] eligible(rules, j, url, ctx) implies rules[j].priority
                        < rules[i].priority || (rules[j].priority == rules[i].priority && i <= j) by {
                        if j < n {
                            assert(eligible(d, j, url, ctx));
                        }
                    }
                    assert(is_winner(rules, i, url, ctx));
                }
            },
        }
    }
}

/// The rule [`spec_winner`] names is the one found by looking at the rules
/// in order.
pub proof fn lemma_winning_rule_is_best(rules: Seq<Rule>, url: Seq<char>, ctx: RoutingContext)
    ensures
        winning_rule(rules, url, ctx) == best_rule(rules, url, ctx),
{
    lemma_best_rule_wins(rules, url, ctx);
    match best_rule(rules, url, ctx) {
        Some(b) => {
            let i = choose|i: int| is_winner(rules, i, url, ctx) && rules[i] == b;
            lemma_spec_winner_is(rules, i, url, ctx);
        },
        None => {
            assert(!exists|i: int| is_winner(rules, i, url, ctx));
        },
    }
}

/// The rule that routes a URL is the enabled matching rule of highest
/// priority, the earliest among equals: when rule `i` applies, every other
/// applying rule has a lower priority or the same priority and comes later,
/// rule `i` wins; a disabled rule or one whose conditions fail never wins.
pub proof fn law_highest_priority_wins(rules: Seq<Rule>, i: int, url: Seq<char>, ctx: RoutingContext)
    ensures
        0 <= i < rules.len() && rules[i].enabled && spec_matches(rules[i].match_, url, ctx) && (forall|j: int|
            0 <= j < rules.len() && j != i && rules[j].enabled && spec_matches(
                #[trigger] rules[j].match_,
                url,
                ctx,
            ) ==> rules[j].priority < rules[i].priority || (rules[j].priority == rules[i].priority
                && i < j)) ==> winning_rule(rules, url, ctx) == Some(rules[i]) && spec_winner(
            rules,
            url,
            ctx,
        ) == Some(i),
        0 <= i < rules.len() && !(rules[i].enabled && spec_matches(rules[i].match_, url, ctx))
            ==> spec_winner(rules, url, ctx) != Some(i),
{
    if 0 <= i < rules.len() && rules[i].enabled && spec_matches(rules[i].match_, url, ctx) && (forall|j: int|
        0 <= j < rules.len() && j != i && rules[j].enabled && spec_matches(
            #[trigger] rules[j].match_,
            url,
            ctx,
        ) ==> rules[j].priority < rules[i].priority || (rules[j].priority == rules[i].priority
            && i < j)) {
        assert(is_winner(rules, i, url, ctx));
        lemma_spec_winner_is(rules, i, url, ctx);
    }
    if spec_winner(rules, url, ctx) is Some {
        let w = choose|w: int| is_winner(rules, w, url, ctx);
        assert(is_winner(rules, w, url, ctx));
        lemma_spec_winner_is(rules, w, url, ctx);
    }
}

/// Routing depends on the rules only through the rule that wins: two
/// configurations with the same general settings, filters and winning rule
/// route alike.
pub proof fn lemma_route_by_winning_rule(url: Seq<char>, ctx: RoutingContext, c1: Config, c2: Config)
    requires
        c1.general == c2.general,
        c1.filters == c2.filters,
        winning_rule(c1.rules@, spec_normalized(url, c1), ctx) == winning_rule(
            c2.rules@,
            spec_normalized(url, c2),
            ctx,
        ),
    ensures
        spec_route(url, ctx, c1) == spec_route(url, ctx, c2),
{
}

/// The decision taken when no rule applies.
pub open spec fn spec_default_decision(default_action: DefaultAction) -> DecisionView {
    match default_action {
        DefaultAction::Ask => DecisionView::AskUser,
        DefaultAction::OpenWith(id) => DecisionView::OpenWith { target: id@, private: false },
    }
}

/// The decision for a matched rule's action: ask, then block, then open with
/// all listed targets, then open with the single target, else the default.
pub open spec fn spec_decision_for_action(action: Action, default_action: DefaultAction) -> DecisionView {
    if action.ask {
        DecisionView::AskUser
    } else if action.block {
        DecisionView::Block
    } else if action.open_with_all@.len() > 0 {
        DecisionView::OpenWithAll { targets: views(action.open_with_all@), private: action.private }
    } else {
        match action.open_with {
            Some(t) => DecisionView::OpenWith { target: t@, private: action.private },
            None => spec_default_decision(default_action),
        }
    }
}

/// The filtered URL.
pub open spec fn spec_normalized(url: Seq<char>, config: Config) -> Seq<char> {
    spec_apply_filters(url, config.filters@)
}

/// The routing decision for `url` under `config`.
pub open spec fn spec_route(url: Seq<char>, ctx: RoutingContext, config: Config) -> DecisionView {
    let n = spec_normalized(url, config);
    match spec_winner(config.rules@, n, ctx) {
        Some(i) => spec_decision_for_action(config.rules@[i].action, config.general.default_action.0),
        None => spec_default_decision(config.general.default_action.0),
    }
}

/// At most one rule is the winner.
pub proof fn lemma_winner_unique(rules: Seq<Rule>, i: int, k: int, url: Seq<char>, ctx: RoutingContext)
    requires
        is_winner(rules, i, url, ctx),
        is_winner(rules, k, url, ctx),
    ensures
        i == k,
{
    assert(eligible(rules, k, url, ctx));
    assert(eligible(rules, i, url, ctx));
}

/// A rule that is the winner is the one `spec_winner` names.
pub proof fn lemma_spec_winner_is(rules: Seq<Rule>, i: int, url: Seq<char>, ctx: RoutingContext)
    requires
        is_winner(rules, i, url, ctx),
    ensures
        spec_winner(rules, url, ctx) == Some(i),
{
    let w = choose|w: int| is_winner(rules, w, url, ctx);
    lemma_winner_unique(rules, i, w, url, ctx);
}

/// Routing reads the context only through its source app and the names of
/// the modifier keys held: two contexts that agree on these route alike.
pub proof fn law_route_reads_context(
    url: Seq<char>,
    ctx1: RoutingContext,
    ctx2: RoutingContext,
    config: Config,
)
    requires
        ctx1.source_app == ctx2.source_app,
        ctx1.modifier_keys@ == ctx2.modifier_keys@,
    ensures
        spec_route(url, ctx1, config) == spec_route(url, ctx2, config),
{
    let n = spec_normalized(url, config);
    let rules = config.rules@;
    assert forall|j: int| eligible(rules, j, n, ctx1) == eligible(rules, j, n, ctx2) by {}
    assert forall|i: int| is_winner(rules, i, n, ctx1) == is_winner(rules, i, n, ctx2) by {
        assert forall|j: int| eligible(rules, j, n, ctx1) == eligible(rules, j, n, ctx2) by {}
    }
    if exists|i: int| is_winner(rules, i, n, ctx1) {
        let i = choose|i: int| is_winner(rules, i, n, ctx1);
        lemma_spec_winner_is(rules, i, n, ctx1);
        lemma_spec_winner_is(rules, i, n, ctx2);
    } else {
        assert(!exists|i: int| is_winner(rules, i, n, ctx2));
    }
}

/// With no rules, every URL gets the default action; in particular the
/// fail-safe default configuration sends every URL to the picker.
pub proof fn law_no_rules_uses_default(url: Seq<char>, ctx: RoutingContext, config: Config)
    requires
        config.rules@.len() == 0,
    ensures
        spec_route(url, ctx, config) == spec_default_decision(config.general.default_action.0),
        config.general.default_action.0 == DefaultAction::Ask ==> spec_route(url, ctx, config)
            == DecisionView::AskUser,
{
    let n = spec_normalized(url, config);
    assert(!exists|i: int| is_winner(config.rules@, i, n, ctx));
}

/// The picker is shown when the rule that applies asks, and when no rule
/// applies and the default action is to ask.
pub proof fn law_picker_when_unmatched_or_asked(url: Seq<char>, ctx: RoutingContext, config: Config)
    ensures
        ({
            let w = spec_winner(config.rules@, spec_normalized(url, config), ctx);
            &&& (w.is_none() && config.general.default_action.0 == DefaultAction::Ask) ==> spec_route(
                url,
                ctx,
                config,
            ) == DecisionView::AskUser
            &&& (w matches Some(i) && config.rules@[i].action.ask) ==> spec_route(url, ctx, config)
                == DecisionView::AskUser
        }),
{
}

/// Applies filters then evaluates rules in priority order, returning the routing decision.
pub fn route(url: &str, ctx: &RoutingContext, config: &Config) -> (res: RoutingDecision)
    ensures
        res@ == spec_route(url@, *ctx, *config),
{
    explain(url, ctx, config).decision
}

/// Like [`route`], but also reports the filtered URL and which rule (if any)
/// was matched. Used by `br rules test`.
pub fn explain(url: &str, ctx: &RoutingContext, config: &Config) -> (res: RoutingExplanation)
    ensures
        res.normalized_url@ == spec_normalized(url@, *config),
        res.decision@ == spec_route(url@, *ctx, *config),
        match spec_winner(config.rules@, spec_normalized(url@, *config), *ctx) {
            Some(i) => res.matched_rule.is_some() && res.matched_rule.unwrap()@
                == config.rules@[i].id@,
            None => res.matched_rule.is_none(),
        },
{
    let normalized = apply_filters(url, &config.filters);
    let ghost n = normalized@;
    let rules = &config.rules;
    let mut best: Option<usize> = None;
    let mut i: usize = 0;
    while i < rules.len()
        invariant
            i <= rules@.len(),
            n == normalized@,
            rules@ == config.rules@,
            match best {
                Some(b) => {
                    &&& b < i
                    &&& eligible(rules@, b as int, n, *ctx)
                    &&& forall|j: int|
                        #![trigger eligible(rules@, j, n, *ctx)]
                        0 <= j < i && eligible(rules@, j, n, *ctx) ==> rules@[j].priority
                            < rules@[b as int].priority || (rules@[j].priority
                            == rules@[b as int].priority && b <= j)
                },
                None => forall|j: int| 0 <= j < i ==> !eligible(rules@, j, n, *ctx),
            },
        decreases rules@.len() - i,
    {
        let rule = &rules[i];
        if rule.enabled {
            let better = match best {
                None => true,
                Some(b) => rule.priority > rules[b].priority,
            };
            if better {
                let m = matches(&rule.match_, normalized.as_str(), ctx);
                if m {
                    best = Some(i);
                }
            }
        }
        i = i + 1;
    }
    let default_action = &config.general.default_action.0;
    match best {
        Some(b) => {
            proof {
                lemma_spec_winner_is(rules@, b as int, n, *ctx);
            }
            let decision = decision_for_action(&rules[b].action, default_action);
            RoutingExplanation {
                normalized_url: normalized,
                matched_rule: Some(rules[b].id.clone()),
                decision,
            }
        },
        None => {
            assert(spec_winner(rules@, n, *ctx).is_none());
            RoutingExplanation {
                normalized_url: normalized,
                matched_rule: None,
                decision: default_decision(default_action),
            }
        },
    }
}

/// Whether a rule's conditions hold for `url` in context `ctx`.
pub fn matches(cond: &MatchCondition, url: &str, ctx: &RoutingContext) -> (res: bool)
    ensures
        res == spec_matches(*cond, url@, *ctx),
{
    if cond.url_pattern.len() > 0 && !any_pattern_matches(&cond.url_pattern, url) {
        return false;
    }
    let parsed = parse_url(url);
    if cond.host.len() > 0 {
        let host = match &parsed {
            Some(u) => match &u.host {
                Some(h) => h.clone(),
                None => String::new(),
            },
            None => String::new(),
        };
        if !any_glob(&cond.host, host.as_str()) {
            return false;
        }
    }
    if cond.path.len() > 0 {
        let path = match &parsed {
            Some(u) => u.path.clone(),
            None => String::new(),
        };
        if !any_glob(&cond.path, path.as_str()) {
            return false;
        }
    }
    let empty: Vec<(String, String)> = Vec::new();
    let pairs = match &parsed {
        Some(u) => &u.query,
        None => &empty,
    };
    assert(pair_views(pairs@) == url_query(url@));
    if !all_params_in(&cond.query_param, pairs) {
        return false;
    }
    if cond.source_app.len() > 0 {
        match &ctx.source_app {
            Some(app) => {
                let mut found = false;
                let mut i: usize = 0;
                while i < cond.source_app.len()
                    invariant
                        i <= cond.source_app@.len(),
                        found == exists|j: int|
                            0 <= j < i && eq_ignore_ascii_case(
                                #[trigger] cond.source_app@[j]@,
                                app@,
                            ),
                    decreases cond.source_app@.len() - i,
                {
                    if eq_ignore_case(cond.source_app[i].as_str(), app.as_str()) {
                        found = true;
                    }
                    i = i + 1;
                }
                if !found {
                    return false;
                }
            },
            None => {
                return false;
            },
        }
    }
    all_keys_in(&cond.modifier_keys, &ctx.modifier_keys)
}

/// Whether some pair of `pairs` satisfies the query-parameter condition `q`.
pub fn param_in(q: &QueryParamMatch, pairs: &Vec<(String, String)>) -> (res: bool)
    ensures
        res == param_present(*q, pair_views(pairs@)),
{
    let (name, value) = match q {
        QueryParamMatch::Name(n) => (n, None),
        QueryParamMatch::Condition { name, value } => (name, value.as_ref()),
    };
    let mut k: usize = 0;
    while k < pairs.len()
        invariant
            k <= pairs@.len(),
            name@ == param_name(*q),
            value.is_some() == param_value(*q).is_some(),
            value matches Some(v) ==> param_value(*q) == Some(v@),
            forall|j: int| 0 <= j < k ==> !pair_satisfies(*q, #[trigger] pair_views(pairs@)[j]),
        decreases pairs@.len() - k,
    {
        let p = &pairs[k];
        assert(pair_views(pairs@)[k as int] == (p.0@, p.1@));
        if eq_str(p.0.as_str(), name.as_str()) {
            let ok = match value {
                Some(v) => eq_str(p.1.as_str(), v.as_str()),
                None => true,
            };
            if ok {
                return true;
            }
        }
        k = k + 1;
    }
    false
}

/// Whether every query-parameter condition of `qs` is satisfied by `pairs`.
pub fn all_params_in(qs: &Vec<QueryParamMatch>, pairs: &Vec<(String, String)>) -> (res: bool)
    ensures
        res == all_params_present(qs@, pair_views(pairs@)),
{
    let mut i: usize = 0;
    while i < qs.len()
        invariant
            i <= qs@.len(),
            forall|j: int| 0 <= j < i ==> param_present(#[trigger] qs@[j], pair_views(pairs@)),
        decreases qs@.len() - i,
    {
        if !param_in(&qs[i], pairs) {
            return false;
        }
        i = i + 1;
    }
    true
}

/// Whether every key of `keys` is among `held`.
pub fn all_keys_in(keys: &Vec<String>, held: &Vec<String>) -> (res: bool)
    ensures
        res == all_keys_held(keys@, held@),
{
    let mut i: usize = 0;
    while i < keys.len()
        invariant
            i <= keys@.len(),
            forall|j: int| 0 <= j < i ==> key_held((#[trigger] keys@[j])@, held@),
        decreases keys@.len() - i,
    {
        let mut found = false;
        let mut k: usize = 0;
        while k < held.len()
            invariant
                k <= held@.len(),
                i < keys@.len(),
                found == exists|m: int| 0 <= m < k && (#[trigger] held@[m])@ == keys@[i as int]@,
            decreases held@.len() - k,
        {
            if eq_str(held[k].as_str(), keys[i].as_str()) {
                found = true;
            }
            k = k + 1;
        }
        if !found {
            assert(!key_held(keys@[i as int]@, held@));
            return false;
        }
        i = i + 1;
    }
    true
}

/// Whether one URL pattern matches: `regex:`-prefixed patterns by regular
/// expression (invalid ones never match), others by glob.
pub fn pattern_match(pattern: &str, url: &str) -> (res: bool)
    ensures
        res == pattern_matches(pattern@, url@),
{
    let p = chars_of(pattern);
    let prefix = chars_of("regex:");
    let is_regex = starts_with_at(&p, 0, &prefix);
    assert(p@.skip(0) =~= p@);
    if is_regex {
        proof {
            reveal_strlit("regex:");
        }
        let src = string_of_range(&p, 6, p.len());
        assert(p@.subrange(6, p@.len() as int) =~= p@.skip(6));
        match regex_is_match(src.as_str(), url) {
            Some(b) => b,
            None => false,
        }
    } else {
        glob_match(pattern, url)
    }
}

/// A pattern list matches if any of its patterns matches.
pub fn any_pattern_matches(patterns: &Vec<String>, url: &str) -> (res: bool)
    ensures
        res == any_pattern(patterns@, url@),
{
    let mut i: usize = 0;
    while i < patterns.len()
        invariant
            i <= patterns@.len(),
            forall|j: int| 0 <= j < i ==> !pattern_matches(#[trigger] patterns@[j]@, url@),
        decreases patterns@.len() - i,
    {
        if pattern_match(patterns[i].as_str(), url) {
            return true;
        }
        i = i + 1;
    }
    false
}

/// The decision for a matched rule's action.
pub fn decision_for_action(action: &Action, default_action: &DefaultAction) -> (res: RoutingDecision)
    ensures
        res@ == spec_decision_for_action(*action, *default_action),
{
    if action.ask {
        return RoutingDecision::AskUser;
    }
    if action.block {
        return RoutingDecision::Block;
    }
    if action.open_with_all.len() > 0 {
        return RoutingDecision::OpenWithAll {
            targets: clone_strings(&action.open_with_all),
            private: action.private,
        };
    }
    match &action.open_with {
        Some(target) => RoutingDecision::OpenWith { target: target.clone(), private: action.private },
        None => default_decision(default_action),
    }
}

/// The decision taken when no rule applies.
pub fn default_decision(default_action: &DefaultAction) -> (res: RoutingDecision)
    ensures
        res@ == spec_default_decision(*default_action),
{
    match default_action {
        DefaultAction::Ask => RoutingDecision::AskUser,
        DefaultAction::OpenWith(id) => RoutingDecision::OpenWith { target: id.clone(), private: false },
    }
}

} // verus!
