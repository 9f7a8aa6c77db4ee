//! What `br open`, the link handler and the daemon do with a URL once the
//! configuration is loaded: the decision, the launches it asks for, the
//! daemon's replies, its configuration reloads, and the text the command line
//! reports.
use vstd::prelude::*;

use crate::daemon::OpenRequest;
use crate::engine::{explain, law_route_reads_context, route, spec_normalized, spec_route, spec_winner};
use crate::filters::apply_filters;
use crate::model::{Config, DecisionView, RoutingContext, RoutingDecision, RoutingExplanation};
use crate::config::{decimal, u64_to_decimal};
use crate::model::Rule;
use crate::settings::{join_csv, sort_rules_by_priority, sorted_by_priority, spec_join_csv};
use crate::text::{clone_opt, clone_strings, concat, owned, trim, views};

verus! {

// ---------------------------------------------------------------------------
// The decision for a request
// ---------------------------------------------------------------------------

/// The routing context of a request.
pub open spec fn request_context(request: OpenRequest) -> RoutingContext {
    RoutingContext { source_app: request.source_app, modifier_keys: request.modifier_keys }
}

/// The decision for a request: a forced app opens the URL there (privately
/// when asked), else the rules decide.
pub open spec fn spec_request_decision(request: OpenRequest, config: Config) -> DecisionView {
    match request.app {
        Some(app) => DecisionView::OpenWith { target: app@, private: request.private },
        None => spec_route(request.url@, request_context(request), config),
    }
}

/// The routing decision for a request.
pub fn request_decision(request: &OpenRequest, config: &Config) -> (res: RoutingDecision)
    ensures
        res@ == spec_request_decision(*request, *config),
{
    match &request.app {
        Some(app) => RoutingDecision::OpenWith { target: app.clone(), private: request.private },
        None => {
            let ctx = RoutingContext {
                source_app: clone_opt(&request.source_app),
                modifier_keys: clone_strings(&request.modifier_keys),
            };
            proof {
                law_route_reads_context(request.url@, ctx, request_context(*request), *config);
            }
            route(request.url.as_str(), &ctx, config)
        },
    }
}

/// What to do for a decision.
#[derive(Debug, Clone, PartialEq, Eq)]
pub enum OpenAction {
    /// Open the URL with one target; a failure is reported.
    LaunchOne { target: String, private: bool },
    /// Open the URL with each target in turn.
    LaunchEach { targets: Vec<String>, private: bool },
    /// Let the user pick a target.
    ShowPicker,
    /// Open nothing.
    Nothing,
}

/// The action for `decision`; launches are private when the decision or
/// `force_private` says so.
pub open spec fn action_matches(action: OpenAction, decision: DecisionView, force_private: bool) -> bool {
    match decision {
        DecisionView::OpenWith { target, private } => action matches OpenAction::LaunchOne {
            target: t,
            private: p,
        } && t@ == target && p == (private || force_private),
        DecisionView::OpenWithAll { targets, private } => action matches OpenAction::LaunchEach {
            targets: ts,
            private: p,
        } && views(ts@) == targets && p == (private || force_private),
        DecisionView::AskUser => action == OpenAction::ShowPicker,
        DecisionView::Block => action == OpenAction::Nothing,
    }
}

/// The launches, picker or nothing that carry out `decision`.
pub fn action_for(decision: RoutingDecision, force_private: bool) -> (res: OpenAction)
    ensures
        action_matches(res, decision@, force_private),
{
    match decision {
        RoutingDecision::OpenWith { target, private } => OpenAction::LaunchOne {
            target,
            private: private || force_private,
        },
        RoutingDecision::OpenWithAll { targets, private } => OpenAction::LaunchEach {
            targets,
            private: private || force_private,
        },
        RoutingDecision::AskUser => OpenAction::ShowPicker,
        RoutingDecision::Block => OpenAction::Nothing,
    }
}

/// How a URL is to be opened: the decision, the filtered URL to hand to the
/// browser, and the action.
#[derive(Debug, Clone, PartialEq, Eq)]
pub struct OpenPlan {
    pub decision: RoutingDecision,
    pub url: String,
    pub action: OpenAction,
}

/// `plan` carries out `request` under `config`.
pub open spec fn plan_matches(plan: OpenPlan, request: OpenRequest, config: Config, force_private: bool) -> bool {
    &&& plan.decision@ == spec_request_decision(request, config)
    &&& plan.url@ == spec_normalized(request.url@, config)
    &&& action_matches(plan.action, plan.decision@, force_private)
}

/// The plan for a request; `force_private` makes every launch private (the
/// daemon honours the request's private flag so, `br open` only through
/// `--app`).
pub fn plan_request(request: &OpenRequest, config: &Config, force_private: bool) -> (res: OpenPlan)
    ensures
        plan_matches(res, *request, *config, force_private),
{
    let decision = request_decision(request, config);
    let url = apply_filters(request.url.as_str(), &config.filters);
    let action = action_for(decision.clone_decision(), force_private);
    OpenPlan { decision, url, action }
}

impl RoutingDecision {
    /// A copy of the decision.
    pub fn clone_decision(&self) -> (res: RoutingDecision)
        ensures
            res@ == self@,
    {
        match self {
            RoutingDecision::OpenWith { target, private } => RoutingDecision::OpenWith {
                target: target.clone(),
                private: *private,
            },
            RoutingDecision::OpenWithAll { targets, private } => RoutingDecision::OpenWithAll {
                targets: clone_strings(targets),
                private: *private,
            },
            RoutingDecision::AskUser => RoutingDecision::AskUser,
            RoutingDecision::Block => RoutingDecision::Block,
        }
    }
}

/// The request the link handler makes for a clicked URL: no forced app, not
/// private, no modifier keys, and the foreground app as its source.
pub fn handler_request(url: &str, source_app: Option<String>) -> (res: OpenRequest)
    ensures
        res.url@ == url@,
        res.source_app == source_app,
        res.app.is_none(),
        !res.private,
        res.modifier_keys@.len() == 0,
{
    OpenRequest { url: owned(url), source_app, app: None, private: false, modifier_keys: Vec::new() }
}

/// The link handler's plan for a clicked URL that no daemon took: the rules
/// decide, with the foreground app as the source and no modifier keys held.
pub fn route_url(url: &str, source_app: Option<String>, config: &Config) -> (res: OpenPlan)
    ensures
        forall|ctx: RoutingContext|
            ctx.source_app == source_app && ctx.modifier_keys@.len() == 0 ==> res.decision@
                == #[trigger] spec_route(url@, ctx, *config),
        res.url@ == spec_normalized(url@, *config),
        action_matches(res.action, res.decision@, false),
{
    let request = handler_request(url, source_app);
    let plan = plan_request(&request, config, false);
    proof {
        assert forall|ctx: RoutingContext|
            ctx.source_app == source_app && ctx.modifier_keys@.len() == 0 implies plan.decision@
            == #[trigger] spec_route(url@, ctx, *config) by {
            assert(ctx.modifier_keys@ =~= request_context(request).modifier_keys@);
            law_route_reads_context(url@, request_context(request), ctx, *config);
        }
    }
    plan
}

// ---------------------------------------------------------------------------
// The daemon's replies
// ---------------------------------------------------------------------------

/// How handling a request went.
#[derive(Debug, Clone, Copy, PartialEq, Eq)]
pub enum DispatchOutcome {
    /// The request was carried out.
    Handled,
    /// The one launch it asked for failed.
    LaunchFailed,
    /// The picker could not be shown.
    PickerFailed,
    /// The request line could not be read.
    InvalidRequest,
    /// The daemon's shared state could not be reached.
    StateUnavailable,
}

/// The reply line the daemon sends for an outcome.
pub open spec fn spec_reply(outcome: DispatchOutcome) -> Seq<char> {
    match outcome {
        DispatchOutcome::Handled => "OK\n"@,
        DispatchOutcome::LaunchFailed => "ERR launch failed\n"@,
        DispatchOutcome::PickerFailed => "ERR picker failed\n"@,
        DispatchOutcome::InvalidRequest => "ERR invalid request\n"@,
        DispatchOutcome::StateUnavailable => "ERR poisoned state\n"@,
    }
}

/// The reply line the daemon sends for an outcome.
pub fn daemon_reply(outcome: DispatchOutcome) -> (res: &'static str)
    ensures
        res@ == spec_reply(outcome),
{
    match outcome {
        DispatchOutcome::Handled => "OK\n",
        DispatchOutcome::LaunchFailed => "ERR launch failed\n",
        DispatchOutcome::PickerFailed => "ERR picker failed\n",
        DispatchOutcome::InvalidRequest => "ERR invalid request\n",
        DispatchOutcome::StateUnavailable => "ERR poisoned state\n",
    }
}

/// The outcome of carrying out `action`, given whether its single launch
/// and its picker succeeded: launching each of several targets never fails
/// the request.
pub fn outcome_of(action: &OpenAction, launch_ok: bool, picker_ok: bool) -> (res: DispatchOutcome)
    ensures
        res == match action {
            OpenAction::LaunchOne { .. } => if launch_ok {
                DispatchOutcome::Handled
            } else {
                DispatchOutcome::LaunchFailed
            },
            OpenAction::ShowPicker => if picker_ok {
                DispatchOutcome::Handled
            } else {
                DispatchOutcome::PickerFailed
            },
            _ => DispatchOutcome::Handled,
        },
{
    match action {
        OpenAction::LaunchOne { .. } => if launch_ok {
            DispatchOutcome::Handled
        } else {
            DispatchOutcome::LaunchFailed
        },
        OpenAction::ShowPicker => if picker_ok {
            DispatchOutcome::Handled
        } else {
            DispatchOutcome::PickerFailed
        },
        _ => DispatchOutcome::Handled,
    }
}

/// The client takes a reply as success when, without surrounding white
/// space, it is `OK`.
pub open spec fn spec_reply_accepted(reply: Seq<char>) -> bool {
    trim(reply) == "OK"@
}

/// Whether a reply from the daemon says the request was handled.
pub fn reply_accepted(reply: &str) -> (res: bool)
    ensures
        res == spec_reply_accepted(reply@),
{
    let t = crate::text::trim_str(reply);
    crate::text::eq_str(t.as_str(), "OK")
}

/// The client takes the daemon's reply as success exactly when the request
/// was handled.
pub proof fn law_reply_accepted(outcome: DispatchOutcome)
    ensures
        spec_reply_accepted(spec_reply(outcome)) <==> outcome == DispatchOutcome::Handled,
{
    reveal_strlit("OK");
    reveal_strlit("OK\n");
    reveal_strlit("ERR launch failed\n");
    reveal_strlit("ERR picker failed\n");
    reveal_strlit("ERR invalid request\n");
    reveal_strlit("ERR poisoned state\n");
    let r = spec_reply(outcome);
    let ts = crate::text::trim_start(r);
    assert(r.len() > 0 && !crate::text::is_ws(r[0]));
    assert(ts == r);
    assert(r.last() == '\n');
    assert(crate::text::is_ws('\n'));
    let d = r.drop_last();
    assert(d.len() > 0 && !crate::text::is_ws(d.last()));
    assert(crate::text::trim_end(r) == crate::text::trim_end(d));
    assert(crate::text::trim_end(d) == d);
    if outcome == DispatchOutcome::Handled {
        assert(d =~= "OK"@);
    } else {
        assert(d.len() != 2 || d[0] != 'O');
        assert(d != "OK"@);
    }
}

// ---------------------------------------------------------------------------
// Reloading the configuration
// ---------------------------------------------------------------------------

/// The daemon's configuration and the modification time of the file it was
/// read from (`None` when the file could not be inspected).
#[derive(Debug, Clone, PartialEq, Eq)]
pub struct ReloadState {
    pub config: Config,
    pub last_modified: Option<u128>,
}

/// Whether the file must be read again: its modification time changed.
pub fn needs_reload(state: &ReloadState, modified: Option<u128>) -> (res: bool)
    ensures
        res == (modified != state.last_modified),
{
    match (modified, state.last_modified) {
        (Some(a), Some(b)) => a != b,
        (None, None) => false,
        _ => true,
    }
}

/// Records a reload attempt at modification time `modified`: a configuration
/// that loaded replaces the current one, a failed load keeps it.
pub fn finish_reload(state: &mut ReloadState, modified: Option<u128>, loaded: Option<Config>)
    ensures
        final(state).last_modified == modified,
        final(state).config == match loaded {
            Some(c) => c,
            None => old(state).config,
        },
{
    if let Some(c) = loaded {
        state.config = c;
    }
    state.last_modified = modified;
}

// ---------------------------------------------------------------------------
// What the command line prints
// ---------------------------------------------------------------------------

/// How a decision is printed.
pub open spec fn spec_describe(decision: DecisionView) -> Seq<char> {
    match decision {
        DecisionView::OpenWith { target, private } => "open_with "@ + target + if private {
            " (private)"@
        } else {
            ""@
        },
        DecisionView::OpenWithAll { targets, private } => "open_with_all ["@ + spec_join_csv(targets)
            + "]"@ + if private {
            " (private)"@
        } else {
            ""@
        },
        DecisionView::AskUser => "ask"@,
        DecisionView::Block => "block"@,
    }
}

/// A one-line description of a decision.
pub fn describe_decision(decision: &RoutingDecision) -> (res: String)
    ensures
        res@ == spec_describe(decision@),
{
    match decision {
        RoutingDecision::OpenWith { target, private } => {
            let mut s = concat("open_with ", target.as_str());
            if *private {
                s.append(" (private)");
            } else {
                s.append("");
            }
            s
        },
        RoutingDecision::OpenWithAll { targets, private } => {
            let list = join_csv(targets);
            let mut s = concat("open_with_all [", list.as_str());
            s.append("]");
            if *private {
                s.append(" (private)");
            } else {
                s.append("");
            }
            s
        },
        RoutingDecision::AskUser => owned("ask"),
        RoutingDecision::Block => owned("block"),
    }
}

/// The lines `br rules test` prints for an explanation.
pub fn explanation_lines(explanation: &RoutingExplanation) -> (res: Vec<String>)
    ensures
        res@.len() == 3,
        res@[0]@ == "normalized url: "@ + explanation.normalized_url@,
        res@[1]@ == match explanation.matched_rule {
            Some(id) => "matched rule: "@ + id@,
            None => "matched rule: (none — using default action)"@,
        },
        res@[2]@ == "decision: "@ + spec_describe(explanation.decision@),
{
    let mut lines: Vec<String> = Vec::new();
    lines.push(concat("normalized url: ", explanation.normalized_url.as_str()));
    match &explanation.matched_rule {
        Some(id) => lines.push(concat("matched rule: ", id.as_str())),
        None => lines.push(owned("matched rule: (none — using default action)")),
    }
    let d = describe_decision(&explanation.decision);
    lines.push(concat("decision: ", d.as_str()));
    lines
}

/// The lines `br rules test` prints for `url`.
pub fn rules_test_lines(url: &str, ctx: &RoutingContext, config: &Config) -> (res: Vec<String>)
    ensures
        res@.len() == 3,
        res@[0]@ == "normalized url: "@ + spec_normalized(url@, *config),
        res@[1]@ == match spec_winner(config.rules@, spec_normalized(url@, *config), *ctx) {
            Some(i) => "matched rule: "@ + config.rules@[i].id@,
            None => "matched rule: (none — using default action)"@,
        },
        res@[2]@ == "decision: "@ + spec_describe(spec_route(url@, *ctx, *config)),
{
    let e = explain(url, ctx, config);
    explanation_lines(&e)
}

/// The lines `br open` prints once it has acted on a plan.
pub fn open_report_lines(plan: &OpenPlan) -> (res: Vec<String>)
    ensures
        res@.len() == 2,
        res@[0]@ == "url: "@ + plan.url@,
        res@[1]@ == "decision: "@ + spec_describe(plan.decision@),
{
    let mut lines: Vec<String> = Vec::new();
    lines.push(concat("url: ", plan.url.as_str()));
    let d = describe_decision(&plan.decision);
    lines.push(concat("decision: ", d.as_str()));
    lines
}

/// `n` in decimal, with a leading `-` when negative.
pub open spec fn signed_decimal(n: int) -> Seq<char> {
    if n < 0 {
        "-"@ + decimal((-n) as nat)
    } else {
        decimal(n as nat)
    }
}

/// `n` in decimal, with a leading `-` when negative.
pub fn i64_to_decimal(n: i64) -> (res: String)
    ensures
        res@ == signed_decimal(n as int),
{
    if n < 0 {
        let m: u64 = (0i128 - (n as i128)) as u64;
        let d = u64_to_decimal(m);
        concat("-", d.as_str())
    } else {
        u64_to_decimal(n as u64)
    }
}

/// `s` preceded by spaces up to `width` characters.
pub open spec fn pad_left(s: Seq<char>, width: int) -> Seq<char> {
    if s.len() < width {
        Seq::new((width - s.len()) as nat, |i: int| ' ') + s
    } else {
        s
    }
}

/// How `br rules list` prints a rule: its priority right-aligned in four
/// columns, its id, whether it is enabled, and its name.
pub open spec fn spec_rule_line(rule: Rule) -> Seq<char> {
    "["@ + pad_left(signed_decimal(rule.priority as int), 4) + "] "@ + rule.id@ + " ("@ + (if rule.enabled {
        "enabled"@
    } else {
        "disabled"@
    }) + ") "@ + rule.name@
}

/// The line `br rules list` prints for a rule.
pub fn rule_line(rule: &Rule) -> (res: String)
    ensures
        res@ == spec_rule_line(*rule),
{
    let p = i64_to_decimal(rule.priority);
    let mut s = owned("[");
    let pv = crate::text::chars_of(p.as_str());
    let plen = pv.len();
    let ghost pad = if plen < 4 {
        Seq::new((4 - plen) as nat, |i: int| ' ')
    } else {
        Seq::<char>::empty()
    };
    let mut k: usize = plen;
    while k < 4
        invariant
            plen <= k,
            plen < 4 ==> k <= 4,
            plen >= 4 ==> k == plen,
            s@ == "["@ + Seq::new((k - plen) as nat, |i: int| ' '),
        decreases 4 - k,
    {
        crate::text::push_char(&mut s, ' ');
        assert(s@ =~= "["@ + Seq::new((k + 1 - plen) as nat, |i: int| ' '));
        k = k + 1;
    }
    assert(pv@ == p@);
    if plen >= 4 {
        assert(Seq::new((k - plen) as nat, |i: int| ' ') =~= Seq::<char>::empty());
    }
    assert(s@ =~= "["@ + pad);
    s.append(p.as_str());
    s.append("] ");
    s.append(rule.id.as_str());
    s.append(" (");
    if rule.enabled {
        s.append("enabled");
    } else {
        s.append("disabled");
    }
    s.append(") ");
    s.append(rule.name.as_str());
    s
}

/// The lines `br rules list` prints: one per rule, from the highest priority
/// to the lowest, rules of equal priority in their configured order.
pub fn rules_list_lines(rules: Vec<Rule>) -> (res: Vec<String>)
    ensures
        res@.len() == rules@.len(),
        forall|i: int|
            0 <= i < res@.len() ==> (#[trigger] res@[i])@ == spec_rule_line(sorted_by_priority(rules@)[i]),
{
    let ghost orig = rules@;
    let mut sorted = rules;
    sort_rules_by_priority(&mut sorted);
    proof {
        crate::settings::law_sorted_by_priority(orig, 0);
        vstd::seq_lib::to_multiset_len(orig);
        vstd::seq_lib::to_multiset_len(sorted@);
    }
    let mut lines: Vec<String> = Vec::new();
    let mut i: usize = 0;
    while i < sorted.len()
        invariant
            i <= sorted@.len(),
            sorted@ == sorted_by_priority(orig),
            lines@.len() == i,
            forall|j: int| 0 <= j < i ==> (#[trigger] lines@[j])@ == spec_rule_line(sorted@[j]),
        decreases sorted@.len() - i,
    {
        lines.push(rule_line(&sorted[i]));
        i = i + 1;
    }
    lines
}

} // verus!
