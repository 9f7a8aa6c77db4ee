use br::daemon::OpenRequest;
use br::dispatch::{
    action_for, daemon_reply, describe_decision, explanation_lines, finish_reload,
    handler_request, i64_to_decimal, needs_reload, open_report_lines, outcome_of, plan_request,
    reply_accepted, route_url, rule_line, rules_list_lines, rules_test_lines, DispatchOutcome,
    OpenAction, ReloadState,
};
use br::model::{Action, Config, Filter, MatchCondition, Rule, RoutingContext, RoutingDecision};

fn config() -> Config {
    let mut c = Config::default();
    c.filters = vec![Filter {
        id: "s".to_string(),
        enabled: true,
        strip_query_params: vec!["utm_*".to_string()],
        ..Default::default()
    }];
    c.rules = vec![Rule {
        id: "slack".to_string(),
        name: "From Slack".to_string(),
        enabled: true,
        priority: 5,
        match_: MatchCondition { source_app: vec!["Slack".to_string()], ..Default::default() },
        action: Action { open_with_all: vec!["a".to_string(), "b".to_string()], ..Default::default() },
    }];
    c
}

#[test]
fn describes_decisions() {
    assert_eq!(
        describe_decision(&RoutingDecision::OpenWith { target: "ff".to_string(), private: true }),
        "open_with ff (private)"
    );
    assert_eq!(
        describe_decision(&RoutingDecision::OpenWithAll {
            targets: vec!["a".to_string(), "b".to_string()],
            private: false
        }),
        "open_with_all [a, b]"
    );
    assert_eq!(describe_decision(&RoutingDecision::AskUser), "ask");
    assert_eq!(describe_decision(&RoutingDecision::Block), "block");
}

#[test]
fn plans_requests() {
    let cfg = config();
    let forced = OpenRequest {
        url: "https://x.example/?utm_source=1".to_string(),
        source_app: Some("Slack".to_string()),
        app: Some("ff".to_string()),
        private: true,
        modifier_keys: vec![],
    };
    let plan = plan_request(&forced, &cfg, false);
    assert_eq!(plan.decision, RoutingDecision::OpenWith { target: "ff".to_string(), private: true });
    assert_eq!(plan.url, "https://x.example/");
    assert_eq!(plan.action, OpenAction::LaunchOne { target: "ff".to_string(), private: true });

    let routed = OpenRequest { app: None, private: true, ..forced };
    let daemon = plan_request(&routed, &cfg, true);
    assert_eq!(
        daemon.action,
        OpenAction::LaunchEach { targets: vec!["a".to_string(), "b".to_string()], private: true }
    );
    let cli = plan_request(&routed, &cfg, false);
    assert_eq!(
        cli.action,
        OpenAction::LaunchEach { targets: vec!["a".to_string(), "b".to_string()], private: false }
    );
    assert_eq!(
        open_report_lines(&cli),
        vec!["url: https://x.example/".to_string(), "decision: open_with_all [a, b]".to_string()]
    );

    let handler = route_url("https://x.example/", None, &cfg);
    assert_eq!(handler.decision, RoutingDecision::AskUser);
    assert_eq!(handler.action, OpenAction::ShowPicker);
    let req = handler_request("u", Some("Slack".to_string()));
    assert!(req.app.is_none() && !req.private && req.modifier_keys.is_empty());
    assert_eq!(action_for(RoutingDecision::Block, true), OpenAction::Nothing);
}

#[test]
fn daemon_replies_and_client_acceptance() {
    assert_eq!(daemon_reply(DispatchOutcome::Handled), "OK\n");
    assert_eq!(daemon_reply(DispatchOutcome::LaunchFailed), "ERR launch failed\n");
    assert_eq!(daemon_reply(DispatchOutcome::PickerFailed), "ERR picker failed\n");
    assert_eq!(daemon_reply(DispatchOutcome::InvalidRequest), "ERR invalid request\n");
    assert_eq!(daemon_reply(DispatchOutcome::StateUnavailable), "ERR poisoned state\n");
    assert!(!reply_accepted(daemon_reply(DispatchOutcome::StateUnavailable)));
    assert!(reply_accepted(daemon_reply(DispatchOutcome::Handled)));
    assert!(!reply_accepted(daemon_reply(DispatchOutcome::LaunchFailed)));
    assert!(!reply_accepted("OKAY"));
    let one = OpenAction::LaunchOne { target: "a".to_string(), private: false };
    assert_eq!(outcome_of(&one, false, true), DispatchOutcome::LaunchFailed);
    let each = OpenAction::LaunchEach { targets: vec![], private: false };
    assert_eq!(outcome_of(&each, false, false), DispatchOutcome::Handled);
    assert_eq!(outcome_of(&OpenAction::ShowPicker, true, false), DispatchOutcome::PickerFailed);
}

#[test]
fn reloads_keep_the_config_on_failure() {
    let mut state = ReloadState { config: config(), last_modified: Some(10) };
    assert!(!needs_reload(&state, Some(10)));
    assert!(needs_reload(&state, Some(11)));
    assert!(needs_reload(&state, None));
    finish_reload(&mut state, Some(11), None);
    assert_eq!(state.config, config());
    assert_eq!(state.last_modified, Some(11));
    assert!(!needs_reload(&state, Some(11)));
    finish_reload(&mut state, Some(12), Some(Config::default()));
    assert_eq!(state.config, Config::default());
}

#[test]
fn command_line_text() {
    assert_eq!(i64_to_decimal(-42), "-42");
    assert_eq!(i64_to_decimal(i64::MIN), "-9223372036854775808");
    assert_eq!(i64_to_decimal(0), "0");
    let mut r = Rule { id: "r1".to_string(), name: "Work".to_string(), priority: 7, ..Default::default() };
    assert_eq!(rule_line(&r), "[   7] r1 (disabled) Work");
    r.enabled = true;
    r.priority = -12345;
    assert_eq!(rule_line(&r), "[-12345] r1 (enabled) Work");
    let lines = rules_list_lines(vec![
        Rule { id: "low".to_string(), priority: 1, ..Default::default() },
        Rule { id: "high".to_string(), priority: 100, ..Default::default() },
    ]);
    assert_eq!(lines, vec!["[ 100] high (disabled) ".to_string(), "[   1] low (disabled) ".to_string()]);

    let cfg = config();
    let ctx = RoutingContext { source_app: Some("slack".to_string()), modifier_keys: vec![] };
    assert_eq!(
        rules_test_lines("https://x.example/?utm_a=1", &ctx, &cfg),
        vec![
            "normalized url: https://x.example/".to_string(),
            "matched rule: slack".to_string(),
            "decision: open_with_all [a, b]".to_string(),
        ]
    );
    let e = br::engine::explain("u", &RoutingContext::default(), &cfg);
    assert_eq!(explanation_lines(&e)[1], "matched rule: (none — using default action)");
}
