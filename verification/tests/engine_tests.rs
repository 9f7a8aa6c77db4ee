use br::engine::{explain, route};
use br::model::{
    Action, Config, DefaultAction, DefaultActionSerde, General, MatchCondition, QueryParamMatch,
    Rule, RoutingContext, RoutingDecision,
};

fn rule(id: &str, priority: i64, url_pattern: &str, action: Action) -> Rule {
    Rule {
        id: id.to_string(),
        name: id.to_string(),
        enabled: true,
        priority,
        match_: MatchCondition {
            url_pattern: vec![url_pattern.to_string()],
            ..Default::default()
        },
        action,
    }
}

fn config_with_rules(rules: Vec<Rule>) -> Config {
    Config {
        config_version: 1,
        general: General::default(),
        browsers: vec![],
        filters: vec![],
        rules,
    }
}

#[test]
fn picks_highest_priority_matching_rule() {
    let config = config_with_rules(vec![
        rule(
            "low",
            1,
            "*://*.example.com/*",
            Action {
                open_with: Some("low-target".to_string()),
                ..Default::default()
            },
        ),
        rule(
            "high",
            100,
            "*://*.example.com/*",
            Action {
                open_with: Some("high-target".to_string()),
                ..Default::default()
            },
        ),
    ]);

    let decision = route("https://www.example.com/page", &RoutingContext::default(), &config);
    assert_eq!(
        decision,
        RoutingDecision::OpenWith {
            target: "high-target".to_string(),
            private: false,
        }
    );
}

#[test]
fn regex_pattern_matching() {
    let config = config_with_rules(vec![rule(
        "r1",
        10,
        r"regex:^https://mail\.google\.com/.*",
        Action {
            open_with: Some("chrome-work".to_string()),
            ..Default::default()
        },
    )]);

    let decision = route(
        "https://mail.google.com/mail/u/0/",
        &RoutingContext::default(),
        &config,
    );
    assert_eq!(
        decision,
        RoutingDecision::OpenWith {
            target: "chrome-work".to_string(),
            private: false,
        }
    );

    let decision = route("https://other.com/", &RoutingContext::default(), &config);
    assert_eq!(decision, RoutingDecision::AskUser);
}

#[test]
fn source_app_match() {
    let config = config_with_rules(vec![rule(
        "r1",
        10,
        "*",
        Action {
            open_with: Some("chrome-work".to_string()),
            ..Default::default()
        },
    )]);
    let mut config = config;
    config.rules[0].match_.source_app = vec!["Slack".to_string()];

    let ctx_match = RoutingContext {
        source_app: Some("Slack".to_string()),
        modifier_keys: vec![],
    };
    assert_eq!(
        route("https://example.com", &ctx_match, &config),
        RoutingDecision::OpenWith {
            target: "chrome-work".to_string(),
            private: false,
        }
    );

    let ctx_other = RoutingContext {
        source_app: Some("Outlook".to_string()),
        modifier_keys: vec![],
    };
    assert_eq!(
        route("https://example.com", &ctx_other, &config),
        RoutingDecision::AskUser
    );
}

#[test]
fn ask_action_forces_picker_even_if_matched() {
    let config = config_with_rules(vec![rule(
        "ask-rule",
        10,
        "*",
        Action {
            ask: true,
            ..Default::default()
        },
    )]);
    assert_eq!(
        route("https://example.com", &RoutingContext::default(), &config),
        RoutingDecision::AskUser
    );
}

#[test]
fn block_action() {
    let config = config_with_rules(vec![rule(
        "block-rule",
        10,
        "*://*.ads.example.com/*",
        Action {
            block: true,
            ..Default::default()
        },
    )]);
    assert_eq!(
        route("https://x.ads.example.com/x", &RoutingContext::default(), &config),
        RoutingDecision::Block
    );
}

#[test]
fn open_with_all_action() {
    let config = config_with_rules(vec![rule(
        "multi",
        10,
        "*",
        Action {
            open_with_all: vec!["chrome".to_string(), "firefox".to_string()],
            private: false,
            ..Default::default()
        },
    )]);
    assert_eq!(
        route("https://example.com", &RoutingContext::default(), &config),
        RoutingDecision::OpenWithAll {
            targets: vec!["chrome".to_string(), "firefox".to_string()],
            private: false,
        }
    );
}

#[test]
fn no_match_falls_back_to_default_action() {
    let mut config = config_with_rules(vec![]);
    assert_eq!(
        route("https://example.com", &RoutingContext::default(), &config),
        RoutingDecision::AskUser
    );

    config.general.default_action = DefaultActionSerde(DefaultAction::OpenWith("chrome".to_string()));
    assert_eq!(
        route("https://example.com", &RoutingContext::default(), &config),
        RoutingDecision::OpenWith {
            target: "chrome".to_string(),
            private: false,
        }
    );
}

#[test]
fn invalid_filter_field_does_not_block_rule() {
    // a rule with no patterns matches everything (AND of empty constraints)
    let config = config_with_rules(vec![Rule {
        id: "catch-all".to_string(),
        name: "catch all".to_string(),
        enabled: true,
        priority: 0,
        match_: MatchCondition::default(),
        action: Action {
            ask: true,
            ..Default::default()
        },
    }]);
    assert_eq!(
        route("https://example.com", &RoutingContext::default(), &config),
        RoutingDecision::AskUser
    );
}

#[test]
fn disabled_rules_are_skipped() {
    let mut r = rule(
        "disabled",
        100,
        "*",
        Action {
            open_with: Some("chrome".to_string()),
            ..Default::default()
        },
    );
    r.enabled = false;
    let config = config_with_rules(vec![r]);
    assert_eq!(
        route("https://example.com", &RoutingContext::default(), &config),
        RoutingDecision::AskUser
    );
}

#[test]
fn equal_priorities_go_to_the_earlier_rule() {
    let config = config_with_rules(vec![
        rule("first", 5, "*", Action { open_with: Some("a".to_string()), ..Default::default() }),
        rule("second", 5, "*", Action { open_with: Some("b".to_string()), ..Default::default() }),
    ]);
    let e = explain("https://example.com", &RoutingContext::default(), &config);
    assert_eq!(e.matched_rule, Some("first".to_string()));
    assert_eq!(e.decision, RoutingDecision::OpenWith { target: "a".to_string(), private: false });
}

#[test]
fn host_condition_uses_the_parsed_host() {
    let mut config = config_with_rules(vec![rule(
        "hosts",
        1,
        "*",
        Action { open_with: Some("work".to_string()), private: true, ..Default::default() },
    )]);
    config.rules[0].match_.host = vec!["*.corp.example".to_string()];
    assert_eq!(
        route("https://wiki.corp.example:8443/page", &RoutingContext::default(), &config),
        RoutingDecision::OpenWith { target: "work".to_string(), private: true }
    );
    assert_eq!(
        route("https://corp.example.org/", &RoutingContext::default(), &config),
        RoutingDecision::AskUser
    );
    assert_eq!(route("not a url", &RoutingContext::default(), &config), RoutingDecision::AskUser);
}

#[test]
fn source_app_matching_ignores_ascii_case_and_needs_a_source() {
    let mut config = config_with_rules(vec![rule(
        "slack",
        1,
        "*",
        Action { block: true, ..Default::default() },
    )]);
    config.rules[0].match_.source_app = vec!["slack".to_string()];
    let ctx = RoutingContext { source_app: Some("SLACK".to_string()), modifier_keys: vec![] };
    assert_eq!(route("https://x.example", &ctx, &config), RoutingDecision::Block);
    assert_eq!(
        route("https://x.example", &RoutingContext::default(), &config),
        RoutingDecision::AskUser
    );
}

#[test]
fn invalid_regex_never_matches() {
    let config = config_with_rules(vec![rule(
        "bad",
        1,
        "regex:(",
        Action { block: true, ..Default::default() },
    )]);
    assert_eq!(
        route("https://example.com", &RoutingContext::default(), &config),
        RoutingDecision::AskUser
    );
}

#[test]
fn modifier_key_condition_needs_every_key_held() {
    let mut config = config_with_rules(vec![rule(
        "r",
        1,
        "*",
        Action { open_with: Some("x".to_string()), ..Default::default() },
    )]);
    config.rules[0].match_.modifier_keys = vec!["shift".to_string(), "ctrl".to_string()];
    let plain = RoutingContext { source_app: None, modifier_keys: vec![] };
    let shifted = RoutingContext { source_app: None, modifier_keys: vec!["shift".to_string()] };
    let both = RoutingContext {
        source_app: None,
        modifier_keys: vec!["ctrl".to_string(), "shift".to_string()],
    };
    assert_eq!(route("https://example.com", &plain, &config), RoutingDecision::AskUser);
    assert_eq!(route("https://example.com", &shifted, &config), RoutingDecision::AskUser);
    assert_eq!(
        route("https://example.com", &both, &config),
        RoutingDecision::OpenWith { target: "x".to_string(), private: false }
    );
}

#[test]
fn path_condition_matches_the_url_path() {
    let mut config = config_with_rules(vec![rule(
        "r",
        1,
        "*",
        Action { open_with: Some("x".to_string()), ..Default::default() },
    )]);
    config.rules[0].match_.path = vec!["/docs/*".to_string()];
    let ctx = RoutingContext::default();
    assert_eq!(
        route("https://example.com/docs/intro?x=1", &ctx, &config),
        RoutingDecision::OpenWith { target: "x".to_string(), private: false }
    );
    assert_eq!(route("https://example.com/blog/docs/", &ctx, &config), RoutingDecision::AskUser);
    assert_eq!(route("https://example.com", &ctx, &config), RoutingDecision::AskUser);
}

#[test]
fn query_param_condition_needs_every_listed_parameter() {
    let mut config = config_with_rules(vec![rule(
        "r",
        1,
        "*",
        Action { open_with: Some("x".to_string()), ..Default::default() },
    )]);
    config.rules[0].match_.query_param = vec![
        QueryParamMatch::Name("id".to_string()),
        QueryParamMatch::Condition { name: "env".to_string(), value: Some("prod".to_string()) },
    ];
    let ctx = RoutingContext::default();
    let hit = RoutingDecision::OpenWith { target: "x".to_string(), private: false };
    assert_eq!(route("https://example.com/?env=prod&id=7", &ctx, &config), hit);
    assert_eq!(route("https://example.com/?env=dev&id=7", &ctx, &config), RoutingDecision::AskUser);
    assert_eq!(route("https://example.com/?env=prod", &ctx, &config), RoutingDecision::AskUser);
}

#[test]
fn default_action_text_round_trips() {
    let open = DefaultActionSerde::try_from("open_with:chrome".to_string()).unwrap();
    assert_eq!(open.0, DefaultAction::OpenWith("chrome".to_string()));
    assert_eq!(open.into_string(), "open_with:chrome");
    let ask = DefaultActionSerde::try_from("ask".to_string()).unwrap();
    assert_eq!(ask.0, DefaultAction::Ask);
    assert_eq!(ask.into_string(), "ask");
    assert_eq!(
        DefaultActionSerde::try_from("always".to_string()).unwrap_err(),
        "invalid default_action 'always': expected 'ask' or 'open_with:<id>'"
    );
    let empty_id = DefaultActionSerde::try_from("open_with:".to_string()).unwrap();
    assert_eq!(empty_id.0, DefaultAction::OpenWith(String::new()));
}
