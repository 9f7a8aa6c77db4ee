//! Configuration files: the TOML text is read into a `toml::Table`, turned
//! into the library's configuration with the same defaults as the file
//! format, and validated by the library.

use br::config::{validate, ConfigError, CURRENT_CONFIG_VERSION};
use br::engine::{explain, route};
use br::model::{
    Action, BrowserTarget, Config, DefaultActionSerde, Filter, General, MatchCondition,
    QueryParamMatch, Rule, RoutingContext, RoutingDecision,
};

fn string(t: &toml::Table, key: &str) -> Option<String> {
    t.get(key).and_then(|v| v.as_str()).map(|s| s.to_string())
}

fn strings(t: &toml::Table, key: &str) -> Vec<String> {
    t.get(key)
        .and_then(|v| v.as_array())
        .map(|a| a.iter().filter_map(|v| v.as_str().map(|s| s.to_string())).collect())
        .unwrap_or_default()
}

fn flag(t: &toml::Table, key: &str, default: bool) -> bool {
    t.get(key).and_then(|v| v.as_bool()).unwrap_or(default)
}

fn tables<'a>(t: &'a toml::Table, key: &str) -> Vec<&'a toml::Table> {
    t.get(key)
        .and_then(|v| v.as_array())
        .map(|a| a.iter().filter_map(|v| v.as_table()).collect())
        .unwrap_or_default()
}

fn general_from(t: Option<&toml::Table>) -> Result<General, String> {
    let mut g = General::default();
    let Some(t) = t else {
        return Ok(g);
    };
    if let Some(a) = string(t, "default_action") {
        g.default_action = DefaultActionSerde::try_from(a)?;
    }
    if let Some(ms) = t.get("picker_timeout_ms").and_then(|v| v.as_integer()) {
        g.picker_timeout_ms = ms as u64;
    }
    if let Some(s) = string(t, "picker_position") {
        g.picker_position = s;
    }
    if let Some(s) = string(t, "theme") {
        g.theme = s;
    }
    if let Some(s) = string(t, "picker_background") {
        g.picker_background = s;
    }
    if let Some(s) = string(t, "picker_background_color") {
        g.picker_background_color = s;
    }
    g.picker_background_image = string(t, "picker_background_image");
    g.picker_acrylic = flag(t, "picker_acrylic", false);
    if let Some(s) = string(t, "language") {
        g.language = s;
    }
    g.start_on_login = flag(t, "start_on_login", false);
    if let Some(s) = string(t, "log_level") {
        g.log_level = s;
    }
    Ok(g)
}

fn config_from_toml(text: &str) -> Result<Config, String> {
    let doc: toml::Table = text.parse().map_err(|e: toml::de::Error| e.to_string())?;
    let config_version = doc
        .get("config_version")
        .and_then(|v| v.as_integer())
        .ok_or_else(|| "missing field `config_version`".to_string())? as u32;
    let general = general_from(doc.get("general").and_then(|v| v.as_table()))?;
    let mut browsers = Vec::new();
    for b in tables(&doc, "browsers") {
        browsers.push(BrowserTarget {
            id: string(b, "id").ok_or("missing field `id`")?,
            name: string(b, "name").ok_or("missing field `name`")?,
            kind: string(b, "kind").unwrap_or_else(|| "generic".to_string()),
            executable: string(b, "executable").unwrap_or_else(|| "auto".to_string()),
            args: strings(b, "args"),
            profile_dir: string(b, "profile_dir"),
            profile_name: string(b, "profile_name"),
            icon: string(b, "icon"),
            hidden: flag(b, "hidden", false),
        });
    }
    let mut filters = Vec::new();
    for f in tables(&doc, "filters") {
        filters.push(Filter {
            id: string(f, "id").ok_or("missing field `id`")?,
            enabled: flag(f, "enabled", true),
            strip_query_params: strings(f, "strip_query_params"),
            upgrade_http_to_https: flag(f, "upgrade_http_to_https", false),
            exceptions: strings(f, "exceptions"),
            rewrite_pattern: string(f, "rewrite_pattern"),
            rewrite_replacement: string(f, "rewrite_replacement"),
        });
    }
    let mut rules = Vec::new();
    for r in tables(&doc, "rules") {
        let m = r.get("match").and_then(|v| v.as_table()).ok_or("missing field `match`")?;
        let a = r.get("action").and_then(|v| v.as_table()).ok_or("missing field `action`")?;
        let query_param = m
            .get("query_param")
            .and_then(|v| v.as_array())
            .map(|items| {
                items
                    .iter()
                    .filter_map(|q| match q {
                        toml::Value::String(s) => Some(QueryParamMatch::Name(s.clone())),
                        toml::Value::Table(t) => Some(QueryParamMatch::Condition {
                            name: string(t, "name")?,
                            value: string(t, "value"),
                        }),
                        _ => None,
                    })
                    .collect()
            })
            .unwrap_or_default();
        rules.push(Rule {
            id: string(r, "id").ok_or("missing field `id`")?,
            name: string(r, "name").unwrap_or_default(),
            enabled: flag(r, "enabled", true),
            priority: r.get("priority").and_then(|v| v.as_integer()).unwrap_or(0),
            match_: MatchCondition {
                url_pattern: strings(m, "url_pattern"),
                host: strings(m, "host"),
                path: strings(m, "path"),
                query_param,
                source_app: strings(m, "source_app"),
                modifier_keys: strings(m, "modifier_keys"),
            },
            action: Action {
                open_with: string(a, "open_with"),
                open_with_all: strings(a, "open_with_all"),
                private: flag(a, "private", false),
                ask: flag(a, "ask", false),
                block: flag(a, "block", false),
            },
        });
    }
    Ok(Config { config_version, general, browsers, filters, rules })
}

/// Reads and validates a configuration, as loading a file does.
fn parse(text: &str) -> Result<Config, String> {
    let config = config_from_toml(text)?;
    validate(&config).map_err(|e| e.message())?;
    Ok(config)
}

#[test]
fn parses_full_example_config() {
    let toml_str = r##"
config_version = 1

[general]
default_action = "ask"
picker_timeout_ms = 0
picker_position = "cursor"
theme = "system"
picker_background = "bubbles"
picker_background_color = "#1453aa"
picker_window_opacity = 1.0
picker_acrylic = false
picker_icon_size = 72
picker_padding = 20
picker_width = 720
picker_height = 460
language = "pt-BR"
start_on_login = true
log_level = "warn"

[[browsers]]
id = "chrome-default"
name = "Google Chrome"
kind = "chromium"
executable = "auto"

[[filters]]
id = "strip-tracking"
enabled = true
strip_query_params = ["utm_*", "gclid"]

[[rules]]
id = "fallback"
name = "Default: ask"
enabled = true
priority = 0
match = { url_pattern = ["*"] }
action = { ask = true }
"##;
    let config = parse(toml_str).unwrap();
    assert_eq!(config.config_version, 1);
    assert_eq!(config.browsers.len(), 1);
    assert_eq!(config.rules.len(), 1);
}

#[test]
fn rejects_duplicate_rule_ids() {
    let toml_str = r#"
config_version = 1

[[rules]]
id = "dup"
priority = 1
match = { url_pattern = ["*"] }
action = { ask = true }

[[rules]]
id = "dup"
priority = 0
match = { url_pattern = ["*"] }
action = { ask = true }
"#;
    assert!(parse(toml_str).is_err());
}

#[test]
fn rejects_dangling_browser_reference() {
    let toml_str = r#"
config_version = 1

[[rules]]
id = "r1"
priority = 1
match = { url_pattern = ["*"] }
action = { open_with = "does-not-exist" }
"#;
    assert!(parse(toml_str).is_err());
}

#[test]
fn rejects_future_config_version() {
    let toml_str = "config_version = 999\n";
    assert!(parse(toml_str).is_err());
}

#[test]
fn filters_applied_before_rule_matching() {
    let config_str = r#"
config_version = 1

[[filters]]
id = "strip"
enabled = true
strip_query_params = ["utm_*"]

[[rules]]
id = "clean-only"
enabled = true
priority = 10
match = { url_pattern = ["https://example.com/page"] }
action = { open_with = "chrome" }
"#;
    let config = config_from_toml(config_str).unwrap();
    let explanation = explain(
        "https://example.com/page?utm_source=newsletter",
        &RoutingContext::default(),
        &config,
    );
    assert_eq!(explanation.normalized_url, "https://example.com/page");
    assert_eq!(explanation.matched_rule, Some("clean-only".to_string()));
}

#[test]
fn validation_errors_name_the_problem() {
    let future = parse("config_version = 999\n").unwrap_err();
    assert_eq!(future, "config_version 999 is newer than supported version 1");

    let dup = parse(
        "config_version = 1\n[[rules]]\nid = \"dup\"\nmatch = {}\naction = { ask = true }\n[[rules]]\nid = \"dup\"\nmatch = {}\naction = { ask = true }\n",
    )
    .unwrap_err();
    assert_eq!(dup, "duplicate rule id: dup");

    let dangling = parse(
        "config_version = 1\n[[rules]]\nid = \"r1\"\nmatch = {}\naction = { open_with_all = [\"nope\"] }\n",
    )
    .unwrap_err();
    assert_eq!(dangling, "rule 'r1' references unknown browser target 'nope'");

    let dup_browser = parse(
        "config_version = 1\n[[browsers]]\nid = \"b\"\nname = \"B\"\n[[browsers]]\nid = \"b\"\nname = \"B2\"\n",
    )
    .unwrap_err();
    assert_eq!(dup_browser, "duplicate browser id: b");
}

#[test]
fn validate_reports_each_error_variant() {
    let mut config = Config::default();
    config.config_version = CURRENT_CONFIG_VERSION + 1;
    assert_eq!(
        validate(&config),
        Err(ConfigError::NewerVersion { found: 2, supported: 1 })
    );
    config.config_version = 1;
    assert_eq!(validate(&config), Ok(()));
}

#[test]
fn default_config_sends_every_url_to_the_picker() {
    let config = Config::default();
    assert_eq!(config.config_version, 0);
    assert_eq!(config.rules.len(), 0);
    let decision = route("https://example.com", &RoutingContext::default(), &config);
    assert_eq!(decision, RoutingDecision::AskUser);
}
