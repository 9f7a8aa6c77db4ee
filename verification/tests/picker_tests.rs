use br::engine::{explain, route};
use br::model::{
    Action, BrowserTarget, Config, DefaultAction, Rule, RoutingContext, RoutingDecision,
};
use br::picker::{
    always_open_selected, bottom_label, extract_host, handle_key, header_title, icon_env_var,
    icon_source, initials, is_raster_extension, next_rule_priority, normalize_icon_source,
    parse_hex_color, save_status, short_label, target_color, target_subtitle, timeout_step,
    visible_targets, AlwaysOpen, KeyOutcome, PickerKey, TimeoutStep,
};

fn target(id: &str, name: &str) -> BrowserTarget {
    BrowserTarget {
        id: id.to_string(),
        name: name.to_string(),
        kind: "chromium".to_string(),
        executable: "/usr/bin/chrome".to_string(),
        args: vec![],
        profile_dir: None,
        profile_name: None,
        icon: None,
        hidden: false,
    }
}

#[test]
fn extracts_hosts_from_urls() {
    assert_eq!(extract_host("https://user@www.example.com:8080/a?b#c"), Some("www.example.com".to_string()));
    assert_eq!(extract_host("http://[::1]:8080/"), Some("[::1]".to_string()));
    assert_eq!(extract_host("http://:8080/"), None);
    assert_eq!(extract_host("example.org/path"), Some("example.org".to_string()));
    assert_eq!(extract_host("https://"), None);
    assert_eq!(extract_host(""), None);
    assert_eq!(extract_host("a://b://c"), Some("b".to_string()));
    assert_eq!(extract_host("mailto:x@y.example"), Some("y.example".to_string()));
}

#[test]
fn labels() {
    let mut t = target("c", "Chrome");
    assert_eq!(target_subtitle(&t), "Chromium browser");
    t.kind = "firefox".to_string();
    assert_eq!(target_subtitle(&t), "Firefox browser");
    t.kind = "edge".to_string();
    assert_eq!(target_subtitle(&t), "edge target");
    t.profile_name = Some("dev".to_string());
    assert_eq!(target_subtitle(&t), "Profile: dev");
    t.profile_dir = Some("Profile 3".to_string());
    assert_eq!(target_subtitle(&t), "Profile: Profile 3");

    assert_eq!(initials("Google Chrome"), "GC");
    assert_eq!(initials("firefox (work) extra"), "FW");
    assert_eq!(initials("  --  "), "B");
    assert_eq!(initials("édge"), "É");

    assert_eq!(header_title("  ", "Open:"), "Open:");
    assert_eq!(header_title("https://x", "Open:"), "Select a Browser");
    assert_eq!(bottom_label(""), "No Url Opened");
    assert_eq!(bottom_label("https://example.com/a/long/path"), "https://example.com/a...");
    assert_eq!(short_label("abc", 3), "abc");
    assert_eq!(short_label("abcd", 3), "ab...");
    assert_eq!(short_label("abcd", 0), "...");
}

#[test]
fn tile_colours_come_from_the_id_hash() {
    // "a" hashes to 97, and 97 % 6 == 1.
    assert_eq!(target_color("a"), (22, 163, 74));
    // The empty id hashes to 0.
    assert_eq!(target_color(""), (46, 144, 250));
    // "ab" hashes to 97 * 33 + 98 = 3299, and 3299 % 6 == 5.
    assert_eq!(target_color("ab"), (8, 145, 178));
}

#[test]
fn keys_move_within_the_grid() {
    assert_eq!(handle_key(PickerKey::Escape, 0, 3, 5, false), KeyOutcome::Close);
    assert_eq!(handle_key(PickerKey::ArrowRight, 4, 3, 5, false), KeyOutcome::Select(4));
    assert_eq!(handle_key(PickerKey::ArrowRight, 1, 3, 5, false), KeyOutcome::Select(2));
    assert_eq!(handle_key(PickerKey::ArrowLeft, 0, 3, 5, false), KeyOutcome::Select(0));
    assert_eq!(handle_key(PickerKey::ArrowDown, 3, 3, 5, false), KeyOutcome::Select(4));
    assert_eq!(handle_key(PickerKey::ArrowDown, 0, 3, 5, false), KeyOutcome::Select(3));
    assert_eq!(handle_key(PickerKey::ArrowUp, 1, 3, 5, false), KeyOutcome::Select(0));
    assert_eq!(handle_key(PickerKey::ArrowUp, 4, 3, 5, false), KeyOutcome::Select(1));
    assert_eq!(
        handle_key(PickerKey::Enter, 2, 3, 5, true),
        KeyOutcome::Choose { index: 2, private: true }
    );
    assert_eq!(handle_key(PickerKey::Enter, 0, 3, 0, false), KeyOutcome::Ignore);
    assert_eq!(
        handle_key(PickerKey::Number(2), 0, 3, 5, false),
        KeyOutcome::Choose { index: 1, private: false }
    );
    assert_eq!(handle_key(PickerKey::Number(9), 0, 3, 5, false), KeyOutcome::Ignore);
    assert_eq!(handle_key(PickerKey::ArrowRight, 0, 3, 0, false), KeyOutcome::Select(0));
}

#[test]
fn keys_stay_in_the_grid_for_any_sizes() {
    let big = usize::MAX;
    assert_eq!(handle_key(PickerKey::ArrowDown, big - 1, big, big, false), KeyOutcome::Select(big - 1));
    assert_eq!(handle_key(PickerKey::ArrowRight, big - 1, 1, big, false), KeyOutcome::Select(big - 1));
    assert_eq!(handle_key(PickerKey::ArrowDown, 2, big, 10, false), KeyOutcome::Select(9));
    assert_eq!(handle_key(PickerKey::Number(0), 0, 3, 5, false), KeyOutcome::Ignore);
    assert_eq!(handle_key(PickerKey::Number(12), 0, 3, 50, false), KeyOutcome::Ignore);
}

#[test]
fn timeout_opens_the_default_target() {
    let targets = vec![target("a", "A"), target("b", "B")];
    let open_b = DefaultAction::OpenWith("b".to_string());
    assert_eq!(timeout_step(0, 99_999, &open_b, &targets), TimeoutStep::Disabled);
    assert_eq!(timeout_step(500, 499, &open_b, &targets), TimeoutStep::Wait);
    assert_eq!(timeout_step(500, 500, &open_b, &targets), TimeoutStep::Choose(1));
    assert_eq!(timeout_step(500, 900, &DefaultAction::Ask, &targets), TimeoutStep::Close);
    let open_z = DefaultAction::OpenWith("z".to_string());
    assert_eq!(timeout_step(500, 900, &open_z, &targets), TimeoutStep::Close);
}

#[test]
fn always_open_adds_a_winning_rule() {
    let mut config = Config::default();
    config.browsers = vec![target("chrome", "Chrome"), target("ff", "Firefox")];
    config.rules = vec![Rule {
        id: "r".to_string(),
        name: "r".to_string(),
        enabled: true,
        priority: 40,
        match_: Default::default(),
        action: Action { open_with: Some("chrome".to_string()), ..Default::default() },
    }];
    let targets = config.browsers.clone();
    assert_eq!(next_rule_priority(&config.rules), 50);

    let before = config.clone();
    assert_eq!(
        always_open_selected(&mut config, &targets, 7, "https://example.com", true),
        AlwaysOpen::NoSelection
    );
    assert_eq!(
        always_open_selected(&mut config, &targets, 1, "https://", true),
        AlwaysOpen::NoDomain
    );
    assert_eq!(
        always_open_selected(&mut config, &targets, 1, "https://example.com", false),
        AlwaysOpen::NoConfigPath
    );
    assert_eq!(config, before);

    let added = always_open_selected(&mut config, &targets, 1, "https://example.com/x", true);
    assert_eq!(added, AlwaysOpen::Added { host: "example.com".to_string() });
    assert_eq!(added.status_message(), Some("Always opening example.com here.".to_string()));
    assert_eq!(AlwaysOpen::NoDomain.status_message(), Some("Could not determine domain.".to_string()));
    assert_eq!(AlwaysOpen::NoSelection.status_message(), None);
    let rule = config.rules.last().unwrap();
    assert_eq!(rule.id, "always-example.com");
    assert_eq!(rule.name, "Always open example.com in Firefox");
    assert_eq!(rule.priority, 50);
    assert_eq!(rule.match_.host, vec!["example.com".to_string()]);

    assert_eq!(
        route("https://example.com/other", &RoutingContext::default(), &config),
        RoutingDecision::OpenWith { target: "ff".to_string(), private: false }
    );
    assert_eq!(
        route("https://elsewhere.example/", &RoutingContext::default(), &config),
        RoutingDecision::OpenWith { target: "chrome".to_string(), private: false }
    );
}

#[test]
fn always_open_works_for_urls_with_a_port() {
    let mut config = Config::default();
    config.browsers = vec![target("ff", "Firefox")];
    let targets = config.browsers.clone();
    let added = always_open_selected(&mut config, &targets, 0, "http://localhost:8080/x", true);
    assert_eq!(added, AlwaysOpen::Added { host: "localhost".to_string() });
    assert_eq!(
        route("http://localhost:8080/x", &RoutingContext::default(), &config),
        RoutingDecision::OpenWith { target: "ff".to_string(), private: false }
    );
    assert_eq!(
        explain("http://localhost:8080/x", &RoutingContext::default(), &config).matched_rule,
        Some("always-localhost".to_string())
    );
    assert_eq!(
        always_open_selected(&mut config, &targets, 0, "mailto:x@y.example", true),
        AlwaysOpen::NoDomain
    );
}

#[test]
fn hidden_targets_are_not_offered() {
    let mut hidden = target("h", "Hidden");
    hidden.hidden = true;
    let shown = visible_targets(vec![target("a", "A"), hidden, target("b", "B")]);
    let ids: Vec<&str> = shown.iter().map(|t| t.id.as_str()).collect();
    assert_eq!(ids, vec!["a", "b"]);
}

#[test]
fn icon_sources() {
    let mut t = target("a", "A");
    assert_eq!(icon_source(&t), Some("/usr/bin/chrome".to_string()));
    t.icon = Some("AUTO".to_string());
    assert_eq!(icon_source(&t), Some("/usr/bin/chrome".to_string()));
    t.icon = Some("/icons/a.png".to_string());
    assert_eq!(icon_source(&t), Some("/icons/a.png".to_string()));
    t.icon = None;
    t.executable = "auto".to_string();
    assert_eq!(icon_source(&t), None);

    assert_eq!(icon_env_var("\"%LOCALAPPDATA%\\x\\app.exe\",0"), Some("LOCALAPPDATA".to_string()));
    assert_eq!(icon_env_var("C:\\app.exe"), None);
    assert_eq!(
        normalize_icon_source("\"%LOCALAPPDATA%\\x\\app.exe\",0", Some("C:\\Users\\u\\AppData\\Local".to_string())),
        "C:\\Users\\u\\AppData\\Local\\x\\app.exe"
    );
    assert_eq!(normalize_icon_source("%UNSET%\\a.ico", None), "%UNSET%\\a.ico");
    assert_eq!(normalize_icon_source(" C:\\a.exe,-101 ", None), "C:\\a.exe");
    assert_eq!(normalize_icon_source(",5", None), ",5");
    assert!(is_raster_extension("PNG"));
    assert!(is_raster_extension("jpeg"));
    assert!(!is_raster_extension("exe"));
}

#[test]
fn reads_colour_settings() {
    assert_eq!(parse_hex_color("#1453aa"), Some((0x14, 0x53, 0xaa)));
    assert_eq!(parse_hex_color("  ##FFfF00 "), Some((255, 255, 0)));
    assert_eq!(parse_hex_color("+f+f+f"), Some((15, 15, 15)));
    assert_eq!(parse_hex_color("#12345"), None);
    assert_eq!(parse_hex_color("#12345g"), None);
    assert_eq!(parse_hex_color("-1ffff"), None);
    assert_eq!(parse_hex_color("éabcd"), None);
}

#[test]
fn picker_save_status() {
    assert_eq!(save_status(false, None), "No config path available.");
    assert_eq!(save_status(true, None), "Picker settings saved.");
    assert_eq!(save_status(true, Some("disk full")), "Failed to save settings: disk full");
}
