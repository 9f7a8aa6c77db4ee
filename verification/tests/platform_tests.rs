use br::desktop_entry;
use br::linux::{
    active_window_pid, classify_desktop_entry, find_focused_pid, is_default_from_xdg, parse_pid,
    registration_outcome, targets_from_desktop_files, SwayNode,
};
use br::macos::{from_plist, targets_from_bundles, BundleInfo, PlistValue};
use br::model::{BrowserTarget, Config};
use br::platform::{
    classify, cli_launch_command, current, find_target, launch_command, launch_with, resolve_auto,
    slug, CurrentPlatform, LaunchError, PlatformIntegration, RegisterOutcome,
};
use br::windows::{
    chromium_profiles, chromium_user_data_dir, client_targets, collect_clients,
    collect_readable_clients, command_is_readable, executable_of, extract_executable,
    firefox_vendor_dir, is_default_from_choices, open_command,
    parse_profiles_ini, process_base_name, InstalledClient, ProfileInfo,
};

fn sway(value: &serde_json::Value) -> SwayNode {
    let mut children = Vec::new();
    for key in ["nodes", "floating_nodes"] {
        if let Some(items) = value.get(key).and_then(|v| v.as_array()) {
            children.extend(items.iter().map(sway));
        }
    }
    SwayNode {
        focused: value.get("focused").and_then(|v| v.as_bool()) == Some(true),
        pid: value.get("pid").and_then(|v| v.as_u64()),
        children,
    }
}

fn target(id: &str, name: &str, kind: &str, executable: &str) -> BrowserTarget {
    BrowserTarget {
        id: id.to_string(),
        name: name.to_string(),
        kind: kind.to_string(),
        executable: executable.to_string(),
        args: vec![],
        profile_dir: None,
        profile_name: None,
        icon: None,
        hidden: false,
    }
}

#[test]
fn util_classify_browsers() {
    assert_eq!(classify("Google Chrome"), "chromium");
    assert_eq!(classify("Microsoft Edge"), "chromium");
    assert_eq!(classify("Mozilla Firefox"), "firefox");
    assert_eq!(classify("Internet Explorer"), "generic");
}

#[test]
fn util_slug_normalizes_names() {
    assert_eq!(slug("Google Chrome"), "google-chrome");
    assert_eq!(slug("Firefox (Work)"), "firefox--work");
}

#[test]
fn browsers_classify_browsers() {
    assert_eq!(classify("Google Chrome"), "chromium");
    assert_eq!(classify("Microsoft Edge"), "chromium");
    assert_eq!(classify("Mozilla Firefox"), "firefox");
    assert_eq!(classify("Internet Explorer"), "generic");
}

#[test]
fn browsers_slug_normalizes_names() {
    assert_eq!(slug("Google Chrome"), "google-chrome");
    assert_eq!(slug("Firefox (Work)"), "firefox--work");
}

#[test]
fn classifies_known_browsers() {
    let firefox = desktop_entry::parse(
        "[Desktop Entry]\nName=Firefox\nExec=firefox %u\nMimeType=x-scheme-handler/http;",
    )
    .unwrap();
    assert_eq!(classify_desktop_entry(&firefox), "firefox");

    let chrome = desktop_entry::parse(
        "[Desktop Entry]\nName=Google Chrome\nExec=google-chrome %U\nMimeType=x-scheme-handler/https;",
    )
    .unwrap();
    assert_eq!(classify_desktop_entry(&chrome), "chromium");
}

#[test]
fn finds_focused_pid_in_sway_tree() {
    let tree: serde_json::Value = serde_json::from_str(
        r#"{"nodes": [{"focused": false, "pid": 100}, {"nodes": [{"focused": true, "pid": 4242}]}]}"#,
    )
    .unwrap();
    assert_eq!(find_focused_pid(&sway(&tree)), Some(4242));
}

#[test]
fn returns_none_when_nothing_focused() {
    let tree: serde_json::Value =
        serde_json::from_str(r#"{"nodes": [{"focused": false, "pid": 1}]}"#).unwrap();
    assert_eq!(find_focused_pid(&sway(&tree)), None);
}

#[test]
fn focused_floating_node_is_found_after_tiling_ones() {
    let tree: serde_json::Value = serde_json::from_str(
        r#"{"nodes": [{"focused": true}], "floating_nodes": [{"focused": true, "pid": 7}]}"#,
    )
    .unwrap();
    assert_eq!(find_focused_pid(&sway(&tree)), Some(7));
}

#[test]
fn reads_pids_like_u32_from_str() {
    assert_eq!(parse_pid("4242\n"), Some(4242));
    assert_eq!(parse_pid("  +17 "), Some(17));
    assert_eq!(parse_pid("4294967295"), Some(u32::MAX));
    assert_eq!(parse_pid("4294967296"), None);
    assert_eq!(parse_pid("-1"), None);
    assert_eq!(parse_pid("+"), None);
    assert_eq!(parse_pid(""), None);
    assert_eq!(parse_pid("12a"), None);
    assert_eq!(active_window_pid(Some(1), Some(2)), Some(1));
    assert_eq!(active_window_pid(None, Some(2)), Some(2));
}

#[test]
fn linux_default_handler_and_registration() {
    assert!(is_default_from_xdg(true, "browserrouter.desktop\n"));
    assert!(!is_default_from_xdg(false, "browserrouter.desktop\n"));
    assert!(!is_default_from_xdg(true, "firefox.desktop\n"));
    assert_eq!(registration_outcome(true, "/x"), RegisterOutcome::Registered);
    match registration_outcome(false, "/home/u/.local/share/applications/browserrouter.desktop") {
        RegisterOutcome::NeedsManualConfirmation { instructions } => assert!(instructions.starts_with(
            "br has been installed as /home/u/.local/share/applications/browserrouter.desktop but"
        )),
        other => panic!("unexpected {other:?}"),
    }
}

#[test]
fn discovers_browsers_from_desktop_files() {
    let files = vec![
        "[Desktop Entry]\nName=Firefox\nExec=firefox %u\nMimeType=x-scheme-handler/http;".to_string(),
        "[Desktop Entry]\nName=GIMP\nExec=gimp\nMimeType=image/png;".to_string(),
        "[Desktop Entry]\nName=Hidden\nExec=h\nNoDisplay=true\nMimeType=x-scheme-handler/http;".to_string(),
        "[Desktop Entry]\nName=firefox\nExec=other-firefox\nMimeType=x-scheme-handler/https;".to_string(),
        "[Desktop Entry]\nName=Brave Browser\nExec=/usr/bin/brave --x\nMimeType=x-scheme-handler/https;".to_string(),
    ];
    let found = targets_from_desktop_files(&files);
    assert_eq!(found.len(), 2);
    assert_eq!(found[0].id, "firefox");
    assert_eq!(found[0].executable, "firefox");
    assert_eq!(found[0].kind, "firefox");
    assert_eq!(found[1].id, "brave-browser");
    assert_eq!(found[1].kind, "chromium");
    assert_eq!(found[1].executable, "/usr/bin/brave");
}

#[test]
fn detects_browser_by_url_scheme() {
    let bundle = BundleInfo {
        name: "Safari".to_string(),
        bundle_id: "com.apple.Safari".to_string(),
        url_schemes: vec!["https".to_string(), "http".to_string()],
    };
    assert!(bundle.is_browser());
}

#[test]
fn non_browser_bundle_is_not_a_browser() {
    let bundle = BundleInfo {
        name: "Preview".to_string(),
        bundle_id: "com.apple.Preview".to_string(),
        url_schemes: vec!["pdf".to_string()],
    };
    assert!(!bundle.is_browser());
}

#[test]
fn url_scheme_match_is_case_insensitive() {
    let bundle = BundleInfo {
        name: "Example".to_string(),
        bundle_id: "com.example.app".to_string(),
        url_schemes: vec!["HTTP".to_string()],
    };
    assert!(bundle.is_browser());
}

fn s(x: &str) -> PlistValue {
    PlistValue::String(x.to_string())
}

#[test]
fn reads_bundle_info_from_plist() {
    let types = PlistValue::Array(vec![
        PlistValue::Dictionary(vec![(
            "CFBundleURLSchemes".to_string(),
            PlistValue::Array(vec![s("http"), PlistValue::Other, s("https")]),
        )]),
        PlistValue::Other,
    ]);
    let root = PlistValue::Dictionary(vec![
        ("CFBundleIdentifier".to_string(), s("org.example.web")),
        ("CFBundleName".to_string(), s("Web")),
        ("CFBundleURLTypes".to_string(), types),
    ]);
    let info = from_plist(&root, "Fallback").unwrap();
    assert_eq!(info.bundle_id, "org.example.web");
    assert_eq!(info.name, "Web");
    assert_eq!(info.url_schemes, vec!["http".to_string(), "https".to_string()]);
    assert!(info.is_browser());

    let no_id = PlistValue::Dictionary(vec![("CFBundleName".to_string(), s("X"))]);
    assert!(from_plist(&no_id, "X").is_none());
    assert!(from_plist(&s("not a dict"), "X").is_none());

    let odd_name = PlistValue::Dictionary(vec![
        ("CFBundleIdentifier".to_string(), s("id")),
        ("CFBundleDisplayName".to_string(), PlistValue::Other),
        ("CFBundleName".to_string(), s("Ignored")),
    ]);
    assert_eq!(from_plist(&odd_name, "Stem").unwrap().name, "Stem");

    let bundles = vec![
        ("/Applications/Safari.app".to_string(), info.clone()),
        ("/Applications/Web 2.app".to_string(), info),
    ];
    let targets = targets_from_bundles(bundles);
    assert_eq!(targets.len(), 1);
    assert_eq!(targets[0].id, "web");
    assert_eq!(targets[0].executable, "/Applications/Safari.app");
    assert_eq!(targets[0].kind, "generic");
}

#[test]
fn parses_profiles_ini_names() {
    let ini = "\
[Profile1]
Name=default-release
IsRelative=1
Path=xxxxxxxx.default-release

[Profile0]
Name=Work
IsRelative=1
Path=yyyyyyyy.work

[General]
StartWithLastProfile=1
";
    let names = parse_profiles_ini(ini);
    assert_eq!(names, vec!["default-release".to_string(), "Work".to_string()]);
}

#[test]
fn extracts_executable_from_quoted_command() {
    assert_eq!(
        extract_executable(r#""C:\Program Files\Google\Chrome\Application\chrome.exe""#),
        Some(r"C:\Program Files\Google\Chrome\Application\chrome.exe".to_string())
    );
}

#[test]
fn extracts_executable_with_trailing_args() {
    assert_eq!(
        extract_executable(r#""C:\Browser\app.exe" -- "%1""#),
        Some(r"C:\Browser\app.exe".to_string())
    );
}

#[test]
fn extracts_unquoted_executables() {
    assert_eq!(
        extract_executable(r#"C:\Program Files\Internet Explorer\IEXPLORE.EXE %1"#),
        Some(r"C:\Program Files\Internet Explorer\IEXPLORE.EXE".to_string())
    );
    assert_eq!(extract_executable("  browser --flag "), Some("browser".to_string()));
    assert_eq!(extract_executable("   "), None);
    assert_eq!(extract_executable("\"unterminated"), Some("unterminated".to_string()));
}

#[test]
fn windows_profiles_become_targets() {
    let chrome = InstalledClient {
        name: "Google Chrome".to_string(),
        executable: r"C:\chrome.exe".to_string(),
    };
    let info = |name: Option<&str>, gaia: Option<&str>| ProfileInfo {
        name: name.map(|s| s.to_string()),
        user_name: Some("user@example.com".to_string()),
        gaia_name: gaia.map(|s| s.to_string()),
    };
    let targets = chromium_profiles(
        &chrome,
        vec![
            ("Profile 1".to_string(), info(None, Some("Ana"))),
            ("Default".to_string(), info(Some("Personal"), None)),
        ],
    );
    assert_eq!(targets.len(), 2);
    assert_eq!(targets[0].id, "google-chrome-default");
    assert_eq!(targets[0].name, "Google Chrome (Personal)");
    assert_eq!(targets[0].profile_dir, Some("Default".to_string()));
    assert_eq!(targets[1].id, "google-chrome-profile-1");
    assert_eq!(targets[1].name, "Google Chrome (Ana)");

    let fallback = chromium_profiles(&chrome, vec![]);
    assert_eq!(fallback.len(), 1);
    assert_eq!(fallback[0].id, "google-chrome");
    assert_eq!(fallback[0].kind, "chromium");

    let firefox = InstalledClient {
        name: "Mozilla Firefox".to_string(),
        executable: r"C:\firefox.exe".to_string(),
    };
    let ff = client_targets(&firefox, vec![], &vec!["Work".to_string()]);
    assert_eq!(ff.len(), 1);
    assert_eq!(ff[0].id, "mozilla-firefox-work");
    assert_eq!(ff[0].profile_name, Some("Work".to_string()));
    let other = InstalledClient { name: "Lynx".to_string(), executable: "lynx.exe".to_string() };
    let g = client_targets(&other, vec![], &vec![]);
    assert_eq!(g[0].kind, "generic");
    assert_eq!(g[0].id, "lynx");
}

#[test]
fn windows_clients_keep_the_first_entry_of_each_executable() {
    let clients = collect_clients(vec![
        ("Chrome".to_string(), r#""C:\c.exe" -- "%1""#.to_string()),
        ("Chrome again".to_string(), r#"C:\c.exe %1"#.to_string()),
        ("Nothing".to_string(), "   ".to_string()),
        ("Edge".to_string(), r#""C:\e.exe""#.to_string()),
    ]);
    assert_eq!(clients.len(), 2);
    assert_eq!(clients[0].name, "Chrome");
    assert_eq!(clients[0].executable, r"C:\c.exe");
    assert_eq!(clients[1].name, "Edge");
}

#[test]
fn windows_registry_values() {
    assert!(is_default_from_choices(Some("BrowserRouter.HTTP"), Some("BrowserRouter.HTTP")));
    assert!(!is_default_from_choices(Some("BrowserRouter.HTTP"), None));
    assert!(!is_default_from_choices(Some("ChromeHTML"), Some("BrowserRouter.HTTP")));
    assert_eq!(open_command(r"C:\br.exe"), r#""C:\br.exe" open "%1""#);
    assert_eq!(process_base_name("chrome.exe"), "chrome");
    assert_eq!(process_base_name("a.exe.exe"), "a");
    assert_eq!(process_base_name("notepad"), "notepad");
    assert_eq!(chromium_user_data_dir(r"C:\Edge\msedge.exe"), Some(r"Microsoft\Edge\User Data"));
    assert_eq!(chromium_user_data_dir(r"C:\Opera\opera.exe"), None);
    assert_eq!(chromium_user_data_dir(r"C:\x\chrome.exe"), Some(r"Google\Chrome\User Data"));
    assert_eq!(firefox_vendor_dir("LibreWolf"), "LibreWolf");
    assert_eq!(firefox_vendor_dir("Zen Browser"), "zen");
    assert_eq!(firefox_vendor_dir("Firefox"), r"Mozilla\Firefox");
}

#[test]
fn launch_commands_follow_the_target() {
    let mut chrome = target("work", "Chrome Work", "chromium", "/usr/bin/chrome");
    chrome.args = vec!["--new-window".to_string()];
    chrome.profile_dir = Some("Profile 2".to_string());
    let cmd = launch_command(&chrome, &vec![], "https://x.example", true).unwrap();
    assert_eq!(cmd.program, "/usr/bin/chrome");
    assert_eq!(
        cmd.args,
        vec!["--new-window", "--profile-directory=Profile 2", "--incognito", "https://x.example"]
    );

    let mut ff = target("ff", "Firefox", "firefox", "auto");
    ff.profile_name = Some("dev".to_string());
    let discovered = vec![target("firefox", "Mozilla Firefox", "firefox", "/usr/bin/firefox")];
    let cmd = launch_command(&ff, &discovered, "u", true).unwrap();
    assert_eq!(cmd.program, "/usr/bin/firefox");
    assert_eq!(cmd.args, vec!["-P", "dev", "--private-window", "u"]);
    assert_eq!(resolve_auto(&ff, &discovered), Some(0));
    assert_eq!(
        launch_command(&ff, &vec![], "u", false),
        Err(LaunchError::NotDetected("ff".to_string()))
    );
}

#[test]
fn launching_by_id() {
    let config = Config {
        browsers: vec![target("a", "A", "generic", "/bin/a"), target("b", "B", "generic", "auto")],
        ..Config::default()
    };
    assert!(find_target(&config, "b").is_some());
    assert!(find_target(&config, "z").is_none());
    let platform = match current("linux") {
        CurrentPlatform::Unsupported(p) => p,
        CurrentPlatform::Windows(_) => panic!("linux has no Windows integration"),
    };
    assert_eq!(
        launch_with(&platform, &config, "z", "u", false),
        Err(LaunchError::UnknownTarget("z".to_string()))
    );
    assert_eq!(launch_with(&platform, &config, "a", "u", false).unwrap().program, "/bin/a");
    assert_eq!(
        launch_with(&platform, &config, "b", "u", false),
        Err(LaunchError::NotDetected("b".to_string()))
    );
    assert_eq!(
        cli_launch_command(&config, "b", "u", false),
        Err(LaunchError::AutoUnsupported("b".to_string()))
    );
    assert_eq!(
        LaunchError::AutoUnsupported("b".to_string()).message(),
        "browser 'b' has executable = \"auto\"; automatic detection is not yet implemented"
    );
    assert_eq!(
        LaunchError::UnknownTarget("z".to_string()).message(),
        "unknown browser target 'z'"
    );
    assert!(platform.discover_browsers().unwrap().is_empty());
    assert_eq!(platform.is_default_handler(), Ok(false));
    assert!(platform.register_as_default_handler().is_err());
    assert_eq!(platform.get_foreground_app_name(), None);
}

#[test]
fn slugs_are_ascii_words_joined_by_dashes() {
    for name in ["  Ünïcode Browser!! ", "---", "Brave (Beta) 2", "ÄÖÜ"] {
        let s = slug(name);
        assert!(s.chars().all(|c| c.is_ascii_alphanumeric() || c == '-'));
        assert!(!s.starts_with('-') && !s.ends_with('-'));
    }
    assert_eq!(slug("Brave (Beta) 2"), "brave--beta--2");
    assert_eq!(slug("---"), "");
}

#[test]
fn slug_is_lower_case_and_its_own_slug() {
    for name in ["Google Chrome", "Firefox (Work)", "ÉDGE Beta", "--Brave--", "KELVIN \u{212A}"] {
        let s = slug(name);
        assert!(s.chars().all(|c| c.is_ascii_lowercase() || c.is_ascii_digit() || c == '-'));
        assert!(!s.starts_with('-') && !s.ends_with('-'));
        assert!(s.chars().count() <= name.to_lowercase().chars().count());
        assert_eq!(slug(&s), s);
    }
    assert_eq!(slug("ÉDGE Beta"), "dge-beta");
}

#[test]
fn current_platform_follows_the_target_os() {
    assert!(matches!(current("windows"), CurrentPlatform::Windows(_)));
    for os in ["linux", "macos", "freebsd", "Windows", ""] {
        assert!(matches!(current(os), CurrentPlatform::Unsupported(_)));
    }
}

#[test]
fn commands_are_read_only_where_the_exe_ends_between_characters() {
    assert_eq!(executable_of(r#""C:\a.exe" x"#), Some(Some(r"C:\a.exe".to_string())));
    assert_eq!(executable_of(r"C:\A.EXE %1"), Some(Some(r"C:\A.EXE".to_string())));
    assert_eq!(executable_of("   "), Some(None));
    assert!(command_is_readable("\u{130}.exe x"));
    assert!(!command_is_readable("\u{130}.exe\u{e9}"));
    assert_eq!(executable_of("\u{130}.exe\u{e9}"), None);
    assert!(collect_readable_clients(vec![("Odd".to_string(), "\u{130}.exe\u{e9}".to_string())]).is_none());
    let clients = collect_readable_clients(vec![
        ("Chrome".to_string(), r#""C:\c.exe" -- "%1""#.to_string()),
        ("Chrome again".to_string(), r"C:\c.exe %1".to_string()),
    ])
    .unwrap();
    assert_eq!(clients.len(), 1);
    assert_eq!(clients[0].name, "Chrome");
}
