use br::filters::{
    apply_filters, glob_match, kept_query_pairs, rewrite, strip_query_params, upgrade_applies,
    upgrade_https,
};
use br::urls::ParsedUrl;
use br::model::Filter;

fn filter(strip: &[&str], upgrade: bool, exceptions: &[&str]) -> Filter {
    Filter {
        id: "f".to_string(),
        enabled: true,
        strip_query_params: strip.iter().map(|s| s.to_string()).collect(),
        upgrade_http_to_https: upgrade,
        exceptions: exceptions.iter().map(|s| s.to_string()).collect(),
        rewrite_pattern: None,
        rewrite_replacement: None,
    }
}

#[test]
fn strips_tracking_params_preserving_others() {
    let f = filter(&["utm_*", "gclid", "fbclid"], false, &[]);
    let out = apply_filters(
        "https://example.com/page?utm_source=x&id=42&gclid=abc&fbclid=def",
        &vec![f],
    );
    assert_eq!(out, "https://example.com/page?id=42");
}

#[test]
fn upgrades_http_to_https() {
    let f = filter(&[], true, &["*.local", "localhost"]);
    let out = apply_filters("http://example.com/", &vec![f]);
    assert_eq!(out, "https://example.com/");
}

#[test]
fn upgrade_respects_exceptions() {
    let f = filter(&[], true, &["*.local", "localhost"]);
    assert_eq!(apply_filters("http://localhost/", &vec![f.clone()]), "http://localhost/");
    assert_eq!(apply_filters("http://app.local/", &vec![f]), "http://app.local/");
}

#[test]
fn regex_rewrite_with_named_groups() {
    let mut f = filter(&[], false, &[]);
    f.rewrite_pattern = Some(r"https://old\.example\.com/(?P<path>.*)".to_string());
    f.rewrite_replacement = Some("https://new.example.com/${path}".to_string());
    let out = apply_filters("https://old.example.com/foo/bar", &vec![f]);
    assert_eq!(out, "https://new.example.com/foo/bar");
}

#[test]
fn unparseable_url_passed_through() {
    let f = filter(&["utm_*"], true, &[]);
    assert_eq!(apply_filters("not a url", &vec![f]), "not a url");
}

#[test]
fn rewrite_leaves_unparseable_url_alone() {
    let mut f = filter(&[], false, &[]);
    f.rewrite_pattern = Some("not".to_string());
    f.rewrite_replacement = Some("yes".to_string());
    assert_eq!(apply_filters("not a url", &vec![f]), "not a url");
}

#[test]
fn filter_lists_apply_one_after_another() {
    let strip = filter(&["utm_*"], false, &[]);
    let upgrade = filter(&[], true, &[]);
    let mut off = filter(&["id"], true, &[]);
    off.enabled = false;
    let url = "http://example.com/p?utm_source=x&id=1";
    let joined = apply_filters(url, &vec![strip.clone(), off.clone(), upgrade.clone()]);
    let stepwise = apply_filters(&apply_filters(url, &vec![strip.clone(), off]), &vec![upgrade.clone()]);
    assert_eq!(joined, "https://example.com/p?id=1");
    assert_eq!(joined, stepwise);
    assert_eq!(joined, apply_filters(url, &vec![strip, upgrade]));
    assert_eq!(apply_filters(url, &vec![]), url);
}

#[test]
fn glob_matching() {
    assert!(glob_match("utm_*", "utm_source"));
    assert!(!glob_match("utm_*", "id"));
    assert!(glob_match("*.example.com", "www.example.com"));
    assert!(glob_match("*", "anything"));
    assert!(glob_match("exact", "exact"));
    assert!(!glob_match("exact", "exactly"));
}

#[test]
fn star_matches_everything_and_literals_only_themselves() {
    for text in ["", "a", "*", "https://x.example/?q=1"] {
        assert!(glob_match("*", text));
    }
    assert!(glob_match("", ""));
    assert!(!glob_match("", "a"));
    assert!(glob_match("a*b*c", "aXXbYc"));
    assert!(!glob_match("a*b*c", "aXXbY"));
    assert!(glob_match("plain", "plain"));
    assert!(!glob_match("plain", "plai"));
}

#[test]
fn disabled_filters_change_nothing() {
    let mut f = filter(&["utm_*"], true, &[]);
    f.enabled = false;
    let url = "http://example.com/?utm_source=x";
    assert_eq!(apply_filters(url, &vec![f]), url);
}

#[test]
fn filters_apply_in_order() {
    let strip = filter(&["id"], false, &[]);
    let upgrade = filter(&[], true, &[]);
    assert_eq!(
        apply_filters("http://example.com/?id=1&keep=2", &vec![strip, upgrade]),
        "https://example.com/?keep=2"
    );
}

#[test]
fn strip_removes_the_query_when_nothing_is_left() {
    let out = strip_query_params(
        "https://example.com/a?utm_source=x#frag",
        &vec!["utm_*".to_string()],
    );
    assert_eq!(out, "https://example.com/a#frag");
}

#[test]
fn upgrade_leaves_other_schemes_alone() {
    assert_eq!(upgrade_https("ftp://example.com/", &vec![]), "ftp://example.com/");
    assert_eq!(upgrade_https("https://example.com/", &vec![]), "https://example.com/");
    assert_eq!(upgrade_https("http://example.com/x", &vec![]), "https://example.com/x");
}

#[test]
fn rewrite_with_invalid_pattern_changes_nothing() {
    assert_eq!(rewrite("https://a.example/", "(", "x"), "https://a.example/");
    assert_eq!(rewrite("https://a.example/", "a\\.example", "b.example"), "https://b.example/");
}

#[test]
fn kept_parameters_are_form_encoded() {
    let out = strip_query_params("https://e.com/p?a=b%20c&utm_x=1&s=%C3%89t%C3%A9%2B&k=*-._~", &vec!["utm_*".to_string()]);
    assert_eq!(out, "https://e.com/p?a=b+c&s=%C3%89t%C3%A9%2B&k=*-._%7E");
}

#[test]
fn decisions_on_a_parsed_url() {
    let pair = |k: &str, v: &str| (k.to_string(), v.to_string());
    let query = vec![pair("utm_a", "1"), pair("id", "2"), pair("gclid", "3"), pair("x", "")];
    let patterns = vec!["utm_*".to_string(), "gclid".to_string()];
    assert_eq!(kept_query_pairs(&query, &patterns), vec![pair("id", "2"), pair("x", "")]);
    assert_eq!(kept_query_pairs(&vec![], &patterns), vec![]);

    let url = |scheme: &str, host: Option<&str>| ParsedUrl {
        scheme: scheme.to_string(),
        host: host.map(str::to_string),
        path: "/".to_string(),
        query: vec![],
    };
    let exceptions = vec!["*.local".to_string()];
    assert!(upgrade_applies(&url("http", Some("example.com")), &exceptions));
    assert!(!upgrade_applies(&url("http", Some("app.local")), &exceptions));
    assert!(!upgrade_applies(&url("https", Some("example.com")), &exceptions));
    assert!(upgrade_applies(&url("http", None), &exceptions));
}
