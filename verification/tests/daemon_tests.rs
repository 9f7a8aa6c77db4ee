use br::daemon::{OpenRequest, PORT};

#[test]
fn round_trips_full_request() {
    let req = OpenRequest {
        url: "https://example.com".to_string(),
        source_app: Some("Slack".to_string()),
        app: Some("chrome-default".to_string()),
        private: true,
        modifier_keys: vec!["shift".to_string()],
    };
    let decoded = OpenRequest::decode(&req.encode()).unwrap();
    assert_eq!(decoded.url, req.url);
    assert_eq!(decoded.source_app, req.source_app);
    assert_eq!(decoded.app, req.app);
    assert_eq!(decoded.private, req.private);
    assert_eq!(decoded.modifier_keys, req.modifier_keys);
}

#[test]
fn round_trips_minimal_request() {
    let req = OpenRequest {
        url: "https://example.com".to_string(),
        source_app: None,
        app: None,
        private: false,
        modifier_keys: Vec::new(),
    };
    let decoded = OpenRequest::decode(&req.encode()).unwrap();
    assert_eq!(decoded.source_app, None);
    assert_eq!(decoded.app, None);
    assert!(!decoded.private);
}

#[test]
fn rejects_malformed_lines() {
    assert!(OpenRequest::decode("NOT-OPEN\tx\n").is_none());
    assert!(OpenRequest::decode("OPEN\tonly-url\n").is_none());
}

#[test]
fn encodes_the_documented_line() {
    let req = OpenRequest {
        url: "https://example.com/a".to_string(),
        source_app: None,
        app: Some("ff".to_string()),
        private: true,
        modifier_keys: vec!["shift".to_string(), "ctrl".to_string()],
    };
    assert_eq!(req.encode(), "OPEN\thttps://example.com/a\t-\tff\t1\tshift,ctrl\n");
    assert_eq!(PORT, 47823);
}

#[test]
fn decodes_lines_without_modifier_keys() {
    let r = OpenRequest::decode("OPEN\thttps://x.example\tSlack\t-\t0").unwrap();
    assert_eq!(r.url, "https://x.example");
    assert_eq!(r.source_app, Some("Slack".to_string()));
    assert_eq!(r.app, None);
    assert!(!r.private);
    assert!(r.modifier_keys.is_empty());
    let p = OpenRequest::decode("OPEN\tu\t-\t-\tyes\t-\n").unwrap();
    assert!(!p.private);
}
