use br::desktop_entry::parse;

#[test]
fn parses_browser_desktop_entry() {
    let contents = "\
[Desktop Entry]
Version=1.0
Type=Application
Name=Firefox
Exec=firefox %u
MimeType=text/html;x-scheme-handler/http;x-scheme-handler/https;
NoDisplay=false
";
    let entry = parse(contents).unwrap();
    assert_eq!(entry.name, "Firefox");
    assert_eq!(entry.executable(), Some("firefox".to_string()));
    assert!(entry.is_browser());
    assert!(!entry.no_display);
}

#[test]
fn non_browser_entry_is_not_a_browser() {
    let contents = "\
[Desktop Entry]
Name=GIMP
Exec=gimp %U
MimeType=image/png;image/jpeg;
";
    let entry = parse(contents).unwrap();
    assert!(!entry.is_browser());
}

#[test]
fn missing_required_fields_returns_none() {
    let contents = "\
[Desktop Entry]
Name=Incomplete
";
    assert!(parse(contents).is_none());
}

#[test]
fn ignores_other_sections() {
    let contents = "\
[Desktop Action NewWindow]
Name=New Window
Exec=firefox --new-window %u

[Desktop Entry]
Name=Firefox
Exec=firefox %u
MimeType=x-scheme-handler/http;
";
    let entry = parse(contents).unwrap();
    assert_eq!(entry.name, "Firefox");
    assert_eq!(entry.exec_line, "firefox %u");
}

#[test]
fn reads_no_display_comments_and_crlf() {
    let contents = "# comment\r\n[Desktop Entry]\r\nName = Web \r\nExec=\"/opt/web\" --x\r\nNoDisplay=TRUE\r\nMimeType= x-scheme-handler/https ;;\r\n";
    let entry = parse(contents).unwrap();
    assert_eq!(entry.name, "Web");
    assert!(entry.no_display);
    assert_eq!(entry.mime_types, vec!["x-scheme-handler/https".to_string()]);
    assert!(entry.is_browser());
    assert_eq!(entry.executable(), Some("\"/opt/web\"".to_string()));
}
