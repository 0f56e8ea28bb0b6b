use monolith::document::{
    charset_to_redecode, choose_base_url, create_metadata_tag, is_html_media_type,
    is_known_charset, output_bytes, redecode_with, resolve_target, wants_favicon,
    writes_to_stdout, BaseUrl, PathKind, Target,
};
use monolith::url::{resolve_url, WebUrl};

fn url(s: &str) -> WebUrl {
    WebUrl::parse(s).unwrap()
}

#[test]
fn targets() {
    assert!(matches!(resolve_target("", PathKind::Missing), Target::Empty));
    match resolve_target("-", PathKind::Missing) {
        Target::Stdin(u) => assert_eq!(u.href, "data:text/html,"),
        other => panic!("unexpected: {:?}", other),
    }
    match resolve_target("https://example.com", PathKind::Missing) {
        Target::Url(u) => assert_eq!(u.href, "https://example.com/"),
        other => panic!("unexpected: {:?}", other),
    }
    match resolve_target("ftp://example.com/", PathKind::Missing) {
        Target::UnsupportedScheme(s) => assert_eq!(s, "ftp"),
        other => panic!("unexpected: {:?}", other),
    }
    assert!(matches!(resolve_target("page.html", PathKind::File), Target::LocalFile));
    assert!(matches!(resolve_target("some/dir", PathKind::Other), Target::NotAFile));
    match resolve_target("example.com/a", PathKind::Missing) {
        Target::Url(u) => assert_eq!(u.href, "http://example.com/a"),
        other => panic!("unexpected: {:?}", other),
    }
}

#[test]
fn base_urls() {
    let remote = url("https://example.com/a");
    let local = url("file:///tmp/a.html");
    assert!(matches!(choose_base_url(&remote, ""), BaseUrl::Retrieved));
    assert!(matches!(choose_base_url(&remote, "file:///tmp/"), BaseUrl::Retrieved));
    match choose_base_url(&local, "file:///srv/") {
        BaseUrl::Given(u) => assert_eq!(u.href, "file:///srv/"),
        other => panic!("unexpected: {:?}", other),
    }
    match choose_base_url(&remote, "https://cdn.example.com/") {
        BaseUrl::Given(u) => assert_eq!(u.href, "https://cdn.example.com/"),
        other => panic!("unexpected: {:?}", other),
    }
    assert!(matches!(choose_base_url(&local, "assets"), BaseUrl::LocalPath));
    assert!(matches!(choose_base_url(&remote, "assets"), BaseUrl::Retrieved));
}

#[test]
fn resolving_references() {
    let base = url("https://example.com/a/b.html?x=1#top");
    assert_eq!(resolve_url(&base, "/favicon.ico").unwrap().href, "https://example.com/favicon.ico");
    assert_eq!(resolve_url(&base, "c.css").unwrap().href, "https://example.com/a/c.css");
    assert_eq!(resolve_url(&base, "#end").unwrap().href, "https://example.com/a/b.html?x=1#end");
}

#[test]
fn favicon_policy() {
    let remote = url("https://example.com/");
    let local = url("file:///tmp/a.html");
    assert!(wants_favicon(false, &remote, false));
    assert!(!wants_favicon(true, &remote, false));
    assert!(!wants_favicon(false, &remote, true));
    assert!(!wants_favicon(false, &local, false));
}

#[test]
fn output_ends_with_newline() {
    assert_eq!(output_bytes(b"abc"), b"abc\n".to_vec());
    assert_eq!(output_bytes(b"abc\n"), b"abc\n".to_vec());
    assert_eq!(output_bytes(b""), b"\n".to_vec());
    assert!(writes_to_stdout(""));
    assert!(writes_to_stdout("-"));
    assert!(!writes_to_stdout("out.html"));
}

#[test]
fn metadata_comment() {
    let u = url("https://example.com/");
    assert_eq!(
        create_metadata_tag(&u, "Mon, 1 Jan 2024 00:00:00 +0000", "2.8.1"),
        "<!-- Saved from https://example.com/ at Mon, 1 Jan 2024 00:00:00 +0000 using monolith v2.8.1 -->"
    );
}

#[test]
fn html_media_types() {
    assert!(is_html_media_type("text/html"));
    assert!(is_html_media_type("Application/XHTML+xml"));
    assert!(!is_html_media_type("text/plain"));
}

#[test]
fn charsets() {
    assert!(is_known_charset("utf-8"));
    assert!(is_known_charset("latin1"));
    assert!(!is_known_charset("no-such-charset"));
    assert_eq!(charset_to_redecode("UTF-8", "latin1"), Some("windows-1252".to_string()));
    assert_eq!(charset_to_redecode("UTF-8", "utf8"), None);
    assert_eq!(charset_to_redecode("UTF-8", ""), None);
    assert_eq!(charset_to_redecode("UTF-8", "bogus"), None);
    assert_eq!(redecode_with("utf-8", Some("UTF-8".to_string())), None);
    assert_eq!(redecode_with("utf-8", Some("Shift_JIS".to_string())), Some("Shift_JIS".to_string()));
    assert_eq!(redecode_with("utf-8", None), None);
}
