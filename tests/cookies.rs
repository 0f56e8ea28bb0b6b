use monolith::cookies::{cookie_header, parse_cookies, Cookie};
use monolith::url::WebUrl;

const NOW: u64 = 5;

#[test]
fn cookie_file_round_trip() {
    let cookies = parse_cookies("example.com\tTRUE\t/\tTRUE\t9999999999\tsid\t\"abc\"").ok().unwrap();
    assert_eq!(cookies.len(), 1);
    let c = &cookies[0];
    assert_eq!(c.domain, "example.com");
    assert!(c.tailmatch);
    assert_eq!(c.path, "/");
    assert!(c.secure);
    assert_eq!(c.expiration, 9999999999);
    assert_eq!(c.name, "sid");
    assert_eq!(c.value, "abc");
    assert!(c.matches_url("https://example.com/x", NOW));
    assert!(!c.matches_url("http://example.com/x", NOW));
}

#[test]
fn comments_and_blank_lines_are_skipped() {
    let text = "# Netscape HTTP Cookie File\n\nexample.org\tFALSE\t/a\tFALSE\t0\tn\tv\r\n\n";
    let cookies = parse_cookies(text).ok().unwrap();
    assert_eq!(cookies.len(), 1);
    assert_eq!(cookies[0].domain, "example.org");
    assert!(!cookies[0].tailmatch);
    assert_eq!(cookies[0].path, "/a");
    assert_eq!(cookies[0].value, "v");
    assert_eq!(cookies[0].expiration, 0);
    assert!(parse_cookies("").ok().unwrap().is_empty());
}

#[test]
fn malformed_cookie_files_fail() {
    assert!(parse_cookies("example.com\tTRUE\t/\tTRUE\t1\tsid").is_err());
    assert!(parse_cookies("example.com\tTRUE\t/\tTRUE\tsoon\tsid\tv").is_err());
    assert!(parse_cookies("example.com\tTRUE\t/\tTRUE\t99999999999999999999\tsid\tv").is_err());
}

fn cookie(domain: &str, tailmatch: bool, path: &str, secure: bool, expiration: u64) -> Cookie {
    Cookie {
        domain: domain.to_string(),
        tailmatch,
        path: path.to_string(),
        secure,
        expiration,
        name: "k".to_string(),
        value: "v".to_string(),
    }
}

#[test]
fn matching_rules() {
    let c = cookie("Example.com", true, "/docs", false, 10);
    assert!(c.matches_url("http://example.com/docs/a", NOW));
    assert!(c.matches_url("https://www.example.com/docs", NOW));
    assert!(!c.matches_url("https://badexample.com/docs", NOW));
    assert!(!c.matches_url("https://example.com/other", NOW));
    assert!(!c.matches_url("ftp://example.com/docs", NOW));
    assert!(!c.matches_url("not a url", NOW));
    let exact = cookie("example.com", false, "/", false, 10);
    assert!(!exact.matches_url("https://www.example.com/", NOW));
    assert!(exact.is_expired(11));
    assert!(exact.matches_url("https://example.com/", 10));
    assert!(!exact.matches_url("https://example.com/", 11));
    let stale = cookie("example.com", false, "/", false, 0);
    assert!(!stale.matches_url("https://example.com/x", 1));
    assert!(!exact.is_expired(10));
}

#[test]
fn header_joins_live_matching_cookies() {
    let mut a = cookie("example.com", false, "/", false, 100);
    a.name = "a".to_string();
    a.value = "1".to_string();
    let mut b = cookie("example.com", false, "/", false, 5);
    b.name = "b".to_string();
    let mut c = cookie("example.com", false, "/", false, 100);
    c.name = "c".to_string();
    c.value = "3".to_string();
    let u = WebUrl::parse("https://example.com/").unwrap();
    assert_eq!(cookie_header(&[a, b, c], &u, 50), "a=1; c=3");
    assert_eq!(cookie_header(&[], &u, 50), "");
}

#[test]
fn encoded_name_and_value() {
    let mut c = cookie("example.com", false, "/", false, 1);
    c.value = "a b".to_string();
    assert_eq!(c.encoded(), Some("k=a%20b".to_string()));
}
