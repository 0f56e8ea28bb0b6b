use monolith::base64::{decode, encode};
use monolith::data_url::{create_data_url, parse_data_url, percent_decode_bytes};
use monolith::url::{clean_url, WebUrl};

fn url(s: &str) -> WebUrl {
    WebUrl::parse(s).unwrap()
}

#[test]
fn parse_splits_the_parts() {
    let u = url("https://Example.com/a/b?x=1#frag");
    assert_eq!(u.href, "https://example.com/a/b?x=1#frag");
    assert_eq!(u.scheme, "https");
    assert_eq!(u.host.as_deref(), Some("example.com"));
    assert_eq!(u.path, "/a/b");
    assert_eq!(u.query.as_deref(), Some("x=1"));
    assert_eq!(u.fragment.as_deref(), Some("frag"));
    assert!(WebUrl::parse("not a url").is_none());
}

#[test]
fn clean_drops_fragment_and_empty_query() {
    let c = clean_url(&url("https://example.com/a?#frag"));
    assert_eq!(c.href, "https://example.com/a");
    assert!(c.fragment.is_none());
    assert!(c.query.is_none());
    let c = clean_url(&url("https://example.com/a?q=1#frag"));
    assert_eq!(c.href, "https://example.com/a?q=1");
    assert_eq!(c.query.as_deref(), Some("q=1"));
    let c = clean_url(&url("https://example.com/plain"));
    assert_eq!(c.href, "https://example.com/plain");
}

#[test]
fn clean_is_idempotent() {
    for s in ["https://example.com/a?#f", "http://x.y/?a=b#c", "data:text/plain,hi#x", "file:///tmp/a"] {
        let once = clean_url(&url(s));
        let twice = clean_url(&once);
        assert_eq!(once.href, twice.href);
        assert!(once.fragment.is_none());
        assert_eq!(WebUrl::parse(&once.href).unwrap().href, once.href);
    }
}

#[test]
fn base64_vectors() {
    let cases: [(&[u8], &str); 7] = [
        (b"", ""),
        (b"f", "Zg=="),
        (b"fo", "Zm8="),
        (b"foo", "Zm9v"),
        (b"foob", "Zm9vYg=="),
        (b"fooba", "Zm9vYmE="),
        (b"foobar", "Zm9vYmFy"),
    ];
    for (raw, text) in cases {
        assert_eq!(encode(raw), text.as_bytes().to_vec());
        assert_eq!(decode(text.as_bytes()), Some(raw.to_vec()));
    }
    assert_eq!(encode(&[0xff, 0xfe, 0x00]), b"//4A".to_vec());
    assert_eq!(decode(b"Zm9"), None);
    assert_eq!(decode(b"Zm9*"), None);
    assert_eq!(decode(b"Z===").is_some(), false);
}

#[test]
fn data_url_round_trip() {
    let base = url("https://example.com/x");
    let bytes: Vec<u8> = (0..=255u8).collect();
    let u = create_data_url("image/png", "", &bytes, &base);
    assert!(u.href.starts_with("data:image/png;base64,"));
    let (mt, cs, data) = parse_data_url(&WebUrl::parse(&u.href).unwrap()).unwrap();
    assert_eq!(mt, "image/png");
    assert_eq!(cs, "US-ASCII");
    assert_eq!(data, bytes);

    let u = create_data_url("text/css", "utf-8", b"a{}", &base);
    assert_eq!(u.href, "data:text/css;charset=utf-8;base64,YXt9");
    let (mt, cs, data) = parse_data_url(&u).unwrap();
    assert_eq!((mt.as_str(), cs.as_str(), data), ("text/css", "utf-8", b"a{}".to_vec()));

    let u = create_data_url("", "us-ascii", b"hi", &base);
    assert_eq!(u.href, "data:;base64,aGk=");
    let (mt, cs, data) = parse_data_url(&u).unwrap();
    assert_eq!((mt.as_str(), cs.as_str(), data), ("text/plain", "US-ASCII", b"hi".to_vec()));
}

#[test]
fn data_url_percent_body() {
    let (mt, cs, data) = parse_data_url(&url("data:text/html;charset=utf-8,%3Cp%3Ehi")).unwrap();
    assert_eq!(mt, "text/html");
    assert_eq!(cs, "utf-8");
    assert_eq!(data, b"<p>hi".to_vec());
    assert!(parse_data_url(&url("data:text/plain;base64,not*base64")).is_none());
    let (_, _, data) = parse_data_url(&url("data:text/plain;BASE64,aGk=")).unwrap();
    assert_eq!(data, b"hi".to_vec());
    assert_eq!(percent_decode_bytes(b"a%41%zz%4"), b"aA%zz%4".to_vec());
}

#[test]
fn data_url_body_keeps_utf8() {
    let u = WebUrl {
        href: "data:text/plain,caf\u{e9}".to_string(),
        scheme: "data".to_string(),
        host: None,
        path: "text/plain,caf\u{e9}".to_string(),
        query: None,
        fragment: None,
    };
    let (mt, cs, data) = parse_data_url(&u).unwrap();
    assert_eq!(mt, "text/plain");
    assert_eq!(cs, "US-ASCII");
    assert_eq!(data, vec![b'c', b'a', b'f', 0xC3, 0xA9]);
}
