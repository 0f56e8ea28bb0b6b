use monolith::opts::Options;
use monolith::url::WebUrl;
use monolith::utils::{
    css_asset_use, detect_media_type, indent, is_css_asset, is_plaintext_media_type,
    parse_content_type, CssAssetUse,
};

#[test]
fn sniffs_magic_bytes() {
    let u = WebUrl::parse("https://example.com/file").unwrap();
    assert_eq!(detect_media_type(b"GIF89a...", &u), "image/gif");
    assert_eq!(detect_media_type(b"\xFF\xD8\xFF\xE0", &u), "image/jpeg");
    assert_eq!(detect_media_type(b"\x89PNG\x0D\x0A\x1A\x0A", &u), "image/png");
    assert_eq!(detect_media_type(b"RIFF1234WEBPVP8 data", &u), "image/webp");
    assert_eq!(detect_media_type(b"RIFFabcdWAVEfmt ", &u), "audio/wav");
    assert_eq!(detect_media_type(b"0000ftypisom", &u), "video/mp4");
    assert_eq!(detect_media_type(b"\x1A\x45\xDF\xA3", &u), "video/webm");
    assert_eq!(detect_media_type(b"plain", &u), "");
    let svg = WebUrl::parse("https://example.com/logo.SVG").unwrap();
    assert_eq!(detect_media_type(b"<?xml", &svg), "image/svg+xml");
}

#[test]
fn plaintext_types() {
    assert!(is_plaintext_media_type("text/css"));
    assert!(is_plaintext_media_type("TEXT/HTML"));
    assert!(is_plaintext_media_type("application/javascript"));
    assert!(is_plaintext_media_type("image/SVG+xml"));
    assert!(!is_plaintext_media_type("image/png"));
    assert!(!is_plaintext_media_type("text"));
}

#[test]
fn indentation() {
    assert_eq!(indent(0), "");
    assert_eq!(indent(3), "   ");
}

#[test]
fn content_type_parts() {
    let (mt, cs) = parse_content_type("text/html; charset=ISO-8859-1");
    assert_eq!(mt, "text/html");
    assert_eq!(cs, "ISO-8859-1");
    let (mt, cs) = parse_content_type("image/png");
    assert_eq!(mt, "image/png");
    assert_eq!(cs, "");
}

#[test]
fn stylesheet_assets() {
    let css = WebUrl::parse("https://example.com/Site.CSS?v=1").unwrap();
    let other = WebUrl::parse("https://example.com/style").unwrap();
    assert!(is_css_asset("", &css));
    assert!(is_css_asset("Text/CSS", &other));
    assert!(!is_css_asset("text/plain", &other));
}

#[test]
fn stylesheet_asset_uses() {
    let plain: Options = Default::default();
    let no_images = Options {
        no_images: true,
        ..Default::default()
    };
    let no_css = Options {
        no_css: true,
        ..Default::default()
    };
    let png = WebUrl::parse("https://example.com/bg").unwrap();
    let named = WebUrl::parse("https://example.com/bg.PNG").unwrap();
    let sheet = WebUrl::parse("https://example.com/more.css").unwrap();
    assert_eq!(css_asset_use("image/png", &png, &plain), CssAssetUse::Embed);
    assert_eq!(css_asset_use("Image/PNG", &png, &no_images), CssAssetUse::Empty);
    assert_eq!(css_asset_use("", &named, &no_images), CssAssetUse::Empty);
    assert_eq!(css_asset_use("font/woff", &png, &no_images), CssAssetUse::Embed);
    assert_eq!(css_asset_use("", &sheet, &plain), CssAssetUse::Rewrite);
    assert_eq!(css_asset_use("text/css", &png, &no_css), CssAssetUse::Embed);
}
