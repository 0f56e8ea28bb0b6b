use monolith::cache::Cache;
use monolith::data_url::create_data_url;
use monolith::opts::Options;
use monolith::url::WebUrl;
use monolith::utils::{
    complete_fetch, file_retrieved, retrieve_asset, AssetError, FetchOutcome, FileOutcome,
    Retrieval,
};

fn url(s: &str) -> WebUrl {
    WebUrl::parse(s).unwrap()
}

#[test]
fn read_data_url() {
    let cache = Cache::new();

    // If both source and target are data URLs,
    //  ensure the result contains target data URL
    let asset = match retrieve_asset(
        &cache,
        &url("data:text/html;base64,c291cmNl"),
        &url("data:text/html;base64,dGFyZ2V0"),
    ) {
        Ok(Retrieval::Ready(asset)) => asset,
        other => panic!("unexpected: {:?}", other),
    };
    assert_eq!(&asset.media_type, "text/html");
    assert_eq!(&asset.charset, "US-ASCII");
    assert_eq!(asset.data, b"target".to_vec());
    assert_eq!(
        create_data_url(&asset.media_type, &asset.charset, &asset.data, &asset.final_url).href,
        url("data:text/html;base64,dGFyZ2V0").href,
    );
    assert_eq!(asset.final_url.href, url("data:text/html;base64,dGFyZ2V0").href);
}

#[test]
fn read_local_file_with_data_url_parent() {
    let cache = Cache::new();

    // Inclusion of local assets from data URL sources should not be allowed
    if let Ok(..) = retrieve_asset(
        &cache,
        &url("data:text/html;base64,SoUrCe"),
        &url("file:///etc/passwd"),
    ) {
        panic!();
    }
}

#[test]
fn read_local_file_with_https_parent() {
    let cache = Cache::new();

    // Inclusion of local assets from remote sources should not be allowed
    if let Ok(..) = retrieve_asset(&cache, &url("https://kernel.org/"), &url("file:///etc/passwd")) {
        panic!();
    }
}

#[test]
fn file_from_foreign_parents_is_a_security_error() {
    let cache = Cache::new();
    for parent in ["data:text/html;base64,SoUrCe", "https://kernel.org/", "http://a.b/"] {
        match retrieve_asset(&cache, &url(parent), &url("file:///etc/passwd")) {
            Err(e) => assert_eq!(e, AssetError::SecurityError),
            Ok(_) => panic!("file read allowed from {}", parent),
        }
    }
}

#[test]
fn file_from_file_parent_is_read() {
    let cache = Cache::new();
    match retrieve_asset(&cache, &url("file:///tmp/page.html"), &url("file:///tmp/script.js")) {
        Ok(Retrieval::ReadFile(u)) => assert_eq!(u.href, "file:///tmp/script.js"),
        other => panic!("unexpected: {:?}", other),
    }
}

#[test]
fn file_outcomes() {
    let u = url("file:///tmp/script.js");
    assert_eq!(file_retrieved(&u, FileOutcome::Missing).unwrap_err(), AssetError::NotFound);
    assert_eq!(file_retrieved(&u, FileOutcome::Directory).unwrap_err(), AssetError::IsDirectory);
    let a = file_retrieved(&u, FileOutcome::Contents(b"x = 1;".to_vec())).unwrap();
    assert_eq!(a.data, b"x = 1;".to_vec());
    assert_eq!(a.media_type, "application/javascript");
    let page = url("file:///tmp/Page.HTML");
    let a = file_retrieved(&page, FileOutcome::Contents(b"<p>".to_vec())).unwrap();
    assert_eq!(a.media_type, "text/html");
    let blob = url("file:///tmp/blob");
    let a = file_retrieved(&blob, FileOutcome::Contents(b"GIF89a..".to_vec())).unwrap();
    assert_eq!(a.media_type, "image/gif");
    let a = file_retrieved(&blob, FileOutcome::Contents(b"plain".to_vec())).unwrap();
    assert_eq!(a.media_type, "");
    assert_eq!(a.charset, "");
    assert_eq!(a.final_url.href, "file:///tmp/blob");
}

#[test]
fn other_schemes_are_unsupported() {
    let cache = Cache::new();
    match retrieve_asset(&cache, &url("https://a.b/"), &url("ftp://a.b/x")) {
        Err(e) => assert_eq!(e, AssetError::UnsupportedScheme),
        Ok(_) => panic!(),
    }
}

#[test]
fn data_url_never_goes_to_the_network() {
    let cache = Cache::new();
    let r = retrieve_asset(&cache, &url("https://a.b/"), &url("data:,hello%20world"));
    match r {
        Ok(Retrieval::Ready(a)) => {
            assert_eq!(a.data, b"hello world".to_vec());
            assert_eq!(a.media_type, "text/plain");
            assert_eq!(a.charset, "US-ASCII");
        }
        other => panic!("unexpected: {:?}", other),
    }
}

#[test]
fn a_cleaned_url_is_fetched_once() {
    let mut cache = Cache::new();
    let options: Options = Default::default();
    let first = url("https://example.com/style.css#top");
    let target = match retrieve_asset(&cache, &first, &first) {
        Ok(Retrieval::Fetch(u)) => u,
        other => panic!("unexpected: {:?}", other),
    };
    let outcome = FetchOutcome::Response {
        status: 200,
        final_url: target,
        content_type: "text/css; charset=utf-8".to_string(),
        body: b"p{}".to_vec(),
    };
    let asset = complete_fetch(&mut cache, outcome, &options).unwrap();
    assert_eq!(asset.media_type, "text/css");
    assert_eq!(asset.charset, "utf-8");
    let again = url("https://example.com/style.css?#other");
    match retrieve_asset(&cache, &first, &again) {
        Ok(Retrieval::Ready(a)) => {
            assert_eq!(a.data, b"p{}".to_vec());
            assert_eq!(a.media_type, "");
        }
        other => panic!("fetched twice: {:?}", other),
    }
}

#[test]
fn fetch_errors() {
    let mut cache = Cache::new();
    let options: Options = Default::default();
    let u = url("https://example.com/missing.png");
    assert_eq!(
        complete_fetch(&mut cache, FetchOutcome::Failed, &options).unwrap_err(),
        AssetError::NetworkError
    );
    let outcome = FetchOutcome::Response {
        status: 404,
        final_url: u.clone(),
        content_type: String::new(),
        body: b"nope".to_vec(),
    };
    assert_eq!(
        complete_fetch(&mut cache, outcome, &options).unwrap_err(),
        AssetError::HttpStatus(404)
    );
    assert!(cache.get("https://example.com/missing.png").is_none());
    let lenient = Options {
        ignore_errors: true,
        ..Default::default()
    };
    let outcome = FetchOutcome::Response {
        status: 404,
        final_url: u.clone(),
        content_type: String::new(),
        body: b"nope".to_vec(),
    };
    let a = complete_fetch(&mut cache, outcome, &lenient).unwrap();
    assert!(a.data.is_empty());
    assert_eq!(cache.get("https://example.com/missing.png"), Some(Vec::new()));
    match retrieve_asset(&cache, &u, &u) {
        Ok(Retrieval::Ready(again)) => assert!(again.data.is_empty()),
        other => panic!("fetched twice: {:?}", other),
    }
}

#[test]
fn read_local_file_with_file_url_parent() {
    let cache = Cache::new();
    let cwd = "/home/user/monolith";

    // Inclusion of local assets from local sources should be allowed
    let parent = url(&format!("file://{}/tests/_data_/basic/local-file.html", cwd));
    let target = url(&format!("file://{}/tests/_data_/basic/local-script.js", cwd));
    let to_read = match retrieve_asset(&cache, &parent, &target) {
        Ok(Retrieval::ReadFile(u)) => u,
        other => panic!("unexpected: {:?}", other),
    };
    // What the file system holds at that path
    let contents =
        b"document.body.style.backgroundColor = \"green\";\ndocument.body.style.color = \"red\";\n";
    let asset = file_retrieved(&to_read, FileOutcome::Contents(contents.to_vec())).unwrap();
    assert_eq!(&asset.media_type, "application/javascript");
    assert_eq!(&asset.charset, "");
    assert_eq!(create_data_url(&asset.media_type, &asset.charset, &asset.data, &asset.final_url).href, url("data:application/javascript;base64,ZG9jdW1lbnQuYm9keS5zdHlsZS5iYWNrZ3JvdW5kQ29sb3IgPSAiZ3JlZW4iOwpkb2N1bWVudC5ib2R5LnN0eWxlLmNvbG9yID0gInJlZCI7Cg==").href);
    assert_eq!(asset.final_url.href, target.href);
}

#[test]
fn invalid_base64_data_url_is_a_decode_error() {
    let cache = Cache::new();
    match retrieve_asset(&cache, &url("https://a.b/"), &url("data:image/png;base64,@@@")) {
        Err(e) => assert_eq!(e, AssetError::DecodeError),
        Ok(_) => panic!(),
    }
}

#[test]
fn fragment_never_reaches_the_cache_key() {
    let mut cache = Cache::new();
    let options: Options = Default::default();
    let outcome = FetchOutcome::Response {
        status: 200,
        final_url: url("https://example.com/a.css#one"),
        content_type: "text/css".to_string(),
        body: b"x".to_vec(),
    };
    complete_fetch(&mut cache, outcome, &options).unwrap();
    for other in ["https://example.com/a.css", "https://example.com/a.css#two", "https://example.com/a.css?"] {
        match retrieve_asset(&cache, &url(other), &url(other)) {
            Ok(Retrieval::Ready(a)) => assert_eq!(a.data, b"x".to_vec()),
            r => panic!("fetched again for {}: {:?}", other, r),
        }
    }
}
