//! Retrieval of assets under the scheme policy and the cache, what becomes of
//! the outside work it asks for, media-type sniffing and parsing, and the
//! indentation of progress lines.
use vstd::prelude::*;
use crate::cache::Cache;
use crate::data_url::{data_bytes, data_charset, data_decodes, data_media_type, parse_data_url};
use crate::opts::Options;
use crate::text::{
    chars_eq_ignore_case, chars_of, chars_start_with, eq_ignore_ascii_case, eq_ignore_case,
    push_char, slice_chars, split, split_chars, starts_with, string_of, trim, trim_chars, views,
};
use crate::url::{clean_key, clean_url, WebUrl};

verus! {

/// Why an asset could not be had.
#[derive(Debug, Clone, Copy, PartialEq, Eq, Structural)]
pub enum AssetError {
    /// The scheme is none of `data`, `file`, `http` and `https`.
    UnsupportedScheme,
    /// A `file:` asset asked for by a document that is not itself a file.
    SecurityError,
    /// The file does not exist.
    NotFound,
    /// The path names a directory.
    IsDirectory,
    /// The server answered with another status than 200.
    HttpStatus(u16),
    /// The request did not complete.
    NetworkError,
    /// A `data:` URL whose payload is marked base64 but is not.
    DecodeError,
}

/// The bytes of an asset, the URL they came from after redirects, and what
/// is known of their media type and charset (empty where nothing is).
#[derive(Debug)]
pub struct Asset {
    pub data: Vec<u8>,
    pub final_url: WebUrl,
    pub media_type: String,
    pub charset: String,
}

/// What retrieving an asset comes to: the asset itself, or the outside work
/// that must be done to get it.
#[derive(Debug)]
pub enum Retrieval {
    /// The asset, from the URL itself or from the cache.
    Ready(Asset),
    /// The file that the URL names is to be read.
    ReadFile(WebUrl),
    /// The URL is to be fetched over the network.
    Fetch(WebUrl),
}

/// What reading a file came to.
#[derive(Debug)]
pub enum FileOutcome {
    Missing,
    Directory,
    Contents(Vec<u8>),
}

/// What a network request came to.
#[derive(Debug)]
pub enum FetchOutcome {
    Failed,
    Response { status: u16, final_url: WebUrl, content_type: String, body: Vec<u8> },
}

/// Whether the scheme is fetched over the network.
pub open spec fn is_http(scheme: Seq<char>) -> bool {
    scheme == "http"@ || scheme == "https"@
}

/// Whether retrieving the URL needs a network request: an `http` or `https`
/// URL whose cleaned form the cache does not hold.
pub open spec fn needs_fetch(cache: Cache, url: WebUrl) -> bool {
    is_http(url.scheme@) && cache.get_spec(clean_key(url)) is None
}

/// Decides how an asset is had. A `data:` URL is decoded on the spot and
/// never goes to the network. A `file:` URL is read only when the document
/// asking for it is a file too, and is refused otherwise without touching
/// the file system. An `http` or `https` URL comes from the cache when its
/// cleaned form is there, with no media type, and is fetched otherwise. Every
/// other scheme is refused.
pub fn retrieve_asset(cache: &Cache, parent_url: &WebUrl, url: &WebUrl) -> (r: Result<
    Retrieval,
    AssetError,
>)
    requires
        url.wf(),
    ensures
        url.scheme@ == "data"@ && !data_decodes(url.path@) ==> r == Err::<
            Retrieval,
            AssetError,
        >(AssetError::DecodeError),
        url.scheme@ == "data"@ && data_decodes(url.path@) ==> (r matches Ok(Retrieval::Ready(a)) && a.data@ == data_bytes(
            url.path@,
        ) && a.media_type@ == data_media_type(url.path@) && a.charset@ == data_charset(url.path@)
            && a.final_url.same_as(*url)),
        url.scheme@ == "file"@ && parent_url.scheme@ != "file"@ ==> r == Err::<
            Retrieval,
            AssetError,
        >(AssetError::SecurityError),
        url.scheme@ == "file"@ && parent_url.scheme@ == "file"@ ==> (r matches Ok(
            Retrieval::ReadFile(u),
        ) && u.same_as(*url)),
        is_http(url.scheme@) && !needs_fetch(*cache, *url) ==> (r matches Ok(
            Retrieval::Ready(a),
        ) && Some(a.data@) == cache.get_spec(clean_key(*url)) && a.media_type@.len() == 0
            && a.charset@.len() == 0 && a.final_url.same_as(*url)),
        needs_fetch(*cache, *url) ==> (r matches Ok(Retrieval::Fetch(u)) && u.same_as(*url)),
        url.scheme@ != "data"@ && url.scheme@ != "file"@ && !is_http(url.scheme@) ==> r == Err::<
            Retrieval,
            AssetError,
        >(AssetError::UnsupportedScheme),
{
    proof {
        reveal_strlit("data");
        reveal_strlit("file");
        reveal_strlit("http");
        reveal_strlit("https");
        assert("file"@[0] != "data"@[0]);
        assert("http"@[0] != "data"@[0]);
        assert("https"@[0] != "data"@[0]);
        assert("http"@[0] != "file"@[0]);
        assert("https"@[0] != "file"@[0]);
    }
    if url.has_scheme("data") {
        match parse_data_url(url) {
            Some((media_type, charset, data)) => Ok(
                Retrieval::Ready(Asset { data, final_url: url.copy(), media_type, charset }),
            ),
            None => Err(AssetError::DecodeError),
        }
    } else if url.has_scheme("file") {
        if !parent_url.has_scheme("file") {
            Err(AssetError::SecurityError)
        } else {
            Ok(Retrieval::ReadFile(url.copy()))
        }
    } else if url.has_scheme("http") || url.has_scheme("https") {
        let key = clean_url(url);
        match cache.get(key.href.as_str()) {
            Some(data) => Ok(
                Retrieval::Ready(
                    Asset { data, final_url: url.copy(), media_type: String::new(), charset: String::new() },
                ),
            ),
            None => Ok(Retrieval::Fetch(url.copy())),
        }
    } else {
        Err(AssetError::UnsupportedScheme)
    }
}

/// Turns what reading a file came to into the asset: the bytes, with the
/// media type that the file's name (or else its leading bytes) gives and no
/// charset, or the error for a missing file or a directory.
pub fn file_retrieved(url: &WebUrl, outcome: FileOutcome) -> (r: Result<Asset, AssetError>)
    ensures
        outcome is Missing ==> r == Err::<Asset, AssetError>(AssetError::NotFound),
        outcome is Directory ==> r == Err::<Asset, AssetError>(AssetError::IsDirectory),
        outcome matches FileOutcome::Contents(b) ==> (r matches Ok(a) && a.data@ == b@
            && a.media_type@ == file_media_type(b@, url.path@) && a.charset@.len() == 0
            && a.final_url.same_as(*url)),
{
    match outcome {
        FileOutcome::Missing => Err(AssetError::NotFound),
        FileOutcome::Directory => Err(AssetError::IsDirectory),
        FileOutcome::Contents(data) => {
            let media_type = file_media_type_of(data.as_slice(), url);
            Ok(Asset { data, final_url: url.copy(), media_type, charset: String::new() })
        },
    }
}

/// The value of the last parameter after the first that starts with
/// `charset=` once trimmed; empty when there is none.
pub open spec fn charset_param(params: Seq<Seq<char>>) -> Seq<char>
    decreases params.len(),
{
    if params.len() <= 1 {
        Seq::empty()
    } else if starts_with(trim(params.last()), "charset="@) {
        trim(params.last()).subrange("charset="@.len() as int, trim(params.last()).len() as int)
    } else {
        charset_param(params.drop_last())
    }
}

/// The media type of a `Content-Type` value: its first parameter, trimmed.
pub open spec fn content_media_type(ct: Seq<char>) -> Seq<char> {
    trim(split(ct, ';')[0])
}

/// The charset of a `Content-Type` value.
pub open spec fn content_charset(ct: Seq<char>) -> Seq<char> {
    charset_param(split(ct, ';'))
}

/// Splits a `Content-Type` value into its media type and its charset.
pub fn parse_content_type(ct: &str) -> (r: (String, String))
    ensures
        r.0@ == content_media_type(ct@),
        r.1@ == content_charset(ct@),
{
    let chars = chars_of(ct);
    let params = split_chars(chars.as_slice(), ';');
    let ghost ps = views(params@);
    assert(ps.len() >= 1);
    assert(ps[0] == params@[0]@);
    let media_type = string_of(&trim_chars(params[0].as_slice()));
    let key = chars_of("charset=");
    let mut charset = String::new();
    let mut i: usize = 1;
    assert(ps.subrange(0, 1).len() == 1);
    assert(charset@ =~= Seq::<char>::empty());
    while i < params.len()
        invariant
            ps == views(params@),
            ps.len() >= 1,
            1 <= i <= ps.len(),
            key@ == "charset="@,
            charset@ == charset_param(ps.subrange(0, i as int)),
        decreases ps.len() - i,
    {
        let p = trim_chars(params[i].as_slice());
        assert(ps[i as int] == params@[i as int]@);
        let ghost pre = ps.subrange(0, i + 1);
        assert(pre.drop_last() =~= ps.subrange(0, i as int));
        assert(pre.last() == ps[i as int]);
        if chars_start_with(p.as_slice(), key.as_slice()) {
            let v = slice_chars(p.as_slice(), key.len(), p.len());
            charset = string_of(&v);
        }
        i = i + 1;
    }
    assert(ps.subrange(0, ps.len() as int) =~= ps);
    (media_type, charset)
}

/// Whether every key holds what it held before.
pub open spec fn cache_kept(before: Cache, after: Cache) -> bool {
    forall|k: Seq<char>| after.get_spec(k) == before.get_spec(k)
}

/// Turns what a network request came to into the asset, and stores the
/// bytes in the cache under the cleaned final URL. A failed request is a
/// network error; a status other than 200 is an error (nothing is stored),
/// or, when errors are ignored, an asset with no bytes, stored as such.
pub fn complete_fetch(cache: &mut Cache, outcome: FetchOutcome, options: &Options) -> (r: Result<
    Asset,
    AssetError,
>)
    requires
        outcome matches FetchOutcome::Response { final_url, .. } ==> final_url.wf(),
    ensures
        outcome is Failed ==> r == Err::<Asset, AssetError>(AssetError::NetworkError) && cache_kept(
            *old(cache),
            *final(cache),
        ),
        outcome matches FetchOutcome::Response { status, .. } ==> (status != 200
            && !options.ignore_errors ==> r == Err::<Asset, AssetError>(
            AssetError::HttpStatus(status),
        ) && cache_kept(*old(cache), *final(cache))),
        outcome matches FetchOutcome::Response { status, final_url, content_type, .. } ==> (
        status != 200 && options.ignore_errors ==> (r matches Ok(a) && a.data@.len() == 0
            && a.final_url.same_as(final_url) && a.media_type@ == content_media_type(content_type@)
            && a.charset@ == content_charset(content_type@) && final(cache).get_spec(
            clean_key(final_url),
        ) == Some(Seq::<u8>::empty()) && forall|k: Seq<char>|
            k != clean_key(final_url) ==> final(cache).get_spec(k) == old(cache).get_spec(k))),
        outcome matches FetchOutcome::Response { status, final_url, content_type, body } ==> (
        status == 200 ==> (r matches Ok(a) && a.data@ == body@
            && a.final_url.same_as(final_url) && a.media_type@ == content_media_type(content_type@)
            && a.charset@ == content_charset(content_type@) && final(cache).get_spec(
            clean_key(final_url),
        ) == Some(body@) && forall|k: Seq<char>|
            k != clean_key(final_url) ==> final(cache).get_spec(k) == old(cache).get_spec(k))),
{
    match outcome {
        FetchOutcome::Failed => Err(AssetError::NetworkError),
        FetchOutcome::Response { status, final_url, content_type, body } => {
            if status != 200 && !options.ignore_errors {
                return Err(AssetError::HttpStatus(status));
            }
            let (media_type, charset) = parse_content_type(content_type.as_str());
            let key = clean_url(&final_url);
            if status != 200 {
                cache.insert(key.href, Vec::new());
                return Ok(Asset { data: Vec::new(), final_url, media_type, charset });
            }
            cache.insert(key.href, body.clone());
            Ok(Asset { data: body, final_url, media_type, charset })
        },
    }
}

/// Once the bytes of a URL are in the cache, no URL with the same cleaned
/// form needs a network request: each cleaned URL is fetched at most once.
pub proof fn lemma_fetched_at_most_once(cache: Cache, fetched: WebUrl, url: WebUrl)
    requires
        cache.get_spec(clean_key(fetched)) is Some,
        clean_key(url) == clean_key(fetched),
    ensures
        !needs_fetch(cache, url),
{
}

/// Whether the bytes start with the pattern, where a `.` in the pattern
/// stands for any byte.
pub open spec fn magic_matches(data: Seq<u8>, pattern: Seq<u8>) -> bool {
    pattern.len() <= data.len() && forall|i: int|
        0 <= i < pattern.len() ==> #[trigger] pattern[i] == 46 || data[i] == pattern[i]
}

fn starts_with_magic(data: &[u8], pattern: &[u8]) -> (r: bool)
    ensures
        r == magic_matches(data@, pattern@),
{
    if pattern.len() > data.len() {
        return false;
    }
    let mut i: usize = 0;
    while i < pattern.len()
        invariant
            pattern@.len() <= data@.len(),
            i <= pattern@.len(),
            forall|j: int| 0 <= j < i ==> #[trigger] pattern@[j] == 46 || data@[j] == pattern@[j],
        decreases pattern@.len() - i,
    {
        if pattern[i] != 46 && data[i] != pattern[i] {
            return false;
        }
        i = i + 1;
    }
    true
}

/// The media type that the leading bytes announce, by the first pattern of
/// the table that they match: images, then audio, then video.
pub open spec fn sniffed(data: Seq<u8>) -> Option<Seq<char>> {
    if magic_matches(data, seq![71u8, 73, 70, 56, 55, 97]) {
        Some("image/gif"@)
    } else if magic_matches(data, seq![71u8, 73, 70, 56, 57, 97]) {
        Some("image/gif"@)
    } else if magic_matches(data, seq![255u8, 216, 255]) {
        Some("image/jpeg"@)
    } else if magic_matches(data, seq![137u8, 80, 78, 71, 13, 10, 26, 10]) {
        Some("image/png"@)
    } else if magic_matches(data, seq![60u8, 115, 118, 103, 32]) {
        Some("image/svg+xml"@)
    } else if magic_matches(data, seq![82u8, 73, 70, 70, 46, 46, 46, 46, 87, 69, 66, 80, 86, 80, 56, 32]) {
        Some("image/webp"@)
    } else if magic_matches(data, seq![0u8, 0, 1, 0]) {
        Some("image/x-icon"@)
    } else if magic_matches(data, seq![73u8, 68, 51]) {
        Some("audio/mpeg"@)
    } else if magic_matches(data, seq![255u8, 14]) {
        Some("audio/mpeg"@)
    } else if magic_matches(data, seq![255u8, 15]) {
        Some("audio/mpeg"@)
    } else if magic_matches(data, seq![79u8, 103, 103, 83]) {
        Some("audio/ogg"@)
    } else if magic_matches(data, seq![82u8, 73, 70, 70, 46, 46, 46, 46, 87, 65, 86, 69, 102, 109, 116, 32]) {
        Some("audio/wav"@)
    } else if magic_matches(data, seq![102u8, 76, 97, 67]) {
        Some("audio/x-flac"@)
    } else if magic_matches(data, seq![82u8, 73, 70, 70, 46, 46, 46, 46, 65, 86, 73, 32, 76, 73, 83, 84]) {
        Some("video/avi"@)
    } else if magic_matches(data, seq![46u8, 46, 46, 46, 102, 116, 121, 112]) {
        Some("video/mp4"@)
    } else if magic_matches(data, seq![0u8, 0, 1, 11]) {
        Some("video/mpeg"@)
    } else if magic_matches(data, seq![46u8, 46, 46, 46, 109, 111, 111, 118]) {
        Some("video/quicktime"@)
    } else if magic_matches(data, seq![26u8, 69, 223, 163]) {
        Some("video/webm"@)
    } else {
        None
    }
}

fn sniff(data: &[u8]) -> (r: Option<&'static str>)
    ensures
        r matches Some(m) ==> sniffed(data@) == Some(m@),
        r is None ==> sniffed(data@) is None,
{
    if starts_with_magic(data, vec![71u8, 73, 70, 56, 55, 97].as_slice()) {
        Some("image/gif")
    } else if starts_with_magic(data, vec![71u8, 73, 70, 56, 57, 97].as_slice()) {
        Some("image/gif")
    } else if starts_with_magic(data, vec![255u8, 216, 255].as_slice()) {
        Some("image/jpeg")
    } else if starts_with_magic(data, vec![137u8, 80, 78, 71, 13, 10, 26, 10].as_slice()) {
        Some("image/png")
    } else if starts_with_magic(data, vec![60u8, 115, 118, 103, 32].as_slice()) {
        Some("image/svg+xml")
    } else if starts_with_magic(data, vec![82u8, 73, 70, 70, 46, 46, 46, 46, 87, 69, 66, 80, 86, 80, 56, 32].as_slice()) {
        Some("image/webp")
    } else if starts_with_magic(data, vec![0u8, 0, 1, 0].as_slice()) {
        Some("image/x-icon")
    } else if starts_with_magic(data, vec![73u8, 68, 51].as_slice()) {
        Some("audio/mpeg")
    } else if starts_with_magic(data, vec![255u8, 14].as_slice()) {
        Some("audio/mpeg")
    } else if starts_with_magic(data, vec![255u8, 15].as_slice()) {
        Some("audio/mpeg")
    } else if starts_with_magic(data, vec![79u8, 103, 103, 83].as_slice()) {
        Some("audio/ogg")
    } else if starts_with_magic(data, vec![82u8, 73, 70, 70, 46, 46, 46, 46, 87, 65, 86, 69, 102, 109, 116, 32].as_slice()) {
        Some("audio/wav")
    } else if starts_with_magic(data, vec![102u8, 76, 97, 67].as_slice()) {
        Some("audio/x-flac")
    } else if starts_with_magic(data, vec![82u8, 73, 70, 70, 46, 46, 46, 46, 65, 86, 73, 32, 76, 73, 83, 84].as_slice()) {
        Some("video/avi")
    } else if starts_with_magic(data, vec![46u8, 46, 46, 46, 102, 116, 121, 112].as_slice()) {
        Some("video/mp4")
    } else if starts_with_magic(data, vec![0u8, 0, 1, 11].as_slice()) {
        Some("video/mpeg")
    } else if starts_with_magic(data, vec![46u8, 46, 46, 46, 109, 111, 111, 118].as_slice()) {
        Some("video/quicktime")
    } else if starts_with_magic(data, vec![26u8, 69, 223, 163].as_slice()) {
        Some("video/webm")
    } else {
        None
    }
}

/// Whether a path ends in `.svg`, in any case.
pub open spec fn has_svg_extension(path: Seq<char>) -> bool {
    path.len() >= 4 && eq_ignore_case(path.subrange(path.len() - 4, path.len() as int), ".svg"@)
}

/// The media type of some bytes: what their leading bytes announce, else
/// `image/svg+xml` when the URL's path ends in `.svg`, else nothing.
pub open spec fn media_type_spec(data: Seq<u8>, path: Seq<char>) -> Seq<char> {
    match sniffed(data) {
        Some(m) => m,
        None => if has_svg_extension(path) {
            "image/svg+xml"@
        } else {
            Seq::empty()
        },
    }
}

/// Detects the media type of some bytes from their leading bytes, or from
/// the URL they came from.
pub fn detect_media_type(data: &[u8], url: &WebUrl) -> (r: String)
    ensures
        r@ == media_type_spec(data@, url.path@),
{
    match sniff(data) {
        Some(m) => m.to_owned(),
        None => {
            let path = chars_of(url.path.as_str());
            let n = path.len();
            if n >= 4 {
                let tail = slice_chars(path.as_slice(), n - 4, n);
                let ext = chars_of(".svg");
                if chars_eq_ignore_case(tail.as_slice(), ext.as_slice()) {
                    return "image/svg+xml".to_owned();
                }
            }
            String::new()
        },
    }
}

/// Whether a media type is text: `text/...`, `application/javascript` or
/// `image/svg+xml`, in any case.
pub open spec fn is_plaintext(mt: Seq<char>) -> bool {
    ||| (mt.len() >= 5 && eq_ignore_case(mt.subrange(0, 5), "text/"@))
    ||| eq_ignore_case(mt, "application/javascript"@)
    ||| eq_ignore_case(mt, "image/svg+xml"@)
}

/// Whether assets of this media type are text.
pub fn is_plaintext_media_type(media_type: &str) -> (r: bool)
    ensures
        r == is_plaintext(media_type@),
{
    let mt = chars_of(media_type);
    let text = chars_of("text/");
    let js = chars_of("application/javascript");
    let svg = chars_of("image/svg+xml");
    proof {
        reveal_strlit("text/");
    }
    if mt.len() >= 5 {
        let head = slice_chars(mt.as_slice(), 0, 5);
        if chars_eq_ignore_case(head.as_slice(), text.as_slice()) {
            return true;
        }
    }
    chars_eq_ignore_case(mt.as_slice(), js.as_slice()) || chars_eq_ignore_case(
        mt.as_slice(),
        svg.as_slice(),
    )
}

/// As many spaces as the level: the indentation of progress lines.
pub fn indent(level: u32) -> (r: String)
    ensures
        r@ == Seq::new(level as nat, |i: int| ' '),
{
    let mut r = String::new();
    let mut l: u32 = 0;
    while l < level
        invariant
            l <= level,
            r@ == Seq::new(l as nat, |i: int| ' '),
        decreases level - l,
    {
        push_char(&mut r, ' ');
        l = l + 1;
        assert(r@ =~= Seq::new(l as nat, |i: int| ' '));
    }
    r
}

/// Whether a path ends with the extension, in any case.
pub open spec fn has_extension(path: Seq<char>, ext: Seq<char>) -> bool {
    path.len() >= ext.len() && eq_ignore_case(
        path.subrange(path.len() - ext.len(), path.len() as int),
        ext,
    )
}

fn ends_with_extension(path: &[char], ext: &str) -> (r: bool)
    ensures
        r == has_extension(path@, ext@),
{
    let e = chars_of(ext);
    if path.len() < e.len() {
        return false;
    }
    let tail = slice_chars(path, path.len() - e.len(), path.len());
    chars_eq_ignore_case(tail.as_slice(), e.as_slice())
}

/// The media type that a file name's extension names, if it names one.
pub open spec fn media_type_by_name(path: Seq<char>) -> Option<Seq<char>> {
    if has_extension(path, ".js"@) || has_extension(path, ".mjs"@) {
        Some("application/javascript"@)
    } else if has_extension(path, ".html"@) || has_extension(path, ".htm"@) {
        Some("text/html"@)
    } else if has_extension(path, ".xhtml"@) {
        Some("application/xhtml+xml"@)
    } else if has_extension(path, ".css"@) {
        Some("text/css"@)
    } else if has_extension(path, ".svg"@) {
        Some("image/svg+xml"@)
    } else if has_extension(path, ".png"@) {
        Some("image/png"@)
    } else if has_extension(path, ".jpg"@) || has_extension(path, ".jpeg"@) {
        Some("image/jpeg"@)
    } else if has_extension(path, ".gif"@) {
        Some("image/gif"@)
    } else if has_extension(path, ".ico"@) {
        Some("image/x-icon"@)
    } else if has_extension(path, ".webp"@) {
        Some("image/webp"@)
    } else if has_extension(path, ".woff"@) {
        Some("font/woff"@)
    } else if has_extension(path, ".woff2"@) {
        Some("font/woff2"@)
    } else if has_extension(path, ".txt"@) {
        Some("text/plain"@)
    } else {
        None
    }
}

fn media_type_by_name_of(path: &[char]) -> (r: Option<&'static str>)
    ensures
        match r {
            Some(m) => media_type_by_name(path@) == Some(m@),
            None => media_type_by_name(path@) is None,
        },
{
    if ends_with_extension(path, ".js") || ends_with_extension(path, ".mjs") {
        Some("application/javascript")
    } else if ends_with_extension(path, ".html") || ends_with_extension(path, ".htm") {
        Some("text/html")
    } else if ends_with_extension(path, ".xhtml") {
        Some("application/xhtml+xml")
    } else if ends_with_extension(path, ".css") {
        Some("text/css")
    } else if ends_with_extension(path, ".svg") {
        Some("image/svg+xml")
    } else if ends_with_extension(path, ".png") {
        Some("image/png")
    } else if ends_with_extension(path, ".jpg") || ends_with_extension(path, ".jpeg") {
        Some("image/jpeg")
    } else if ends_with_extension(path, ".gif") {
        Some("image/gif")
    } else if ends_with_extension(path, ".ico") {
        Some("image/x-icon")
    } else if ends_with_extension(path, ".webp") {
        Some("image/webp")
    } else if ends_with_extension(path, ".woff") {
        Some("font/woff")
    } else if ends_with_extension(path, ".woff2") {
        Some("font/woff2")
    } else if ends_with_extension(path, ".txt") {
        Some("text/plain")
    } else {
        None
    }
}

/// The media type of a local file: by its name, else by its bytes.
pub open spec fn file_media_type(data: Seq<u8>, path: Seq<char>) -> Seq<char> {
    match media_type_by_name(path) {
        Some(m) => m,
        None => media_type_spec(data, path),
    }
}

fn file_media_type_of(data: &[u8], url: &WebUrl) -> (r: String)
    ensures
        r@ == file_media_type(data@, url.path@),
{
    let path = chars_of(url.path.as_str());
    match media_type_by_name_of(path.as_slice()) {
        Some(m) => m.to_owned(),
        None => detect_media_type(data, url),
    }
}

/// Whether a retrieved asset is a stylesheet: its media type says
/// `text/css`, in any case, or its path ends in `.css`.
pub fn is_css_asset(media_type: &str, url: &WebUrl) -> (r: bool)
    ensures
        r == (eq_ignore_case(media_type@, "text/css"@) || has_extension(url.path@, ".css"@)),
{
    if eq_ignore_ascii_case(media_type, "text/css") {
        return true;
    }
    let path = chars_of(url.path.as_str());
    ends_with_extension(path.as_slice(), ".css")
}

/// What a stylesheet does with an asset that it references.
#[derive(Debug, Clone, Copy, PartialEq, Eq, Structural)]
pub enum CssAssetUse {
    /// The reference is emptied (`url('')`): images are excluded.
    Empty,
    /// The asset is a stylesheet itself: it is rewritten in turn, then embedded.
    Rewrite,
    /// The asset is embedded as it came.
    Embed,
}

/// Whether an asset is an image: its media type starts with `image/`, in
/// any case, or its name says so.
pub open spec fn is_image_asset_spec(media_type: Seq<char>, path: Seq<char>) -> bool {
    (media_type.len() >= 6 && eq_ignore_case(media_type.subrange(0, 6), "image/"@)) || (
    media_type_by_name(path) matches Some(m) && m.len() >= 6 && eq_ignore_case(
        m.subrange(0, 6),
        "image/"@,
    ))
}

/// What a stylesheet does with a retrieved asset under the options: with
/// images excluded an image is emptied; a stylesheet is rewritten unless
/// stylesheets are excluded; anything else is embedded.
pub open spec fn css_asset_use_spec(media_type: Seq<char>, path: Seq<char>, o: Options) -> CssAssetUse {
    if o.no_images && is_image_asset_spec(media_type, path) {
        CssAssetUse::Empty
    } else if !o.no_css && (eq_ignore_case(media_type, "text/css"@) || has_extension(path, ".css"@)) {
        CssAssetUse::Rewrite
    } else {
        CssAssetUse::Embed
    }
}

fn starts_with_image(t: &str) -> (r: bool)
    ensures
        r == (t@.len() >= 6 && eq_ignore_case(t@.subrange(0, 6), "image/"@)),
{
    let c = chars_of(t);
    if c.len() < 6 {
        return false;
    }
    let head = slice_chars(c.as_slice(), 0, 6);
    let key = chars_of("image/");
    chars_eq_ignore_case(head.as_slice(), key.as_slice())
}

/// Decides what a stylesheet does with an asset it references, once the
/// asset is retrieved.
pub fn css_asset_use(media_type: &str, url: &WebUrl, options: &Options) -> (r: CssAssetUse)
    ensures
        r == css_asset_use_spec(media_type@, url.path@, *options),
{
    let path = chars_of(url.path.as_str());
    let by_name_image = match media_type_by_name_of(path.as_slice()) {
        Some(m) => starts_with_image(m),
        None => false,
    };
    if options.no_images && (starts_with_image(media_type) || by_name_image) {
        CssAssetUse::Empty
    } else if !options.no_css && is_css_asset(media_type, url) {
        CssAssetUse::Rewrite
    } else {
        CssAssetUse::Embed
    }
}

} // verus!
