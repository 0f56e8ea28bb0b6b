//! Decisions that frame the saving of one document: what the target is, which
//! base URL the document gets, whether it is HTML at all, which charset it is
//! read in, and how the output ends.
use vstd::prelude::*;
use crate::text::{chars_of, eq_ignore_ascii_case, eq_ignore_case};
use crate::url::{url_parses, url_scheme, url_serialization, WebUrl};
use crate::utils::is_http;

verus! {

/// The canonical name of the encoding that `encoding_rs` finds for a label,
/// or `None` where the label names none (or only the replacement encoding).
pub uninterp spec fn encoding_for_label(label: Seq<char>) -> Option<Seq<char>>;

/// Relies on `encoding_rs::Encoding::for_label_no_replacement`, read back
/// through `Encoding::name`: the encoding that a label names.
#[verifier::external_body]
fn encoding_name(label: &str) -> (r: Option<String>)
    ensures
        match r {
            Some(n) => encoding_for_label(label@) == Some(n@),
            None => encoding_for_label(label@) is None,
        },
{
    encoding_rs::Encoding::for_label_no_replacement(label.as_bytes()).map(|e| e.name().to_string())
}

/// Whether a charset label names an encoding that documents can be read
/// and written in.
pub fn is_known_charset(label: &str) -> (r: bool)
    ensures
        r == encoding_for_label(label@) is Some,
{
    encoding_name(label).is_some()
}

/// The encoding to read the document in again, given the one it was read in
/// and the encoding that its own charset declaration names: the declared
/// one, when there is one and it differs from the current one in more than
/// case.
pub fn redecode_with(current: &str, declared: Option<String>) -> (r: Option<String>)
    ensures
        match declared {
            Some(d) => if eq_ignore_case(d@, current@) {
                r is None
            } else {
                r matches Some(n) && n@ == d@
            },
            None => r is None,
        },
{
    match declared {
        Some(d) => {
            if eq_ignore_ascii_case(d.as_str(), current) {
                None
            } else {
                Some(d)
            }
        },
        None => None,
    }
}

/// The encoding to read the document in again after its charset
/// declaration has been found: none when the declaration is empty or names
/// no known encoding, or names the current one.
pub fn charset_to_redecode(current: &str, declared: &str) -> (r: Option<String>)
    ensures
        declared@.len() == 0 ==> r is None,
        declared@.len() > 0 ==> match encoding_for_label(declared@) {
            Some(d) => if eq_ignore_case(d, current@) {
                r is None
            } else {
                r matches Some(n) && n@ == d
            },
            None => r is None,
        },
{
    if declared.unicode_len() == 0 {
        return None;
    }
    redecode_with(current, encoding_name(declared))
}

/// Whether a media type is that of an HTML document, in any case.
pub open spec fn is_html(mt: Seq<char>) -> bool {
    eq_ignore_case(mt, "text/html"@) || eq_ignore_case(mt, "application/xhtml+xml"@)
}

/// Whether the target is an HTML document to be processed; anything else is
/// written out as it came.
pub fn is_html_media_type(media_type: &str) -> (r: bool)
    ensures
        r == is_html(media_type@),
{
    eq_ignore_ascii_case(media_type, "text/html") || eq_ignore_ascii_case(
        media_type,
        "application/xhtml+xml",
    )
}

/// What the file system says of a path.
#[derive(Debug, Clone, Copy, PartialEq, Eq, Structural)]
pub enum PathKind {
    Missing,
    File,
    Other,
}

/// Where the document to save comes from.
#[derive(Debug)]
pub enum Target {
    /// Standard input, under an empty HTML data URL.
    Stdin(WebUrl),
    /// A URL of a scheme that can be retrieved.
    Url(WebUrl),
    /// A local file, named by its path: its file URL is to be made.
    LocalFile,
    /// No target was given.
    Empty,
    /// A URL of a scheme that cannot be retrieved.
    UnsupportedScheme(String),
    /// A local path that is not a file.
    NotAFile,
    /// A text that is neither a URL nor a path, and makes no URL with
    /// `http://` in front either.
    Unresolvable,
}

/// Whether a scheme can be retrieved.
pub open spec fn is_target_scheme(s: Seq<char>) -> bool {
    s == "data"@ || s == "file"@ || is_http(s)
}

/// Resolves the target that was asked for: `-` is standard input; a URL of
/// a retrievable scheme is taken as it is, one of another scheme refused;
/// other text is a local path when it names one, and otherwise a host name
/// that `http://` is put in front of.
pub fn resolve_target(target: &str, path: PathKind) -> (r: Target)
    ensures
        target@.len() == 0 ==> r is Empty,
        target@ == "-"@ && url_parses("data:text/html,"@) ==> (r matches Target::Stdin(u)
            && u.href@ == url_serialization("data:text/html,"@)),
        target@ == "-"@ && !url_parses("data:text/html,"@) ==> r is Unresolvable,
        target@.len() > 0 && target@ != "-"@ ==> {
            if url_parses(target@) {
                if is_target_scheme(url_scheme(target@)) {
                    r matches Target::Url(u) && u.href@ == url_serialization(target@)
                } else {
                    r matches Target::UnsupportedScheme(s) && s@ == url_scheme(target@)
                }
            } else if path == PathKind::File {
                r is LocalFile
            } else if path == PathKind::Other {
                r is NotAFile
            } else if url_parses("http://"@ + target@) {
                r matches Target::Url(u) && u.href@ == url_serialization(
                    "http://"@ + target@,
                )
            } else {
                r is Unresolvable
            }
        },
{
    proof {
        reveal_strlit("-");
    }
    if target.unicode_len() == 0 {
        return Target::Empty;
    }
    let t = chars_of(target);
    if t.len() == 1 && t[0] == '-' {
        assert(target@ =~= "-"@);
        return match WebUrl::parse("data:text/html,") {
            Some(u) => Target::Stdin(u),
            None => Target::Unresolvable,
        };
    }
    match WebUrl::parse(target) {
        Some(u) => {
            if u.has_scheme("data") || u.has_scheme("file") || u.has_scheme("http")
                || u.has_scheme("https") {
                Target::Url(u)
            } else {
                Target::UnsupportedScheme(u.scheme)
            }
        },
        None => match path {
            PathKind::File => Target::LocalFile,
            PathKind::Other => Target::NotAFile,
            PathKind::Missing => {
                let mut text = "http://".to_owned();
                text.append(target);
                match WebUrl::parse(text.as_str()) {
                    Some(u) => Target::Url(u),
                    None => Target::Unresolvable,
                }
            },
        },
    }
}

/// Where the base URL of the document comes from.
#[derive(Debug)]
pub enum BaseUrl {
    /// The URL that the target was retrieved from (or what the document's own
    /// `<base>` says).
    Retrieved,
    /// The URL given in the options.
    Given(WebUrl),
    /// The local path given in the options: its file URL is to be made.
    LocalPath,
}

/// Chooses the base URL from the one given in the options. None given, the
/// document keeps the URL it came from. A `file:` URL is taken only for a
/// document that is itself a file; any other URL is taken as it is. A text
/// that is no URL is a local path for a document that is a file, and is
/// ignored otherwise.
pub fn choose_base_url(target: &WebUrl, given: &str) -> (r: BaseUrl)
    ensures
        given@.len() == 0 ==> r is Retrieved,
        given@.len() > 0 && url_parses(given@) ==> if url_scheme(given@) == "file"@
            && target.scheme@ != "file"@ {
            r is Retrieved
        } else {
            r matches BaseUrl::Given(u) && u.href@ == url_serialization(given@)
        },
        given@.len() > 0 && !url_parses(given@) ==> if target.scheme@ == "file"@ {
            r is LocalPath
        } else {
            r is Retrieved
        },
{
    if given.unicode_len() == 0 {
        return BaseUrl::Retrieved;
    }
    match WebUrl::parse(given) {
        Some(u) => {
            if u.has_scheme("file") && !target.has_scheme("file") {
                BaseUrl::Retrieved
            } else {
                BaseUrl::Given(u)
            }
        },
        None => {
            if target.has_scheme("file") {
                BaseUrl::LocalPath
            } else {
                BaseUrl::Retrieved
            }
        },
    }
}

/// Whether a `/favicon.ico` is to be fetched and linked: only for a page
/// from the network, when images are allowed and the page links no icon.
pub fn wants_favicon(no_images: bool, target: &WebUrl, has_favicon: bool) -> (r: bool)
    ensures
        r == (!no_images && is_http(target.scheme@) && !has_favicon),
{
    !no_images && (target.has_scheme("http") || target.has_scheme("https")) && !has_favicon
}

/// Whether the output goes to standard output: no path, or `-`.
pub fn writes_to_stdout(file_path: &str) -> (r: bool)
    ensures
        r == (file_path@.len() == 0 || file_path@ == "-"@),
{
    proof {
        reveal_strlit("-");
    }
    let p = chars_of(file_path);
    if p.len() == 0 {
        return true;
    }
    let r = p.len() == 1 && p[0] == '-';
    proof {
        if r {
            assert(file_path@ =~= "-"@);
        }
    }
    r
}

/// The bytes as written out: a newline is added unless they end with one.
pub open spec fn with_newline(b: Seq<u8>) -> Seq<u8> {
    if b.len() > 0 && b.last() == 10 {
        b
    } else {
        b.push(10)
    }
}

/// The bytes to write: the output ends with a newline.
pub fn output_bytes(bytes: &[u8]) -> (r: Vec<u8>)
    ensures
        r@ == with_newline(bytes@),
{
    let mut r: Vec<u8> = Vec::new();
    let mut i: usize = 0;
    while i < bytes.len()
        invariant
            i <= bytes@.len(),
            r@ == bytes@.subrange(0, i as int),
        decreases bytes@.len() - i,
    {
        r.push(bytes[i]);
        i = i + 1;
        assert(r@ =~= bytes@.subrange(0, i as int));
    }
    assert(bytes@.subrange(0, bytes@.len() as int) =~= bytes@);
    if bytes.len() == 0 || bytes[bytes.len() - 1] != 10 {
        r.push(10);
    }
    r
}

/// The comment that heads a saved document: where and when it was saved,
/// and by which version.
pub open spec fn metadata_spec(url: Seq<char>, time: Seq<char>, version: Seq<char>) -> Seq<char> {
    "<!-- Saved from "@ + url + " at "@ + time + " using monolith v"@ + version + " -->"@
}

/// Composes the comment that heads a saved document.
pub fn create_metadata_tag(url: &WebUrl, time: &str, version: &str) -> (r: String)
    ensures
        r@ == metadata_spec(url.href@, time@, version@),
{
    let mut r = "<!-- Saved from ".to_owned();
    r.append(url.href.as_str());
    r.append(" at ");
    r.append(time);
    r.append(" using monolith v");
    r.append(version);
    r.append(" -->");
    r
}

} // verus!
