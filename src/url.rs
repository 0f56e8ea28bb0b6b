//! URLs as the library sees them, split into the parts that its rules read,
//! and the cleaning that turns a URL into a cache key.
use vstd::prelude::*;

verus! {

/// Whether `Url::parse` accepts the text.
pub uninterp spec fn url_parses(s: Seq<char>) -> bool;

/// What `Url::as_str` gives for the URL parsed from the text.
pub uninterp spec fn url_serialization(s: Seq<char>) -> Seq<char>;

/// What `Url::scheme` gives for the URL parsed from the text.
pub uninterp spec fn url_scheme(s: Seq<char>) -> Seq<char>;

/// What `Url::host_str` gives for the URL parsed from the text.
pub uninterp spec fn url_host(s: Seq<char>) -> Option<Seq<char>>;

/// What `Url::path` gives for the URL parsed from the text.
pub uninterp spec fn url_path(s: Seq<char>) -> Seq<char>;

/// What `Url::query` gives for the URL parsed from the text.
pub uninterp spec fn url_query(s: Seq<char>) -> Option<Seq<char>>;

/// What `Url::fragment` gives for the URL parsed from the text.
pub uninterp spec fn url_fragment(s: Seq<char>) -> Option<Seq<char>>;

/// An absolute URL: its full text and the parts of it that the library reads.
#[derive(Clone, Debug)]
pub struct WebUrl {
    pub href: String,
    pub scheme: String,
    pub host: Option<String>,
    pub path: String,
    pub query: Option<String>,
    pub fragment: Option<String>,
}

/// The view of an optional string.
pub open spec fn opt_view(o: Option<String>) -> Option<Seq<char>> {
    match o {
        Some(s) => Some(s@),
        None => None,
    }
}

/// A separator followed by the component, or nothing when it is absent.
pub open spec fn component(sep: char, o: Option<Seq<char>>) -> Seq<char> {
    match o {
        Some(x) => seq![sep] + x,
        None => Seq::empty(),
    }
}

impl WebUrl {
    /// Path, query and fragment, as they end the full text.
    pub open spec fn tail(self) -> Seq<char> {
        self.path@ + component('?', opt_view(self.query)) + component('#', opt_view(self.fragment))
    }

    /// The full text starts with the scheme and a colon and ends with the
    /// path, then `?` and the query, then `#` and the fragment.
    pub open spec fn wf(self) -> bool {
        let h = self.href@;
        let n = self.scheme@.len();
        let t = self.tail();
        &&& n + 1 + t.len() <= h.len()
        &&& h.subrange(0, n as int) == self.scheme@
        &&& h[n as int] == ':'
        &&& h.subrange(h.len() - t.len(), h.len() as int) == t
    }

    /// The parts are those that the URL parser gives for the text.
    pub open spec fn parsed_from(self, s: Seq<char>) -> bool {
        &&& self.wf()
        &&& self.href@ == url_serialization(s)
        &&& self.scheme@ == url_scheme(s)
        &&& opt_view(self.host) == url_host(s)
        &&& self.path@ == url_path(s)
        &&& opt_view(self.query) == url_query(s)
        &&& opt_view(self.fragment) == url_fragment(s)
    }

    /// Parses an absolute URL; `None` where the text is not one.
    pub fn parse(s: &str) -> (r: Option<WebUrl>)
        ensures
            r is Some <==> url_parses(s@),
            r matches Some(u) ==> u.parsed_from(s@),
    {
        parse_url(s)
    }

    /// Whether two URLs have the same parts.
    pub open spec fn same_as(self, o: WebUrl) -> bool {
        &&& self.href@ == o.href@
        &&& self.scheme@ == o.scheme@
        &&& opt_view(self.host) == opt_view(o.host)
        &&& self.path@ == o.path@
        &&& opt_view(self.query) == opt_view(o.query)
        &&& opt_view(self.fragment) == opt_view(o.fragment)
    }

    /// A copy of the URL.
    pub fn copy(&self) -> (r: WebUrl)
        ensures
            r.same_as(*self),
            self.wf() ==> r.wf(),
    {
        WebUrl {
            href: self.href.clone(),
            scheme: self.scheme.clone(),
            host: clone_opt(&self.host),
            path: self.path.clone(),
            query: clone_opt(&self.query),
            fragment: clone_opt(&self.fragment),
        }
    }

    /// Whether the scheme is the given one.
    pub fn has_scheme(&self, scheme: &str) -> (r: bool)
        ensures
            r == (self.scheme@ == scheme@),
    {
        crate::text::str_eq(self.scheme.as_str(), scheme)
    }
}

/// Relies on `url::Url::parse` and the getters `as_str`, `scheme`,
/// `host_str`, `path`, `query` and `fragment`. The serialization starts with
/// the scheme and `:`, and the query and fragment, each after its
/// separator, end it.
#[verifier::external_body]
fn parse_url(s: &str) -> (r: Option<WebUrl>)
    ensures
        r is Some <==> url_parses(s@),
        r matches Some(u) ==> u.wf(),
        r matches Some(u) ==> u.href@ == url_serialization(s@),
        r matches Some(u) ==> u.scheme@ == url_scheme(s@),
        r matches Some(u) ==> opt_view(u.host) == url_host(s@),
        r matches Some(u) ==> u.path@ == url_path(s@),
        r matches Some(u) ==> opt_view(u.query) == url_query(s@),
        r matches Some(u) ==> opt_view(u.fragment) == url_fragment(s@),
{
    match url::Url::parse(s) {
        Ok(u) => Some(WebUrl {
            href: u.as_str().to_string(),
            scheme: u.scheme().to_string(),
            host: u.host_str().map(|h| h.to_string()),
            path: u.path().to_string(),
            query: u.query().map(|q| q.to_string()),
            fragment: u.fragment().map(|f| f.to_string()),
        }),
        Err(_) => None,
    }
}

/// A copy of an optional string.
pub fn clone_opt(o: &Option<String>) -> (r: Option<String>)
    ensures
        opt_view(r) == opt_view(*o),
{
    match o {
        Some(x) => Some(x.clone()),
        None => None,
    }
}

/// The query that a cleaned URL keeps: an empty one is dropped.
pub open spec fn kept_query(q: Option<Seq<char>>) -> Option<Seq<char>> {
    match q {
        Some(x) => if x.len() == 0 { None } else { Some(x) },
        None => None,
    }
}

/// How many characters cleaning cuts off the end of the text: the fragment
/// with its `#`, and the `?` of an empty query.
pub open spec fn clean_cut(u: WebUrl) -> int {
    component('#', opt_view(u.fragment)).len() + (if opt_view(u.query) == Some(
        Seq::<char>::empty(),
    ) {
        1int
    } else {
        0int
    })
}

/// The text of the cleaned URL: the key under which the cache holds it.
pub open spec fn clean_key(u: WebUrl) -> Seq<char> {
    u.href@.subrange(0, u.href@.len() - clean_cut(u))
}

/// `r` is `u` without its fragment and without an empty query.
pub open spec fn is_cleaned(u: WebUrl, r: WebUrl) -> bool {
    &&& r.wf()
    &&& r.scheme@ == u.scheme@
    &&& opt_view(r.host) == opt_view(u.host)
    &&& r.path@ == u.path@
    &&& opt_view(r.query) == kept_query(opt_view(u.query))
    &&& r.fragment is None
    &&& r.href@ == clean_key(u)
}

/// Drops the fragment and an empty query; the result serves as a cache key.
pub fn clean_url(u: &WebUrl) -> (r: WebUrl)
    requires
        u.wf(),
    ensures
        is_cleaned(*u, r),
{
    let n = u.href.as_str().unicode_len();
    let mut cut: usize = 0;
    match &u.fragment {
        Some(f) => {
            cut = f.as_str().unicode_len() + 1;
        },
        None => {},
    }
    let mut query: Option<String> = None;
    match &u.query {
        Some(q) => {
            if q.as_str().unicode_len() == 0 {
                cut = cut + 1;
                assert(q@ =~= Seq::<char>::empty());
            } else {
                query = Some(q.clone());
                assert(opt_view(query) == opt_view(u.query));
            }
        },
        None => {},
    }
    let href = u.href.as_str().substring_char(0, n - cut).to_string();
    let r = WebUrl {
        href,
        scheme: u.scheme.clone(),
        host: clone_opt(&u.host),
        path: u.path.clone(),
        query,
        fragment: None,
    };
    proof {
        let h = u.href@;
        let t = u.tail();
        let ns = u.scheme@.len();
        assert(h.subrange(h.len() - t.len(), h.len() as int) == t);
        assert(r.tail() =~= t.subrange(0, t.len() - cut));
        assert(r.href@.subrange(r.href@.len() - r.tail().len(), r.href@.len() as int) =~= r.tail());
        assert(r.href@.subrange(0, ns as int) =~= h.subrange(0, ns as int));
        assert(r.href@ == u.href@.subrange(0, u.href@.len() - cut));
    }
    r
}

/// Cleaning twice gives what cleaning once gives, and a cleaned URL has no
/// fragment.
pub proof fn lemma_clean_idempotent(u: WebUrl, once: WebUrl, twice: WebUrl)
    requires
        u.wf(),
        is_cleaned(u, once),
        is_cleaned(once, twice),
    ensures
        once.fragment is None,
        twice.href@ == once.href@,
        twice.scheme@ == once.scheme@,
        opt_view(twice.host) == opt_view(once.host),
        twice.path@ == once.path@,
        opt_view(twice.query) == opt_view(once.query),
        twice.fragment is None,
{
    assert(once.href@.subrange(0, once.href@.len() as int) =~= once.href@);
}

/// What `Url::join` gives, as text, for a reference against the URL parsed
/// from the base text; `None` where either step fails.
pub uninterp spec fn url_join(base: Seq<char>, reference: Seq<char>) -> Option<Seq<char>>;

/// Relies on `url::Url::parse` of the base and `Url::join`: the reference
/// resolved against the base (RFC 3986), as text.
#[verifier::external_body]
fn join_text(base: &str, reference: &str) -> (r: Option<String>)
    ensures
        match r {
            Some(t) => url_join(base@, reference@) == Some(t@),
            None => url_join(base@, reference@) is None,
        },
{
    url::Url::parse(base).ok().and_then(|b| b.join(reference).ok()).map(|u| u.as_str().to_string())
}

/// Resolves a reference against a base URL; `None` where it makes no URL.
pub fn resolve_url(base: &WebUrl, reference: &str) -> (r: Option<WebUrl>)
    ensures
        match url_join(base.href@, reference@) {
            Some(t) => (r is Some <==> url_parses(t)) && (r matches Some(u) ==> u.parsed_from(t)),
            None => r is None,
        },
{
    match join_text(base.href.as_str(), reference) {
        Some(t) => WebUrl::parse(t.as_str()),
        None => None,
    }
}

/// A URL's fragment never reaches its cache key: two URLs that differ only
/// in their fragment (either may have none) have the same cleaned form.
pub proof fn lemma_fragment_ignored(u: WebUrl, v: WebUrl)
    requires
        u.wf(),
        v.wf(),
        u.href@.subrange(0, u.href@.len() - component('#', opt_view(u.fragment)).len())
            == v.href@.subrange(0, v.href@.len() - component('#', opt_view(v.fragment)).len()),
        opt_view(u.query) == opt_view(v.query),
    ensures
        clean_key(u) == clean_key(v),
{
    let a = u.href@.subrange(0, u.href@.len() - component('#', opt_view(u.fragment)).len());
    let q = if opt_view(u.query) == Some(Seq::<char>::empty()) {
        1int
    } else {
        0int
    };
    assert(clean_key(u) =~= a.subrange(0, a.len() - q));
    assert(clean_key(v) =~= a.subrange(0, a.len() - q));
}

} // verus!
