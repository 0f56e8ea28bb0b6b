//! Cookies read from a cookie file, and when they go with a request.
use vstd::prelude::*;
use crate::text::{
    chars_eq_ignore_case, chars_of, chars_start_with, eq_ignore_case, join, push_char, slice_chars,
    split, split_chars, starts_with, string_of, views,
};
use crate::url::{opt_view, url_host, url_parses, url_path, url_query, url_scheme, WebUrl};

verus! {

/// One cookie of a cookie file.
#[derive(Debug)]
pub struct Cookie {
    pub domain: String,
    pub tailmatch: bool,
    pub path: String,
    pub secure: bool,
    pub expiration: u64,
    pub name: String,
    pub value: String,
}

/// A cookie file that could not be read: a line with fewer than seven
/// fields, or an expiration that is not a number of seconds.
#[derive(Debug, Clone, Copy, PartialEq, Eq, Structural)]
pub struct ParseCookieError {}

/// The line without a trailing carriage return.
pub open spec fn strip_cr(l: Seq<char>) -> Seq<char> {
    if l.len() > 0 && l.last() == '\r' {
        l.drop_last()
    } else {
        l
    }
}

/// Whether a line holds a cookie: it is neither blank nor a comment.
pub open spec fn is_cookie_line(l: Seq<char>) -> bool {
    l.len() > 0 && l[0] != '#'
}

/// The lines of the file, without carriage returns.
pub open spec fn file_lines(s: Seq<char>) -> Seq<Seq<char>> {
    split(s, '\n').map_values(|l: Seq<char>| strip_cr(l))
}

/// The test that keeps the lines that hold cookies.
pub open spec fn keep_line() -> spec_fn(Seq<char>) -> bool {
    |l: Seq<char>| is_cookie_line(l)
}

/// The lines of the file that hold cookies, in order.
pub open spec fn cookie_lines(s: Seq<char>) -> Seq<Seq<char>> {
    file_lines(s).filter(keep_line())
}

/// Whether the character is an ASCII digit.
pub open spec fn is_digit_char(c: char) -> bool {
    '0' <= c <= '9'
}

/// The number that the digits spell.
pub open spec fn digits_value(s: Seq<char>) -> int
    decreases s.len(),
{
    if s.len() == 0 {
        0
    } else {
        digits_value(s.drop_last()) * 10 + (s.last() as int - '0' as int)
    }
}

/// Whether the text is a number of seconds: digits only, at least one, and
/// small enough for a `u64`.
pub open spec fn is_seconds(s: Seq<char>) -> bool {
    &&& s.len() > 0
    &&& forall|i: int| 0 <= i < s.len() ==> is_digit_char(#[trigger] s[i])
    &&& digits_value(s) <= u64::MAX
}

/// The value without surrounding double quotes, when it has them.
pub open spec fn dequote(v: Seq<char>) -> Seq<char> {
    if v.len() >= 2 && v[0] == '"' && v.last() == '"' {
        v.subrange(1, v.len() - 1)
    } else {
        v
    }
}

/// Whether a cookie line is well formed: seven tab-separated fields at
/// least, the fifth a number of seconds.
pub open spec fn line_ok(l: Seq<char>) -> bool {
    let f = split(l, '\t');
    f.len() >= 7 && is_seconds(f[4])
}

impl Cookie {
    /// The cookie that a well-formed line describes.
    pub open spec fn from_line(self, l: Seq<char>) -> bool {
        let f = split(l, '\t');
        &&& self.domain@ == f[0]
        &&& self.tailmatch == (f[1] == "TRUE"@)
        &&& self.path@ == f[2]
        &&& self.secure == (f[3] == "TRUE"@)
        &&& self.expiration as int == digits_value(f[4])
        &&& self.name@ == f[5]
        &&& self.value@ == dequote(f[6])
    }

    /// Whether the cookie has expired at the given time, in seconds since the
    /// Unix epoch.
    pub fn is_expired(&self, now: u64) -> (r: bool)
        ensures
            r == (self.expiration < now),
    {
        self.expiration < now
    }
}

proof fn lemma_digits_grow(s: Seq<char>, i: int)
    requires
        0 <= i <= s.len(),
        forall|j: int| 0 <= j < s.len() ==> is_digit_char(#[trigger] s[j]),
    ensures
        digits_value(s) >= digits_value(s.subrange(0, i)),
        digits_value(s.subrange(0, i)) >= 0,
    decreases s.len(),
{
    if s.len() > 0 {
        if i == s.len() {
            assert(s.subrange(0, i) =~= s);
            lemma_digits_grow(s.drop_last(), 0);
        } else {
            lemma_digits_grow(s.drop_last(), i);
            assert(s.drop_last().subrange(0, i) =~= s.subrange(0, i));
        }
    } else {
        assert(s.subrange(0, i) =~= s);
    }
}

/// Reads a number of seconds; `None` where the text is not one.
fn parse_seconds(s: &[char]) -> (r: Option<u64>)
    ensures
        r is Some <==> is_seconds(s@),
        r matches Some(v) ==> v as int == digits_value(s@),
{
    let n = s.len();
    if n == 0 {
        return None;
    }
    let mut acc: u64 = 0;
    let mut i: usize = 0;
    while i < n
        invariant
            i <= n == s@.len(),
            forall|j: int| 0 <= j < i ==> is_digit_char(#[trigger] s@[j]),
            acc as int == digits_value(s@.subrange(0, i as int)),
        decreases n - i,
    {
        let c = s[i];
        assert(s@.subrange(0, i + 1).drop_last() =~= s@.subrange(0, i as int));
        if !('0' <= c && c <= '9') {
            return None;
        }
        let d = (c as u32 - '0' as u32) as u64;
        if acc > (u64::MAX - d) / 10 {
            proof {
                assert(acc * 10 + d > u64::MAX) by (nonlinear_arith)
                    requires
                        acc > (u64::MAX - d) / 10,
                        d <= 9,
                ;
                if forall|j: int| 0 <= j < n ==> is_digit_char(#[trigger] s@[j]) {
                    lemma_digits_grow(s@, i + 1);
                }
            }
            return None;
        }
        proof {
            assert(acc * 10 + d <= u64::MAX) by (nonlinear_arith)
                requires
                    acc <= (u64::MAX - d) / 10,
                    d <= 9,
            ;
        }
        acc = acc * 10 + d;
        i = i + 1;
    }
    assert(s@.subrange(0, n as int) =~= s@);
    Some(acc)
}

fn dequote_chars(v: &[char]) -> (r: Vec<char>)
    ensures
        r@ == dequote(v@),
{
    let n = v.len();
    if n >= 2 && v[0] == '"' && v[n - 1] == '"' {
        slice_chars(v, 1, n - 1)
    } else {
        slice_chars(v, 0, n)
    }
}

fn is_true(f: &[char]) -> (r: bool)
    ensures
        r == (f@ == "TRUE"@),
{
    let t = chars_of("TRUE");
    if f.len() != t.len() {
        return false;
    }
    let mut i: usize = 0;
    while i < f.len()
        invariant
            f@.len() == t@.len(),
            t@ == "TRUE"@,
            i <= f@.len(),
            forall|j: int| 0 <= j < i ==> f@[j] == t@[j],
        decreases f@.len() - i,
    {
        if f[i] != t[i] {
            return false;
        }
        i = i + 1;
    }
    assert(f@ =~= t@);
    true
}

/// The cookie that one line describes; `None` where the line is malformed.
fn parse_line(line: &[char]) -> (r: Option<Cookie>)
    ensures
        r is Some <==> line_ok(line@),
        r matches Some(c) ==> c.from_line(line@),
{
    let fields = split_chars(line, '\t');
    let ghost fs = views(fields@);
    if fields.len() < 7 {
        return None;
    }
    assert(forall|i: int| 0 <= i < 7 ==> fs[i] == (#[trigger] fields@[i])@);
    let expiration = match parse_seconds(fields[4].as_slice()) {
        Some(e) => e,
        None => {
            return None;
        },
    };
    let value = dequote_chars(fields[6].as_slice());
    Some(
        Cookie {
            domain: string_of(&fields[0]),
            tailmatch: is_true(fields[1].as_slice()),
            path: string_of(&fields[2]),
            secure: is_true(fields[3].as_slice()),
            expiration,
            name: string_of(&fields[5]),
            value: string_of(&value),
        },
    )
}

fn strip_cr_chars(l: &[char]) -> (r: Vec<char>)
    ensures
        r@ == strip_cr(l@),
{
    let n = l.len();
    if n > 0 && l[n - 1] == '\r' {
        slice_chars(l, 0, n - 1)
    } else {
        slice_chars(l, 0, n)
    }
}

/// Reads a cookie file: one cookie per line, seven tab-separated fields
/// (domain, tail match, path, secure, expiration, name, value); blank lines
/// and lines that start with `#` are skipped. `TRUE` sets a flag, any other
/// text clears it; double quotes around the value are dropped. Fails when a
/// cookie line is malformed.
pub fn parse_cookies(file_contents: &str) -> (r: Result<Vec<Cookie>, ParseCookieError>)
    ensures
        r is Ok <==> forall|i: int|
            0 <= i < cookie_lines(file_contents@).len() ==> line_ok(
                #[trigger] cookie_lines(file_contents@)[i],
            ),
        r matches Ok(v) ==> v@.len() == cookie_lines(file_contents@).len() && forall|i: int|
            0 <= i < v@.len() ==> (#[trigger] v@[i]).from_line(cookie_lines(file_contents@)[i]),
{
    broadcast use Seq::lemma_filter_push;

    let chars = chars_of(file_contents);
    let lines = split_chars(chars.as_slice(), '\n');
    let ghost ls = views(lines@);
    let ghost stripped = file_lines(file_contents@);
    let ghost keep = keep_line();
    let mut cookies: Vec<Cookie> = Vec::new();
    let mut i: usize = 0;
    proof {
        reveal(Seq::filter);
        assert(stripped.subrange(0, 0).filter(keep) =~= Seq::<Seq<char>>::empty());
    }
    while i < lines.len()
        invariant
            ls == views(lines@),
            stripped == file_lines(file_contents@),
            ls == split(file_contents@, '\n'),
            keep == keep_line(),
            i <= ls.len(),
            cookies@.len() == stripped.subrange(0, i as int).filter(keep).len(),
            forall|j: int|
                0 <= j < cookies@.len() ==> (#[trigger] cookies@[j]).from_line(
                    stripped.subrange(0, i as int).filter(keep)[j],
                ),
            forall|j: int|
                0 <= j < stripped.subrange(0, i as int).filter(keep).len() ==> line_ok(
                    #[trigger] stripped.subrange(0, i as int).filter(keep)[j],
                ),
        decreases ls.len() - i,
    {
        let line = strip_cr_chars(lines[i].as_slice());
        assert(ls[i as int] == lines@[i as int]@);
        assert(stripped[i as int] == line@);
        assert(stripped.subrange(0, i + 1) =~= stripped.subrange(0, i as int).push(line@));
        if line.len() > 0 && line[0] != '#' {
            proof {
                let front = stripped.subrange(0, i as int);
                assert(keep(line@));
                front.lemma_filter_push(line@, keep);
                assert(front.push(line@).filter(keep) == front.filter(keep).push(line@));
            }
            match parse_line(line.as_slice()) {
                Some(c) => {
                    cookies.push(c);
                },
                None => {
                    proof {
                        let front = stripped.subrange(0, i as int);
                        assert(keep(line@));
                        front.lemma_filter_push(line@, keep);
                assert(front.push(line@).filter(keep) == front.filter(keep).push(line@));
                        let pre = stripped.subrange(0, i + 1);
                        let k = front.filter(keep).len() as int;
                        assert(pre.filter(keep)[k] == line@);
                        lemma_filter_prefix(stripped, i + 1, keep, k);
                        assert(cookie_lines(file_contents@)[k] == line@);
                        assert(!line_ok(cookie_lines(file_contents@)[k]));
                    }
                    return Err(ParseCookieError {});
                },
            }
        } else {
            proof {
                let front = stripped.subrange(0, i as int);
                assert(!keep(line@));
                front.lemma_filter_push(line@, keep);
                assert(front.push(line@).filter(keep) == front.filter(keep));
            }
        }
        i = i + 1;
    }
    assert(stripped.subrange(0, ls.len() as int) =~= stripped);
    assert(split(chars@, '\n') == ls);
    Ok(cookies)
}

/// What the filter keeps of a prefix it keeps of the whole, in the same
/// places.
proof fn lemma_filter_prefix(s: Seq<Seq<char>>, n: int, keep: spec_fn(Seq<char>) -> bool, k: int)
    requires
        0 <= n <= s.len(),
        0 <= k < s.subrange(0, n).filter(keep).len(),
    ensures
        k < s.filter(keep).len(),
        s.filter(keep)[k] == s.subrange(0, n).filter(keep)[k],
    decreases s.len() - n,
{
    broadcast use Seq::lemma_filter_push;

    if n < s.len() {
        assert(s.subrange(0, n + 1) =~= s.subrange(0, n).push(s[n]));
        lemma_filter_prefix(s, n + 1, keep, k);
    } else {
        assert(s.subrange(0, n) =~= s);
    }
}

/// Whether a host is the cookie's domain, in any case, or, for a cookie
/// that matches subdomains, ends with a dot and the domain.
pub open spec fn host_matches(host: Seq<char>, domain: Seq<char>, tailmatch: bool) -> bool {
    ||| eq_ignore_case(host, domain)
    ||| (tailmatch && host.len() > domain.len() && host[host.len() - domain.len() - 1] == '.'
        && eq_ignore_case(host.subrange(host.len() - domain.len(), host.len() as int), domain))
}

impl Cookie {
    /// Whether the cookie goes with a request, at the given time, to a URL
    /// with these parts: the cookie has not expired; `https`, or `http` for a
    /// cookie that is not secure; a host that the domain matches; a path that
    /// starts with the cookie's path.
    pub open spec fn matches_parts(
        self,
        scheme: Seq<char>,
        host: Option<Seq<char>>,
        path: Seq<char>,
        now: u64,
    ) -> bool {
        &&& !(self.expiration < now)
        &&& (scheme == "https"@ || (scheme == "http"@ && !self.secure))
        &&& host matches Some(h) && host_matches(h, self.domain@, self.tailmatch)
        &&& starts_with(path, self.path@)
    }

    /// Whether the cookie goes with a request to the URL at the given time,
    /// in seconds since the Unix epoch.
    pub fn matches_web_url(&self, url: &WebUrl, now: u64) -> (r: bool)
        ensures
            r == self.matches_parts(url.scheme@, opt_view(url.host), url.path@, now),
    {
        if self.is_expired(now) {
            return false;
        }
        let scheme_ok = url.has_scheme("https") || (url.has_scheme("http") && !self.secure);
        if !scheme_ok {
            return false;
        }
        let host = match &url.host {
            Some(h) => chars_of(h.as_str()),
            None => {
                return false;
            },
        };
        let domain = chars_of(self.domain.as_str());
        let mut host_ok = chars_eq_ignore_case(host.as_slice(), domain.as_slice());
        if !host_ok && self.tailmatch && host.len() > domain.len() {
            let k = host.len() - domain.len();
            if host[k - 1] == '.' {
                let tail = slice_chars(host.as_slice(), k, host.len());
                host_ok = chars_eq_ignore_case(tail.as_slice(), domain.as_slice());
            }
        }
        if !host_ok {
            return false;
        }
        let path = chars_of(url.path.as_str());
        let prefix = chars_of(self.path.as_str());
        chars_start_with(path.as_slice(), prefix.as_slice())
    }

    /// Whether the cookie goes with a request to the URL given as text, at
    /// the given time; a text that is not a URL matches no cookie.
    pub fn matches_url(&self, url: &str, now: u64) -> (r: bool)
        ensures
            r == (url_parses(url@) && self.matches_parts(
                url_scheme(url@),
                url_host(url@),
                url_path(url@),
                now,
            )),
    {
        match WebUrl::parse(url) {
            Some(u) => self.matches_web_url(&u, now),
            None => false,
        }
    }

    /// The text of the URL whose query carries the cookie's name and value.
    pub open spec fn query_url(self) -> Seq<char> {
        "https://example.com/?"@ + self.name@ + seq!['='] + self.value@
    }

    /// The cookie's name and value as the query of a URL encodes them;
    /// `None` where they make no URL with a query.
    pub fn encoded(&self) -> (r: Option<String>)
        ensures
            r is Some <==> url_parses(self.query_url()) && url_query(self.query_url()) is Some,
            r matches Some(q) ==> Some(q@) == url_query(self.query_url()),
    {
        let mut text = "https://example.com/?".to_owned();
        text.append(self.name.as_str());
        push_char(&mut text, '=');
        text.append(self.value.as_str());
        assert(text@ =~= self.query_url());
        match WebUrl::parse(text.as_str()) {
            Some(u) => u.query,
            None => None,
        }
    }
}

/// The `name=value` pieces of the cookies that go with a request to the URL
/// at the given time: unexpired and matching, in order.
pub open spec fn header_pieces(cookies: Seq<Cookie>, url: WebUrl, now: u64) -> Seq<Seq<char>>
    decreases cookies.len(),
{
    if cookies.len() == 0 {
        Seq::empty()
    } else {
        let c = cookies.last();
        let front = header_pieces(cookies.drop_last(), url, now);
        if c.matches_parts(url.scheme@, opt_view(url.host), url.path@, now) {
            front.push(c.name@ + seq!['='] + c.value@)
        } else {
            front
        }
    }
}

/// The value of the `Cookie` header for a request to the URL: the
/// `name=value` pairs of the unexpired cookies that match it, joined by `; `.
pub fn cookie_header(cookies: &[Cookie], url: &WebUrl, now: u64) -> (r: String)
    ensures
        r@ == join(header_pieces(cookies@, *url, now), "; "@),
{
    let mut r = String::new();
    let ghost mut pieces: Seq<Seq<char>> = Seq::empty();
    let mut i: usize = 0;
    assert(cookies@.subrange(0, 0) =~= Seq::<Cookie>::empty());
    assert(r@ =~= Seq::<char>::empty());
    while i < cookies.len()
        invariant
            i <= cookies@.len(),
            pieces == header_pieces(cookies@.subrange(0, i as int), *url, now),
            r@ == join(pieces, "; "@),
            r@.len() == 0 <==> pieces.len() == 0,
        decreases cookies@.len() - i,
    {
        let c = &cookies[i];
        assert(cookies@.subrange(0, i + 1).drop_last() =~= cookies@.subrange(0, i as int));
        if c.matches_web_url(url, now) {
            let ghost before = r@;
            if r.unicode_len() > 0 {
                r.append("; ");
            }
            r.append(c.name.as_str());
            push_char(&mut r, '=');
            r.append(c.value.as_str());
            let ghost piece = c.name@ + seq!['='] + c.value@;
            proof {
                assert(pieces.push(piece).drop_last() =~= pieces);
                if pieces.len() == 0 {
                    assert(before =~= Seq::<char>::empty());
                    assert(r@ =~= piece);
                } else {
                    assert(r@ =~= before + "; "@ + piece);
                }
                pieces = pieces.push(piece);
                reveal_strlit("; ");
            }
        }
        i = i + 1;
    }
    assert(cookies@.subrange(0, cookies@.len() as int) =~= cookies@);
    r
}

} // verus!
