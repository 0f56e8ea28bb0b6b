//! Data URLs: `data:<media type>[;charset=<cs>];base64,<text>` and the
//! percent-encoded form.
use vstd::prelude::*;
use crate::base64::{decode, decode_spec, encode, encode_spec, is_digit, is_valid, lemma_round_trip};
use crate::text::{
    chars_eq_ignore_case, chars_of, chars_start_with, eq_ignore_ascii_case, eq_ignore_case, find,
    find_from, lemma_find_bounds, push_char, slice_chars, split, split_chars, starts_with,
    string_of, views,
};
use crate::url::WebUrl;

verus! {

/// The UTF-8 encoding of one character: one to four bytes by the size of its
/// code point.
pub open spec fn char_bytes(c: char) -> Seq<u8> {
    let v = c as u32;
    if v < 0x80 {
        seq![v as u8]
    } else if v < 0x800 {
        seq![(0xC0 | (v >> 6)) as u8, (0x80 | (v & 0x3F)) as u8]
    } else if v < 0x10000 {
        seq![(0xE0 | (v >> 12)) as u8, (0x80 | ((v >> 6) & 0x3F)) as u8, (0x80 | (v & 0x3F)) as u8]
    } else {
        seq![
            (0xF0 | (v >> 18)) as u8,
            (0x80 | ((v >> 12) & 0x3F)) as u8,
            (0x80 | ((v >> 6) & 0x3F)) as u8,
            (0x80 | (v & 0x3F)) as u8,
        ]
    }
}

fn char_bytes_of(c: char) -> (r: Vec<u8>)
    ensures
        r@ == char_bytes(c),
{
    let v = c as u32;
    if v < 0x80 {
        vec![v as u8]
    } else if v < 0x800 {
        vec![(0xC0 | (v >> 6)) as u8, (0x80 | (v & 0x3F)) as u8]
    } else if v < 0x10000 {
        vec![(0xE0 | (v >> 12)) as u8, (0x80 | ((v >> 6) & 0x3F)) as u8, (0x80 | (v & 0x3F)) as u8]
    } else {
        vec![
            (0xF0 | (v >> 18)) as u8,
            (0x80 | ((v >> 12) & 0x3F)) as u8,
            (0x80 | ((v >> 6) & 0x3F)) as u8,
            (0x80 | (v & 0x3F)) as u8,
        ]
    }
}

/// The UTF-8 bytes of a character sequence.
pub open spec fn utf8_bytes(s: Seq<char>) -> Seq<u8>
    decreases s.len(),
{
    if s.len() == 0 {
        Seq::empty()
    } else {
        char_bytes(s[0]) + utf8_bytes(s.drop_first())
    }
}

/// Whether the byte is an ASCII hexadecimal digit.
pub open spec fn is_hex(b: u8) -> bool {
    (48 <= b <= 57) || (65 <= b <= 70) || (97 <= b <= 102)
}

/// The value of a hexadecimal digit.
pub open spec fn hex_value(b: u8) -> u8 {
    if 48 <= b <= 57 {
        (b - 48) as u8
    } else if 65 <= b <= 70 {
        (b - 55) as u8
    } else {
        (b - 87) as u8
    }
}

/// Each `%` followed by two hexadecimal digits becomes the byte they spell;
/// every other byte stays.
pub open spec fn percent_decode(b: Seq<u8>) -> Seq<u8>
    decreases b.len(),
{
    if b.len() == 0 {
        Seq::empty()
    } else if b.len() >= 3 && b[0] == 37 && is_hex(b[1]) && is_hex(b[2]) {
        seq![(hex_value(b[1]) * 16 + hex_value(b[2])) as u8] + percent_decode(
            b.subrange(3, b.len() as int),
        )
    } else {
        seq![b[0]] + percent_decode(b.drop_first())
    }
}

/// The media-type parameters of a data URL's path: what stands before the
/// first comma, split at `;`.
pub open spec fn data_meta(path: Seq<char>) -> Seq<Seq<char>> {
    split(path.subrange(0, find(path, ',')), ';')
}

/// The payload of a data URL's path: what follows the first comma.
pub open spec fn data_body(path: Seq<char>) -> Seq<char> {
    let k = find(path, ',');
    if 0 <= k < path.len() {
        path.subrange(k + 1, path.len() as int)
    } else {
        Seq::empty()
    }
}

/// The media type: the first parameter, `text/plain` when it is empty.
pub open spec fn data_media_type(path: Seq<char>) -> Seq<char> {
    let m = data_meta(path)[0];
    if m.len() == 0 {
        "text/plain"@
    } else {
        m
    }
}

/// The value of the last `charset=` parameter after the first, `US-ASCII`
/// when there is none.
pub open spec fn charset_in(params: Seq<Seq<char>>) -> Seq<char>
    decreases params.len(),
{
    if params.len() <= 1 {
        "US-ASCII"@
    } else if starts_with(params.last(), "charset="@) {
        params.last().subrange("charset="@.len() as int, params.last().len() as int)
    } else {
        charset_in(params.drop_last())
    }
}

/// The charset of a data URL's path.
pub open spec fn data_charset(path: Seq<char>) -> Seq<char> {
    charset_in(data_meta(path))
}

/// Whether a parameter after the first is `base64`, in any case.
pub open spec fn is_base64(params: Seq<Seq<char>>) -> bool {
    exists|i: int| 1 <= i < params.len() && eq_ignore_case(#[trigger] params[i], "base64"@)
}

/// The payload after percent-decoding.
pub open spec fn data_raw(path: Seq<char>) -> Seq<u8> {
    percent_decode(utf8_bytes(data_body(path)))
}

/// Whether the payload can be read: it is not marked base64, or it is valid
/// base64.
pub open spec fn data_decodes(path: Seq<char>) -> bool {
    !is_base64(data_meta(path)) || is_valid(data_raw(path))
}

/// The bytes that a data URL's path carries: the percent-decoded payload,
/// then base64-decoded when the parameters say so.
pub open spec fn data_bytes(path: Seq<char>) -> Seq<u8> {
    if is_base64(data_meta(path)) {
        decode_spec(data_raw(path))
    } else {
        data_raw(path)
    }
}

/// The characters whose codes are the given bytes.
pub open spec fn ascii_text(b: Seq<u8>) -> Seq<char> {
    b.map_values(|x: u8| x as char)
}

/// Whether the charset is left out of a data URL: empty, or `US-ASCII` in
/// any case.
pub open spec fn omits_charset(cs: Seq<char>) -> bool {
    cs.len() == 0 || eq_ignore_case(cs, "US-ASCII"@)
}

/// The path of the data URL built from a media type, a charset and bytes.
pub open spec fn data_url_path(mt: Seq<char>, cs: Seq<char>, data: Seq<u8>) -> Seq<char> {
    mt + (if omits_charset(cs) {
        Seq::empty()
    } else {
        ";charset="@ + cs
    }) + ";base64,"@ + ascii_text(encode_spec(data))
}

fn utf8_bytes_of(s: &[char]) -> (r: Vec<u8>)
    ensures
        r@ == utf8_bytes(s@),
{
    let n = s.len();
    let mut r: Vec<u8> = Vec::new();
    let mut i: usize = 0;
    assert(s@.subrange(0, n as int) =~= s@);
    assert(r@ + utf8_bytes(s@) =~= utf8_bytes(s@));
    while i < n
        invariant
            i <= n == s@.len(),
            r@ + utf8_bytes(s@.subrange(i as int, n as int)) == utf8_bytes(s@),
        decreases n - i,
    {
        let mut b = char_bytes_of(s[i]);
        let ghost rest = s@.subrange(i as int, n as int);
        assert(rest.drop_first() =~= s@.subrange(i + 1, n as int));
        let ghost before = r@;
        r.append(&mut b);
        assert(r@ + utf8_bytes(s@.subrange(i + 1, n as int)) =~= before + utf8_bytes(rest));
        i = i + 1;
    }
    assert(utf8_bytes(s@.subrange(n as int, n as int)) =~= Seq::<u8>::empty());
    assert(r@ + Seq::<u8>::empty() =~= r@);
    r
}

fn is_hex_byte(b: u8) -> (r: bool)
    ensures
        r == is_hex(b),
{
    (48 <= b && b <= 57) || (65 <= b && b <= 70) || (97 <= b && b <= 102)
}

fn hex_value_of(b: u8) -> (r: u8)
    requires
        is_hex(b),
    ensures
        r == hex_value(b),
        r < 16,
{
    if 48 <= b && b <= 57 {
        b - 48
    } else if 65 <= b && b <= 70 {
        b - 55
    } else {
        b - 87
    }
}

/// Replaces each `%` and two hexadecimal digits by the byte they spell.
pub fn percent_decode_bytes(b: &[u8]) -> (r: Vec<u8>)
    ensures
        r@ == percent_decode(b@),
{
    let n = b.len();
    let mut r: Vec<u8> = Vec::new();
    let mut i: usize = 0;
    assert(b@.subrange(0, n as int) =~= b@);
    assert(r@ + percent_decode(b@) =~= percent_decode(b@));
    while i < n
        invariant
            i <= n == b@.len(),
            r@ + percent_decode(b@.subrange(i as int, n as int)) == percent_decode(b@),
        decreases n - i,
    {
        let ghost rest = b@.subrange(i as int, n as int);
        let ghost before = r@;
        if n - i > 2 && b[i] == 37 && is_hex_byte(b[i + 1]) && is_hex_byte(b[i + 2]) {
            let v = hex_value_of(b[i + 1]) * 16 + hex_value_of(b[i + 2]);
            r.push(v);
            assert(rest.subrange(3, rest.len() as int) =~= b@.subrange(i + 3, n as int));
            i = i + 3;
        } else {
            r.push(b[i]);
            assert(rest.drop_first() =~= b@.subrange(i + 1, n as int));
            i = i + 1;
        }
        assert(r@ + percent_decode(b@.subrange(i as int, n as int)) =~= before + percent_decode(
            rest,
        ));
    }
    assert(percent_decode(b@.subrange(n as int, n as int)) =~= Seq::<u8>::empty());
    assert(r@ + Seq::<u8>::empty() =~= r@);
    r
}

proof fn lemma_split_nonempty(s: Seq<char>, sep: char)
    ensures
        split(s, sep).len() >= 1,
{
}

/// Reads a data URL: its media type, its charset and the bytes it carries.
/// The media type defaults to `text/plain` and the charset to `US-ASCII`.
/// `None` where the payload is marked base64 but is not valid base64.
pub fn parse_data_url(url: &WebUrl) -> (r: Option<(String, String, Vec<u8>)>)
    ensures
        r is Some <==> data_decodes(url.path@),
        r matches Some(t) ==> t.0@ == data_media_type(url.path@) && t.1@ == data_charset(
            url.path@,
        ) && t.2@ == data_bytes(url.path@),
{
    let path = chars_of(url.path.as_str());
    let n = path.len();
    let k = find_from(path.as_slice(), 0, ',');
    assert(path@.subrange(0, n as int) =~= path@);
    proof {
        lemma_find_bounds(path@, ',');
    }
    let meta = slice_chars(path.as_slice(), 0, k);
    let body = if k < n {
        slice_chars(path.as_slice(), k + 1, n)
    } else {
        Vec::new()
    };
    assert(body@ =~= data_body(path@));
    let params = split_chars(meta.as_slice(), ';');
    let ghost ps = views(params@);
    proof {
        lemma_split_nonempty(meta@, ';');
    }
    assert(ps[0] == params@[0]@);
    let media_type = if params[0].len() == 0 {
        "text/plain".to_owned()
    } else {
        string_of(&params[0])
    };
    let charset_key = chars_of("charset=");
    let base64_word = chars_of("base64");
    let mut charset = "US-ASCII".to_owned();
    let mut base64 = false;
    let mut i: usize = 1;
    assert(ps.subrange(0, 1).len() == 1);
    while i < params.len()
        invariant
            ps == views(params@),
            ps.len() >= 1,
            1 <= i <= ps.len(),
            charset_key@ == "charset="@,
            base64_word@ == "base64"@,
            charset@ == charset_in(ps.subrange(0, i as int)),
            base64 == exists|j: int| 1 <= j < i && eq_ignore_case(#[trigger] ps[j], "base64"@),
        decreases ps.len() - i,
    {
        let p = &params[i];
        assert(ps[i as int] == p@);
        let ghost pre = ps.subrange(0, i + 1);
        assert(pre.drop_last() =~= ps.subrange(0, i as int));
        assert(pre.last() == p@);
        if chars_start_with(p.as_slice(), charset_key.as_slice()) {
            let v = slice_chars(p.as_slice(), charset_key.len(), p.len());
            charset = string_of(&v);
        }
        if chars_eq_ignore_case(p.as_slice(), base64_word.as_slice()) {
            base64 = true;
        }
        i = i + 1;
    }
    assert(ps.subrange(0, ps.len() as int) =~= ps);
    let bytes = utf8_bytes_of(body.as_slice());
    let raw = percent_decode_bytes(bytes.as_slice());
    let data = if base64 {
        match decode(raw.as_slice()) {
            Some(v) => v,
            None => {
                return None;
            },
        }
    } else {
        raw
    };
    Some((media_type, charset, data))
}

/// Builds the data URL that carries the bytes. An empty media type is left
/// out, and so is a charset that is empty or `US-ASCII`. The URL that the
/// bytes were fetched from plays no part in the result.
pub fn create_data_url(media_type: &str, charset: &str, data: &[u8], final_url: &WebUrl) -> (r:
    WebUrl)
    requires
        data@.len() <= usize::MAX / 2,
    ensures
        r.wf(),
        r.scheme@ == "data"@,
        r.path@ == data_url_path(media_type@, charset@, data@),
        r.href@ == "data:"@ + data_url_path(media_type@, charset@, data@),
        r.host is None,
        r.query is None,
        r.fragment is None,
{
    let mut path = media_type.to_owned();
    if !(charset.unicode_len() == 0 || eq_ignore_ascii_case(charset, "US-ASCII")) {
        path.append(";charset=");
        path.append(charset);
    }
    path.append(";base64,");
    let text = encode(data);
    let ghost start = path@;
    let mut i: usize = 0;
    while i < text.len()
        invariant
            i <= text@.len(),
            path@ == start + ascii_text(text@.subrange(0, i as int)),
        decreases text@.len() - i,
    {
        push_char(&mut path, text[i] as char);
        i = i + 1;
        assert(path@ =~= start + ascii_text(text@.subrange(0, i as int)));
    }
    assert(text@.subrange(0, text@.len() as int) =~= text@);
    let mut href = "data:".to_owned();
    href.append(path.as_str());
    let r = WebUrl {
        href,
        scheme: "data".to_owned(),
        host: None,
        path,
        query: None,
        fragment: None,
    };
    proof {
        reveal_strlit("data:");
        reveal_strlit("data");
        assert(r.tail() =~= r.path@);
        assert(r.href@.subrange(0, 4) =~= r.scheme@);
        assert(r.href@.subrange(r.href@.len() - r.tail().len(), r.href@.len() as int) =~= r.tail());
    }
    r
}

proof fn lemma_find_concat(a: Seq<char>, b: Seq<char>, c: char)
    requires
        forall|j: int| 0 <= j < a.len() ==> a[j] != c,
    ensures
        find(a + b, c) == a.len() + find(b, c),
    decreases a.len(),
{
    if a.len() > 0 {
        assert((a + b).drop_first() =~= a.drop_first() + b);
        lemma_find_concat(a.drop_first(), b, c);
    } else {
        assert(a + b =~= b);
    }
}

proof fn lemma_split_one(x: Seq<char>, sep: char)
    requires
        forall|j: int| 0 <= j < x.len() ==> x[j] != sep,
    ensures
        split(x, sep) == seq![x],
{
    lemma_find_concat(x, Seq::empty(), sep);
    assert(x + Seq::<char>::empty() =~= x);
}

proof fn lemma_split_front(x: Seq<char>, y: Seq<char>, sep: char)
    requires
        forall|j: int| 0 <= j < x.len() ==> x[j] != sep,
    ensures
        split(x + seq![sep] + y, sep) == seq![x] + split(y, sep),
{
    let s = x + seq![sep] + y;
    assert(s =~= x + (seq![sep] + y));
    lemma_find_concat(x, seq![sep] + y, sep);
    assert(find(seq![sep] + y, sep) == 0);
    assert(s.subrange(0, x.len() as int) =~= x);
    assert(s.subrange(x.len() as int + 1, s.len() as int) =~= y);
}

proof fn lemma_ascii_bytes(b: Seq<u8>)
    requires
        forall|i: int| 0 <= i < b.len() ==> #[trigger] b[i] < 128,
    ensures
        utf8_bytes(ascii_text(b)) == b,
    decreases b.len(),
{
    if b.len() > 0 {
        let t = ascii_text(b);
        assert(t.drop_first() =~= ascii_text(b.drop_first()));
        lemma_ascii_bytes(b.drop_first());
        assert(t[0] == b[0] as char);
        assert((b[0] as char) as u32 == b[0] as u32);
        assert((((b[0] as char) as u32) as u8) == b[0]);
        assert(utf8_bytes(t) =~= b);
    } else {
        assert(utf8_bytes(ascii_text(b)) =~= b);
    }
}

proof fn lemma_percent_plain(b: Seq<u8>)
    requires
        forall|i: int| 0 <= i < b.len() ==> #[trigger] b[i] != 37,
    ensures
        percent_decode(b) == b,
    decreases b.len(),
{
    if b.len() > 0 {
        lemma_percent_plain(b.drop_first());
        assert(percent_decode(b) =~= b);
    } else {
        assert(percent_decode(b) =~= b);
    }
}

/// Reading the data URL built from a media type, a charset and bytes gives
/// them back: the media type (`text/plain` when it was empty), the charset
/// (`US-ASCII` when it was left out) and the bytes. Neither the media type nor
/// the charset may hold a `;` or a `,`.
pub proof fn lemma_data_url_round_trip(mt: Seq<char>, cs: Seq<char>, data: Seq<u8>)
    requires
        forall|j: int| 0 <= j < mt.len() ==> mt[j] != ';' && mt[j] != ',',
        forall|j: int| 0 <= j < cs.len() ==> cs[j] != ';' && cs[j] != ',',
    ensures
        data_media_type(data_url_path(mt, cs, data)) == (if mt.len() == 0 {
            "text/plain"@
        } else {
            mt
        }),
        data_charset(data_url_path(mt, cs, data)) == (if omits_charset(cs) {
            "US-ASCII"@
        } else {
            cs
        }),
        data_decodes(data_url_path(mt, cs, data)),
        data_bytes(data_url_path(mt, cs, data)) == data,
{
    reveal_strlit(";charset=");
    reveal_strlit(";base64,");
    reveal_strlit("charset=");
    reveal_strlit("base64");
    let enc = encode_spec(data);
    lemma_round_trip(data);
    let text = ascii_text(enc);
    let word = "base64"@;
    let key = "charset="@;
    let cpart = if omits_charset(cs) {
        Seq::empty()
    } else {
        ";charset="@ + cs
    };
    assert(";charset="@ =~= seq![';'] + key);
    let pre = mt + cpart + seq![';'] + word;
    let p = data_url_path(mt, cs, data);
    assert(";base64,"@ =~= seq![';'] + word + seq![',']);
    assert(p =~= pre + (seq![','] + text));
    assert forall|j: int| 0 <= j < pre.len() implies pre[j] != ',' by {
        if j < mt.len() {
            assert(pre[j] == mt[j]);
        } else if j < mt.len() + cpart.len() {
            assert(pre[j] == cpart[j - mt.len()]);
            if !omits_charset(cs) && j - mt.len() >= 1 + key.len() {
                assert(cpart[j - mt.len()] == cs[j - mt.len() - 1 - key.len()]);
            }
        }
    }
    lemma_find_concat(pre, seq![','] + text, ',');
    assert(find(seq![','] + text, ',') == 0);
    assert(find(p, ',') == pre.len());
    assert(p.subrange(0, pre.len() as int) =~= pre);
    assert(p.subrange(pre.len() as int + 1, p.len() as int) =~= text);
    assert(data_body(p) == text);
    lemma_split_one(word, ';');
    if omits_charset(cs) {
        assert(pre =~= mt + seq![';'] + word);
        lemma_split_front(mt, word, ';');
        assert(data_meta(p) =~= seq![mt, word]);
        assert(!starts_with(word, key));
        assert(data_meta(p).drop_last() =~= seq![mt]);
        assert(charset_in(data_meta(p)) == charset_in(seq![mt]));
    } else {
        let second = key + cs;
        assert forall|j: int| 0 <= j < second.len() implies second[j] != ';' by {
            if j >= key.len() {
                assert(second[j] == cs[j - key.len()]);
            }
        }
        lemma_split_front(second, word, ';');
        assert(pre =~= mt + seq![';'] + (second + seq![';'] + word));
        assert(cpart =~= seq![';'] + second);
        lemma_split_front(mt, second + seq![';'] + word, ';');
        assert(data_meta(p) =~= seq![mt, second, word]);
        assert(!starts_with(word, key));
        assert(data_meta(p).drop_last() =~= seq![mt, second]);
        assert(second.subrange(0, key.len() as int) =~= key);
        assert(second.subrange(key.len() as int, second.len() as int) =~= cs);
        assert(starts_with(second, key));
        assert(seq![mt, second].last() == second);
        assert(charset_in(seq![mt, second]) == cs);
        assert(charset_in(data_meta(p)) == charset_in(seq![mt, second]));
    }
    let params = data_meta(p);
    assert(eq_ignore_case(params[params.len() - 1], word));
    assert(is_base64(params));
    assert forall|i: int| 0 <= i < enc.len() implies #[trigger] enc[i] < 128 && enc[i] != 37 by {
        if i < enc.len() - 2 {
            assert(is_digit(enc[i]));
        }
    }
    lemma_ascii_bytes(enc);
    lemma_percent_plain(enc);
}

} // verus!
