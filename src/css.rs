//! Stylesheets: the references they hold (`url(...)` tokens and `@import`
//! strings), the stylesheet with
//! each reference replaced (its quoting kept), and the stylesheet without its
//! font rules.
use vstd::prelude::*;
use crate::text::{
    chars_of, find, find_from, lemma_find_bounds, push_char, slice_chars, starts_with,
    starts_with_at, string_of, trim, trim_chars,
};

verus! {

/// Whether the text starts with a complete `url(...)` token.
pub open spec fn is_url_token(s: Seq<char>) -> bool {
    &&& starts_with(s, "url("@)
    &&& 0 <= find(s.subrange(4, s.len() as int), ')') < s.len() - 4
}

/// The index of the `)` that closes the token at the start of the text.
pub open spec fn token_close(s: Seq<char>) -> int {
    4 + find(s.subrange(4, s.len() as int), ')')
}

/// What stands between the parentheses of the token.
pub open spec fn token_inner(s: Seq<char>) -> Seq<char> {
    s.subrange(4, token_close(s))
}

/// The quote around the reference, if it has one.
pub open spec fn quote_of(inner: Seq<char>) -> Option<char> {
    let t = trim(inner);
    if t.len() >= 2 && (t[0] == '\'' || t[0] == '"') && t.last() == t[0] {
        Some(t[0])
    } else {
        None
    }
}

/// The reference that the token holds: trimmed, without its quotes.
pub open spec fn reference_of(inner: Seq<char>) -> Seq<char> {
    let t = trim(inner);
    if quote_of(inner) is Some {
        t.subrange(1, t.len() - 1)
    } else {
        t
    }
}

/// Whether the text starts with an `@import` rule that names its sheet by a
/// quoted string: `@import "x.css"` or `@import 'x.css'`.
pub open spec fn is_import_token(s: Seq<char>) -> bool {
    &&& starts_with(s, "@import "@)
    &&& s.len() > 8
    &&& (s[8] == '"' || s[8] == '\'')
    &&& 0 <= find(s.subrange(9, s.len() as int), s[8]) < s.len() - 9
}

/// The index of the quote that closes the string of the `@import` rule.
pub open spec fn import_close(s: Seq<char>) -> int {
    9 + find(s.subrange(9, s.len() as int), s[8])
}

/// The references of a stylesheet, in order: those of `url(...)` tokens and
/// those of `@import` rules written with a string.
pub open spec fn css_refs(s: Seq<char>) -> Seq<Seq<char>>
    decreases s.len(),
{
    if s.len() == 0 {
        Seq::empty()
    } else if is_url_token(s) {
        seq![reference_of(token_inner(s))] + css_refs(s.subrange(token_close(s) + 1, s.len() as int))
    } else if is_import_token(s) {
        seq![s.subrange(9, import_close(s))] + css_refs(
            s.subrange(import_close(s) + 1, s.len() as int),
        )
    } else {
        css_refs(s.drop_first())
    }
}

/// A reference within the given quotes.
pub open spec fn quoted(q: Option<char>, r: Seq<char>) -> Seq<char> {
    match q {
        Some(c) => seq![c] + r + seq![c],
        None => r,
    }
}

/// The stylesheet with its references replaced in order by the given
/// texts (by nothing once they run out), each within the quotes it had.
pub open spec fn css_subst(s: Seq<char>, reps: Seq<Seq<char>>) -> Seq<char>
    decreases s.len(),
{
    if s.len() == 0 {
        Seq::empty()
    } else if is_url_token(s) {
        let rep = if reps.len() > 0 {
            reps[0]
        } else {
            Seq::empty()
        };
        let rest = if reps.len() > 0 {
            reps.drop_first()
        } else {
            reps
        };
        "url("@ + quoted(quote_of(token_inner(s)), rep) + ")"@ + css_subst(
            s.subrange(token_close(s) + 1, s.len() as int),
            rest,
        )
    } else if is_import_token(s) {
        let rep = if reps.len() > 0 {
            reps[0]
        } else {
            Seq::empty()
        };
        let rest = if reps.len() > 0 {
            reps.drop_first()
        } else {
            reps
        };
        "@import "@ + quoted(Some(s[8]), rep) + css_subst(
            s.subrange(import_close(s) + 1, s.len() as int),
            rest,
        )
    } else {
        seq![s[0]] + css_subst(s.drop_first(), reps)
    }
}

/// The views of a sequence of strings.
pub open spec fn string_views(v: Seq<String>) -> Seq<Seq<char>> {
    v.map_values(|x: String| x@)
}

/// Where the `url(` token that starts at `i` closes, if one starts there.
fn url_token_at(s: &[char], i: usize) -> (r: Option<usize>)
    requires
        i <= s@.len(),
    ensures
        r is Some <==> is_url_token(s@.subrange(i as int, s@.len() as int)),
        r matches Some(j) ==> j == i + token_close(s@.subrange(i as int, s@.len() as int)),
{
    let n = s.len();
    let ghost t = s@.subrange(i as int, n as int);
    proof {
        reveal_strlit("url(");
    }
    if n - i < 4 || s[i] != 'u' || s[i + 1] != 'r' || s[i + 2] != 'l' || s[i + 3] != '(' {
        proof {
            if t.len() >= 4 {
                assert(t.subrange(0, 4)[0] == t[0] && t.subrange(0, 4)[1] == t[1]);
                assert(t.subrange(0, 4)[2] == t[2] && t.subrange(0, 4)[3] == t[3]);
            }
        }
        return None;
    }
    assert(t.subrange(0, 4) =~= "url("@);
    let j = find_from(s, i + 4, ')');
    assert(t.subrange(4, t.len() as int) =~= s@.subrange(i + 4, n as int));
    proof {
        lemma_find_bounds(s@.subrange(i + 4, n as int), ')');
    }
    if j < n {
        Some(j)
    } else {
        None
    }
}

/// Where the string of the `@import` rule that starts at `i` closes, if one
/// starts there.
fn import_token_at(s: &[char], i: usize, key: &Vec<char>) -> (r: Option<usize>)
    requires
        i <= s@.len(),
        key@ == "@import "@,
    ensures
        r is Some <==> is_import_token(s@.subrange(i as int, s@.len() as int)),
        r matches Some(j) ==> j == i + import_close(s@.subrange(i as int, s@.len() as int)),
{
    let n = s.len();
    let ghost t = s@.subrange(i as int, n as int);
    proof {
        reveal_strlit("@import ");
    }
    if !starts_with_at(s, i, key.as_slice()) || n - i <= 8 {
        return None;
    }
    let q = s[i + 8];
    if q != '"' && q != '\'' {
        return None;
    }
    let j = find_from(s, i + 9, q);
    assert(t.subrange(9, t.len() as int) =~= s@.subrange(i + 9, n as int));
    proof {
        lemma_find_bounds(s@.subrange(i + 9, n as int), q);
    }
    if j < n {
        Some(j)
    } else {
        None
    }
}

/// The quote and the reference of a token's inner text.
fn split_reference(inner: &[char]) -> (r: (Option<char>, Vec<char>))
    ensures
        r.0 == quote_of(inner@),
        r.1@ == reference_of(inner@),
{
    let t = trim_chars(inner);
    let n = t.len();
    if n >= 2 && (t[0] == '\'' || t[0] == '"') && t[n - 1] == t[0] {
        (Some(t[0]), slice_chars(t.as_slice(), 1, n - 1))
    } else {
        (None, slice_chars(t.as_slice(), 0, n))
    }
}

/// The references that a stylesheet's `url(...)` tokens hold, in order.
pub fn css_references(css: &str) -> (r: Vec<String>)
    ensures
        string_views(r@) == css_refs(css@),
{
    let s = chars_of(css);
    let n = s.len();
    let key = chars_of("@import ");
    let mut r: Vec<String> = Vec::new();
    let mut i: usize = 0;
    assert(s@.subrange(0, n as int) =~= s@);
    assert(string_views(r@) + css_refs(s@) =~= css_refs(s@));
    while i < n
        invariant
            i <= n == s@.len(),
            key@ == "@import "@,
            string_views(r@) + css_refs(s@.subrange(i as int, n as int)) == css_refs(s@),
        decreases n - i,
    {
        let ghost t = s@.subrange(i as int, n as int);
        let ghost before = string_views(r@);
        match url_token_at(s.as_slice(), i) {
            Some(j) => {
                let inner = slice_chars(s.as_slice(), i + 4, j);
                assert(inner@ =~= token_inner(t));
                let (_, reference) = split_reference(inner.as_slice());
                let text = string_of(&reference);
                r.push(text);
                assert(string_views(r@) =~= before.push(reference_of(token_inner(t))));
                assert(t.subrange(token_close(t) + 1, t.len() as int) =~= s@.subrange(
                    j + 1,
                    n as int,
                ));
                assert(string_views(r@) + css_refs(s@.subrange(j + 1, n as int)) =~= before
                    + css_refs(t));
                i = j + 1;
            },
            None => match import_token_at(s.as_slice(), i, &key) {
                Some(j) => {
                    let reference = slice_chars(s.as_slice(), i + 9, j);
                    assert(reference@ =~= t.subrange(9, import_close(t)));
                    let text = string_of(&reference);
                    r.push(text);
                    assert(string_views(r@) =~= before.push(t.subrange(9, import_close(t))));
                    assert(t.subrange(import_close(t) + 1, t.len() as int) =~= s@.subrange(
                        j + 1,
                        n as int,
                    ));
                    assert(string_views(r@) + css_refs(s@.subrange(j + 1, n as int)) =~= before
                        + css_refs(t));
                    i = j + 1;
                },
                None => {
                    assert(t.drop_first() =~= s@.subrange(i + 1, n as int));
                    i = i + 1;
                },
            },
        }
    }
    assert(css_refs(s@.subrange(n as int, n as int)) =~= Seq::<Seq<char>>::empty());
    assert(string_views(r@) + Seq::<Seq<char>>::empty() =~= string_views(r@));
    r
}

/// Rewrites a stylesheet: the reference of each `url(...)` token is
/// replaced, in order, by the next of the given texts (by nothing once they
/// run out), within the quotes it had; all other text is kept.
pub fn css_substitute(css: &str, replacements: &Vec<String>) -> (r: String)
    ensures
        r@ == css_subst(css@, string_views(replacements@)),
{
    let s = chars_of(css);
    let n = s.len();
    let ghost reps = string_views(replacements@);
    let key = chars_of("@import ");
    let mut r = String::new();
    let mut i: usize = 0;
    let mut k: usize = 0;
    assert(s@.subrange(0, n as int) =~= s@);
    assert(reps.subrange(0, reps.len() as int) =~= reps);
    assert(r@ + css_subst(s@, reps) =~= css_subst(s@, reps));
    while i < n
        invariant
            i <= n == s@.len(),
            reps == string_views(replacements@),
            key@ == "@import "@,
            k <= reps.len(),
            r@ + css_subst(s@.subrange(i as int, n as int), reps.subrange(k as int, reps.len() as int))
                == css_subst(s@, reps),
        decreases n - i,
    {
        let ghost t = s@.subrange(i as int, n as int);
        let ghost rest = reps.subrange(k as int, reps.len() as int);
        let ghost before = r@;
        match url_token_at(s.as_slice(), i) {
            Some(j) => {
                let inner = slice_chars(s.as_slice(), i + 4, j);
                assert(inner@ =~= token_inner(t));
                let (quote, _) = split_reference(inner.as_slice());
                r.append("url(");
                match quote {
                    Some(q) => push_char(&mut r, q),
                    None => {},
                }
                if k < replacements.len() {
                    assert(rest[0] == replacements@[k as int]@);
                    r.append(replacements[k].as_str());
                    assert(rest.drop_first() =~= reps.subrange(k + 1, reps.len() as int));
                    k = k + 1;
                } else {
                    assert(rest.len() == 0);
                }
                match quote {
                    Some(q) => push_char(&mut r, q),
                    None => {},
                }
                r.append(")");
                assert(t.subrange(token_close(t) + 1, t.len() as int) =~= s@.subrange(
                    j + 1,
                    n as int,
                ));
                assert(r@ =~= before + "url("@ + quoted(
                    quote_of(token_inner(t)),
                    if rest.len() > 0 {
                        rest[0]
                    } else {
                        Seq::empty()
                    },
                ) + ")"@);
                i = j + 1;
            },
            None => match import_token_at(s.as_slice(), i, &key) {
                Some(j) => {
                    let q = s[i + 8];
                    r.append("@import ");
                    push_char(&mut r, q);
                    if k < replacements.len() {
                        assert(rest[0] == replacements@[k as int]@);
                        r.append(replacements[k].as_str());
                        assert(rest.drop_first() =~= reps.subrange(k + 1, reps.len() as int));
                        k = k + 1;
                    } else {
                        assert(rest.len() == 0);
                    }
                    push_char(&mut r, q);
                    assert(t.subrange(import_close(t) + 1, t.len() as int) =~= s@.subrange(
                        j + 1,
                        n as int,
                    ));
                    assert(r@ =~= before + "@import "@ + quoted(
                        Some(t[8]),
                        if rest.len() > 0 {
                            rest[0]
                        } else {
                            Seq::empty()
                        },
                    ));
                    i = j + 1;
                },
                None => {
                    push_char(&mut r, s[i]);
                    assert(t.drop_first() =~= s@.subrange(i + 1, n as int));
                    assert(r@ =~= before + seq![t[0]]);
                    i = i + 1;
                },
            },
        }
        assert(r@ + css_subst(s@.subrange(i as int, n as int), reps.subrange(k as int, reps.len() as int))
            =~= before + css_subst(t, rest));
    }
    assert(css_subst(s@.subrange(n as int, n as int), reps.subrange(k as int, reps.len() as int))
        =~= Seq::<char>::empty());
    assert(r@ + Seq::<char>::empty() =~= r@);
    r
}

/// Whether the text starts with an `@font-face` rule that a `}` closes.
pub open spec fn is_font_face(s: Seq<char>) -> bool {
    starts_with(s, "@font-face"@) && 0 <= find(s, '}') < s.len()
}

/// The stylesheet without its `@font-face` rules.
pub open spec fn without_font_faces(s: Seq<char>) -> Seq<char>
    decreases s.len(),
{
    if s.len() == 0 {
        Seq::empty()
    } else if is_font_face(s) {
        without_font_faces(s.subrange(find(s, '}') + 1, s.len() as int))
    } else {
        seq![s[0]] + without_font_faces(s.drop_first())
    }
}

/// Drops each `@font-face` rule whole, up to and with its closing `}`.
pub fn drop_font_faces(css: &str) -> (r: String)
    ensures
        r@ == without_font_faces(css@),
{
    let s = chars_of(css);
    let n = s.len();
    let key = chars_of("@font-face");
    let mut r = String::new();
    let mut i: usize = 0;
    assert(s@.subrange(0, n as int) =~= s@);
    assert(r@ + without_font_faces(s@) =~= without_font_faces(s@));
    while i < n
        invariant
            i <= n == s@.len(),
            key@ == "@font-face"@,
            r@ + without_font_faces(s@.subrange(i as int, n as int)) == without_font_faces(s@),
        decreases n - i,
    {
        let ghost t = s@.subrange(i as int, n as int);
        let ghost before = r@;
        let starts = starts_with_at(s.as_slice(), i, key.as_slice());
        let j = if starts {
            find_from(s.as_slice(), i, '}')
        } else {
            n
        };
        proof {
            lemma_find_bounds(t, '}');
        }
        if starts && j < n {
            assert(t.subrange(find(t, '}') + 1, t.len() as int) =~= s@.subrange(j + 1, n as int));
            i = j + 1;
        } else {
            push_char(&mut r, s[i]);
            assert(t.drop_first() =~= s@.subrange(i + 1, n as int));
            assert(r@ =~= before + seq![t[0]]);
            i = i + 1;
        }
        assert(r@ + without_font_faces(s@.subrange(i as int, n as int)) =~= before
            + without_font_faces(t));
    }
    assert(without_font_faces(s@.subrange(n as int, n as int)) =~= Seq::<char>::empty());
    assert(r@ + Seq::<char>::empty() =~= r@);
    r
}

} // verus!
