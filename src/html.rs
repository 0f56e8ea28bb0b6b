//! What the library adds to and rewrites in the saved document: the Content
//! Security Policy, and `srcset` values.
use vstd::prelude::*;
use crate::opts::Options;
use crate::text::{
    eq_ignore_ascii_case, eq_ignore_case, chars_of, find, find_from, join, lemma_find_bounds, push_char, slice_chars, split, split_chars,
    string_of, trim, trim_chars, views,
};

verus! {

/// The directives that the options call for, in their fixed order.
pub open spec fn csp_directives(o: Options) -> Seq<Seq<char>> {
    (if o.isolate { seq!["default-src 'unsafe-eval' 'unsafe-inline' data:;"@] } else { seq![] })
        + (if o.no_css { seq!["style-src 'none';"@] } else { seq![] })
        + (if o.no_fonts { seq!["font-src 'none';"@] } else { seq![] })
        + (if o.no_frames { seq!["frame-src 'none'; child-src 'none';"@] } else { seq![] })
        + (if o.no_js { seq!["script-src 'none';"@] } else { seq![] })
        + (if o.no_images { seq!["img-src data:;"@] } else { seq![] })
}

/// The pieces joined by single spaces.
pub open spec fn join_spaced(s: Seq<Seq<char>>) -> Seq<char>
    decreases s.len(),
{
    if s.len() == 0 {
        Seq::empty()
    } else if s.len() == 1 {
        s[0]
    } else {
        join_spaced(s.drop_last()) + seq![' '] + s.last()
    }
}

/// The Content-Security-Policy value for the options.
pub open spec fn csp_spec(o: Options) -> Seq<char> {
    join_spaced(csp_directives(o))
}

fn add_directive(r: &mut String, d: &str, Ghost(parts): Ghost<Seq<Seq<char>>>)
    requires
        old(r)@ == join_spaced(parts),
        old(r)@.len() == 0 <==> parts.len() == 0,
        d@.len() > 0,
    ensures
        final(r)@ == join_spaced(parts.push(d@)),
        final(r)@.len() > 0,
{
    if r.unicode_len() > 0 {
        r.append(" ");
        proof {
            reveal_strlit(" ");
        }
    }
    r.append(d);
    assert(parts.push(d@).drop_last() =~= parts);
    proof {
        if parts.len() == 0 {
            assert(old(r)@ =~= Seq::<char>::empty());
        }
    }
    assert(final(r)@ =~= join_spaced(parts.push(d@)));
}

/// Composes the Content-Security-Policy value: one directive for each
/// exclusion that is set, in a fixed order, separated by single spaces.
pub fn compose_csp(options: &Options) -> (r: String)
    ensures
        r@ == csp_spec(*options),
{
    let mut r = String::new();
    let ghost mut parts: Seq<Seq<char>> = seq![];
    proof {
        reveal_strlit("default-src 'unsafe-eval' 'unsafe-inline' data:;");
        reveal_strlit("style-src 'none';");
        reveal_strlit("font-src 'none';");
        reveal_strlit("frame-src 'none'; child-src 'none';");
        reveal_strlit("script-src 'none';");
        reveal_strlit("img-src data:;");
    }
    assert(r@ =~= join_spaced(parts));
    if options.isolate {
        add_directive(&mut r, "default-src 'unsafe-eval' 'unsafe-inline' data:;", Ghost(parts));
        proof { parts = parts.push("default-src 'unsafe-eval' 'unsafe-inline' data:;"@); }
    }
    if options.no_css {
        add_directive(&mut r, "style-src 'none';", Ghost(parts));
        proof { parts = parts.push("style-src 'none';"@); }
    }
    if options.no_fonts {
        add_directive(&mut r, "font-src 'none';", Ghost(parts));
        proof { parts = parts.push("font-src 'none';"@); }
    }
    if options.no_frames {
        add_directive(&mut r, "frame-src 'none'; child-src 'none';", Ghost(parts));
        proof { parts = parts.push("frame-src 'none'; child-src 'none';"@); }
    }
    if options.no_js {
        add_directive(&mut r, "script-src 'none';", Ghost(parts));
        proof { parts = parts.push("script-src 'none';"@); }
    }
    if options.no_images {
        add_directive(&mut r, "img-src data:;", Ghost(parts));
        proof { parts = parts.push("img-src data:;"@); }
    }
    assert(parts =~= csp_directives(*options));
    r
}

proof fn lemma_join_empty(s: Seq<Seq<char>>)
    requires
        forall|i: int| 0 <= i < s.len() ==> (#[trigger] s[i]).len() > 0,
    ensures
        join_spaced(s).len() == 0 <==> s.len() == 0,
    decreases s.len(),
{
    if s.len() > 1 {
        lemma_join_empty(s.drop_last());
    }
}

/// The policy is empty exactly when no exclusion is set and the page is not
/// isolated.
pub proof fn lemma_csp_empty(o: Options)
    ensures
        csp_spec(o).len() == 0 <==> !o.excludes_any(),
{
    reveal_strlit("default-src 'unsafe-eval' 'unsafe-inline' data:;");
    reveal_strlit("style-src 'none';");
    reveal_strlit("font-src 'none';");
    reveal_strlit("frame-src 'none'; child-src 'none';");
    reveal_strlit("script-src 'none';");
    reveal_strlit("img-src data:;");
    let d = csp_directives(o);
    assert forall|i: int| 0 <= i < d.len() implies (#[trigger] d[i]).len() > 0 by {
    }
    lemma_join_empty(d);
}

/// The URL of a trimmed `srcset` candidate: what stands before its first
/// space.
pub open spec fn candidate_url(c: Seq<char>) -> Seq<char> {
    c.subrange(0, find(c, ' '))
}

/// The descriptor of a trimmed `srcset` candidate: what follows its first
/// space, trimmed.
pub open spec fn candidate_descriptor(c: Seq<char>) -> Seq<char> {
    let k = find(c, ' ');
    if 0 <= k < c.len() {
        trim(c.subrange(k + 1, c.len() as int))
    } else {
        Seq::empty()
    }
}

/// The candidates of a `srcset` value: its comma-separated parts, trimmed.
pub open spec fn srcset_parts(srcset: Seq<char>) -> Seq<Seq<char>> {
    split(srcset, ',').map_values(|c: Seq<char>| trim(c))
}

/// The URL and descriptor of one candidate.
#[derive(Debug)]
pub struct SrcsetCandidate {
    pub url: String,
    pub descriptor: String,
}

/// Splits a `srcset` value into its candidates, each a URL and a descriptor
/// such as `2x` or `480w`.
pub fn srcset_candidates(srcset: &str) -> (r: Vec<SrcsetCandidate>)
    ensures
        r@.len() == srcset_parts(srcset@).len(),
        forall|i: int|
            0 <= i < r@.len() ==> (#[trigger] r@[i]).url@ == candidate_url(srcset_parts(srcset@)[i])
                && r@[i].descriptor@ == candidate_descriptor(srcset_parts(srcset@)[i]),
{
    let s = chars_of(srcset);
    let parts = split_chars(s.as_slice(), ',');
    let ghost ps = views(parts@);
    let mut r: Vec<SrcsetCandidate> = Vec::new();
    let mut i: usize = 0;
    while i < parts.len()
        invariant
            ps == views(parts@),
            ps == split(srcset@, ','),
            i <= ps.len(),
            r@.len() == i,
            forall|j: int|
                0 <= j < i ==> (#[trigger] r@[j]).url@ == candidate_url(srcset_parts(srcset@)[j])
                    && r@[j].descriptor@ == candidate_descriptor(srcset_parts(srcset@)[j]),
        decreases ps.len() - i,
    {
        let c = trim_chars(parts[i].as_slice());
        assert(ps[i as int] == parts@[i as int]@);
        assert(c@ == srcset_parts(srcset@)[i as int]);
        let k = find_from(c.as_slice(), 0, ' ');
        assert(c@.subrange(0, c@.len() as int) =~= c@);
        proof {
            lemma_find_bounds(c@, ' ');
        }
        let url = slice_chars(c.as_slice(), 0, k);
        let descriptor = if k < c.len() {
            let rest = slice_chars(c.as_slice(), k + 1, c.len());
            trim_chars(rest.as_slice())
        } else {
            Vec::new()
        };
        assert(descriptor@ =~= candidate_descriptor(c@));
        r.push(SrcsetCandidate { url: string_of(&url), descriptor: string_of(&descriptor) });
        i = i + 1;
    }
    r
}

/// A candidate written back: the URL, then a space and the descriptor when
/// there is one.
pub open spec fn candidate_text(url: Seq<char>, descriptor: Seq<char>) -> Seq<char> {
    if descriptor.len() == 0 {
        url
    } else {
        url + seq![' '] + descriptor
    }
}

/// The texts of the candidates.
pub open spec fn candidate_texts(c: Seq<SrcsetCandidate>) -> Seq<Seq<char>> {
    c.map_values(|x: SrcsetCandidate| candidate_text(x.url@, x.descriptor@))
}

/// Writes candidates back as a `srcset` value, joined by `, `.
pub fn srcset_text(candidates: &Vec<SrcsetCandidate>) -> (r: String)
    ensures
        r@ == join(candidate_texts(candidates@), ", "@),
{
    let mut r = String::new();
    let mut i: usize = 0;
    let ghost all = candidate_texts(candidates@);
    assert(all.subrange(0, 0) =~= Seq::<Seq<char>>::empty());
    while i < candidates.len()
        invariant
            all == candidate_texts(candidates@),
            i <= candidates@.len(),
            r@ == join(all.subrange(0, i as int), ", "@),
        decreases candidates@.len() - i,
    {
        let ghost before = r@;
        let c = &candidates[i];
        if i > 0 {
            r.append(", ");
        }
        r.append(c.url.as_str());
        if c.descriptor.unicode_len() > 0 {
            push_char(&mut r, ' ');
            r.append(c.descriptor.as_str());
        }
        proof {
            let pre = all.subrange(0, i + 1);
            assert(pre.drop_last() =~= all.subrange(0, i as int));
            assert(pre.last() == candidate_text(c.url@, c.descriptor@));
            if i == 0 {
                assert(before =~= Seq::<char>::empty());
                assert(r@ =~= pre.last());
            } else {
                assert(r@ =~= before + ", "@ + pre.last());
            }
        }
        i = i + 1;
    }
    assert(all.subrange(0, candidates@.len() as int) =~= all);
    r
}

/// What the walk does with an element that may reference an asset.
#[derive(Debug, Clone, Copy, PartialEq, Eq, Structural)]
pub enum ElementAction {
    /// Leave the element as it is.
    Keep,
    /// Remove the element.
    Remove,
    /// Replace its reference by the data URL of the asset.
    Embed,
    /// Replace its reference by an empty data URL.
    EmptyData,
    /// Replace the stylesheet link by a `<style>` holding the rewritten sheet.
    InlineStylesheet,
    /// Put the script's text inside the element and drop its `src`.
    InlineScript,
    /// Point the frame at `about:blank`.
    BlankFrame,
    /// Save the framed document with the whole pipeline and embed it.
    EmbedFrame,
    /// Remember its `href` as the base URL, then remove it.
    TakeBase,
    /// Make its reference absolute and leave it external.
    Resolve,
    /// Replace the element by its children, read as HTML.
    Unwrap,
}

/// What the walk does with an element, by its name and by its `rel`,
/// `type` or `http-equiv` attribute (`detail`), under the options. SVG's
/// `<image>` is an image and SVG's `<use>` an asset; their reference is
/// `href` or `xlink:href`.
pub open spec fn element_action_spec(name: Seq<char>, detail: Seq<char>, o: Options) -> ElementAction {
    if eq_ignore_case(name, "link"@) {
        if eq_ignore_case(detail, "stylesheet"@) {
            if o.no_css { ElementAction::Remove } else { ElementAction::InlineStylesheet }
        } else if eq_ignore_case(detail, "icon"@) || eq_ignore_case(detail, "shortcut icon"@) {
            if o.no_images { ElementAction::Remove } else { ElementAction::Embed }
        } else {
            ElementAction::Embed
        }
    } else if eq_ignore_case(name, "script"@) {
        if o.no_js { ElementAction::Remove } else { ElementAction::InlineScript }
    } else if eq_ignore_case(name, "img"@) || eq_ignore_case(name, "source"@) || eq_ignore_case(
        name,
        "image"@,
    ) || (eq_ignore_case(
        name,
        "input"@,
    ) && eq_ignore_case(detail, "image"@)) {
        if o.no_images { ElementAction::EmptyData } else { ElementAction::Embed }
    } else if eq_ignore_case(name, "video"@) || eq_ignore_case(name, "audio"@) || eq_ignore_case(
        name,
        "track"@,
    ) || eq_ignore_case(name, "embed"@) || eq_ignore_case(name, "object"@) || eq_ignore_case(
        name,
        "use"@,
    ) {
        ElementAction::Embed
    } else if eq_ignore_case(name, "iframe"@) || eq_ignore_case(name, "frame"@) {
        if o.no_frames { ElementAction::BlankFrame } else { ElementAction::EmbedFrame }
    } else if eq_ignore_case(name, "base"@) {
        ElementAction::TakeBase
    } else if eq_ignore_case(name, "a"@) || eq_ignore_case(name, "area"@) || eq_ignore_case(
        name,
        "form"@,
    ) {
        ElementAction::Resolve
    } else if eq_ignore_case(name, "noscript"@) {
        if o.no_js && o.unwrap_noscript { ElementAction::Unwrap } else { ElementAction::Keep }
    } else if eq_ignore_case(name, "meta"@) && eq_ignore_case(detail, "content-security-policy"@) {
        ElementAction::Remove
    } else {
        ElementAction::Keep
    }
}

/// Decides what the walk does with an element.
pub fn element_action(name: &str, detail: &str, options: &Options) -> (r: ElementAction)
    ensures
        r == element_action_spec(name@, detail@, *options),
{
    if eq_ignore_ascii_case(name, "link") {
        if eq_ignore_ascii_case(detail, "stylesheet") {
            if options.no_css { ElementAction::Remove } else { ElementAction::InlineStylesheet }
        } else if eq_ignore_ascii_case(detail, "icon") || eq_ignore_ascii_case(detail, "shortcut icon") {
            if options.no_images { ElementAction::Remove } else { ElementAction::Embed }
        } else {
            ElementAction::Embed
        }
    } else if eq_ignore_ascii_case(name, "script") {
        if options.no_js { ElementAction::Remove } else { ElementAction::InlineScript }
    } else if eq_ignore_ascii_case(name, "img") || eq_ignore_ascii_case(name, "source")
        || eq_ignore_ascii_case(name, "image") || (
    eq_ignore_ascii_case(name, "input") && eq_ignore_ascii_case(detail, "image")) {
        if options.no_images { ElementAction::EmptyData } else { ElementAction::Embed }
    } else if eq_ignore_ascii_case(name, "video") || eq_ignore_ascii_case(name, "audio")
        || eq_ignore_ascii_case(name, "track") || eq_ignore_ascii_case(name, "embed")
        || eq_ignore_ascii_case(name, "object") || eq_ignore_ascii_case(name, "use") {
        ElementAction::Embed
    } else if eq_ignore_ascii_case(name, "iframe") || eq_ignore_ascii_case(name, "frame") {
        if options.no_frames { ElementAction::BlankFrame } else { ElementAction::EmbedFrame }
    } else if eq_ignore_ascii_case(name, "base") {
        ElementAction::TakeBase
    } else if eq_ignore_ascii_case(name, "a") || eq_ignore_ascii_case(name, "area")
        || eq_ignore_ascii_case(name, "form") {
        ElementAction::Resolve
    } else if eq_ignore_ascii_case(name, "noscript") {
        if options.no_js && options.unwrap_noscript { ElementAction::Unwrap } else { ElementAction::Keep }
    } else if eq_ignore_ascii_case(name, "meta") && eq_ignore_ascii_case(detail, "content-security-policy") {
        ElementAction::Remove
    } else {
        ElementAction::Keep
    }
}

/// What becomes of a reference before any retrieval.
#[derive(Debug, Clone, Copy, PartialEq, Eq, Structural)]
pub enum ReferenceKind {
    /// Empty or only whitespace: left empty.
    Blank,
    /// Only a fragment (`#...`): kept as it is.
    Fragment,
    /// Anything else: resolved and retrieved.
    Asset,
}

/// Whether the character is ASCII whitespace.
pub open spec fn is_space(c: char) -> bool {
    c == ' ' || c == '\t' || c == '\n' || c == '\r' || c == '\x0C'
}

/// How a reference is treated: blank, a fragment, or an asset.
pub open spec fn reference_kind_spec(v: Seq<char>) -> ReferenceKind {
    if forall|i: int| 0 <= i < v.len() ==> is_space(#[trigger] v[i]) {
        ReferenceKind::Blank
    } else if v.len() > 0 && v[0] == '#' {
        ReferenceKind::Fragment
    } else {
        ReferenceKind::Asset
    }
}

/// Classifies an attribute's reference.
pub fn reference_kind(value: &str) -> (r: ReferenceKind)
    ensures
        r == reference_kind_spec(value@),
{
    let v = chars_of(value);
    let mut i: usize = 0;
    while i < v.len()
        invariant
            v@ == value@,
            i <= v@.len(),
            forall|j: int| 0 <= j < i ==> is_space(#[trigger] v@[j]),
        decreases v@.len() - i,
    {
        let c = v[i];
        if !(c == ' ' || c == '\t' || c == '\n' || c == '\r' || c == '\x0C') {
            return if v[0] == '#' { ReferenceKind::Fragment } else { ReferenceKind::Asset };
        }
        i = i + 1;
    }
    ReferenceKind::Blank
}

} // verus!
