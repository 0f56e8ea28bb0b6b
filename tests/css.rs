use monolith::css::{css_references, css_substitute, drop_font_faces};

#[test]
fn references_in_order() {
    let css = "a{background:url('a.png')} b{src: url( \"f.woff\" )} c{x:url(plain.gif)} d{url(open";
    assert_eq!(css_references(css), vec!["a.png", "f.woff", "plain.gif"]);
    assert!(css_references("p { color: red }").is_empty());
}

#[test]
fn substitution_keeps_quotes_and_text() {
    let css = "a{background:url('a.png')} c{x:url(plain.gif)} tail";
    let reps = vec!["data:image/png;base64,AA==".to_string(), "data:,x".to_string()];
    assert_eq!(
        css_substitute(css, &reps),
        "a{background:url('data:image/png;base64,AA==')} c{x:url(data:,x)} tail"
    );
    let spaced = "b{src: url( \"f.woff\" )}";
    assert_eq!(css_substitute(spaced, &vec!["data:,f".to_string()]), "b{src: url(\"data:,f\")}");
    assert_eq!(css_substitute("u{x:url('a')}", &vec![]), "u{x:url('')}");
}

#[test]
fn font_faces_are_dropped_whole() {
    let css = "@font-face { font-family: F; src: url(f.woff) }p{color:red}@font-face{x:y}";
    assert_eq!(drop_font_faces(css), "p{color:red}");
    assert_eq!(drop_font_faces("p{} @font-face {"), "p{} @font-face {");
    assert_eq!(drop_font_faces(""), "");
}

#[test]
fn import_strings_are_references() {
    let css = "@import \"base.css\";\n@import 'print.css' print;\n@import url(x.css);";
    assert_eq!(css_references(css), vec!["base.css", "print.css", "x.css"]);
    let reps = vec!["data:,a".to_string(), "data:,b".to_string(), "data:,c".to_string()];
    assert_eq!(
        css_substitute(css, &reps),
        "@import \"data:,a\";\n@import 'data:,b' print;\n@import url(data:,c);"
    );
}
