use monolith::html::{srcset_candidates, srcset_text, SrcsetCandidate};

#[test]
fn srcset_candidates_keep_descriptors() {
    let c = srcset_candidates("small.png 1x,  big.png   2x , plain.png");
    assert_eq!(c.len(), 3);
    assert_eq!((c[0].url.as_str(), c[0].descriptor.as_str()), ("small.png", "1x"));
    assert_eq!((c[1].url.as_str(), c[1].descriptor.as_str()), ("big.png", "2x"));
    assert_eq!((c[2].url.as_str(), c[2].descriptor.as_str()), ("plain.png", ""));
}

#[test]
fn srcset_rewritten() {
    let mut c = srcset_candidates("a.png 480w, b.png");
    c[0].url = "data:image/png;base64,AA==".to_string();
    c[1].url = "data:,b".to_string();
    assert_eq!(srcset_text(&c), "data:image/png;base64,AA== 480w, data:,b");
    let none: Vec<SrcsetCandidate> = Vec::new();
    assert_eq!(srcset_text(&none), "");
}
