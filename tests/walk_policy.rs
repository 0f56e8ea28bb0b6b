use monolith::html::{element_action, reference_kind, ElementAction, ReferenceKind};
use monolith::opts::Options;

#[test]
fn element_actions_follow_the_exclusions() {
    let plain: Options = Default::default();
    let strict = Options {
        no_css: true,
        no_js: true,
        no_images: true,
        no_frames: true,
        unwrap_noscript: true,
        ..Default::default()
    };
    assert_eq!(element_action("link", "stylesheet", &plain), ElementAction::InlineStylesheet);
    assert_eq!(element_action("LINK", "StyleSheet", &strict), ElementAction::Remove);
    assert_eq!(element_action("link", "shortcut icon", &plain), ElementAction::Embed);
    assert_eq!(element_action("link", "icon", &strict), ElementAction::Remove);
    assert_eq!(element_action("link", "preload", &strict), ElementAction::Embed);
    assert_eq!(element_action("script", "", &plain), ElementAction::InlineScript);
    assert_eq!(element_action("script", "", &strict), ElementAction::Remove);
    assert_eq!(element_action("img", "", &plain), ElementAction::Embed);
    assert_eq!(element_action("img", "", &strict), ElementAction::EmptyData);
    assert_eq!(element_action("input", "image", &strict), ElementAction::EmptyData);
    assert_eq!(element_action("input", "text", &strict), ElementAction::Keep);
    assert_eq!(element_action("video", "", &strict), ElementAction::Embed);
    assert_eq!(element_action("iframe", "", &plain), ElementAction::EmbedFrame);
    assert_eq!(element_action("frame", "", &strict), ElementAction::BlankFrame);
    assert_eq!(element_action("base", "", &plain), ElementAction::TakeBase);
    assert_eq!(element_action("a", "", &plain), ElementAction::Resolve);
    assert_eq!(element_action("noscript", "", &plain), ElementAction::Keep);
    assert_eq!(element_action("noscript", "", &strict), ElementAction::Unwrap);
    assert_eq!(
        element_action("meta", "Content-Security-Policy", &plain),
        ElementAction::Remove
    );
    assert_eq!(element_action("div", "", &strict), ElementAction::Keep);
    assert_eq!(element_action("image", "", &plain), ElementAction::Embed);
    assert_eq!(element_action("image", "", &strict), ElementAction::EmptyData);
    assert_eq!(element_action("use", "", &strict), ElementAction::Embed);
}

#[test]
fn reference_kinds() {
    assert_eq!(reference_kind(""), ReferenceKind::Blank);
    assert_eq!(reference_kind(" \t\n"), ReferenceKind::Blank);
    assert_eq!(reference_kind("#section"), ReferenceKind::Fragment);
    assert_eq!(reference_kind(" #x"), ReferenceKind::Asset);
    assert_eq!(reference_kind("img/a.png"), ReferenceKind::Asset);
}
