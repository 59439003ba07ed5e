use webui::parser::component_template::{
    attribute_spans_fit, build_component_template, process_component_template, strip_runtime_attributes, template_to_strip,
    AttributeSpan,
};
use webui::parser::strategy::{CssStrategy, DomStrategy};

/// The span of the attribute written as `text` in the ASCII tag `tag`.
fn span(tag: &str, text: &str) -> AttributeSpan {
    let start = tag.find(text).expect("attribute present");
    let name_len = text.find('=').unwrap_or(text.len());
    AttributeSpan { start, end: start + text.len(), name_start: start, name_end: start + name_len }
}

#[test]
fn light_dom_unwraps_an_authored_template() {
    let html = r#"<template foo="bar"><slot></slot></template>"#;
    assert_eq!(process_component_template(DomStrategy::Light, html, None, None, None), "<slot></slot>");
}

#[test]
fn styled_light_dom_component_gets_no_stylesheet_link() {
    let html = r#"<template foo="bar"><slot></slot></template>"#;
    let r = build_component_template(
        CssStrategy::Link,
        DomStrategy::Light,
        "custom-element",
        html,
        None,
        Some("div { color: red; }"),
    );
    assert_eq!(r, "<slot></slot>");
}

#[test]
fn runtime_attributes_are_stripped_from_the_opening_tag() {
    let html = r#"<template @click={foo} :bar="baz" ?bool="true"><slot></slot></template>"#;
    let spans = vec![span(html, "@click={foo}"), span(html, r#":bar="baz""#), span(html, r#"?bool="true""#)];
    let stripped = strip_runtime_attributes(html, &spans);
    assert_eq!(stripped, "<template><slot></slot></template>");
    let r = process_component_template(DomStrategy::Light, html, Some(&stripped), None, None);
    assert_eq!(r, "<slot></slot>");
    let r = process_component_template(DomStrategy::Shadow, html, Some(&stripped), None, None);
    assert_eq!(r, r#"<template shadowrootmode="open"><slot></slot></template>"#);
}

#[test]
fn stripping_keeps_other_attributes_and_takes_the_spaces_before_removed_ones() {
    let html = r#"<template   @a="1" b="2"  :c="3">x</template>"#;
    let spans = vec![span(html, r#"@a="1""#), span(html, r#"b="2""#), span(html, r#":c="3""#)];
    assert_eq!(strip_runtime_attributes(html, &spans), r#"<template b="2">x</template>"#);
    // Without runtime attributes the text is unchanged.
    let plain = r#"<template b="2">x</template>"#;
    assert_eq!(strip_runtime_attributes(plain, &[span(plain, r#"b="2""#)]), plain);
    assert_eq!(strip_runtime_attributes(plain, &[]), plain);
}

#[test]
fn link_strategy_in_shadow_dom_links_the_component_stylesheet() {
    let r = build_component_template(
        CssStrategy::Link,
        DomStrategy::Shadow,
        "my-card",
        "<p><slot></slot></p>",
        None,
        Some("p { color: red; }"),
    );
    assert_eq!(
        r,
        r#"<template shadowrootmode="open"><link rel="stylesheet" href="/my-card.css"><p><slot></slot></p></template>"#
    );
    // Without CSS there is nothing to link.
    let r = build_component_template(CssStrategy::Link, DomStrategy::Shadow, "my-card", "<p></p>", None, None);
    assert_eq!(r, r#"<template shadowrootmode="open"><p></p></template>"#);
}

#[test]
fn style_strategy_inlines_the_trimmed_css() {
    let r = build_component_template(
        CssStrategy::Style,
        DomStrategy::Shadow,
        "my-card",
        "  <p><slot></slot></p>\n",
        None,
        Some("\n  p { color: red; }  \n"),
    );
    assert_eq!(r, r#"<template shadowrootmode="open"><style>p { color: red; }</style><p><slot></slot></p></template>"#);
    let r = build_component_template(
        CssStrategy::Style,
        DomStrategy::Light,
        "my-card",
        "<p><slot></slot></p>",
        None,
        Some("p { color: red; }"),
    );
    assert_eq!(r, "<style>p { color: red; }</style><p><slot></slot></p>");
}

#[test]
fn module_strategy_adopts_the_component_stylesheet_in_shadow_dom_only() {
    let r = build_component_template(
        CssStrategy::Module,
        DomStrategy::Shadow,
        "my-card",
        "<p><slot></slot></p>",
        None,
        Some("p { color: red; }"),
    );
    assert_eq!(
        r,
        r#"<template shadowrootmode="open" shadowrootadoptedstylesheets="my-card"><p><slot></slot></p></template>"#
    );
    let r = build_component_template(
        CssStrategy::Module,
        DomStrategy::Light,
        "my-card",
        "<p><slot></slot></p>",
        None,
        Some("p { color: red; }"),
    );
    assert_eq!(r, "<p><slot></slot></p>");
    // No CSS, no adopted stylesheet.
    let r = build_component_template(CssStrategy::Module, DomStrategy::Shadow, "my-card", "<p></p>", None, None);
    assert_eq!(r, r#"<template shadowrootmode="open"><p></p></template>"#);
}

#[test]
fn only_trimmed_html_opening_with_template_is_stripped() {
    assert_eq!(template_to_strip("  <template a>x</template>\n").as_deref(), Some("<template a>x</template>"));
    assert_eq!(template_to_strip("<div>x</div>"), None);
    assert_eq!(template_to_strip(""), None);
}

#[test]
fn template_content_edge_cases() {
    let light = |html: &str| process_component_template(DomStrategy::Light, html, None, None, None);
    // No `>`: the trimmed HTML itself.
    assert_eq!(light(" <template"), "<template");
    // Nothing between the tags.
    assert_eq!(light("<template></template>"), "");
    // No closing tag: everything after the opening tag.
    assert_eq!(light("<template>abc"), "abc");
    // The last closing tag ends the content.
    assert_eq!(light("<template><template>a</template></template>"), "<template>a</template>");
    // Anything else is kept, trimmed.
    assert_eq!(light("\n<div>a</div>\n"), "<div>a</div>");
}

#[test]
fn attribute_spans_fit_checks_positions() {
    let html = r#"<template @a="1" b="2" :c="3">x</template>"#;
    let spans = vec![span(html, r#"@a="1""#), span(html, r#"b="2""#), span(html, r#":c="3""#)];
    assert!(attribute_spans_fit(html, &spans));
    assert!(attribute_spans_fit(html, &[]));
    // A runtime attribute that ends after the removal of a later one begins.
    let mut overlapping = spans.clone();
    overlapping[0].end = overlapping[2].start + 1;
    assert!(!attribute_spans_fit(html, &overlapping));
    // A name beyond the text.
    let mut outside = spans.clone();
    outside[1].name_end = html.len() + 1;
    assert!(!attribute_spans_fit(html, &outside));
    // Positions of attributes that are not read at run time do not matter.
    let mut other = spans;
    other[1].start = 1000;
    other[1].end = 0;
    assert!(attribute_spans_fit(html, &other));
}
