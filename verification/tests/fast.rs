use std::path::PathBuf;
use webui::parser::fast::convert_btr_to_fast;
use webui::parser::fast_plugin::FastParserPlugin;
use webui::parser::plugin::{AttributeAction, Component};
use webui::parser::strategy::CssStrategy;

fn make_component(tag: &str, html: &str, css: Option<&str>) -> Component {
    Component {
        tag_name: tag.to_string(),
        html_content: html.to_string(),
        css_content: css.map(ToString::to_string),
        css_tokens: Vec::new(),
        source_path: PathBuf::from("/test"),
        class_name: None,
    }
}

// --- classify_attribute ---

#[test]
fn skip_event_binding() {
    let mut plugin = FastParserPlugin::new();
    assert_eq!(
        plugin.classify_attribute("@click"),
        AttributeAction::SkipAndCountBinding
    );
    assert_eq!(
        plugin.classify_attribute("@input"),
        AttributeAction::SkipAndCountBinding
    );
    assert_eq!(
        plugin.classify_attribute("@custom-event"),
        AttributeAction::SkipAndCountBinding
    );
}

#[test]
fn skip_f_ref() {
    let mut plugin = FastParserPlugin::new();
    assert_eq!(
        plugin.classify_attribute("f-ref"),
        AttributeAction::SkipAndCountBinding
    );
}

#[test]
fn skip_f_slotted() {
    let mut plugin = FastParserPlugin::new();
    assert_eq!(
        plugin.classify_attribute("f-slotted"),
        AttributeAction::SkipAndCountBinding
    );
}

#[test]
fn skip_f_children() {
    let mut plugin = FastParserPlugin::new();
    assert_eq!(
        plugin.classify_attribute("f-children"),
        AttributeAction::SkipAndCountBinding
    );
}

#[test]
fn do_not_skip_normal_attributes() {
    let mut plugin = FastParserPlugin::new();
    assert_eq!(plugin.classify_attribute("class"), AttributeAction::Keep);
    assert_eq!(plugin.classify_attribute("id"), AttributeAction::Keep);
    assert_eq!(
        plugin.classify_attribute("data-value"),
        AttributeAction::Keep
    );
    assert_eq!(plugin.classify_attribute(":title"), AttributeAction::Keep);
    assert_eq!(plugin.classify_attribute("f-other"), AttributeAction::Keep);
}

// --- finish_element ---

#[test]
fn element_parsed_zero_count_returns_none() {
    let mut plugin = FastParserPlugin::new();
    assert!(plugin.finish_element(0).is_none());
}

#[test]
fn element_parsed_nonzero_count_returns_le_bytes() {
    let mut plugin = FastParserPlugin::new();
    let data = plugin.finish_element(3);
    assert!(data.is_some());
    let bytes = data.as_deref().unwrap_or_default();
    assert_eq!(bytes, &3u32.to_le_bytes());
}

#[test]
fn element_parsed_large_count() {
    let mut plugin = FastParserPlugin::new();
    let data = plugin.finish_element(256);
    assert!(data.is_some());
    let bytes = data.as_deref().unwrap_or_default();
    assert_eq!(bytes, &256u32.to_le_bytes());
}

#[test]
fn component_template_simple_component() {
    let mut plugin = FastParserPlugin::new();
    let comp = make_component("my-comp", "<div>hello</div>", Some("div { color: red; }"));
    plugin
        .register_component_template("my-comp", &comp, &comp.html_content)
        .unwrap();

    let templates = plugin.take_component_templates();
    assert_eq!(templates.len(), 1);
    let (name, html) = &templates[0];
    assert_eq!(name, "my-comp");
    assert!(html.contains("<f-template name=\"my-comp\">"));
    assert!(html.contains("</f-template>"));
    assert!(html.contains("<template>"));
    assert!(html.contains("</template>"));
    assert!(html.contains("<link rel=\"stylesheet\" href=\"/my-comp.css\">"));
    assert!(html.contains("<div>hello</div>"));
}

#[test]
fn component_template_without_css() {
    let mut plugin = FastParserPlugin::new();
    let comp = make_component("no-css", "<span>text</span>", None);
    plugin
        .register_component_template("no-css", &comp, &comp.html_content)
        .unwrap();

    let templates = plugin.take_component_templates();
    assert_eq!(templates.len(), 1);
    let (name, html) = &templates[0];
    assert_eq!(name, "no-css");
    assert!(html.contains("<f-template name=\"no-css\">"));
    assert!(!html.contains("<link rel=\"stylesheet\""));
    assert!(html.contains("<span>text</span>"));
}

#[test]
fn component_template_css_strategy_style() {
    let mut plugin = FastParserPlugin::new();
    plugin.set_css_strategy(CssStrategy::Style);
    let comp = make_component("my-comp", "<div>hello</div>", Some("div { color: red; }"));
    plugin
        .register_component_template("my-comp", &comp, &comp.html_content)
        .unwrap();

    let templates = plugin.take_component_templates();
    assert_eq!(templates.len(), 1);
    let (_, html) = &templates[0];
    assert!(
        html.contains("<style>div { color: red; }</style>"),
        "Style strategy should inline CSS, got: {html}"
    );
    assert!(
        !html.contains("<link"),
        "Style strategy should not emit <link> tags"
    );
}

#[test]
fn component_template_css_strategy_module() {
    let mut plugin = FastParserPlugin::new();
    plugin.set_css_strategy(CssStrategy::Module);
    let comp = make_component("my-comp", "<div>hello</div>", Some("div { color: red; }"));
    plugin
        .register_component_template("my-comp", &comp, &comp.html_content)
        .unwrap();

    let templates = plugin.take_component_templates();
    assert_eq!(templates.len(), 1);
    let (_, html) = &templates[0];

    // f-template should NOT contain the CSS module — that is added
    // by the handler (SSR) or prepend_css_module (partials).
    assert!(
        !html.contains(r#"<style type="module""#),
        "CSS module should not be baked into f-template: {html}"
    );
    // shadowrootadoptedstylesheets on the inner template
    assert!(
        html.contains(r#"shadowrootadoptedstylesheets="my-comp""#),
        "Module strategy should add shadowrootadoptedstylesheets, got: {html}"
    );
    // No inline <style> or <link> inside the template
    assert!(
        !html.contains("<style>div"),
        "Module strategy should not have inline <style> inside template"
    );
    assert!(
        !html.contains("<link"),
        "Module strategy should not emit <link> tags"
    );
}

#[test]
fn component_template_css_strategy_module_no_css() {
    let mut plugin = FastParserPlugin::new();
    plugin.set_css_strategy(CssStrategy::Module);
    let comp = make_component("my-comp", "<div>hello</div>", None);
    plugin
        .register_component_template("my-comp", &comp, &comp.html_content)
        .unwrap();

    let templates = plugin.take_component_templates();
    assert_eq!(templates.len(), 1);
    let (_, html) = &templates[0];
    assert!(
        !html.contains("shadowrootadoptedstylesheets"),
        "No CSS = no shadowrootadoptedstylesheets, got: {html}"
    );
    assert!(
        !html.contains("<style"),
        "No CSS = no style tag, got: {html}"
    );
}

#[test]
fn component_template_multiple_components() {
    let mut plugin = FastParserPlugin::new();
    let comp1 = make_component("comp-a", "<div>A</div>", None);
    let comp2 = make_component("comp-b", "<div>B</div>", Some("b { }"));
    plugin
        .register_component_template("comp-a", &comp1, &comp1.html_content)
        .unwrap();
    plugin
        .register_component_template("comp-b", &comp2, &comp2.html_content)
        .unwrap();

    let templates = plugin.take_component_templates();
    assert_eq!(templates.len(), 2);

    let names: Vec<&str> = templates.iter().map(|(n, _)| n.as_str()).collect();
    assert!(names.contains(&"comp-a"));
    assert!(names.contains(&"comp-b"));

    for (_, html) in &templates {
        assert!(html.contains("<f-template name="));
    }
}

#[test]
fn component_template_deduplicates_same_component() {
    let mut plugin = FastParserPlugin::new();
    let comp = make_component(
        "my-button",
        "<button><slot></slot></button>",
        Some(".btn{}"),
    );

    // Simulate the same component encountered multiple times
    // (e.g., <my-button> used in todo-app, todo-item, etc.)
    plugin
        .register_component_template("my-button", &comp, &comp.html_content)
        .unwrap();
    plugin
        .register_component_template("my-button", &comp, &comp.html_content)
        .unwrap();
    plugin
        .register_component_template("my-button", &comp, &comp.html_content)
        .unwrap();

    let templates = plugin.take_component_templates();
    assert_eq!(
        templates.len(),
        1,
        "Expected exactly 1 template for my-button, got {}",
        templates.len()
    );
    assert_eq!(templates[0].0, "my-button");
}

#[test]
fn component_template_deduplicates_mixed_components() {
    let mut plugin = FastParserPlugin::new();
    let btn = make_component("my-button", "<button><slot></slot></button>", None);
    let card = make_component("my-card", "<div><slot></slot></div>", Some(".card{}"));

    // my-button used in two different parent templates, my-card used once
    plugin
        .register_component_template("my-button", &btn, &btn.html_content)
        .unwrap();
    plugin
        .register_component_template("my-card", &card, &card.html_content)
        .unwrap();
    plugin
        .register_component_template("my-button", &btn, &btn.html_content)
        .unwrap();

    let templates = plugin.take_component_templates();
    assert_eq!(templates.len(), 2);

    let button_count = templates.iter().filter(|(n, _)| n == "my-button").count();
    let card_count = templates.iter().filter(|(n, _)| n == "my-card").count();
    assert_eq!(button_count, 1);
    assert_eq!(card_count, 1);
}

// --- FAST syntax conversion ---

#[test]
fn convert_if_to_f_when() {
    let input = r#"<if condition="isComplete"><span>Done</span></if>"#;
    let output = convert_btr_to_fast(input);
    assert_eq!(
        output,
        r#"<f-when value="{{isComplete}}"><span>Done</span></f-when>"#
    );
}

#[test]
fn convert_for_to_f_repeat() {
    let input = r#"<for each="tag in tags"><span>{{tag}}</span></for>"#;
    let output = convert_btr_to_fast(input);
    assert_eq!(
        output,
        r#"<f-repeat value="{{tag in tags}}"><span>{{tag}}</span></f-repeat>"#
    );
}

#[test]
fn convert_nested_if_and_for() {
    let input = r#"<if condition="show"><for each="x in items"><p>{{x}}</p></for></if>"#;
    let output = convert_btr_to_fast(input);
    assert_eq!(
        output,
        r#"<f-when value="{{show}}"><f-repeat value="{{x in items}}"><p>{{x}}</p></f-repeat></f-when>"#
    );
}

#[test]
fn convert_complex_attr_double_braces() {
    let input = r#"<div :data="{{config}}"></div>"#;
    let output = convert_btr_to_fast(input);
    assert_eq!(output, r#"<div :data="{config}"></div>"#);
}

#[test]
fn convert_multiple_complex_attrs() {
    let input = r#"<div :title="{{name}}" :data-id="{{id}}"></div>"#;
    let output = convert_btr_to_fast(input);
    assert_eq!(output, r#"<div :title="{name}" :data-id="{id}"></div>"#);
}

#[test]
fn no_conversion_for_text_double_braces() {
    // Double braces in text content (not in :attr) should stay as-is
    let input = "<span>{{greeting}}</span>";
    let output = convert_btr_to_fast(input);
    assert_eq!(output, "<span>{{greeting}}</span>");
}

#[test]
fn no_conversion_for_regular_attr() {
    // Double braces in non-colon attributes should stay as-is
    let input = r#"<div title="{{name}}"></div>"#;
    let output = convert_btr_to_fast(input);
    assert_eq!(output, r#"<div title="{{name}}"></div>"#);
}

#[test]
fn component_template_with_btr_conversion() {
    let mut plugin = FastParserPlugin::new();
    let html = r#"<div><if condition="visible"><span>hi</span></if></div>"#;
    let comp = make_component("my-widget", html, None);
    plugin
        .register_component_template("my-widget", &comp, &comp.html_content)
        .unwrap();

    let templates = plugin.take_component_templates();
    assert_eq!(templates.len(), 1);
    let (name, result) = &templates[0];
    assert_eq!(name, "my-widget");

    assert!(result.contains("<f-when value=\"{{visible}}\">"));
    assert!(result.contains("</f-when>"));
    assert!(!result.contains("<if condition="));
    assert!(!result.contains("</if>"));
}

#[test]
fn passthrough_normal_html() {
    let input = r#"<div class="container"><p>Hello</p></div>"#;
    let output = convert_btr_to_fast(input);
    assert_eq!(output, input);
}

#[test]
fn outlet_kept_as_marker_in_f_template() {
    let input = r#"<div><outlet /></div>"#;
    let output = convert_btr_to_fast(input);
    assert_eq!(output, r#"<div><outlet></outlet></div>"#);
}

#[test]
fn outlet_marker_in_component_template() {
    let mut plugin = FastParserPlugin::new();
    let html =
        r#"<template shadowrootmode="open"><h1>Title</h1><main><outlet /></main></template>"#;
    let comp = make_component("my-shell", html, None);
    plugin
        .register_component_template("my-shell", &comp, &comp.html_content)
        .unwrap();

    let templates = plugin.take_component_templates();
    let (_, result) = &templates[0];
    assert!(
        result.contains("<outlet></outlet>"),
        "outlet should be kept as marker in f-template: {result}"
    );
}

#[test]
fn strip_shadowrootmode_from_template() {
    let input = r#"<template shadowrootmode="open"><div>Hello</div></template>"#;
    let output = convert_btr_to_fast(input);
    assert_eq!(output, "<template><div>Hello</div></template>");
}

#[test]
fn strip_shadowrootmode_preserves_other_attrs() {
    let input =
        r#"<template shadowrootmode="open" @click="{onClick(e)}"><div>Hi</div></template>"#;
    let output = convert_btr_to_fast(input);
    assert!(output.contains(r#"@click="{onClick(e)}""#));
    assert!(!output.contains("shadowrootmode"));
    assert!(output.starts_with("<template "));
}

#[test]
fn no_strip_when_no_shadowrootmode() {
    let input = r#"<template foo="bar"><div>Hi</div></template>"#;
    let output = convert_btr_to_fast(input);
    assert_eq!(output, input);
}

#[test]
fn component_template_strips_shadowrootmode_from_f_template() {
    let mut plugin = FastParserPlugin::new();
    let comp = make_component(
        "my-comp",
        r#"<template shadowrootmode="open" @click="{onClick(e)}"><div>{{title}}</div></template>"#,
        Some("div { color: red; }"),
    );
    plugin
        .register_component_template("my-comp", &comp, &comp.html_content)
        .unwrap();
    let templates = plugin.take_component_templates();
    assert_eq!(templates.len(), 1);
    let (name, html) = &templates[0];
    assert_eq!(name, "my-comp");
    // f-template content should NOT have shadowrootmode
    assert!(!html.contains("shadowrootmode"));
    // But should keep @click (framework attr kept in f-template mode)
    assert!(html.contains("@click"));
    // Should have the converted content
    assert!(html.contains("{{title}}"));
}

#[test]
fn test_complex_attribute_normalization() {
    // All spacing variants should convert {{}} to {} in :attr values,
    // preserving any whitespace within the expression.
    let cases = [
        (
            r#"<div :foo="{{value}}"></div>"#,
            r#"<div :foo="{value}"></div>"#,
        ),
        (
            r#"<div :foo="{{ value}}"></div>"#,
            r#"<div :foo="{ value}"></div>"#,
        ),
        (
            r#"<div :foo="{{value }}"></div>"#,
            r#"<div :foo="{value }"></div>"#,
        ),
        (
            r#"<div :foo="{{ value }}"></div>"#,
            r#"<div :foo="{ value }"></div>"#,
        ),
    ];
    for (input, expected) in &cases {
        let output = convert_btr_to_fast(input);
        assert_eq!(&output, expected, "normalization failed for input: {input}");
    }
}

#[test]
fn test_non_js_component_inner_template() {
    let mut plugin = FastParserPlugin::new();
    // A JS component whose HTML contains a non-JS component using
    // declarative shadow DOM (template with shadowrootmode).
    let html = r#"<div><child-comp><template shadowrootmode="open"><p>inner</p></template></child-comp></div>"#;
    let comp = make_component("parent-comp", html, None);
    plugin
        .register_component_template("parent-comp", &comp, &comp.html_content)
        .unwrap();

    let templates = plugin.take_component_templates();
    assert_eq!(templates.len(), 1);
    let (name, output) = &templates[0];
    assert_eq!(name, "parent-comp");

    assert!(output.contains("<f-template name=\"parent-comp\">"));
    // shadowrootmode must be stripped from the inner non-JS component's template
    assert!(!output.contains("shadowrootmode"));
    // The inner template structure should be preserved (without shadowrootmode)
    assert!(output.contains("<child-comp><template><p>inner</p></template></child-comp>"));
}

#[test]
fn route_tags_converted_to_f_route() {
    let input = r#"<route path="/home" name="home" exact><span>Home</span></route>"#;
    let output = convert_btr_to_fast(input);
    assert!(output.starts_with("<webui-route"));
    assert!(output.contains(r#"path="/home""#));
    assert!(output.contains(r#"name="home""#));
    assert!(output.contains(" exact"));
    assert!(output.contains("style=\"display:none\""));
    assert!(output.contains("<span>Home</span>"));
    assert!(output.ends_with("</webui-route>"));
}

#[test]
fn f_route_tags_pass_through() {
    // <webui-route> tags emitted by the parser should pass through unchanged
    let input = r#"<webui-route path="/" name="dashboard" component="cb-page-dashboard" exact style="display:none"></webui-route>"#;
    let output = convert_btr_to_fast(input);
    assert_eq!(output, input);
}

// --- End-to-end f-template regression tests ---
// Verify that generated f-template blocks always use FAST syntax
// (<f-when>/<f-repeat>) instead of webui syntax (<if>/<for>).

#[test]
fn ftemplate_for_loop_converted_to_f_repeat() {
    let mut plugin = FastParserPlugin::new();
    let html = r#"<ul><for each="item in items"><li>{{item.name}}</li></for></ul>"#;
    let comp = make_component("my-list", html, None);
    plugin
        .register_component_template("my-list", &comp, &comp.html_content)
        .unwrap();

    let templates = plugin.take_component_templates();
    let (_, result) = &templates[0];

    assert!(
        result.contains("<f-repeat value=\"{{item in items}}\">"),
        "f-template should use <f-repeat>, got: {result}"
    );
    assert!(
        result.contains("</f-repeat>"),
        "f-template should close with </f-repeat>, got: {result}"
    );
    assert!(
        !result.contains("<for "),
        "f-template should NOT contain <for>, got: {result}"
    );
}

#[test]
fn ftemplate_shadow_dom_strips_shadowroot_and_converts_directives() {
    let mut plugin = FastParserPlugin::new();
    let html = r#"<template shadowrootmode="open"><div><if condition="visible">Shown</if><for each="x in list"><span>{{x}}</span></for></div></template>"#;
    let comp = make_component("my-shadow", html, None);
    plugin
        .register_component_template("my-shadow", &comp, &comp.html_content)
        .unwrap();

    let templates = plugin.take_component_templates();
    let (_, result) = &templates[0];

    assert!(
        result.contains("<f-when value=\"{{visible}}\">"),
        "Shadow f-template should contain <f-when>, got: {result}"
    );
    assert!(
        result.contains("<f-repeat value=\"{{x in list}}\">"),
        "Shadow f-template should contain <f-repeat>, got: {result}"
    );
    assert!(
        !result.contains("shadowrootmode"),
        "Shadow f-template should strip shadowrootmode, got: {result}"
    );
    assert!(
        !result.contains("<if "),
        "Shadow f-template should NOT contain <if>, got: {result}"
    );
    assert!(
        !result.contains("<for "),
        "Shadow f-template should NOT contain <for>, got: {result}"
    );
}

#[test]
fn ftemplate_nested_if_and_for_both_converted() {
    let mut plugin = FastParserPlugin::new();
    let html =
        r#"<div><if condition="show"><for each="x in items"><p>{{x}}</p></for></if></div>"#;
    let comp = make_component("my-nested", html, None);
    plugin
        .register_component_template("my-nested", &comp, &comp.html_content)
        .unwrap();

    let templates = plugin.take_component_templates();
    let (_, result) = &templates[0];

    assert!(
        result.contains("<f-when value=\"{{show}}\">"),
        "Nested f-template should contain <f-when>, got: {result}"
    );
    assert!(
        result.contains("<f-repeat value=\"{{x in items}}\">"),
        "Nested f-template should contain <f-repeat>, got: {result}"
    );
    assert!(
        !result.contains("<if "),
        "Nested f-template should NOT contain <if>, got: {result}"
    );
    assert!(
        !result.contains("<for "),
        "Nested f-template should NOT contain <for>, got: {result}"
    );
}
