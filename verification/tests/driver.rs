use std::path::PathBuf;
use webui::parser::driver::{
    body_end, body_start, child_node_action, comment_node, component_directive, component_template, element_opening,
    for_body_start, for_directive_end, head_end, if_directive_end, if_directive_start, outlet_directive,
    route_directive, route_template_needed, source_gap, style_element, text_node, ChildAction, ParseState,
    ParsedAttribute,
};
use webui::parser::tokens::take_tokens;
use webui::parser::elements::for_directive_head;
use webui::parser::elements::find_first_node;
use webui::parser::error::ParserError;
use webui::parser::fast_plugin::FastParserPlugin;
use webui::parser::html_tree::{parse_html, HtmlNode};
use webui::parser::plugin::Component;
use webui::parser::strategy::{CssStrategy, DomStrategy};
use webui::protocol::records::StringMap;
use webui::protocol::types::{
    ConditionExpr, FragmentList, WebUiFragment, WebUiFragmentAttribute,
};
use webui::protocol::web_ui_fragment::Fragment;

fn component(tag: &str, html: &str, css: Option<&str>, tokens: &[&str]) -> (String, Component) {
    (
        tag.to_string(),
        Component {
            tag_name: tag.to_string(),
            html_content: html.to_string(),
            css_content: css.map(|c| c.to_string()),
            css_tokens: tokens.iter().map(|t| t.to_string()).collect(),
            source_path: PathBuf::from(format!("{tag}.html")),
            class_name: None,
        },
    )
}

fn registry(entries: Vec<(String, Component)>) -> StringMap<Component> {
    StringMap::from_entries(entries)
}

fn attr(a: WebUiFragmentAttribute) -> WebUiFragment {
    WebUiFragment { fragment: Some(Fragment::Attribute(a)) }
}

fn nothing_parsed() -> ParsedAttribute {
    ParsedAttribute { condition: None, template: Ok(Vec::new()) }
}

fn element(t: &HtmlNode) -> &HtmlNode {
    find_first_node(t, "element").expect("element")
}

#[test]
fn component_without_attributes_opens_and_hands_back_its_template() {
    let reg = registry(vec![component("my-component", "<div>My Component</div>", Some("div { color: blue; }"), &[])]);
    let html = "<my-component></my-component>";
    let t = parse_html(html);
    let mut state = ParseState::new(CssStrategy::Link, DomStrategy::Light);
    let mut out = Vec::new();
    let mut plugin: Option<FastParserPlugin> = None;
    let opening = component_directive(element(&t), html, "my-component", &reg, &mut plugin, Vec::new(), &mut state, &mut out)
        .expect("opening");
    assert_eq!(out, vec![WebUiFragment::raw("<my-component>"), WebUiFragment::component("my-component")]);
    assert_eq!(opening.template.as_deref(), Some("<div>My Component</div>"));
    assert!(!opening.self_closing);
    assert_eq!(state.raw_buffer, "");
}

#[test]
fn self_closing_component_with_a_binding() {
    let reg = registry(vec![component("custom-widget", "<div>Widget Content</div>", None, &[])]);
    let html = r#"<custom-widget config="{{settings}}" />"#;
    let t = parse_html(html);
    let mut state = ParseState::new(CssStrategy::Link, DomStrategy::Shadow);
    let mut out = Vec::new();
    let mut plugin: Option<FastParserPlugin> = None;
    let opening =
        component_directive(element(&t), html, "custom-widget", &reg, &mut plugin, vec![nothing_parsed()], &mut state, &mut out)
            .expect("opening");
    assert!(opening.self_closing);
    assert_eq!(
        out,
        vec![
            WebUiFragment::raw("<custom-widget"),
            attr(WebUiFragmentAttribute {
                name: "config".to_string(),
                value: "settings".to_string(),
                attr_start: true,
                ..Default::default()
            }),
            WebUiFragment::raw("/>"),
            WebUiFragment::component("custom-widget"),
        ]
    );
    assert_eq!(
        opening.template.as_deref(),
        Some("<template shadowrootmode=\"open\"><div>Widget Content</div></template>")
    );
}

#[test]
fn unknown_component_is_an_error() {
    let reg = registry(Vec::new());
    let html = "<x-y></x-y>";
    let t = parse_html(html);
    let mut state = ParseState::new(CssStrategy::Link, DomStrategy::Shadow);
    let mut out = Vec::new();
    let mut plugin: Option<FastParserPlugin> = None;
    match component_directive(element(&t), html, "x-y", &reg, &mut plugin, Vec::new(), &mut state, &mut out) {
        Err(ParserError::Directive(m)) => assert_eq!(m, "Component not found: x-y"),
        other => panic!("expected a directive error, got {:?}", other.map(|o| o.self_closing)),
    }
}

#[test]
fn template_and_boolean_attributes_of_a_component() {
    let reg = registry(vec![component("my-comp", "<p>x</p>", None, &["color-primary", "space"])]);
    let html = r#"<my-comp ?open="{{a && b}}" label="x {{y}} z" hidden></my-comp>"#;
    let t = parse_html(html);
    let mut state = ParseState::new(CssStrategy::Link, DomStrategy::Light);
    state.tokens.push("existing".to_string());
    let mut out = Vec::new();
    let mut plugin: Option<FastParserPlugin> = None;
    let label_stream = vec![WebUiFragment::raw("x "), WebUiFragment::signal("y", false), WebUiFragment::raw(" z")];
    let parsed = vec![
        ParsedAttribute { condition: None, template: Ok(Vec::new()) },
        ParsedAttribute { condition: None, template: Ok(label_stream) },
        nothing_parsed(),
    ];
    let opening = component_directive(element(&t), html, "my-comp", &reg, &mut plugin, parsed, &mut state, &mut out)
        .expect("opening");
    assert_eq!(
        out,
        vec![
            WebUiFragment::raw("<my-comp"),
            attr(WebUiFragmentAttribute {
                name: "open".to_string(),
                attr_start: true,
                condition_tree: Some(ConditionExpr::identifier("a && b")),
                ..Default::default()
            }),
            attr(WebUiFragmentAttribute {
                name: "label".to_string(),
                template: "attr-1".to_string(),
                ..Default::default()
            }),
            WebUiFragment::raw(" hidden>"),
            WebUiFragment::component("my-comp"),
        ]
    );
    assert_eq!(
        state.records.get("attr-1"),
        Some(&FragmentList {
            fragments: vec![WebUiFragment::raw("x "), WebUiFragment::signal("y", false), WebUiFragment::raw(" z")]
        })
    );
    assert_eq!(state.tokens, vec!["existing", "color-primary", "space"]);
    assert_eq!(opening.template.as_deref(), Some("<p>x</p>"));
}

#[test]
fn a_template_attribute_parse_error_is_the_error() {
    let reg = registry(vec![component("my-comp", "<p>x</p>", None, &[])]);
    let html = r#"<my-comp label="x {{y"></my-comp>"#;
    let t = parse_html(html);
    let mut state = ParseState::new(CssStrategy::Link, DomStrategy::Light);
    let mut out = Vec::new();
    let mut plugin: Option<FastParserPlugin> = None;
    let parsed = vec![ParsedAttribute { condition: None, template: Err(ParserError::Parse("unclosed".to_string())) }];
    match component_directive(element(&t), html, "my-comp", &reg, &mut plugin, parsed, &mut state, &mut out) {
        Err(ParserError::Parse(m)) => assert_eq!(m, "unclosed"),
        other => panic!("expected the parse error, got {:?}", other.map(|o| o.self_closing)),
    }
    assert!(out.is_empty());
    assert_eq!(state.raw_buffer, "<my-comp");
    assert_eq!(state.ids.next_id("attr"), "attr-2");
}

#[test]
fn a_component_whose_template_is_recorded_is_not_built_again() {
    let reg = registry(vec![component("my-comp", "<p>x</p>", None, &[])]);
    let html = "<my-comp></my-comp>";
    let t = parse_html(html);
    let mut state = ParseState::new(CssStrategy::Link, DomStrategy::Light);
    state.records.insert("my-comp".to_string(), FragmentList { fragments: vec![WebUiFragment::raw("<p>x</p>")] });
    let mut out = Vec::new();
    let mut plugin: Option<FastParserPlugin> = None;
    let opening = component_directive(element(&t), html, "my-comp", &reg, &mut plugin, Vec::new(), &mut state, &mut out)
        .expect("opening");
    assert_eq!(opening.template, None);
    assert_eq!(out, vec![WebUiFragment::raw("<my-comp>"), WebUiFragment::component("my-comp")]);
}

#[test]
fn fast_plugin_counts_bindings_and_tracks_the_component_once() {
    let reg = registry(vec![component("my-comp", "<p>x</p>", Some("p { color: red; }"), &[])]);
    let html = r#"<my-comp @click="{go}" title="{{t}}"></my-comp>"#;
    let t = parse_html(html);
    let mut state = ParseState::new(CssStrategy::Link, DomStrategy::Shadow);
    let mut out = Vec::new();
    let mut plugin = Some(FastParserPlugin::new());
    let opening = component_directive(
        element(&t), html, "my-comp", &reg, &mut plugin, vec![nothing_parsed(), nothing_parsed()], &mut state, &mut out,
    )
    .expect("opening");
    assert_eq!(
        out,
        vec![
            WebUiFragment::raw("<my-comp"),
            attr(WebUiFragmentAttribute {
                name: "title".to_string(),
                value: "t".to_string(),
                attr_start: true,
                ..Default::default()
            }),
            WebUiFragment::plugin(vec![2, 0, 0, 0]),
            WebUiFragment::raw(">"),
            WebUiFragment::component("my-comp"),
        ]
    );
    let template = opening.template.expect("template");
    assert_eq!(
        template,
        "<template shadowrootmode=\"open\"><link rel=\"stylesheet\" href=\"/my-comp.css\"><p>x</p></template>"
    );
    let templates = plugin.as_ref().expect("plugin").take_component_templates();
    assert_eq!(templates.len(), 1);
    assert_eq!(templates[0].0, "my-comp");
}

#[test]
fn child_nodes_by_kind_and_tag() {
    let reg = registry(vec![component("my-comp", "<p>x</p>", None, &[])]);
    let html = "<for each=\"a in b\"></for><if condition=\"x\"></if><outlet></outlet><route path=\"/\" component=\"my-comp\"></route><my-comp></my-comp><div></div><!-- c -->text";
    let t = parse_html(html);
    let actions: Vec<ChildAction> =
        t.children.iter().map(|c| child_node_action(c, html, &reg).expect("action")).collect();
    assert_eq!(
        actions,
        vec![
            ChildAction::ForDirective,
            ChildAction::IfDirective,
            ChildAction::Outlet,
            ChildAction::Route,
            ChildAction::Component,
            ChildAction::Element,
            ChildAction::Comment,
            ChildAction::Text,
        ]
    );
    let html = "<!DOCTYPE html><html><head><style>p{}</style></head><body></body></html>";
    let t = parse_html(html);
    assert_eq!(child_node_action(&t.children[0], html, &reg).unwrap(), ChildAction::Doctype);
    let page = &t.children[1];
    assert_eq!(child_node_action(page, html, &reg).unwrap(), ChildAction::Element);
    let head = page.children.iter().find(|c| c.kind == "element");
    assert_eq!(child_node_action(head.expect("head"), html, &reg).unwrap(), ChildAction::Head);
    let style = find_first_node(page, "style_element").expect("style");
    assert_eq!(child_node_action(style, html, &reg).unwrap(), ChildAction::Style);
}

#[test]
fn the_stream_merges_raw_text_and_never_writes_it_empty() {
    let mut state = ParseState::new(CssStrategy::Link, DomStrategy::Shadow);
    let mut out = Vec::new();
    state.flush_raw(&mut out);
    assert!(out.is_empty());
    state.add_raw("<a");
    state.add_raw(">");
    outlet_directive(&mut state, &mut out);
    state.add_raw("x");
    state.flush_raw(&mut out);
    state.flush_raw(&mut out);
    state.add_fragment(WebUiFragment::component("c"), &mut out);
    assert_eq!(
        out,
        vec![
            WebUiFragment::raw("<a>"),
            WebUiFragment::outlet(),
            WebUiFragment::raw("x"),
            WebUiFragment::component("c"),
        ]
    );
}

#[test]
fn component_templates_for_the_strategies() {
    let html = r#"<template shadowrootmode="open" @click="go" :x="y"><slot></slot></template>"#;
    assert_eq!(
        component_template(CssStrategy::Style, DomStrategy::Shadow, "my-el", html, Some("  p { color: red; }  ")),
        "<template shadowrootmode=\"open\"><style>p { color: red; }</style><slot></slot></template>"
    );
    assert_eq!(component_template(CssStrategy::Module, DomStrategy::Light, "my-el", html, None), "<slot></slot>");
    assert_eq!(
        component_template(CssStrategy::Module, DomStrategy::Shadow, "my-el", "<p>a</p>", Some("p{}")),
        "<template shadowrootmode=\"open\" shadowrootadoptedstylesheets=\"my-el\"><p>a</p></template>"
    );
}

#[test]
fn regular_element_with_static_dynamic_and_bare_attributes() {
    let html = r#"<div class="a" id="{{x}}" title="p {{q}}" hidden><b>k</b></div>"#;
    let t = parse_html(html);
    let mut state = ParseState::new(CssStrategy::Link, DomStrategy::Shadow);
    let mut out = Vec::new();
    let mut plugin: Option<FastParserPlugin> = None;
    let title = vec![WebUiFragment::raw("p "), WebUiFragment::signal("q", false)];
    let parsed = vec![
        nothing_parsed(),
        nothing_parsed(),
        ParsedAttribute { condition: None, template: Ok(title) },
        nothing_parsed(),
    ];
    let children_follow =
        element_opening(element(&t), html, "div", &mut plugin, parsed, &mut state, &mut out).expect("opening");
    assert!(children_follow);
    assert_eq!(
        out,
        vec![
            WebUiFragment::raw("<div class=\"a\""),
            WebUiFragment::attribute("id", "x"),
            WebUiFragment::attribute_template("title", "attr-1"),
        ]
    );
    assert_eq!(state.raw_buffer, " hidden>");
    assert!(state.records.contains_key("attr-1"));
}

#[test]
fn void_and_self_closing_elements_have_no_children() {
    let html = "<br>";
    let t = parse_html(html);
    let mut state = ParseState::new(CssStrategy::Link, DomStrategy::Shadow);
    let mut out = Vec::new();
    let mut plugin: Option<FastParserPlugin> = None;
    assert!(!element_opening(element(&t), html, "br", &mut plugin, Vec::new(), &mut state, &mut out).unwrap());
    assert_eq!(state.raw_buffer, "<br>");
    let html = r#"<img src="a.png" />"#;
    let t = parse_html(html);
    let mut state = ParseState::new(CssStrategy::Link, DomStrategy::Shadow);
    assert!(!element_opening(element(&t), html, "img", &mut plugin, vec![nothing_parsed()], &mut state, &mut out).unwrap());
    assert_eq!(state.raw_buffer, "<img src=\"a.png\"/>");
    assert!(out.is_empty());
}

#[test]
fn native_element_opening_rejects_a_complex_binding() {
    let html = r#"<div :config="{{c}}"></div>"#;
    let t = parse_html(html);
    let mut state = ParseState::new(CssStrategy::Link, DomStrategy::Shadow);
    let mut out = Vec::new();
    let mut plugin: Option<FastParserPlugin> = None;
    match element_opening(element(&t), html, "div", &mut plugin, vec![nothing_parsed()], &mut state, &mut out) {
        Err(ParserError::Parse(m)) => assert_eq!(
            m,
            ":config complex binding is only allowed on custom elements. Use config=\"{{expr}}\" for native HTML elements."
        ),
        other => panic!("expected a parse error, got {other:?}"),
    }
}

#[test]
fn route_directive_writes_the_route_after_pending_text() {
    let html = r#"<route path="/" component="app-shell"><route path="compose" component="compose-page" query="to" exact /></route>"#;
    let t = parse_html(html);
    let mut state = ParseState::new(CssStrategy::Link, DomStrategy::Shadow);
    state.add_raw("<main>");
    let mut out = Vec::new();
    route_directive(element(&t), html, &mut state, &mut out).expect("route");
    assert_eq!(out.len(), 2);
    assert_eq!(out[0], WebUiFragment::raw("<main>"));
    match out[1].fragment.as_ref() {
        Some(Fragment::Route(r)) => {
            assert_eq!((r.path.as_str(), r.fragment_id.as_str(), r.allowed_query.as_str(), r.exact), ("/", "app-shell", "", false));
            assert_eq!(r.children.len(), 1);
            assert_eq!((r.children[0].path.as_str(), r.children[0].allowed_query.as_str()), ("compose", "to"));
        },
        other => panic!("expected a route, got {other:?}"),
    }
    let html = r#"<route component="home-page" />"#;
    let t = parse_html(html);
    assert!(matches!(route_directive(element(&t), html, &mut state, &mut out),
        Err(ParserError::Directive(m)) if m == "Route must have a 'path' attribute"));
}

#[test]
fn route_component_templates_still_to_parse() {
    let reg = registry(vec![component("app-shell", "<p>x</p>", None, &[])]);
    let mut state = ParseState::new(CssStrategy::Link, DomStrategy::Shadow);
    assert!(route_template_needed("app-shell", &reg, &state));
    assert!(!route_template_needed("", &reg, &state));
    assert!(!route_template_needed("other", &reg, &state));
    state.records.insert("app-shell".to_string(), FragmentList { fragments: Vec::new() });
    assert!(!route_template_needed("app-shell", &reg, &state));
}

#[test]
fn body_and_head_signals() {
    let mut state = ParseState::new(CssStrategy::Link, DomStrategy::Shadow);
    let mut out = Vec::new();
    state.add_raw("<html><head>");
    head_end(&mut state, &mut out);
    body_start(&mut state, &mut out);
    state.add_raw("<p>x</p>");
    body_end(&mut state, &mut out);
    state.add_raw("</html>");
    state.flush_raw(&mut out);
    assert_eq!(
        out,
        vec![
            WebUiFragment::raw("<html><head>"),
            WebUiFragment::signal("head_end", true),
            WebUiFragment::raw("</head><body>"),
            WebUiFragment::signal("body_start", true),
            WebUiFragment::raw("<p>x</p>"),
            WebUiFragment::signal("body_end", true),
            WebUiFragment::raw("</body></html>"),
        ]
    );
}

#[test]
fn text_nodes_write_their_handlebars_fragments() {
    let mut state = ParseState::new(CssStrategy::Link, DomStrategy::Shadow);
    let mut out = Vec::new();
    let parsed = vec![WebUiFragment::raw("Hello "), WebUiFragment::signal("name", false), WebUiFragment::raw("!")];
    text_node("Hello {{name}}!", Ok(parsed), &mut state, &mut out).unwrap();
    assert_eq!(out, vec![WebUiFragment::raw("Hello "), WebUiFragment::signal("name", false)]);
    assert_eq!(state.raw_buffer, "!");
    text_node("\n   ", Ok(vec![WebUiFragment::raw("\n   ")]), &mut state, &mut out).unwrap();
    assert_eq!(state.raw_buffer, "!");
    text_node(" ", Ok(vec![WebUiFragment::raw(" ")]), &mut state, &mut out).unwrap();
    assert_eq!(state.raw_buffer, "! ");
    let e = text_node("{{x", Err(ParserError::Parse("bad".to_string())), &mut state, &mut out);
    assert_eq!(e, Err(ParserError::Parse("bad".to_string())));
}

#[test]
fn comments_stay_raw_unless_all_signals() {
    let mut state = ParseState::new(CssStrategy::Link, DomStrategy::Shadow);
    let mut out = Vec::new();
    comment_node("<!-- plain -->", Ok(Vec::new()), &mut state, &mut out).unwrap();
    assert_eq!(state.raw_buffer, "<!-- plain -->");
    comment_node("<!--{{tokens}}-->", Ok(vec![WebUiFragment::signal("tokens", false)]), &mut state, &mut out).unwrap();
    assert_eq!(out, vec![WebUiFragment::raw("<!-- plain -->"), WebUiFragment::signal("tokens", false)]);
    comment_node(
        "<!-- a {{b}} -->",
        Ok(vec![WebUiFragment::raw("a "), WebUiFragment::signal("b", false)]),
        &mut state,
        &mut out,
    )
    .unwrap();
    assert_eq!(state.raw_buffer, "<!-- a {{b}} -->");
}

#[test]
fn if_block_records_its_body_and_writes_the_condition() {
    let html = r#"<if condition="isLoggedIn"><div>Welcome back, {{username}}!</div></if>"#;
    let t = parse_html(html);
    let if_node = element(&t);
    let mut state = ParseState::new(CssStrategy::Link, DomStrategy::Shadow);
    let mut out = Vec::new();
    let mut plugin: Option<FastParserPlugin> = None;
    let block = if_directive_start(if_node, html, Some(ConditionExpr::identifier("isLoggedIn")), &mut state, &mut out)
        .expect("if");
    assert_eq!(block.fragment_id, "if-1");
    let div = if_node.children.iter().find(|c| c.kind == "element").expect("div");
    let mut body = Vec::new();
    assert!(element_opening(div, html, "div", &mut plugin, Vec::new(), &mut state, &mut body).unwrap());
    let parsed = vec![WebUiFragment::raw("Welcome back, "), WebUiFragment::signal("username", false), WebUiFragment::raw("!")];
    text_node("Welcome back, {{username}}!", Ok(parsed), &mut state, &mut body).unwrap();
    state.add_raw("</div>");
    if_directive_end(block, body, &mut state, &mut out);
    assert_eq!(out, vec![WebUiFragment::if_cond(ConditionExpr::identifier("isLoggedIn"), "if-1")]);
    assert_eq!(
        state.records.get("if-1").map(|l| &l.fragments),
        Some(&vec![
            WebUiFragment::raw("<div>Welcome back, "),
            WebUiFragment::signal("username", false),
            WebUiFragment::raw("!</div>"),
        ])
    );
    assert_eq!(state.raw_buffer, "");
}

#[test]
fn if_block_errors() {
    let mut state = ParseState::new(CssStrategy::Link, DomStrategy::Shadow);
    let mut out = Vec::new();
    let html = "<if><p>x</p></if>";
    let t = parse_html(html);
    assert!(matches!(if_directive_start(element(&t), html, None, &mut state, &mut out),
        Err(ParserError::Directive(m)) if m == "Missing 'condition' attribute on <if>"));
    let html = r#"<if condition="a ==="><p>x</p></if>"#;
    let t = parse_html(html);
    assert!(matches!(if_directive_start(element(&t), html, None, &mut state, &mut out),
        Err(ParserError::Directive(m)) if m == "Invalid condition expression: a ==="));
}

#[test]
fn for_block_records_a_body_and_skips_an_empty_one() {
    let html = r#"<for each="item in items"><div class="item">{{item.name}}</div></for>"#;
    let t = parse_html(html);
    let for_node = element(&t);
    let mut state = ParseState::new(CssStrategy::Link, DomStrategy::Shadow);
    state.add_raw("<ul>");
    let mut out = Vec::new();
    let (item, collection, id) = for_directive_head(for_node, html, &mut state.ids).expect("head");
    let set_aside = for_body_start(&mut state);
    let mut body = Vec::new();
    state.add_raw("<div class=\"item\">");
    text_node("{{item.name}}", Ok(vec![WebUiFragment::signal("item.name", false)]), &mut state, &mut body).unwrap();
    state.add_raw("</div>");
    for_directive_end(&item, &collection, id, set_aside, body, &mut state, &mut out);
    assert_eq!(out, vec![WebUiFragment::raw("<ul>"), WebUiFragment::for_loop("item", "items", "for-1")]);
    assert_eq!(
        state.records.get("for-1").map(|l| &l.fragments),
        Some(&vec![
            WebUiFragment::raw("<div class=\"item\">"),
            WebUiFragment::signal("item.name", false),
            WebUiFragment::raw("</div>"),
        ])
    );
    state.add_raw("<ol>");
    let set_aside = for_body_start(&mut state);
    for_directive_end("a", "b", "for-2".to_string(), set_aside, Vec::new(), &mut state, &mut out);
    assert_eq!(state.raw_buffer, "<ol>");
    assert!(!state.records.contains_key("for-2"));
    assert_eq!(out.len(), 2);
}

#[test]
fn source_gaps_keep_inline_separators_only() {
    let source = "{{a}} &gt; {{b}}\n  <p>";
    let mut state = ParseState::new(CssStrategy::Link, DomStrategy::Shadow);
    source_gap(source, 5, 6, &mut state);
    assert_eq!(state.raw_buffer, " ");
    source_gap(source, 16, 19, &mut state);
    assert_eq!(state.raw_buffer, " ");
    source_gap(source, 6, 10, &mut state);
    assert_eq!(state.raw_buffer, " &gt;");
}

#[test]
fn style_comments_become_signals_and_tokens_are_kept() {
    let css = "/*{{{tokens.light}}}*/ :root{--a:1} p{color:var(--b)} /* plain */";
    let mut state = ParseState::new(CssStrategy::Link, DomStrategy::Shadow);
    let mut out = Vec::new();
    let comments = vec![
        Ok(vec![WebUiFragment::signal("tokens.light", true)]),
        Ok(vec![WebUiFragment::raw("plain")]),
    ];
    let extracted = Some((vec!["b".to_string(), "a".to_string()], vec!["a".to_string()]));
    style_element(css, extracted, comments, &mut state, &mut out);
    assert_eq!(out, vec![WebUiFragment::raw("<style>"), WebUiFragment::signal("tokens.light", true)]);
    assert_eq!(state.raw_buffer, " :root{--a:1} p{color:var(--b)} /* plain */</style>");
    assert_eq!(take_tokens(&mut state.tokens, &mut state.definitions), vec!["b"]);
    let mut state = ParseState::new(CssStrategy::Link, DomStrategy::Shadow);
    let mut out = Vec::new();
    style_element("/* {{a}} b */", None, vec![Ok(vec![WebUiFragment::signal("a", false), WebUiFragment::raw(" b")])], &mut state, &mut out);
    assert!(out.is_empty());
    assert_eq!(state.raw_buffer, "<style>/* {{a}} b */</style>");
    assert!(state.tokens.is_empty());
}
