use webui::parser::directive::FragmentIdCounter;
use webui::parser::elements::{
    element_tag_close, find_first_node, for_directive_head, if_directive_condition, tag_attributes, get_element_attribute, get_element_tag_name, has_element_attribute, node_fits,
    parse_route_as_fragment, strip_runtime_attrs_from_template,
};
use webui::parser::error::ParserError;
use webui::parser::html_tree::{parse_html, HtmlNode};

fn tree(html: &str) -> HtmlNode {
    let t = parse_html(html);
    assert!(node_fits(&t, html.chars().count()));
    t
}

#[test]
fn runtime_attributes_are_stripped_through_the_syntax_tree() {
    let html = r#"<template @click={foo} :bar="baz" ?bool="true"><slot></slot></template>"#;
    assert_eq!(strip_runtime_attrs_from_template(html), "<template><slot></slot></template>");
    let html = r#"<template foo="bar"><slot></slot></template>"#;
    assert_eq!(strip_runtime_attrs_from_template(html), html);
    let html = "<template  é=\"ü\" @x=\"1\">ö</template>";
    assert_eq!(strip_runtime_attrs_from_template(html), "<template  é=\"ü\">ö</template>");
}

#[test]
fn element_attributes_and_tag_names() {
    let html = r#"<route path="/a" component="page-a" exact><route path="b" component="page-b" /></route>"#;
    let t = tree(html);
    let route = find_first_node(&t, "element").expect("element");
    assert_eq!(get_element_tag_name(route, html).unwrap(), "route");
    assert_eq!(get_element_attribute(route, "path", html).as_deref(), Some("/a"));
    assert_eq!(get_element_attribute(route, "query", html), None);
    assert!(has_element_attribute(route, "exact", html));
    assert!(!has_element_attribute(route, "layout", html));
    let text = tree("hello");
    assert!(matches!(get_element_tag_name(&text, "hello"), Err(ParserError::Html(m)) if m == "Failed to extract tag name"));
}

#[test]
fn routes_with_nested_routes() {
    let html = r#"<route path="/a" component="page-a" exact><route path="b/:id" component="page-b" /></route>"#;
    let t = tree(html);
    let route = find_first_node(&t, "element").expect("element");
    let r = parse_route_as_fragment(route, html).expect("route");
    assert_eq!(r.path, "/a");
    assert_eq!(r.fragment_id, "page-a");
    assert!(r.exact);
    assert_eq!(r.children.len(), 1);
    assert_eq!(r.children[0].path, "b/:id");
    assert_eq!(r.children[0].fragment_id, "page-b");
    assert!(!r.children[0].exact);
}

#[test]
fn route_without_component_is_rejected() {
    let html = r#"<route path="/a"></route>"#;
    let t = tree(html);
    let route = find_first_node(&t, "element").expect("element");
    match parse_route_as_fragment(route, html) {
        Err(ParserError::Directive(m)) => assert_eq!(m, "Route '/a' must have a 'component' attribute"),
        other => panic!("expected a directive error, got {other:?}"),
    }
}

#[test]
fn route_without_path_is_rejected() {
    let html = r#"<route component="home-page" />"#;
    let t = tree(html);
    let route = find_first_node(&t, "element").expect("element");
    match parse_route_as_fragment(route, html) {
        Err(ParserError::Directive(m)) => assert_eq!(m, "Route must have a 'path' attribute"),
        other => panic!("expected a directive error, got {other:?}"),
    }
    let html = r#"<route path="" component="home-page" exact />"#;
    let t = tree(html);
    let route = find_first_node(&t, "element").expect("element");
    let r = parse_route_as_fragment(route, html).expect("route");
    assert_eq!(r.path, "");
    assert_eq!(r.fragment_id, "home-page");
}

#[test]
fn parent_route_does_not_take_a_child_query() {
    let html = r#"<route path="/" component="app-shell"><route path="compose" component="compose-page" query="to" exact /></route>"#;
    let t = tree(html);
    let route = find_first_node(&t, "element").expect("element");
    let r = parse_route_as_fragment(route, html).expect("route");
    assert_eq!(r.path, "/");
    assert_eq!(r.fragment_id, "app-shell");
    assert_eq!(r.allowed_query, "");
    assert!(!r.exact);
    assert_eq!(r.children.len(), 1);
    assert_eq!(r.children[0].path, "compose");
    assert_eq!(r.children[0].fragment_id, "compose-page");
    assert_eq!(r.children[0].allowed_query, "to");
    assert!(r.children[0].exact);
    assert_eq!(get_element_attribute(route, "query", html), None);
    assert!(!has_element_attribute(route, "exact", html));
}

#[test]
fn for_and_if_directive_heads() {
    let mut ids = FragmentIdCounter::new();
    let html = r#"<for each="item in items"><p>x</p></for>"#;
    let t = tree(html);
    let f = find_first_node(&t, "element").expect("element");
    let (item, collection, id) = for_directive_head(f, html, &mut ids).unwrap();
    assert_eq!((item.as_str(), collection.as_str(), id.as_str()), ("item", "items", "for-1"));
    let html = r#"<for each="a in b" template="static"></for>"#;
    let t = tree(html);
    let f = find_first_node(&t, "element").expect("element");
    assert_eq!(for_directive_head(f, html, &mut ids).unwrap().2, "static");
    let html = r#"<for each="a b"></for>"#;
    let t = tree(html);
    let f = find_first_node(&t, "element").expect("element");
    assert!(matches!(for_directive_head(f, html, &mut ids), Err(ParserError::Directive(m)) if m == "Invalid for each: a b"));
    let html = "<for></for>";
    let t = tree(html);
    let f = find_first_node(&t, "element").expect("element");
    assert!(matches!(for_directive_head(f, html, &mut ids), Err(ParserError::Directive(m)) if m == "Missing 'each' attribute on <for>"));

    let html = r#"<if condition="user.admin"><p>x</p></if>"#;
    let t = tree(html);
    let i = find_first_node(&t, "element").expect("element");
    assert_eq!(if_directive_condition(i, html).unwrap(), "user.admin");
    let html = "<if><p>x</p></if>";
    let t = tree(html);
    let i = find_first_node(&t, "element").expect("element");
    assert!(matches!(if_directive_condition(i, html), Err(ParserError::Directive(m)) if m == "Missing 'condition' attribute on <if>"));
}

#[test]
fn attributes_of_a_tag_and_its_closing() {
    let html = r#"<my-widget config="{{settings}}" disabled title='' x=y />"#;
    let t = tree(html);
    let e = find_first_node(&t, "element").expect("element");
    let tag = find_first_node(e, "self_closing_tag").expect("tag");
    let attrs = tag_attributes(tag, html).unwrap();
    let got: Vec<(String, Option<String>)> = attrs.into_iter().map(|a| (a.name, a.value)).collect();
    assert_eq!(
        got,
        vec![
            ("config".to_string(), Some("{{settings}}".to_string())),
            ("disabled".to_string(), None),
            ("title".to_string(), Some(String::new())),
            ("x".to_string(), Some("y".to_string())),
        ]
    );
    assert_eq!(element_tag_close(e, html), (true, "/>".to_string()));
    let html = "<div a=\"1\">x</div>";
    let t = tree(html);
    let e = find_first_node(&t, "element").expect("element");
    assert_eq!(element_tag_close(e, html), (false, ">".to_string()));
}
