use webui::parser::fast::{convert_btr_to_fast, generate_f_template, minify_html_whitespace};
use webui::parser::fast_plugin::{take_plugin_artifacts, FastParserPlugin};
use webui::parser::plugin::ParserPluginArtifacts;
use webui::parser::strategy::CssStrategy;

#[test]
fn f_template_exact_link() {
    let t = generate_f_template("my-comp", "  <div>\n  <b>x</b> y</div>  ", Some("a{}"), CssStrategy::Link);
    assert_eq!(
        t,
        "<f-template name=\"my-comp\">\n<template><link rel=\"stylesheet\" href=\"/my-comp.css\"><div><b>x</b> y</div></template>\n</f-template>\n"
    );
}

#[test]
fn f_template_exact_style_trims_css() {
    let t = generate_f_template("c", "<p>x</p>", Some("  p { }\n"), CssStrategy::Style);
    assert_eq!(t, "<f-template name=\"c\">\n<template><style>p { }</style><p>x</p></template>\n</f-template>\n");
}

#[test]
fn f_template_existing_template_gets_adopted_attribute() {
    let t = generate_f_template(
        "c",
        "<template shadowrootmode=\"open\"><p>x</p></template>",
        Some("p{}"),
        CssStrategy::Module,
    );
    assert_eq!(
        t,
        "<f-template name=\"c\">\n<template shadowrootadoptedstylesheets=\"c\"><p>x</p></template>\n</f-template>\n"
    );
}

#[test]
fn f_template_empty_html() {
    let t = generate_f_template("e", "   ", None, CssStrategy::Link);
    assert_eq!(t, "<f-template name=\"e\">\n<template></template>\n</f-template>\n");
}

#[test]
fn route_conversion_exact() {
    assert_eq!(
        convert_btr_to_fast(r#"<route path="users" component="user-list" exact />"#),
        r#"<webui-route path="users" component="user-list" exact style="display:none"></webui-route>"#
    );
    assert_eq!(
        convert_btr_to_fast(r#"<route path="a" redirectTo="/b" query="x,y" layout></route>"#),
        r#"<webui-route path="a" redirectto="/b" layout query="x,y" style="display:none"></webui-route>"#
    );
}

#[test]
fn unconvertible_directives_pass_through() {
    // An <if> without a condition attribute is left as it is.
    assert_eq!(convert_btr_to_fast("<if x=\"1\">a</if>"), "<if x=\"1\">a</f-when>");
    // A tag without a closing `>` is left as it is.
    assert_eq!(convert_btr_to_fast("<for each=\"a in b\""), "<for each=\"a in b\"");
    // An unterminated `{{` inside a complex attribute is kept.
    assert_eq!(convert_btr_to_fast("<x :a=\"{{b\">"), "<x :a=\"{{b\">");
}

#[test]
fn non_ascii_text_is_copied_unchanged() {
    assert_eq!(convert_btr_to_fast("é"), "é");
    assert_eq!(
        generate_f_template("x-a", "<p>é</p>", None, CssStrategy::Link),
        "<f-template name=\"x-a\">\n<template><p>é</p></template>\n</f-template>\n"
    );
    assert_eq!(minify_html_whitespace("<a>ü</a>  <b>"), "<a>ü</a><b>");
    assert_eq!(convert_btr_to_fast("<if condition=\"é\">"), "<f-when value=\"{{é}}\">");
}

#[test]
fn minify_keeps_text_whitespace() {
    assert_eq!(minify_html_whitespace("<a>  <b> x </b>\n</a>"), "<a><b> x </b></a>");
    assert_eq!(minify_html_whitespace("<a>  "), "<a>  ");
    assert_eq!(minify_html_whitespace(">"), ">");
}

#[test]
fn plugin_artifacts_and_strategy() {
    let mut p = FastParserPlugin::default();
    p.set_css_strategy(CssStrategy::Style);
    let comp = webui::parser::plugin::Component {
        tag_name: "x-a".to_string(),
        html_content: "<i>a</i>".to_string(),
        css_content: Some("i{}".to_string()),
        css_tokens: Vec::new(),
        source_path: std::path::PathBuf::from("/x"),
        class_name: None,
    };
    p.register_component_template("x-a", &comp, "").unwrap();
    match p.into_artifacts() {
        ParserPluginArtifacts::ComponentTemplates(v) => {
            assert_eq!(v.len(), 1);
            assert_eq!(v[0].0, "x-a");
            assert_eq!(v[0].1, generate_f_template("x-a", "<i>a</i>", Some("i{}"), CssStrategy::Style));
        }
        ParserPluginArtifacts::NoArtifacts => panic!("expected templates"),
    }
}

#[test]
fn plugin_artifacts_are_taken_once() {
    let mut none: Option<FastParserPlugin> = None;
    assert_eq!(take_plugin_artifacts(&mut none), ParserPluginArtifacts::NoArtifacts);

    let mut p = FastParserPlugin::new();
    let comp = webui::parser::plugin::Component {
        tag_name: "x-a".to_string(),
        html_content: "<i>a</i>".to_string(),
        css_content: None,
        css_tokens: Vec::new(),
        source_path: std::path::PathBuf::from("/x"),
        class_name: None,
    };
    p.register_component_template("x-a", &comp, "").unwrap();
    let mut plugin = Some(p);
    match take_plugin_artifacts(&mut plugin) {
        ParserPluginArtifacts::ComponentTemplates(v) => {
            assert_eq!(v.len(), 1);
            assert_eq!(v[0].0, "x-a");
            assert_eq!(v[0].1, "<f-template name=\"x-a\">\n<template><i>a</i></template>\n</f-template>\n");
        }
        other => panic!("expected templates, got {other:?}"),
    }
    assert!(plugin.is_none());
    assert_eq!(take_plugin_artifacts(&mut plugin), ParserPluginArtifacts::NoArtifacts);
}

#[test]
fn f_template_without_css_is_the_same_for_every_strategy() {
    let a = generate_f_template("x-a", "<p>x</p>", None, CssStrategy::Link);
    assert_eq!(a, generate_f_template("x-a", "<p>x</p>", None, CssStrategy::Style));
    assert_eq!(a, generate_f_template("x-a", "<p>x</p>", None, CssStrategy::Module));
    assert!(!a.contains("<link") && !a.contains("<style") && !a.contains("shadowrootadoptedstylesheets"));
}
