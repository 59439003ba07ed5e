use webui::parser::attribute_plan::{plan_attribute, plan_tag_attributes, AttributePlan, TagAttribute};
use webui::parser::error::ParserError;
use webui::parser::fast_plugin::FastParserPlugin;
use webui::parser::plugin::AttributeAction;

fn attr(name: &str, value: Option<&str>) -> TagAttribute {
    TagAttribute { name: name.to_string(), value: value.map(|v| v.to_string()) }
}

fn plans(attrs: &[TagAttribute], is_component: bool) -> Vec<AttributePlan> {
    let mut none: Option<FastParserPlugin> = None;
    plan_tag_attributes(attrs, is_component, &mut none).expect("plans").0
}

fn error_text(r: Result<(Vec<AttributePlan>, u32), ParserError>) -> String {
    match r {
        Err(ParserError::Parse(m)) => m,
        other => panic!("expected a parse error, got {other:?}"),
    }
}

#[test]
fn leading_boolean_attribute_of_a_component_is_marked() {
    let p = plans(&[attr("?disabled", Some("{{isDisabled}}")), attr("title", Some("Hello"))], true);
    assert_eq!(p.len(), 2);
    assert!(matches!(&p[0], AttributePlan::Boolean { name, expression, attr_start: true }
        if name == "disabled" && expression == "isDisabled"));
    assert!(matches!(&p[1], AttributePlan::Static { name, value, skip: false, attr_start: false }
        if name == "title" && value == "Hello"));
}

#[test]
fn first_static_attribute_of_a_component_is_marked() {
    let p = plans(
        &[attr("id", Some("comp")), attr(":config", Some("{{settings}}")), attr("?enabled", Some("{{isEnabled}}"))],
        true,
    );
    assert!(matches!(&p[0], AttributePlan::Static { name, value, skip: false, attr_start: true }
        if name == "id" && value == "comp"));
    assert!(matches!(&p[1], AttributePlan::Complex { name, signal, attr_start: false }
        if name == ":config" && signal == "settings"));
    assert!(matches!(&p[2], AttributePlan::Boolean { name, expression, attr_start: false }
        if name == "enabled" && expression == "isEnabled"));
}

#[test]
fn complex_binding_on_a_native_element_is_rejected() {
    let mut none: Option<FastParserPlugin> = None;
    let m = error_text(plan_tag_attributes(&[attr(":innerHTML", Some("{{content}}"))], false, &mut none));
    assert_eq!(
        m,
        ":innerHTML complex binding is only allowed on custom elements. Use innerHTML=\"{{expr}}\" for native HTML elements."
    );
    let m = error_text(plan_tag_attributes(&[attr(":data", Some("{{config}}"))], false, &mut none));
    assert!(m.contains("only allowed on custom elements"));
}

#[test]
fn blocked_complex_property_on_a_component_is_rejected() {
    let mut none: Option<FastParserPlugin> = None;
    let m = error_text(plan_tag_attributes(&[attr(":innerHTML", Some("{{html}}"))], true, &mut none));
    assert_eq!(
        m,
        ":innerHTML is not allowed as a complex attribute binding because it enables arbitrary HTML injection. Use {{{expr}}} (triple-brace) syntax for raw HTML."
    );
    let m = error_text(plan_tag_attributes(&[attr("id", Some("x")), attr(":onclick", Some("{{h}}"))], true, &mut none));
    assert!(m.contains("HTML injection"));
}

#[test]
fn allowed_complex_property_on_a_component() {
    let p = plans(&[attr(":config", Some("{{settings}}"))], true);
    assert!(matches!(&p[0], AttributePlan::Complex { name, signal, attr_start: true }
        if name == ":config" && signal == "settings"));
}

#[test]
fn boolean_attribute_without_a_single_expression_is_dropped() {
    for value in [Some("name"), Some("Hello {{name}}"), Some("true"), None] {
        let p = plans(&[attr("?checked", value)], false);
        assert!(matches!(p[0], AttributePlan::Drop));
    }
    let p = plans(&[attr("?checked", Some("{{ok}}"))], false);
    assert!(matches!(&p[0], AttributePlan::Boolean { name, expression, attr_start: false }
        if name == "checked" && expression == "ok"));
}

#[test]
fn unbound_component_attributes_are_skipped() {
    let p = plans(
        &[
            attr(":config", Some("{{config}}")),
            attr("class", Some("{{value0}}")),
            attr("role", Some("list")),
            attr("aria-labelledby", Some("group-date-{{group.id}}")),
            attr("data-test", None),
        ],
        true,
    );
    assert!(matches!(&p[0], AttributePlan::Complex { attr_start: true, .. }));
    assert!(matches!(&p[1], AttributePlan::Binding { name, signal, skip: true, attr_start: false }
        if name == "class" && signal == "value0"));
    assert!(matches!(&p[2], AttributePlan::Static { name, value, skip: true, attr_start: false }
        if name == "role" && value == "list"));
    assert!(matches!(&p[3], AttributePlan::Template { name, value, skip: true, attr_start: false }
        if name == "aria-labelledby" && value == "group-date-{{group.id}}"));
    assert!(matches!(p[4], AttributePlan::Drop));
}

#[test]
fn native_element_attributes() {
    let p = plans(
        &[
            attr("href", Some("{{url}}")),
            attr("title", Some("a {{b}} c")),
            attr("id", Some("main")),
            attr("disabled", None),
        ],
        false,
    );
    assert!(matches!(&p[0], AttributePlan::Binding { name, signal, skip: false, attr_start: false }
        if name == "href" && signal == "url"));
    assert!(matches!(&p[1], AttributePlan::Template { name, value, skip: false, attr_start: false }
        if name == "title" && value == "a {{b}} c"));
    assert!(matches!(p[2], AttributePlan::RawText));
    assert!(matches!(p[3], AttributePlan::RawName));
}

#[test]
fn binding_count_includes_dynamic_and_plugin_counted_attributes() {
    let mut fast = Some(FastParserPlugin::new());
    let attrs = [
        attr("class", Some("primary")),
        attr("title", Some("Submit")),
        attr("appearance", Some("{{look}}")),
        attr("@click", Some("{go}")),
    ];
    let (p, count) = plan_tag_attributes(&attrs, true, &mut fast).expect("plans");
    assert_eq!(count, 2);
    assert!(matches!(p[3], AttributePlan::CountBinding));
    assert!(fast.is_some());

    let attrs = [attr("title", Some("Hello")), attr("@click", Some("{go}")), attr("f-ref", Some("{btn}"))];
    let (_, count) = plan_tag_attributes(&attrs, true, &mut fast).expect("plans");
    assert_eq!(count, 2);

    let attrs = [attr("class", Some("primary")), attr("title", Some("Click me"))];
    let (_, count) = plan_tag_attributes(&attrs, true, &mut fast).expect("plans");
    assert_eq!(count, 0);

    // Without a plugin, `@click` is an ordinary static attribute.
    let mut none: Option<FastParserPlugin> = None;
    let (p, count) = plan_tag_attributes(&[attr("@click", Some("{go}"))], false, &mut none).expect("plans");
    assert_eq!(count, 0);
    assert!(matches!(p[0], AttributePlan::RawText));
}

#[test]
fn plugin_actions_come_first() {
    let mut emitted = false;
    let a = attr(":innerHTML", Some("{{x}}"));
    assert!(matches!(plan_attribute(&a, false, AttributeAction::Skip, &mut emitted), Ok(AttributePlan::Drop)));
    assert!(matches!(
        plan_attribute(&a, false, AttributeAction::SkipAndCountBinding, &mut emitted),
        Ok(AttributePlan::CountBinding)
    ));
    assert!(!emitted);
    assert!(plan_attribute(&a, false, AttributeAction::Keep, &mut emitted).is_err());
    let b = attr("x", Some("{{y}}"));
    assert!(matches!(
        plan_attribute(&b, true, AttributeAction::Keep, &mut emitted),
        Ok(AttributePlan::Binding { attr_start: true, .. })
    ));
    assert!(emitted);
    assert!(matches!(
        plan_attribute(&b, true, AttributeAction::Keep, &mut emitted),
        Ok(AttributePlan::Binding { attr_start: false, .. })
    ));
}
