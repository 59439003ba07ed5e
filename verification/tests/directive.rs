use webui::parser::directive::{
    contains_handlebars, extract_single_handlebars, is_blocked_complex_property, is_skipped_attribute,
    maybe_mark_attr_start, should_emit_text_content, FragmentIdCounter,
};
use webui::parser::tokens::take_tokens;
use webui::protocol::types::{ComparisonOperator, ConditionExpr, LogicalOperator, WebUiFragment};
use webui::protocol::web_ui_fragment::Fragment;

#[test]
fn fragment_ids_count_per_prefix() {
    let mut ids = FragmentIdCounter::new();
    assert_eq!(ids.next_id("attr"), "attr-1");
    assert_eq!(ids.next_id("attr"), "attr-2");
    assert_eq!(ids.next_id("for"), "for-1");
    assert_eq!(ids.next_id("attr"), "attr-3");
    assert_eq!(ids.next_id("if"), "if-1");
    for _ in 0..7 {
        ids.next_id("for");
    }
    assert_eq!(ids.next_id("for"), "for-9");
    assert_eq!(ids.next_id("for"), "for-10");
}

#[test]
fn text_nodes_keep_inline_separators_only() {
    assert!(!should_emit_text_content(""));
    assert!(should_emit_text_content(" "));
    assert!(should_emit_text_content(" \t "));
    assert!(!should_emit_text_content("\n  "));
    assert!(!should_emit_text_content("  \r\n"));
    assert!(should_emit_text_content("a\n"));
    assert!(should_emit_text_content(" &gt; "));
}

#[test]
fn single_handlebars_values() {
    assert_eq!(extract_single_handlebars("{{name}}"), Some("name".to_string()));
    assert_eq!(extract_single_handlebars("  {{ user.name }} "), Some("user.name".to_string()));
    assert_eq!(extract_single_handlebars("{{{raw}}}"), None);
    assert_eq!(extract_single_handlebars("hello {{name}}"), None);
    assert_eq!(extract_single_handlebars("{{a}} {{b}}"), None);
    assert_eq!(extract_single_handlebars("{{}}"), None);
    assert_eq!(extract_single_handlebars("{{  }}"), None);
    assert_eq!(extract_single_handlebars("name"), None);
    assert!(contains_handlebars("a {{b}}"));
    assert!(!contains_handlebars("a { {b}"));
}

#[test]
fn attribute_classification() {
    for name in ["class", "style", "role", "data-id", "aria-label", "data-"] {
        assert!(is_skipped_attribute(name), "{name}");
    }
    for name in ["id", "classes", "datas", "aria", "title"] {
        assert!(!is_skipped_attribute(name), "{name}");
    }
    for name in ["innerHTML", "outerHTML", "srcdoc", "content", "onclick", "on"] {
        assert!(is_blocked_complex_property(name), "{name}");
    }
    for name in ["value", "checked", "innerText", "contents", "One"] {
        assert!(!is_blocked_complex_property(name), "{name}");
    }
}

#[test]
fn first_dynamic_attribute_is_marked_once() {
    let mut emitted = false;
    let a = maybe_mark_attr_start(WebUiFragment::attribute("href", "url"), &mut emitted);
    assert!(emitted);
    match a.fragment {
        Some(Fragment::Attribute(x)) => assert!(x.attr_start),
        _ => panic!("expected an attribute"),
    }
    let b = maybe_mark_attr_start(WebUiFragment::attribute("title", "t"), &mut emitted);
    match b.fragment {
        Some(Fragment::Attribute(x)) => assert!(!x.attr_start),
        _ => panic!("expected an attribute"),
    }
    let mut fresh = false;
    let raw = maybe_mark_attr_start(WebUiFragment::raw("x"), &mut fresh);
    assert!(fresh);
    assert_eq!(raw, WebUiFragment::raw("x"));
}

#[test]
fn tokens_are_sorted_unique_and_undefined() {
    let mut store = vec![
        "spacing-m".to_string(),
        "color-primary".to_string(),
        "border-radius-m".to_string(),
        "color-primary".to_string(),
        "color-accent".to_string(),
    ];
    let mut definitions = vec!["color-accent".to_string()];
    assert_eq!(
        take_tokens(&mut store, &mut definitions),
        vec!["border-radius-m".to_string(), "color-primary".to_string(), "spacing-m".to_string()]
    );
    // The store and the definitions are reset.
    assert!(store.is_empty() && definitions.is_empty());
    assert!(take_tokens(&mut store, &mut definitions).is_empty());
    let mut store = vec!["b".to_string(), "a".to_string(), "ab".to_string()];
    assert_eq!(take_tokens(&mut store, &mut Vec::new()), vec!["a", "ab", "b"]);
}

#[test]
fn condition_text() {
    let c = ConditionExpr::compound(
        ConditionExpr::predicate("user.role", ComparisonOperator::Equal, "admin"),
        LogicalOperator::And,
        ConditionExpr::negated(ConditionExpr::identifier("disabled")),
    );
    assert_eq!(c.to_string(), "(user.role == admin && !(disabled))");
    assert_eq!(ConditionExpr::default().to_string(), "<empty>");
    assert_eq!(ComparisonOperator::GreaterThanOrEqual.to_string(), ">=");
    assert_eq!(ComparisonOperator::Unspecified.to_string(), "?");
    assert_eq!(LogicalOperator::Or.to_string(), "||");
    assert_eq!(ConditionExpr::predicate("a", ComparisonOperator::NotEqual, "b").to_string(), "a != b");
}
