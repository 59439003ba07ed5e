use webui::parser::error::ParserError;
use webui::parser::for_directive::parse_for_each;

fn directive_error(each: Option<&str>) -> String {
    match parse_for_each(each) {
        Err(ParserError::Directive(m)) => m,
        other => panic!("expected a directive error, got {other:?}"),
    }
}

#[test]
fn each_names_item_and_collection() {
    assert_eq!(parse_for_each(Some("item in items")).unwrap(), ("item".to_string(), "items".to_string()));
    assert_eq!(
        parse_for_each(Some("item in category.items")).unwrap(),
        ("item".to_string(), "category.items".to_string())
    );
    // Any Unicode whitespace separates the words.
    assert_eq!(
        parse_for_each(Some("\n  x_1\tin\u{3000}my-list.all  ")).unwrap(),
        ("x_1".to_string(), "my-list.all".to_string())
    );
}

#[test]
fn missing_each_attribute() {
    assert_eq!(directive_error(None), "Missing 'each' attribute on <for>");
}

#[test]
fn each_must_be_three_words_around_in() {
    assert_eq!(directive_error(Some("item items")), "Invalid for each: item items");
    assert_eq!(directive_error(Some("item of items")), "Invalid for each: item of items");
    assert_eq!(directive_error(Some("")), "Invalid for each: ");
    assert_eq!(directive_error(Some("a in b c")), "Invalid for each: a in b c");
}

#[test]
fn each_names_must_use_allowed_characters() {
    assert_eq!(directive_error(Some("item in items()")), "Invalid identifier in for each: item in items()");
    assert_eq!(directive_error(Some("ítem in items")), "Invalid identifier in for each: ítem in items");
}
