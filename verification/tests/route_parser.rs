use webui::parser::error::ParserError;
use webui::parser::route_parser::{build_route_fragment, extract_params, validate_attributes, RouteAttributes};
use webui::protocol::types::WebUiFragmentRoute;

#[test]
fn test_extract_params_simple() {
    let params = extract_params("/profile/:id").unwrap();
    assert_eq!(params, vec!["id"]);
}

#[test]
fn test_extract_params_multiple() {
    let params = extract_params("/profile/:id/view/:section").unwrap();
    assert_eq!(params, vec!["id", "section"]);
}

#[test]
fn test_extract_params_optional() {
    let params = extract_params("/profile/:id?").unwrap();
    assert_eq!(params, vec!["id"]);
}

#[test]
fn test_extract_params_splat() {
    let params = extract_params("/files/*rest").unwrap();
    assert_eq!(params, vec!["rest"]);
}

#[test]
fn test_extract_params_splat_unnamed() {
    let params = extract_params("/files/*").unwrap();
    assert_eq!(params, vec!["rest"]);
}

#[test]
fn test_extract_params_empty_path() {
    let params = extract_params("/").unwrap();
    assert!(params.is_empty());
}

#[test]
fn test_extract_params_no_params() {
    let params = extract_params("/contacts/add").unwrap();
    assert!(params.is_empty());
}

#[test]
fn test_extract_params_duplicate_error() {
    let result = extract_params("/profile/:id/other/:id");
    assert!(result.is_err());
}

#[test]
fn test_extract_params_invalid_name() {
    let result = extract_params("/profile/:id-with-dash");
    assert!(result.is_err());
}

#[test]
fn test_extract_params_empty_name() {
    let result = extract_params("/profile/:");
    assert!(result.is_err());
}

#[test]
fn test_validate_attributes_valid() {
    let attrs = RouteAttributes {
        path: "/profile".to_string(),
        component: "profile-page".to_string(),
        ..Default::default()
    };
    assert!(validate_attributes(&attrs).is_ok());
}

#[test]
fn test_validate_missing_component() {
    let attrs = RouteAttributes {
        path: "/page".to_string(),
        ..Default::default()
    };
    assert!(validate_attributes(&attrs).is_err());
}

#[test]
fn test_extract_params_relative_path() {
    let params = extract_params("./sections/:id").unwrap();
    assert_eq!(params, vec!["id"]);
}

#[test]
fn test_extract_params_relative_multiple() {
    let params = extract_params("./topics/:topicId/lessons/:lessonId").unwrap();
    assert_eq!(params, vec!["topicId", "lessonId"]);
}

#[test]
fn test_extract_params_relative_splat() {
    let params = extract_params("./*rest").unwrap();
    assert_eq!(params, vec!["rest"]);
}

#[test]
fn extract_params_error_messages() {
    assert_eq!(
        extract_params("/profile/:"),
        Err(ParserError::Directive("Empty parameter name in path: /profile/:".to_string()))
    );
    assert_eq!(
        extract_params("/p/:a-b"),
        Err(ParserError::Directive("Invalid parameter name 'a-b' in path: /p/:a-b".to_string()))
    );
    assert_eq!(
        extract_params("/:id/:id"),
        Err(ParserError::Directive("Duplicate parameter name 'id' in path: /:id/:id".to_string()))
    );
    assert_eq!(
        extract_params("/*/*"),
        Err(ParserError::Directive("Duplicate splat name 'rest' in path: /*/*".to_string()))
    );
}

#[test]
fn extract_params_optional_marks_and_splat_names() {
    assert_eq!(extract_params("/:id??/x").unwrap(), vec!["id"]);
    assert_eq!(extract_params("//a//:b//").unwrap(), vec!["b"]);
    // Splat names are not restricted to parameter characters.
    assert_eq!(extract_params("/*a-b").unwrap(), vec!["a-b"]);
    // The `./` prefix is stripped only once, and only at the start.
    assert_eq!(extract_params("././:x").unwrap(), vec!["x"]);
}

#[test]
fn extract_params_limit() {
    let at_limit: String = (0..20).map(|i| format!("/:p{i}")).collect();
    assert_eq!(extract_params(&at_limit).unwrap().len(), 20);
    let over: String = (0..21).map(|i| format!("/:p{i}")).collect();
    assert_eq!(
        extract_params(&over),
        Err(ParserError::Directive(format!("Too many parameters (21) in path: {over} (max 20)")))
    );
}

#[test]
fn validate_missing_component_message() {
    let attrs = RouteAttributes { path: "/page".to_string(), ..Default::default() };
    assert_eq!(
        validate_attributes(&attrs),
        Err(ParserError::Directive("Route '/page' must have a 'component' attribute".to_string()))
    );
}

#[test]
fn build_route_fragment_copies_attributes() {
    let attrs = RouteAttributes {
        path: "users/:id".to_string(),
        component: "user-detail".to_string(),
        exact: true,
        query: "tab".to_string(),
    };
    let child = WebUiFragmentRoute { path: "edit".to_string(), ..Default::default() };
    let r = build_route_fragment(&attrs, "user-detail".to_string(), vec![child]);
    assert_eq!(r.path, "users/:id");
    assert_eq!(r.fragment_id, "user-detail");
    assert!(r.exact);
    assert_eq!(r.allowed_query, "tab");
    assert_eq!(r.children.len(), 1);
    assert_eq!(r.children[0].path, "edit");
}
