use webui::protocol::condition_expr::Expr;
use webui::protocol::types::{
    ComparisonOperator, ConditionExpr, FragmentList, LogicalOperator, WebUiFragment, WebUiFragmentRoute,
};
use webui::protocol::web_ui_fragment::Fragment;
use webui::protocol::webui::{ProtocolError, WebUIFragment, WebUIFragmentRecords, WebUIProtocol};

fn list(fragments: Vec<WebUiFragment>) -> FragmentList {
    FragmentList { fragments }
}

fn sample_protocol() -> WebUIProtocol {
    let mut fragments = WebUIFragmentRecords::new();
    fragments.insert(
        "index.html".to_string(),
        list(vec![
            WebUIFragment::raw("Hello, WebUI!\n"),
            WebUIFragment::for_loop("person", "people", "for-1"),
            WebUIFragment::signal("description", true),
            WebUIFragment::if_cond(ConditionExpr::identifier("contact"), "if-1"),
        ]),
    );
    fragments.insert("for-1".to_string(), list(vec![WebUIFragment::signal("person.name", false)]));
    fragments.insert("if-1".to_string(), list(vec![WebUIFragment::component("contact-card")]));
    fragments.insert(
        "contact-card".to_string(),
        list(vec![WebUIFragment::raw("Hello, "), WebUIFragment::signal("name", false)]),
    );
    WebUIProtocol::new(fragments)
}

#[test]
fn test_protobuf_roundtrip() {
    let protocol = sample_protocol();
    let bytes = protocol.to_protobuf().expect("encode failed");
    let decoded = WebUIProtocol::from_protobuf(&bytes).expect("decode failed");
    assert_eq!(protocol, decoded);
}

#[test]
fn test_protobuf_all_fragment_types() {
    let mut fragments = WebUIFragmentRecords::new();
    fragments.insert(
        "main".to_string(),
        list(vec![
            WebUIFragment::raw("text"),
            WebUIFragment::component("comp"),
            WebUIFragment::for_loop("x", "xs", "loop"),
            WebUIFragment::signal("sig", true),
            WebUIFragment::if_cond(ConditionExpr::predicate("a", ComparisonOperator::GreaterThan, "1"), "cond"),
        ]),
    );
    fragments.insert("comp".to_string(), list(vec![WebUIFragment::raw("c")]));
    fragments.insert("loop".to_string(), list(vec![WebUIFragment::raw("l")]));
    fragments.insert("cond".to_string(), list(vec![WebUIFragment::raw("i")]));

    let protocol = WebUIProtocol::new(fragments);
    let bytes = protocol.to_protobuf().unwrap();
    let decoded = WebUIProtocol::from_protobuf(&bytes).unwrap();
    assert_eq!(protocol, decoded);
}

#[test]
fn test_protobuf_all_comparison_operators() {
    let ops = [
        ComparisonOperator::GreaterThan,
        ComparisonOperator::LessThan,
        ComparisonOperator::Equal,
        ComparisonOperator::NotEqual,
        ComparisonOperator::GreaterThanOrEqual,
        ComparisonOperator::LessThanOrEqual,
    ];
    for op in &ops {
        let mut fragments = WebUIFragmentRecords::new();
        fragments.insert(
            "main".to_string(),
            list(vec![WebUIFragment::if_cond(ConditionExpr::predicate("a", *op, "b"), "then")]),
        );
        fragments.insert("then".to_string(), list(vec![WebUIFragment::raw("ok")]));
        let p = WebUIProtocol::new(fragments);
        let bytes = p.to_protobuf().unwrap();
        let decoded = WebUIProtocol::from_protobuf(&bytes).unwrap();
        assert_eq!(p, decoded);
    }
}

#[test]
fn test_protobuf_nested_conditions() {
    let nested = ConditionExpr::compound(
        ConditionExpr::predicate("user.role", ComparisonOperator::Equal, "admin"),
        LogicalOperator::And,
        ConditionExpr::negated(ConditionExpr::predicate("user.disabled", ComparisonOperator::Equal, "true")),
    );

    let mut fragments = WebUIFragmentRecords::new();
    fragments.insert("main".to_string(), list(vec![WebUIFragment::if_cond(nested, "then")]));
    fragments.insert("then".to_string(), list(vec![WebUIFragment::raw("ok")]));
    let p = WebUIProtocol::new(fragments);
    let bytes = p.to_protobuf().unwrap();
    let decoded = WebUIProtocol::from_protobuf(&bytes).unwrap();
    assert_eq!(p, decoded);
}

#[test]
fn test_protobuf_compound_or_condition() {
    let compound = ConditionExpr::compound(
        ConditionExpr::identifier("isAdmin"),
        LogicalOperator::Or,
        ConditionExpr::identifier("isEditor"),
    );

    let mut fragments = WebUIFragmentRecords::new();
    fragments.insert("main".to_string(), list(vec![WebUIFragment::if_cond(compound, "body")]));
    fragments.insert("body".to_string(), list(vec![WebUIFragment::raw("yes")]));
    let p = WebUIProtocol::new(fragments);
    let bytes = p.to_protobuf().unwrap();
    let decoded = WebUIProtocol::from_protobuf(&bytes).unwrap();
    assert_eq!(p, decoded);
}

#[test]
fn test_protobuf_invalid_bytes() {
    let result = WebUIProtocol::from_protobuf(&[0xFF, 0xFF, 0xFF]);
    assert!(result.is_err());
}

#[test]
fn test_protobuf_empty_bytes() {
    let result = WebUIProtocol::from_protobuf(&[]);
    assert!(result.is_ok());
    assert!(result.unwrap().fragments.is_empty());
}

#[test]
fn test_protobuf_validation_catches_missing_reference() {
    let mut fragments = WebUIFragmentRecords::new();
    fragments.insert("main".to_string(), list(vec![WebUIFragment::component("does-not-exist")]));

    let protocol = WebUIProtocol::new(fragments);
    let buf = protocol.to_protobuf().unwrap();

    let result = WebUIProtocol::from_protobuf(&buf);
    assert!(result.is_err());
}

#[test]
fn test_protobuf_validation_catches_missing_for_reference() {
    let mut fragments = WebUIFragmentRecords::new();
    fragments.insert("main".to_string(), list(vec![WebUIFragment::for_loop("item", "items", "missing-for")]));

    let protocol = WebUIProtocol::new(fragments);
    let buf = protocol.to_protobuf().unwrap();

    let result = WebUIProtocol::from_protobuf(&buf);
    assert!(result.is_err());
    if let Err(ProtocolError::Validation(msg)) = result {
        assert!(msg.contains("missing-for"));
    }
}

#[test]
fn test_protobuf_validation_catches_missing_if_reference() {
    let mut fragments = WebUIFragmentRecords::new();
    fragments.insert(
        "main".to_string(),
        list(vec![WebUIFragment::if_cond(ConditionExpr::identifier("flag"), "missing-if")]),
    );

    let protocol = WebUIProtocol::new(fragments);
    let buf = protocol.to_protobuf().unwrap();

    let result = WebUIProtocol::from_protobuf(&buf);
    assert!(result.is_err());
    if let Err(ProtocolError::Validation(msg)) = result {
        assert!(msg.contains("missing-if"));
    }
}

#[test]
fn test_protobuf_signal_default_raw_false() {
    let mut fragments = WebUIFragmentRecords::new();
    fragments.insert("main".to_string(), list(vec![WebUIFragment::signal("name", false)]));
    let p = WebUIProtocol::new(fragments);
    let bytes = p.to_protobuf().unwrap();
    let decoded = WebUIProtocol::from_protobuf(&bytes).unwrap();
    let frag = &decoded.fragments.get("main").unwrap().fragments[0];
    match frag.fragment.as_ref() {
        Some(Fragment::Signal(s)) => assert!(!s.raw),
        _ => panic!("expected signal"),
    }
}

#[test]
fn test_protobuf_pre_allocated_buffer() {
    let protocol = sample_protocol();
    let bytes = protocol.to_protobuf().unwrap();
    assert_eq!(bytes.len(), protocol.encoded_len());
}

#[test]
fn test_protocol_new_has_empty_tokens() {
    let protocol = WebUIProtocol::new(WebUIFragmentRecords::new());
    assert!(protocol.tokens.is_empty());
    assert!(protocol.fragments.is_empty());
}

#[test]
fn test_protocol_with_tokens() {
    let tokens = vec!["color-primary".to_string(), "spacing-m".to_string()];
    let protocol = WebUIProtocol::with_tokens(WebUIFragmentRecords::new(), tokens.clone());
    assert_eq!(protocol.tokens, tokens);
}

#[test]
fn test_protobuf_route_fragment_roundtrip() {
    let mut fragments = WebUIFragmentRecords::new();
    fragments.insert("main".to_string(), list(vec![WebUIFragment::route("/profile/:id", "profile-page")]));
    fragments.insert("profile-page".to_string(), list(vec![WebUIFragment::raw("<h1>Profile</h1>")]));
    let protocol = WebUIProtocol::new(fragments);
    let bytes = protocol.to_protobuf().expect("encode failed");
    let decoded = WebUIProtocol::from_protobuf(&bytes).expect("decode failed");
    assert_eq!(protocol, decoded);

    let frag = &decoded.fragments.get("main").unwrap().fragments[0];
    match frag.fragment.as_ref() {
        Some(Fragment::Route(r)) => {
            assert_eq!(r.path, "/profile/:id");
            assert_eq!(r.fragment_id, "profile-page");
        }
        _ => panic!("expected route fragment"),
    }
}

#[test]
fn test_protobuf_route_fragment_all_fields() {
    let mut fragments = WebUIFragmentRecords::new();
    let route_frag = WebUiFragment {
        fragment: Some(Fragment::Route(WebUiFragmentRoute {
            path: "/users/:id/posts/:postId".to_string(),
            fragment_id: "user-posts".to_string(),
            exact: true,
            children: Vec::new(),
            allowed_query: "action,to,subject".to_string(),
        })),
    };
    fragments.insert("main".to_string(), list(vec![route_frag]));
    fragments.insert("user-posts".into(), list(vec![WebUIFragment::raw("posts")]));

    let protocol = WebUIProtocol::new(fragments);
    let bytes = protocol.to_protobuf().expect("encode failed");
    let decoded = WebUIProtocol::from_protobuf(&bytes).expect("decode failed");
    assert_eq!(protocol, decoded);
}

#[test]
fn test_protobuf_route_validation_missing_fragment() {
    let mut fragments = WebUIFragmentRecords::new();
    fragments.insert("main".to_string(), list(vec![WebUIFragment::route("/test", "missing-fragment")]));
    let protocol = WebUIProtocol::new(fragments);
    let buf = protocol.to_protobuf().expect("encode failed");
    let result = WebUIProtocol::from_protobuf(&buf);
    assert!(result.is_err());
    if let Err(ProtocolError::Validation(msg)) = result {
        assert!(msg.contains("missing-fragment"));
    }
}

#[test]
fn test_protobuf_route_no_fragment_id_roundtrip() {
    let mut fragments = WebUIFragmentRecords::new();
    let route_frag = WebUiFragment {
        fragment: Some(Fragment::Route(WebUiFragmentRoute { path: "/old-path".to_string(), ..Default::default() })),
    };
    fragments.insert("main".to_string(), list(vec![route_frag]));
    let protocol = WebUIProtocol::new(fragments);
    let bytes = protocol.to_protobuf().expect("encode failed");
    let decoded = WebUIProtocol::from_protobuf(&bytes).expect("decode failed");
    assert_eq!(protocol, decoded);
}

#[test]
fn test_protobuf_backward_compat_no_routes() {
    // Protocol without any fragments should decode successfully
    let protocol = WebUIProtocol::new(WebUIFragmentRecords::new());
    let bytes = protocol.to_protobuf().expect("encode failed");
    let decoded = WebUIProtocol::from_protobuf(&bytes).expect("decode failed");
    assert!(decoded.fragments.is_empty());
}

#[test]
fn test_protobuf_roundtrip_with_tokens() {
    let mut fragments = WebUIFragmentRecords::new();
    fragments.insert("index.html".to_string(), list(vec![WebUIFragment::raw("Hello")]));
    let tokens = vec!["border-radius-m".to_string(), "color-primary".to_string()];
    let protocol = WebUIProtocol::with_tokens(fragments, tokens.clone());

    let bytes = protocol.to_protobuf().expect("encode failed");
    let decoded = WebUIProtocol::from_protobuf(&bytes).expect("decode failed");

    assert_eq!(decoded.tokens, tokens);
    assert!(decoded.fragments.contains_key("index.html"));
}

// ── Further cases ──────────────────────────────────────────────────────

#[test]
fn protobuf_bytes_of_one_raw_fragment() {
    let mut fragments = WebUIFragmentRecords::new();
    fragments.insert("a".to_string(), list(vec![WebUIFragment::raw("x")]));
    let bytes = WebUIProtocol::new(fragments).to_protobuf().unwrap();
    // field 1 (entry), key "a", value: field 1 (fragment) of oneof raw (field 1) with value "x"
    assert_eq!(bytes, vec![0x0a, 0x0c, 0x0a, 0x01, b'a', 0x12, 0x07, 0x0a, 0x05, 0x0a, 0x03, 0x0a, 0x01, b'x']);
}

#[test]
fn protobuf_negative_operator_round_trips() {
    let mut fragments = WebUIFragmentRecords::new();
    let mut cond = ConditionExpr::predicate("a", ComparisonOperator::Equal, "b");
    if let Some(Expr::Predicate(p)) = cond.expr.as_mut() {
        p.operator = -3;
    }
    fragments.insert("main".to_string(), list(vec![WebUIFragment::attribute_boolean("hidden", cond)]));
    let p = WebUIProtocol::new(fragments);
    let bytes = p.to_protobuf().unwrap();
    let decoded = WebUIProtocol::from_protobuf(&bytes).unwrap();
    assert_eq!(p, decoded);
}

#[test]
fn protobuf_unknown_fields_are_skipped() {
    // field 15 varint, field 14 fixed32, field 13 group holding field 1 varint
    let bytes = [0x78, 0x05, 0x75, 1, 2, 3, 4, 0x6b, 0x08, 0x01, 0x6c];
    let decoded = WebUIProtocol::from_protobuf(&bytes).unwrap();
    assert!(decoded.fragments.is_empty());
    assert!(decoded.tokens.is_empty());
}

#[test]
fn protobuf_decode_errors_name_their_cause() {
    let msg = |r: Result<WebUIProtocol, ProtocolError>| match r {
        Err(ProtocolError::Validation(m)) => m,
        _ => panic!("expected a validation error"),
    };
    assert_eq!(msg(WebUIProtocol::from_protobuf(&[0xFF, 0xFF, 0xFF])), "Protobuf decode error: failed to decode Protobuf message: invalid varint");
    assert_eq!(msg(WebUIProtocol::from_protobuf(&[0x00])), "Protobuf decode error: failed to decode Protobuf message: invalid tag value: 0");
    assert_eq!(msg(WebUIProtocol::from_protobuf(&[0x0f])), "Protobuf decode error: failed to decode Protobuf message: invalid wire type value");
    assert_eq!(msg(WebUIProtocol::from_protobuf(&[0x0a, 0x05, 0x00])), "Protobuf decode error: failed to decode Protobuf message: buffer underflow");
    assert_eq!(msg(WebUIProtocol::from_protobuf(&[0x08, 0x01])), "Protobuf decode error: failed to decode Protobuf message: invalid wire type");
    assert_eq!(msg(WebUIProtocol::from_protobuf(&[0x0c])), "Protobuf decode error: failed to decode Protobuf message: unexpected end group tag");
    assert_eq!(
        msg(WebUIProtocol::from_protobuf(&[0x12, 0x01, 0xff])),
        "Protobuf decode error: failed to decode Protobuf message: invalid string value: data is not UTF-8 encoded"
    );
}

#[test]
fn protobuf_deep_nesting_reaches_the_limit() {
    let mut cond = ConditionExpr::identifier("x");
    for _ in 0..120 {
        cond = ConditionExpr::negated(cond);
    }
    let mut fragments = WebUIFragmentRecords::new();
    fragments.insert("main".to_string(), list(vec![WebUIFragment::attribute_boolean("open", cond)]));
    let bytes = WebUIProtocol::new(fragments).to_protobuf().unwrap();
    match WebUIProtocol::from_protobuf(&bytes) {
        Err(ProtocolError::Validation(m)) => assert_eq!(m, "Protobuf decode error: failed to decode Protobuf message: recursion limit reached"),
        _ => panic!("expected the recursion limit"),
    }
}

#[test]
fn protobuf_duplicate_map_key_keeps_last_value() {
    // two entries for key "a": the second replaces the first
    let bytes = [
        0x0a, 0x0c, 0x0a, 0x01, b'a', 0x12, 0x07, 0x0a, 0x05, 0x0a, 0x03, 0x0a, 0x01, b'x',
        0x0a, 0x0c, 0x0a, 0x01, b'a', 0x12, 0x07, 0x0a, 0x05, 0x0a, 0x03, 0x0a, 0x01, b'y',
    ];
    let decoded = WebUIProtocol::from_protobuf(&bytes).unwrap();
    assert_eq!(decoded.fragments.len(), 1);
    assert_eq!(decoded.fragments.get("a").unwrap().fragments[0], WebUIFragment::raw("y"));
}

#[test]
fn protobuf_map_entry_leaves_out_an_empty_value() {
    let mut fragments = WebUIFragmentRecords::new();
    fragments.insert("a".to_string(), list(vec![]));
    let protocol = WebUIProtocol::new(fragments);
    let bytes = protocol.to_protobuf().unwrap();
    assert_eq!(bytes, vec![0x0a, 0x03, 0x0a, 0x01, b'a']);
    assert_eq!(WebUIProtocol::from_protobuf(&bytes).unwrap(), protocol);
}

#[test]
fn nested_route_references_are_validated() {
    let child = WebUiFragmentRoute {
        path: "a".to_string(),
        fragment_id: "missing-child".to_string(),
        ..Default::default()
    };
    let route = WebUiFragmentRoute {
        path: "/".to_string(),
        fragment_id: "main".to_string(),
        children: vec![child],
        ..Default::default()
    };
    let mut fragments = WebUIFragmentRecords::new();
    fragments.insert("main".to_string(), list(vec![WebUIFragment::route_from(route)]));
    let bytes = WebUIProtocol::new(fragments).to_protobuf().unwrap();
    match WebUIProtocol::from_protobuf(&bytes) {
        Err(ProtocolError::Validation(m)) => {
            assert_eq!(m, "Route references non-existent fragment ID: missing-child")
        }
        other => panic!("expected a validation error, got {other:?}"),
    }
}
