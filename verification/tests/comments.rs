use webui::parser::comments::{comment_expression, comment_replaced_by, split_css_comments, CssPiece};
use webui::protocol::types::WebUiFragment;

fn texts(css: &str) -> Vec<(bool, String, String)> {
    split_css_comments(css)
        .into_iter()
        .map(|p| match p {
            CssPiece::Text(t) => (false, t, String::new()),
            CssPiece::Comment { text, inner } => (true, text, inner),
        })
        .collect()
}

#[test]
fn html_comment_with_an_expression_goes_to_the_handlebars_parser() {
    assert_eq!(comment_expression("<!--{{tokens}}-->").as_deref(), Some("{{tokens}}"));
    assert_eq!(comment_expression("<!--{{{tokens}}}-->").as_deref(), Some("{{{tokens}}}"));
    assert_eq!(comment_expression("<!--  {{tokens.light}}\n-->").as_deref(), Some("{{tokens.light}}"));
    assert_eq!(comment_expression("<!-- a {{b}} c -->").as_deref(), Some("a {{b}} c"));
}

#[test]
fn html_comment_without_an_expression_stays_raw() {
    assert_eq!(comment_expression("<!-- regular comment -->"), None);
    assert_eq!(comment_expression("<!---->"), None);
    // Without both delimiters the inner text is empty.
    assert_eq!(comment_expression("<!-->{{x}}"), None);
    assert_eq!(comment_expression("{{x}}"), None);
}

#[test]
fn comment_is_replaced_only_by_signals() {
    assert!(comment_replaced_by(&[WebUiFragment::signal("tokens", false)]));
    assert!(comment_replaced_by(&[WebUiFragment::signal("a", true), WebUiFragment::signal("b", false)]));
    assert!(!comment_replaced_by(&[]));
    assert!(!comment_replaced_by(&[WebUiFragment::raw("a "), WebUiFragment::signal("b", false)]));
}

#[test]
fn css_comments_are_split_out() {
    let css = "\n:root {\n    /* {{{tokens.light}}} */\n}\n";
    assert_eq!(
        texts(css),
        vec![
            (false, "\n:root {\n    ".to_string(), String::new()),
            (true, "/* {{{tokens.light}}} */".to_string(), "{{{tokens.light}}}".to_string()),
            (false, "\n}\n".to_string(), String::new()),
        ]
    );
    let css = "\n  .a { color: red; }\n  /*{{themeCss}}*/\n  .b { color: blue; }\n";
    let pieces = texts(css);
    assert_eq!(pieces.len(), 3);
    assert_eq!(pieces[1], (true, "/*{{themeCss}}*/".to_string(), "{{themeCss}}".to_string()));
}

#[test]
fn css_without_closed_comments_is_text() {
    assert_eq!(texts("body { margin: 0; }"), vec![(false, "body { margin: 0; }".to_string(), String::new())]);
    assert_eq!(texts("a /* open"), vec![(false, "a /* open".to_string(), String::new())]);
    assert_eq!(texts("/*/"), vec![(false, "/*/".to_string(), String::new())]);
    assert_eq!(texts(""), vec![(false, String::new(), String::new())]);
    assert_eq!(
        texts("/**/x/* a */"),
        vec![
            (false, String::new(), String::new()),
            (true, "/**/".to_string(), String::new()),
            (false, "x".to_string(), String::new()),
            (true, "/* a */".to_string(), "a".to_string()),
            (false, String::new(), String::new()),
        ]
    );
}

#[test]
fn css_pieces_join_back_to_the_css() {
    for css in ["", "a /* b */ c", "/**//*x*/", "x /* open", "\n:root {\n    /*{{{tokens.light}}}*/\n}\n", "é/*ü*/ß"] {
        let joined: String = texts(css).into_iter().map(|(_, t, _)| t).collect();
        assert_eq!(joined, css);
    }
}
