//! The HTML syntax tree as the library holds it: each node's kind, whether
//! it is named, its character range in the source and its children, as
//! tree-sitter's HTML grammar parses the source.
use vstd::prelude::*;

verus! {

#[verifier::external_type_specification]
#[verifier::external_body]
pub struct ExTreeSitterNode<'tree>(tree_sitter::Node<'tree>);

/// A node of the HTML syntax tree: its grammar kind (`element`,
/// `start_tag`, `attribute`, ...), whether the grammar names it, the
/// character positions `[start, end)` it spans in the source, and its
/// children in order.
#[derive(Debug)]
pub struct HtmlNode {
    pub kind: String,
    pub named: bool,
    pub start: usize,
    pub end: usize,
    pub children: Vec<HtmlNode>,
}

/// The model of a syntax tree node.
pub struct HtmlNodeV {
    pub kind: Seq<char>,
    pub named: bool,
    pub start: nat,
    pub end: nat,
    pub children: Seq<HtmlNodeV>,
}

/// The models of a sequence of nodes.
pub open spec fn nodes_view(s: Seq<HtmlNode>) -> Seq<HtmlNodeV>
    decreases s,
{
    Seq::new(s.len(), |i: int| if 0 <= i < s.len() { node_view(s[i]) } else { arbitrary() })
}

/// The model of a node.
pub open spec fn node_view(n: HtmlNode) -> HtmlNodeV
    decreases n,
{
    HtmlNodeV {
        kind: n.kind@,
        named: n.named,
        start: n.start as nat,
        end: n.end as nat,
        children: nodes_view(n.children@),
    }
}

/// The syntax tree of an HTML source under tree-sitter's HTML grammar.
pub uninterp spec fn html_syntax_tree(html: Seq<char>) -> HtmlNodeV;

/// The library's copy of a tree-sitter node and its subtree, positions
/// counted in characters of `html`.
#[verifier::external_body]
fn html_node(node: tree_sitter::Node, html: &str) -> HtmlNode {
    let mut cursor = node.walk();
    let children: Vec<tree_sitter::Node> = node.children(&mut cursor).collect();
    HtmlNode {
        kind: node.kind().to_string(),
        named: node.is_named(),
        start: html[..node.start_byte()].chars().count(),
        end: html[..node.end_byte()].chars().count(),
        children: children.into_iter().map(|c| html_node(c, html)).collect(),
    }
}

/// Parses `html` with tree-sitter's HTML grammar (`Parser::parse` with the
/// `tree_sitter_html` language) and copies the tree, which is the named
/// syntax tree of the source. `set_language` fails only on a grammar ABI
/// mismatch, which the pinned versions do not have, and `parse` gives no
/// tree only without a language or on a timeout or cancellation, neither of
/// which is set here.
#[verifier::external_body]
pub fn parse_html(html: &str) -> (r: HtmlNode)
    ensures
        node_view(r) == html_syntax_tree(html@),
{
    let mut parser = tree_sitter::Parser::new();
    parser.set_language(&tree_sitter_html::LANGUAGE.into()).expect("HTML grammar loads");
    let tree = parser.parse(html, None).expect("a parser with a language gives a tree");
    html_node(tree.root_node(), html)
}

} // verus!
