//! Convenience constructors for fragments and condition expressions.
use vstd::prelude::*;
use super::types::{
    comparison_value, cond_view, frag_view, logical_value, route_view, routes_view, AttrV, ComparisonOperator,
    CompoundCondition, CondV, ConditionExpr, FragV, IdentifierCondition, LogicalOperator, NotCondition,
    Predicate, RouteV, WebUiFragment, WebUiFragmentAttribute, WebUiFragmentComponent, WebUiFragmentFor,
    WebUiFragmentIf, WebUiFragmentOutlet, WebUiFragmentPlugin, WebUiFragmentRaw, WebUiFragmentRoute,
    WebUiFragmentSignal,
};
use super::web_ui_fragment::Fragment;
use super::condition_expr::Expr;

verus! {

impl WebUiFragment {
    /// A raw (static content) fragment.
    pub fn raw(value: &str) -> (r: Self)
        ensures
            frag_view(r) == FragV::Raw(value@),
    {
        WebUiFragment { fragment: Some(Fragment::Raw(WebUiFragmentRaw { value: String::from_str(value) })) }
    }

    /// A component fragment.
    pub fn component(fragment_id: &str) -> (r: Self)
        ensures
            frag_view(r) == FragV::Component(fragment_id@),
    {
        WebUiFragment {
            fragment: Some(Fragment::Component(WebUiFragmentComponent { fragment_id: String::from_str(fragment_id) })),
        }
    }

    /// A for-loop fragment.
    pub fn for_loop(item: &str, collection: &str, fragment_id: &str) -> (r: Self)
        ensures
            frag_view(r) == FragV::ForLoop(item@, collection@, fragment_id@),
    {
        WebUiFragment {
            fragment: Some(Fragment::ForLoop(WebUiFragmentFor {
                item: String::from_str(item),
                collection: String::from_str(collection),
                fragment_id: String::from_str(fragment_id),
            })),
        }
    }

    /// A signal fragment.
    pub fn signal(value: &str, raw: bool) -> (r: Self)
        ensures
            frag_view(r) == FragV::Signal(value@, raw),
    {
        WebUiFragment { fragment: Some(Fragment::Signal(WebUiFragmentSignal { value: String::from_str(value), raw })) }
    }

    /// An if-condition fragment.
    pub fn if_cond(condition: ConditionExpr, fragment_id: &str) -> (r: Self)
        ensures
            frag_view(r) == FragV::IfCond(Some(cond_view(condition)), fragment_id@),
    {
        WebUiFragment {
            fragment: Some(Fragment::IfCond(WebUiFragmentIf {
                condition: Some(condition),
                fragment_id: String::from_str(fragment_id),
            })),
        }
    }

    /// A simple dynamic attribute (the value is a single signal name).
    pub fn attribute(name: &str, value: &str) -> (r: Self)
        ensures
            frag_view(r) == FragV::Attribute(AttrV {
                name: name@,
                value: value@,
                template: Seq::empty(),
                complex: false,
                attr_start: false,
                attr_skip: false,
                raw_value: false,
                condition_tree: None,
            }),
    {
        WebUiFragment {
            fragment: Some(Fragment::Attribute(WebUiFragmentAttribute {
                name: String::from_str(name),
                value: String::from_str(value),
                template: String::new(),
                complex: false,
                attr_start: false,
                attr_skip: false,
                raw_value: false,
                condition_tree: None,
            })),
        }
    }

    /// A template attribute (mixed static and dynamic content).
    pub fn attribute_template(name: &str, template: &str) -> (r: Self)
        ensures
            frag_view(r) == FragV::Attribute(AttrV {
                name: name@,
                value: Seq::empty(),
                template: template@,
                complex: false,
                attr_start: false,
                attr_skip: false,
                raw_value: false,
                condition_tree: None,
            }),
    {
        WebUiFragment {
            fragment: Some(Fragment::Attribute(WebUiFragmentAttribute {
                name: String::from_str(name),
                value: String::new(),
                template: String::from_str(template),
                complex: false,
                attr_start: false,
                attr_skip: false,
                raw_value: false,
                condition_tree: None,
            })),
        }
    }

    /// A complex (`:`-prefixed) attribute.
    pub fn attribute_complex(name: &str, value: &str) -> (r: Self)
        ensures
            frag_view(r) == FragV::Attribute(AttrV {
                name: name@,
                value: value@,
                template: Seq::empty(),
                complex: true,
                attr_start: false,
                attr_skip: false,
                raw_value: false,
                condition_tree: None,
            }),
    {
        WebUiFragment {
            fragment: Some(Fragment::Attribute(WebUiFragmentAttribute {
                name: String::from_str(name),
                value: String::from_str(value),
                template: String::new(),
                complex: true,
                attr_start: false,
                attr_skip: false,
                raw_value: false,
                condition_tree: None,
            })),
        }
    }

    /// A boolean (`?`-prefixed) attribute with a condition tree.
    pub fn attribute_boolean(name: &str, condition_tree: ConditionExpr) -> (r: Self)
        ensures
            frag_view(r) == FragV::Attribute(AttrV {
                name: name@,
                value: Seq::empty(),
                template: Seq::empty(),
                complex: false,
                attr_start: false,
                attr_skip: false,
                raw_value: false,
                condition_tree: Some(cond_view(condition_tree)),
            }),
    {
        WebUiFragment {
            fragment: Some(Fragment::Attribute(WebUiFragmentAttribute {
                name: String::from_str(name),
                value: String::new(),
                template: String::new(),
                complex: false,
                attr_start: false,
                attr_skip: false,
                raw_value: false,
                condition_tree: Some(condition_tree),
            })),
        }
    }

    /// A plugin fragment carrying opaque bytes.
    pub fn plugin(data: Vec<u8>) -> (r: Self)
        ensures
            frag_view(r) == FragV::Plugin(data@),
    {
        WebUiFragment { fragment: Some(Fragment::Plugin(WebUiFragmentPlugin { data })) }
    }

    /// A route fragment linking a URL path template to a fragment.
    pub fn route(path: &str, fragment_id: &str) -> (r: Self)
        ensures
            frag_view(r) == FragV::Route(RouteV {
                path: path@,
                fragment_id: fragment_id@,
                exact: false,
                children: Seq::empty(),
                allowed_query: Seq::empty(),
            }),
    {
        let r = WebUiFragmentRoute {
            path: String::from_str(path),
            fragment_id: String::from_str(fragment_id),
            exact: false,
            children: Vec::new(),
            allowed_query: String::new(),
        };
        proof {
            assert(routes_view(r.children@) =~= Seq::<RouteV>::empty());
        }
        WebUiFragment { fragment: Some(Fragment::Route(r)) }
    }

    /// A route fragment from a pre-built route.
    pub fn route_from(route: WebUiFragmentRoute) -> (r: Self)
        ensures
            frag_view(r) == FragV::Route(route_view(route)),
    {
        WebUiFragment { fragment: Some(Fragment::Route(route)) }
    }

    /// An outlet fragment.
    pub fn outlet() -> (r: Self)
        ensures
            frag_view(r) == FragV::Outlet,
    {
        WebUiFragment { fragment: Some(Fragment::Outlet(WebUiFragmentOutlet {})) }
    }
}

impl ConditionExpr {
    /// An identifier condition.
    pub fn identifier(value: &str) -> (r: Self)
        ensures
            cond_view(r) == CondV::Identifier(value@),
    {
        ConditionExpr { expr: Some(Expr::Identifier(IdentifierCondition { value: String::from_str(value) })) }
    }

    /// A predicate condition.
    pub fn predicate(left: &str, operator: ComparisonOperator, right: &str) -> (r: Self)
        ensures
            cond_view(r) == CondV::Predicate(left@, comparison_value(operator), right@),
    {
        ConditionExpr {
            expr: Some(Expr::Predicate(Predicate {
                left: String::from_str(left),
                operator: operator.value(),
                right: String::from_str(right),
            })),
        }
    }

    /// A negation.
    pub fn negated(inner: ConditionExpr) -> (r: Self)
        ensures
            cond_view(r) == CondV::Not(Some(Box::new(cond_view(inner)))),
    {
        ConditionExpr { expr: Some(Expr::Not(Box::new(NotCondition { condition: Some(Box::new(inner)) }))) }
    }

    /// A compound condition.
    pub fn compound(left: ConditionExpr, op: LogicalOperator, right: ConditionExpr) -> (r: Self)
        ensures
            cond_view(r) == CondV::Compound(
                Some(Box::new(cond_view(left))),
                logical_value(op),
                Some(Box::new(cond_view(right))),
            ),
    {
        ConditionExpr {
            expr: Some(Expr::Compound(Box::new(CompoundCondition {
                left: Some(Box::new(left)),
                op: op.value(),
                right: Some(Box::new(right)),
            }))),
        }
    }
}

} // verus!
