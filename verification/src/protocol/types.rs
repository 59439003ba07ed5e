//! Protocol data types and their mathematical views.
use vstd::prelude::*;
use super::web_ui_fragment::Fragment;
use super::condition_expr::Expr;

verus! {

/// Static content.
#[derive(Debug, PartialEq, Default)]
pub struct WebUiFragmentRaw {
    /// The content to render.
    pub value: String,
}

/// A component reference.
#[derive(Debug, PartialEq, Default)]
pub struct WebUiFragmentComponent {
    /// The identifier of the associated fragment record.
    pub fragment_id: String,
}

/// A for-loop over a collection.
#[derive(Debug, PartialEq, Default)]
pub struct WebUiFragmentFor {
    /// Name of a single item (e.g. `person`).
    pub item: String,
    /// Name of the collection (e.g. `people`).
    pub collection: String,
    /// Fragment rendered for each item.
    pub fragment_id: String,
}

/// A signal (dynamic value).
#[derive(Debug, PartialEq, Default)]
pub struct WebUiFragmentSignal {
    /// The value or identifier of the signal.
    pub value: String,
    /// Whether the value is rendered as raw content.
    pub raw: bool,
}

/// A conditional block.
#[derive(Debug, PartialEq, Default)]
pub struct WebUiFragmentIf {
    /// The condition to evaluate.
    pub condition: Option<ConditionExpr>,
    /// Fragment rendered when the condition holds.
    pub fragment_id: String,
}

/// A dynamic attribute.
#[derive(Debug, PartialEq, Default)]
pub struct WebUiFragmentAttribute {
    /// Attribute name.
    pub name: String,
    /// Signal name of a simple dynamic attribute.
    pub value: String,
    /// Sub-stream fragment id of a mixed (template) attribute.
    pub template: String,
    /// True for `:`-prefixed complex attributes.
    pub complex: bool,
    /// True for the first dynamic attribute on a component element.
    pub attr_start: bool,
    /// True for skipped attributes (class, style, role, data-*, aria-*).
    pub attr_skip: bool,
    /// True for static attribute values on components.
    pub raw_value: bool,
    /// Condition tree of a `?`-prefixed boolean attribute.
    pub condition_tree: Option<ConditionExpr>,
}

/// Opaque plugin data.
#[derive(Debug, PartialEq, Default)]
pub struct WebUiFragmentPlugin {
    /// Plugin-specific bytes.
    pub data: Vec<u8>,
}

/// A route: a URL path template linked to the fragment that holds the
/// route body, with nested child routes.
#[derive(Debug, PartialEq, Default)]
pub struct WebUiFragmentRoute {
    /// URL path template (e.g. `sections/:id`).
    pub path: String,
    /// Fragment containing the route body.
    pub fragment_id: String,
    /// Require an exact path match.
    pub exact: bool,
    /// Nested child routes.
    pub children: Vec<WebUiFragmentRoute>,
    /// Comma-separated allowlist of query parameters forwarded as attributes.
    pub allowed_query: String,
}

/// Marks where matched child route content renders.
#[derive(Debug, PartialEq, Default)]
pub struct WebUiFragmentOutlet {}

/// A single fragment, one of several kinds.
#[derive(Debug, PartialEq, Default)]
pub struct WebUiFragment {
    pub fragment: Option<Fragment>,
}

/// A list of fragments.
#[derive(Debug, PartialEq, Default)]
pub struct FragmentList {
    pub fragments: Vec<WebUiFragment>,
}

/// A condition expression tree.
#[derive(Debug, PartialEq, Default)]
pub struct ConditionExpr {
    pub expr: Option<Expr>,
}

/// A comparison `left operator right`.
#[derive(Debug, PartialEq, Default)]
pub struct Predicate {
    pub left: String,
    /// A [`ComparisonOperator`] value.
    pub operator: i32,
    pub right: String,
}

/// Negation of a condition.
#[derive(Debug, PartialEq, Default)]
pub struct NotCondition {
    pub condition: Option<Box<ConditionExpr>>,
}

/// Two conditions joined by a logical operator.
#[derive(Debug, PartialEq, Default)]
pub struct CompoundCondition {
    pub left: Option<Box<ConditionExpr>>,
    /// A [`LogicalOperator`] value.
    pub op: i32,
    pub right: Option<Box<ConditionExpr>>,
}

/// A single identifier, true when its value is truthy.
#[derive(Debug, PartialEq, Default)]
pub struct IdentifierCondition {
    pub value: String,
}

/// Logical operators of compound conditions.
#[derive(Debug, Clone, Copy, PartialEq, Eq)]
pub enum LogicalOperator {
    Unspecified,
    And,
    Or,
}

/// Comparison operators of predicates.
#[derive(Debug, Clone, Copy, PartialEq, Eq)]
pub enum ComparisonOperator {
    Unspecified,
    GreaterThan,
    LessThan,
    Equal,
    NotEqual,
    GreaterThanOrEqual,
    LessThanOrEqual,
}

/// Per-component data populated by the active parser plugin.
#[derive(Debug, PartialEq, Default)]
pub struct ComponentData {
    /// Client-side template string for hydration.
    pub template: String,
    /// Component CSS content for the module strategy.
    pub css: String,
    /// External stylesheet href for the link strategy.
    pub css_href: String,
}

// ── Operator encodings ─────────────────────────────────────────────────

/// Wire value of a logical operator.
pub open spec fn logical_value(op: LogicalOperator) -> i32 {
    match op {
        LogicalOperator::Unspecified => 0,
        LogicalOperator::And => 1,
        LogicalOperator::Or => 2,
    }
}

/// Wire value of a comparison operator.
pub open spec fn comparison_value(op: ComparisonOperator) -> i32 {
    match op {
        ComparisonOperator::Unspecified => 0,
        ComparisonOperator::GreaterThan => 1,
        ComparisonOperator::LessThan => 2,
        ComparisonOperator::Equal => 3,
        ComparisonOperator::NotEqual => 4,
        ComparisonOperator::GreaterThanOrEqual => 5,
        ComparisonOperator::LessThanOrEqual => 6,
    }
}

impl LogicalOperator {
    /// The operator's wire value.
    pub fn value(self) -> (r: i32)
        ensures
            r == logical_value(self),
    {
        match self {
            LogicalOperator::Unspecified => 0,
            LogicalOperator::And => 1,
            LogicalOperator::Or => 2,
        }
    }

    /// The operator with the given wire value, if there is one.
    pub fn from_value(v: i32) -> (r: Option<LogicalOperator>)
        ensures
            r matches Some(op) ==> logical_value(op) == v,
            r is None <==> !(0 <= v <= 2),
    {
        if v == 0 {
            Some(LogicalOperator::Unspecified)
        } else if v == 1 {
            Some(LogicalOperator::And)
        } else if v == 2 {
            Some(LogicalOperator::Or)
        } else {
            None
        }
    }
}

impl ComparisonOperator {
    /// The operator's wire value.
    pub fn value(self) -> (r: i32)
        ensures
            r == comparison_value(self),
    {
        match self {
            ComparisonOperator::Unspecified => 0,
            ComparisonOperator::GreaterThan => 1,
            ComparisonOperator::LessThan => 2,
            ComparisonOperator::Equal => 3,
            ComparisonOperator::NotEqual => 4,
            ComparisonOperator::GreaterThanOrEqual => 5,
            ComparisonOperator::LessThanOrEqual => 6,
        }
    }

    /// The operator with the given wire value, if there is one.
    pub fn from_value(v: i32) -> (r: Option<ComparisonOperator>)
        ensures
            r matches Some(op) ==> comparison_value(op) == v,
            r is None <==> !(0 <= v <= 6),
    {
        if v == 0 {
            Some(ComparisonOperator::Unspecified)
        } else if v == 1 {
            Some(ComparisonOperator::GreaterThan)
        } else if v == 2 {
            Some(ComparisonOperator::LessThan)
        } else if v == 3 {
            Some(ComparisonOperator::Equal)
        } else if v == 4 {
            Some(ComparisonOperator::NotEqual)
        } else if v == 5 {
            Some(ComparisonOperator::GreaterThanOrEqual)
        } else if v == 6 {
            Some(ComparisonOperator::LessThanOrEqual)
        } else {
            None
        }
    }
}

// ── Views ──────────────────────────────────────────────────────────────

/// View of a condition expression.
pub enum CondV {
    /// No expression set.
    Empty,
    Predicate(Seq<char>, i32, Seq<char>),
    Not(Option<Box<CondV>>),
    Compound(Option<Box<CondV>>, i32, Option<Box<CondV>>),
    Identifier(Seq<char>),
}

/// View of a route.
pub struct RouteV {
    pub path: Seq<char>,
    pub fragment_id: Seq<char>,
    pub exact: bool,
    pub children: Seq<RouteV>,
    pub allowed_query: Seq<char>,
}

/// View of an attribute.
pub struct AttrV {
    pub name: Seq<char>,
    pub value: Seq<char>,
    pub template: Seq<char>,
    pub complex: bool,
    pub attr_start: bool,
    pub attr_skip: bool,
    pub raw_value: bool,
    pub condition_tree: Option<CondV>,
}

/// View of a fragment.
pub enum FragV {
    /// No fragment kind set.
    Empty,
    Raw(Seq<char>),
    Component(Seq<char>),
    ForLoop(Seq<char>, Seq<char>, Seq<char>),
    Signal(Seq<char>, bool),
    IfCond(Option<CondV>, Seq<char>),
    Attribute(AttrV),
    Plugin(Seq<u8>),
    Route(RouteV),
    Outlet,
}

/// View of component data.
pub struct CompV {
    pub template: Seq<char>,
    pub css: Seq<char>,
    pub css_href: Seq<char>,
}

pub open spec fn opt_cond_view(c: Option<Box<ConditionExpr>>) -> Option<Box<CondV>>
    decreases c,
{
    match c {
        Some(b) => Some(Box::new(cond_view(*b))),
        None => None,
    }
}

pub open spec fn cond_view(c: ConditionExpr) -> CondV
    decreases c,
{
    match c.expr {
        None => CondV::Empty,
        Some(Expr::Predicate(p)) => CondV::Predicate(p.left@, p.operator, p.right@),
        Some(Expr::Not(n)) => CondV::Not(opt_cond_view(n.condition)),
        Some(Expr::Compound(c)) => CondV::Compound(opt_cond_view(c.left), c.op, opt_cond_view(c.right)),
        Some(Expr::Identifier(id)) => CondV::Identifier(id.value@),
    }
}

pub open spec fn opt_cond(c: Option<ConditionExpr>) -> Option<CondV> {
    match c {
        Some(e) => Some(cond_view(e)),
        None => None,
    }
}

pub open spec fn routes_view(s: Seq<WebUiFragmentRoute>) -> Seq<RouteV>
    decreases s,
{
    Seq::new(s.len(), |i: int| if 0 <= i < s.len() { route_view(s[i]) } else { arbitrary() })
}

pub open spec fn route_view(r: WebUiFragmentRoute) -> RouteV
    decreases r,
{
    RouteV {
        path: r.path@,
        fragment_id: r.fragment_id@,
        exact: r.exact,
        children: routes_view(r.children@),
        allowed_query: r.allowed_query@,
    }
}

pub open spec fn attr_view(a: WebUiFragmentAttribute) -> AttrV {
    AttrV {
        name: a.name@,
        value: a.value@,
        template: a.template@,
        complex: a.complex,
        attr_start: a.attr_start,
        attr_skip: a.attr_skip,
        raw_value: a.raw_value,
        condition_tree: opt_cond(a.condition_tree),
    }
}

pub open spec fn frag_view(f: WebUiFragment) -> FragV {
    match f.fragment {
        None => FragV::Empty,
        Some(Fragment::Raw(r)) => FragV::Raw(r.value@),
        Some(Fragment::Component(c)) => FragV::Component(c.fragment_id@),
        Some(Fragment::ForLoop(l)) => FragV::ForLoop(l.item@, l.collection@, l.fragment_id@),
        Some(Fragment::Signal(s)) => FragV::Signal(s.value@, s.raw),
        Some(Fragment::IfCond(i)) => FragV::IfCond(opt_cond(i.condition), i.fragment_id@),
        Some(Fragment::Attribute(a)) => FragV::Attribute(attr_view(a)),
        Some(Fragment::Plugin(p)) => FragV::Plugin(p.data@),
        Some(Fragment::Route(r)) => FragV::Route(route_view(r)),
        Some(Fragment::Outlet(_)) => FragV::Outlet,
    }
}

pub open spec fn frags_view(s: Seq<WebUiFragment>) -> Seq<FragV> {
    s.map_values(|f: WebUiFragment| frag_view(f))
}

pub open spec fn comp_view(c: ComponentData) -> CompV {
    CompV { template: c.template@, css: c.css@, css_href: c.css_href@ }
}

pub open spec fn strings_view(s: Seq<String>) -> Seq<Seq<char>> {
    s.map_values(|x: String| x@)
}

} // verus!
