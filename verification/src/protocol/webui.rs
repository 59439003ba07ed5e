//! The root protocol structure, its constructors and reference validation.
use vstd::prelude::*;
use super::records::StringMap;
use super::types::{
    comp_view, frag_view, frags_view, route_view, routes_view, strings_view, ComponentData, FragV, FragmentList, RouteV,
    WebUiFragment, WebUiFragmentRoute,
};
use super::messages::{fragment_ids, ProtoV};
use super::web_ui_fragment::Fragment;

verus! {

#[verifier::external_type_specification]
#[verifier::external_body]
pub struct ExIoError(std::io::Error);

/// Fragment lists keyed by fragment id.
pub type WebUIFragmentRecords = StringMap<FragmentList>;

/// Component data keyed by tag name.
pub type ComponentRecords = StringMap<ComponentData>;

/// The protocol under its framework name.
pub type WebUIProtocol = WebUiProtocol;

/// A fragment under its framework name.
pub type WebUIFragment = WebUiFragment;

/// The root protocol structure representing a compiled application.
#[derive(Debug, PartialEq)]
pub struct WebUiProtocol {
    /// Fragment lists keyed by fragment id.
    pub fragments: WebUIFragmentRecords,
    /// Sorted, deduplicated CSS custom property names (without `--`).
    pub tokens: Vec<String>,
    /// Per-component data keyed by tag name.
    pub components: ComponentRecords,
}

/// Errors of protocol reading and validation.
#[derive(Debug)]
pub enum ProtocolError {
    /// An I/O failure while reading or writing a protocol file.
    Io(std::io::Error),
    /// The protocol bytes or structure are invalid.
    Validation(String),
}

impl WebUiProtocol {
    /// A protocol from fragment records with no CSS tokens.
    pub fn new(fragments: WebUIFragmentRecords) -> (r: Self)
        ensures
            r.fragments == fragments,
            r.tokens@.len() == 0,
            r.components.spec_entries().len() == 0,
    {
        WebUiProtocol { fragments, tokens: Vec::new(), components: StringMap::new() }
    }

    /// A protocol from fragment records with CSS tokens.
    pub fn with_tokens(fragments: WebUIFragmentRecords, tokens: Vec<String>) -> (r: Self)
        ensures
            r.fragments == fragments,
            r.tokens == tokens,
            r.components.spec_entries().len() == 0,
    {
        WebUiProtocol { fragments, tokens, components: StringMap::new() }
    }
}

/// The view of a protocol.
pub open spec fn proto_view(p: WebUiProtocol) -> ProtoV {
    ProtoV {
        fragments: p.fragments.spec_entries().map_values(
            |e: (String, FragmentList)| (e.0@, frags_view(e.1.fragments@)),
        ),
        tokens: strings_view(p.tokens@),
        components: p.components.spec_entries().map_values(|e: (String, ComponentData)| (e.0@, comp_view(e.1))),
    }
}

/// The validation message for a route whose fragment id, or that of a
/// route nested in it (its own first, then its children in order), does not
/// resolve among `ids`; an empty fragment id refers to nothing.
pub open spec fn route_reference_error(r: RouteV, ids: Seq<Seq<char>>) -> Option<Seq<char>>
    decreases r, 0int,
{
    if r.fragment_id.len() != 0 && !ids.contains(r.fragment_id) {
        Some("Route references non-existent fragment ID: "@ + r.fragment_id)
    } else {
        routes_reference_error(r.children, 0, ids)
    }
}

/// The first reference error among the routes from the `i`-th on.
pub open spec fn routes_reference_error(rs: Seq<RouteV>, i: int, ids: Seq<Seq<char>>) -> Option<Seq<char>>
    decreases rs, rs.len() - i,
{
    if i < 0 || i >= rs.len() {
        None
    } else {
        match route_reference_error(rs[i], ids) {
            Some(m) => Some(m),
            None => routes_reference_error(rs, i + 1, ids),
        }
    }
}

/// The validation message for a fragment whose reference does not resolve
/// among `ids`, or `None` when its references resolve or it has none. A
/// route's nested routes are checked with it.
pub open spec fn fragment_reference_error(f: FragV, ids: Seq<Seq<char>>) -> Option<Seq<char>> {
    match f {
        FragV::Component(id) => if !ids.contains(id) {
            Some("Component references non-existent fragment ID: "@ + id)
        } else {
            None
        },
        FragV::ForLoop(_, _, id) => if !ids.contains(id) {
            Some("For loop references non-existent fragment ID: "@ + id)
        } else {
            None
        },
        FragV::IfCond(_, id) => if !ids.contains(id) {
            Some("If condition references non-existent fragment ID: "@ + id)
        } else {
            None
        },
        FragV::Attribute(a) => if a.template.len() != 0 && !ids.contains(a.template) {
            Some("Attribute references non-existent template fragment ID: "@ + a.template)
        } else {
            None
        },
        FragV::Route(r) => route_reference_error(r, ids),
        _ => None,
    }
}

/// The first reference error in a list of fragments.
pub open spec fn list_reference_error(frags: Seq<FragV>, ids: Seq<Seq<char>>) -> Option<Seq<char>>
    decreases frags.len(),
{
    if frags.len() == 0 {
        None
    } else {
        match fragment_reference_error(frags[0], ids) {
            Some(m) => Some(m),
            None => list_reference_error(frags.drop_first(), ids),
        }
    }
}

/// The first reference error over a sequence of records.
pub open spec fn records_reference_error(records: Seq<(Seq<char>, Seq<FragV>)>, ids: Seq<Seq<char>>) -> Option<Seq<char>>
    decreases records.len(),
{
    if records.len() == 0 {
        None
    } else {
        match list_reference_error(records[0].1, ids) {
            Some(m) => Some(m),
            None => records_reference_error(records.drop_first(), ids),
        }
    }
}

/// The first unresolved fragment reference of a protocol, in record order
/// and then fragment order; `None` when every reference resolves.
pub open spec fn protocol_reference_error(p: ProtoV) -> Option<Seq<char>> {
    records_reference_error(p.fragments, fragment_ids(p))
}

/// Looks up `id` in the fragment records.
fn has_id(records: &WebUIFragmentRecords, id: &String) -> (r: bool)
    ensures
        r == records.spec_keys().contains(id@),
{
    records.contains_key(id.as_str())
}

/// The validation message for a route and the routes nested in it.
fn check_route(r: &WebUiFragmentRoute, records: &WebUIFragmentRecords) -> (res: Option<String>)
    ensures
        res matches Some(m) ==> route_reference_error(route_view(*r), records.spec_keys()) == Some(m@),
        res is None ==> route_reference_error(route_view(*r), records.spec_keys()) is None,
    decreases r,
{
    let ghost ids = records.spec_keys();
    let ghost rv = route_view(*r);
    if !r.fragment_id.as_str().is_empty() && !has_id(records, &r.fragment_id) {
        return Some(String::from_str("Route references non-existent fragment ID: ").concat(r.fragment_id.as_str()));
    }
    proof {
        assert(decreases_to!(*r => r.children@));
    }
    let mut k: usize = 0;
    while k < r.children.len()
        invariant
            0 <= k <= r.children@.len(),
            ids == records.spec_keys(),
            rv == route_view(*r),
            rv.children == routes_view(r.children@),
            decreases_to!(*r => r.children@),
            route_reference_error(rv, ids) == routes_reference_error(rv.children, k as int, ids),
        decreases r.children@.len() - k,
    {
        proof {
            assert(decreases_to!(r.children@ => r.children@[k as int]));
            assert(rv.children[k as int] == route_view(r.children@[k as int]));
        }
        if let Some(m) = check_route(&r.children[k], records) {
            return Some(m);
        }
        k = k + 1;
    }
    None
}

/// The validation message for one fragment.
fn check_fragment(f: &WebUiFragment, records: &WebUIFragmentRecords) -> (r: Option<String>)
    ensures
        r matches Some(m) ==> fragment_reference_error(frag_view(*f), records.spec_keys()) == Some(m@),
        r is None ==> fragment_reference_error(frag_view(*f), records.spec_keys()) is None,
{
    match &f.fragment {
        Some(Fragment::Component(c)) => {
            if !has_id(records, &c.fragment_id) {
                return Some(String::from_str("Component references non-existent fragment ID: ").concat(c.fragment_id.as_str()));
            }
            None
        },
        Some(Fragment::ForLoop(l)) => {
            if !has_id(records, &l.fragment_id) {
                return Some(String::from_str("For loop references non-existent fragment ID: ").concat(l.fragment_id.as_str()));
            }
            None
        },
        Some(Fragment::IfCond(i)) => {
            if !has_id(records, &i.fragment_id) {
                return Some(String::from_str("If condition references non-existent fragment ID: ").concat(i.fragment_id.as_str()));
            }
            None
        },
        Some(Fragment::Attribute(a)) => {
            if !a.template.as_str().is_empty() && !has_id(records, &a.template) {
                return Some(String::from_str("Attribute references non-existent template fragment ID: ").concat(a.template.as_str()));
            }
            None
        },
        Some(Fragment::Route(r)) => check_route(r, records),
        _ => None,
    }
}

impl WebUiProtocol {
    /// Checks that every fragment reference points to an existing fragment
    /// id. Returns the protocol unchanged when it does, and the message of
    /// the first unresolved reference (in record order) otherwise.
    pub fn validate_protocol(protocol: Self) -> (r: Result<Self, ProtocolError>)
        ensures
            protocol_reference_error(proto_view(protocol)) is None ==> r == Ok::<Self, ProtocolError>(protocol),
            protocol_reference_error(proto_view(protocol)) matches Some(m) ==> (r matches Err(ProtocolError::Validation(e)) && e@ == m),
    {
        let n = protocol.fragments.len();
        let ghost entries = protocol.fragments.spec_entries();
        let ghost pv = proto_view(protocol);
        let ghost ids = protocol.fragments.spec_keys();
        assert(ids =~= fragment_ids(pv));
        let mut i: usize = 0;
        assert(pv.fragments.skip(0) =~= pv.fragments);
        while i < n
            invariant
                0 <= i <= n,
                n == entries.len(),
                entries == protocol.fragments.spec_entries(),
                pv == proto_view(protocol),
                ids == protocol.fragments.spec_keys(),
                ids == fragment_ids(pv),
                records_reference_error(pv.fragments, ids) == records_reference_error(pv.fragments.skip(i as int), ids),
            decreases n - i,
        {
            let (_, list) = protocol.fragments.entry_at(i);
            let m = list.fragments.len();
            let ghost fv = frags_view(list.fragments@);
            let mut j: usize = 0;
            assert(pv.fragments.skip(i as int).drop_first() =~= pv.fragments.skip(i + 1));
            assert(pv.fragments.skip(i as int)[0] == pv.fragments[i as int]);
            assert(pv.fragments[i as int].1 == fv);
            assert(fv.skip(0) =~= fv);
            while j < m
                invariant
                    0 <= j <= m,
                    0 <= i < n,
                    n == entries.len(),
                    entries == protocol.fragments.spec_entries(),
                    pv == proto_view(protocol),
                    records_reference_error(pv.fragments, ids) == records_reference_error(pv.fragments.skip(i as int), ids),
                    pv.fragments.skip(i as int)[0] == pv.fragments[i as int],
                    pv.fragments[i as int].1 == fv,
                    m == list.fragments@.len(),
                    fv == frags_view(list.fragments@),
                    ids == protocol.fragments.spec_keys(),
                    ids == fragment_ids(pv),
                    list_reference_error(fv, ids) == list_reference_error(fv.skip(j as int), ids),
                decreases m - j,
            {
                assert(fv.skip(j as int).drop_first() =~= fv.skip(j + 1));
                assert(fv.skip(j as int)[0] == frag_view(list.fragments@[j as int]));
                if let Some(msg) = check_fragment(&list.fragments[j], &protocol.fragments) {
                    return Err(ProtocolError::Validation(msg));
                }
                j = j + 1;
            }
            assert(fv.skip(m as int) =~= Seq::<FragV>::empty());
            i = i + 1;
        }
        assert(pv.fragments.skip(n as int) =~= Seq::<(Seq<char>, Seq<FragV>)>::empty());
        Ok(protocol)
    }
}

proof fn lemma_records_clean(records: Seq<(Seq<char>, Seq<FragV>)>, ids: Seq<Seq<char>>, i: int)
    requires
        records_reference_error(records, ids) is None,
        0 <= i < records.len(),
    ensures
        list_reference_error(records[i].1, ids) is None,
    decreases i,
{
    if i > 0 {
        lemma_records_clean(records.drop_first(), ids, i - 1);
    }
}

proof fn lemma_list_clean(frags: Seq<FragV>, ids: Seq<Seq<char>>, j: int)
    requires
        list_reference_error(frags, ids) is None,
        0 <= j < frags.len(),
    ensures
        fragment_reference_error(frags[j], ids) is None,
    decreases j,
{
    if j > 0 {
        lemma_list_clean(frags.drop_first(), ids, j - 1);
    }
}

/// A protocol passes validation only when every reference in it names a
/// fragment record: a component, a for loop or an if condition names an
/// existing record, an attribute with a template names an existing record,
/// and a route with a fragment id names an existing record.
pub proof fn lemma_accepted_references_resolve(p: ProtoV, i: int, j: int)
    requires
        protocol_reference_error(p) is None,
        0 <= i < p.fragments.len(),
        0 <= j < p.fragments[i].1.len(),
    ensures
        match p.fragments[i].1[j] {
            FragV::Component(id) => fragment_ids(p).contains(id),
            FragV::ForLoop(_, _, id) => fragment_ids(p).contains(id),
            FragV::IfCond(_, id) => fragment_ids(p).contains(id),
            FragV::Attribute(a) => a.template.len() == 0 || fragment_ids(p).contains(a.template),
            FragV::Route(r) => r.fragment_id.len() == 0 || fragment_ids(p).contains(r.fragment_id),
            _ => true,
        },
{
    lemma_records_clean(p.fragments, fragment_ids(p), i);
    lemma_list_clean(p.fragments[i].1, fragment_ids(p), j);
}

} // verus!
