//! Parsing of `<route>` directive attributes into route fragments.
use vstd::prelude::*;
use super::error::ParserError;
use crate::protocol::types::{route_view, routes_view, RouteV, WebUiFragmentRoute};
use crate::text::{chars_eq, chars_to_string, decimal, decimal_chars, str_chars};

verus! {

/// Maximum number of path parameters allowed per route.
pub const MAX_PARAMS_PER_ROUTE: usize = 20;

/// Parsed attributes of a single `<route>` element.
#[derive(Debug, Default)]
pub struct RouteAttributes {
    pub path: String,
    pub component: String,
    pub exact: bool,
    /// Comma-separated allowlist of query parameters forwarded as attributes.
    pub query: String,
}

/// The path with a leading `./` removed.
pub open spec fn strip_relative(p: Seq<char>) -> Seq<char> {
    if p.len() >= 2 && p[0] == '.' && p[1] == '/' {
        p.skip(2)
    } else {
        p
    }
}

/// The `/`-separated segments of `s`, empty ones included (as `str::split`).
pub open spec fn split_slash(s: Seq<char>) -> Seq<Seq<char>>
    decreases s.len(),
{
    if s.len() == 0 {
        seq![Seq::empty()]
    } else {
        let prev = split_slash(s.drop_last());
        if s.last() == '/' {
            prev.push(Seq::empty())
        } else {
            prev.update(prev.len() - 1, prev.last().push(s.last()))
        }
    }
}

/// `s` without its trailing `?` characters.
pub open spec fn trim_trailing_question(s: Seq<char>) -> Seq<char>
    decreases s.len(),
{
    if s.len() > 0 && s.last() == '?' {
        trim_trailing_question(s.drop_last())
    } else {
        s
    }
}

/// ASCII letter, ASCII digit or `_`.
pub open spec fn is_param_char(c: char) -> bool {
    ('a' <= c <= 'z') || ('A' <= c <= 'Z') || ('0' <= c <= '9') || c == '_'
}

/// Outcome of one path segment, given the parameters found so far.
pub open spec fn param_step(st: Result<Seq<Seq<char>>, Seq<char>>, seg: Seq<char>, path: Seq<char>) -> Result<Seq<Seq<char>>, Seq<char>> {
    match st {
        Err(e) => Err(e),
        Ok(ps) => {
            if seg.len() == 0 {
                Ok(ps)
            } else if seg[0] == ':' {
                let name = trim_trailing_question(seg.skip(1));
                if name.len() == 0 {
                    Err("Empty parameter name in path: "@ + path)
                } else if !(forall|k: int| 0 <= k < name.len() ==> is_param_char(#[trigger] name[k])) {
                    Err("Invalid parameter name '"@ + name + "' in path: "@ + path)
                } else if ps.contains(name) {
                    Err("Duplicate parameter name '"@ + name + "' in path: "@ + path)
                } else {
                    Ok(ps.push(name))
                }
            } else if seg[0] == '*' {
                let rest = seg.skip(1);
                let name = if rest.len() == 0 { "rest"@ } else { rest };
                if ps.contains(name) {
                    Err("Duplicate splat name '"@ + name + "' in path: "@ + path)
                } else {
                    Ok(ps.push(name))
                }
            } else {
                Ok(ps)
            }
        },
    }
}

/// Outcome of a sequence of segments, left to right.
pub open spec fn params_fold(segs: Seq<Seq<char>>, path: Seq<char>) -> Result<Seq<Seq<char>>, Seq<char>>
    decreases segs.len(),
{
    if segs.len() == 0 {
        Ok(Seq::empty())
    } else {
        param_step(params_fold(segs.drop_last(), path), segs.last(), path)
    }
}

/// The parameter names of a route path template (`:name`, `:name?`,
/// `*name`, `*`), or the message of the first problem found.
pub open spec fn spec_extract_params(path: Seq<char>) -> Result<Seq<Seq<char>>, Seq<char>> {
    match params_fold(split_slash(strip_relative(path)), path) {
        Err(e) => Err(e),
        Ok(ps) => if ps.len() > MAX_PARAMS_PER_ROUTE {
            Err("Too many parameters ("@ + decimal(ps.len()) + ") in path: "@ + path + " (max 20)"@)
        } else {
            Ok(ps)
        },
    }
}

proof fn lemma_split_nonempty(s: Seq<char>)
    ensures
        split_slash(s).len() >= 1,
    decreases s.len(),
{
    if s.len() > 0 {
        lemma_split_nonempty(s.drop_last());
    }
}

fn contains_name(params: &Vec<String>, name: &[char]) -> (r: bool)
    ensures
        r == params@.map_values(|x: String| x@).contains(name@),
{
    let ghost names = params@.map_values(|x: String| x@);
    let mut i: usize = 0;
    while i < params.len()
        invariant
            0 <= i <= params@.len(),
            names == params@.map_values(|x: String| x@),
            forall|j: int| 0 <= j < i ==> names[j] != name@,
        decreases params@.len() - i,
    {
        let p = str_chars(params[i].as_str());
        if chars_eq(p.as_slice(), name) {
            assert(names[i as int] == name@);
            return true;
        }
        i = i + 1;
    }
    false
}

fn join2(a: &str, b: &str) -> (r: String)
    ensures
        r@ == a@ + b@,
{
    String::from_str(a).concat(b)
}

fn join3(a: &str, b: &str, c: &str) -> (r: String)
    ensures
        r@ == a@ + b@ + c@,
{
    String::from_str(a).concat(b).concat(c)
}

fn join4(a: &str, b: &str, c: &str, d: &str) -> (r: String)
    ensures
        r@ == a@ + b@ + c@ + d@,
{
    String::from_str(a).concat(b).concat(c).concat(d)
}

fn join5(a: &str, b: &str, c: &str, d: &str, e: &str) -> (r: String)
    ensures
        r@ == a@ + b@ + c@ + d@ + e@,
{
    String::from_str(a).concat(b).concat(c).concat(d).concat(e)
}

/// Applies [`param_step`] to one segment.
fn process_segment(seg: &Vec<char>, params: &mut Vec<String>, path: &str) -> (r: Result<(), ParserError>)
    ensures
        ({
            let before = Ok::<Seq<Seq<char>>, Seq<char>>(old(params)@.map_values(|x: String| x@));
            match r {
                Ok(_) => param_step(before, seg@, path@) == Ok::<Seq<Seq<char>>, Seq<char>>(final(params)@.map_values(|x: String| x@)),
                Err(ParserError::Directive(m)) => param_step(before, seg@, path@) == Err::<Seq<Seq<char>>, Seq<char>>(m@),
                Err(_) => false,
            }
        }),
{
    let ghost names = params@.map_values(|x: String| x@);
    if seg.len() == 0 {
        return Ok(());
    }
    if seg[0] == ':' {
        let mut end = seg.len();
        while end > 1 && seg[end - 1] == '?'
            invariant
                1 <= end <= seg@.len(),
                trim_trailing_question(seg@.skip(1)) == trim_trailing_question(seg@.subrange(1, end as int)),
            decreases end,
        {
            assert(seg@.subrange(1, end as int).drop_last() =~= seg@.subrange(1, end - 1));
            end = end - 1;
        }
        assert(seg@.skip(1) =~= seg@.subrange(1, seg@.len() as int));
        let mut name: Vec<char> = Vec::new();
        let mut k: usize = 1;
        while k < end
            invariant
                1 <= k <= end,
                end <= seg@.len(),
                name@ == seg@.subrange(1, k as int),
            decreases end - k,
        {
            name.push(seg[k]);
            assert(seg@.subrange(1, k + 1) =~= seg@.subrange(1, k as int).push(seg@[k as int]));
            k = k + 1;
        }
        proof {
            let t = seg@.subrange(1, end as int);
            assert(!(t.len() > 0 && t.last() == '?'));
            assert(trim_trailing_question(t) == t);
        }
        let ns = chars_to_string(name.as_slice());
        if name.len() == 0 {
            return Err(ParserError::Directive(join2("Empty parameter name in path: ", path)));
        }
        let mut all_ok = true;
        let mut q: usize = 0;
        while q < name.len()
            invariant
                0 <= q <= name@.len(),
                all_ok == (forall|t: int| 0 <= t < q ==> is_param_char(#[trigger] name@[t])),
            decreases name@.len() - q,
        {
            let c = name[q];
            let ok = ('a' <= c && c <= 'z') || ('A' <= c && c <= 'Z') || ('0' <= c && c <= '9') || c == '_';
            if !ok {
                all_ok = false;
            }
            q = q + 1;
        }
        if !all_ok {
            return Err(ParserError::Directive(join4("Invalid parameter name '", ns.as_str(), "' in path: ", path)));
        }
        if contains_name(params, name.as_slice()) {
            return Err(ParserError::Directive(join4("Duplicate parameter name '", ns.as_str(), "' in path: ", path)));
        }
        params.push(ns);
        assert(params@.map_values(|x: String| x@) =~= names.push(name@));
        return Ok(());
    }
    if seg[0] == '*' {
        let mut name: Vec<char> = Vec::new();
        let mut k: usize = 1;
        while k < seg.len()
            invariant
                1 <= k <= seg@.len(),
                name@ == seg@.subrange(1, k as int),
            decreases seg@.len() - k,
        {
            name.push(seg[k]);
            assert(seg@.subrange(1, k + 1) =~= seg@.subrange(1, k as int).push(seg@[k as int]));
            k = k + 1;
        }
        assert(seg@.skip(1) =~= seg@.subrange(1, seg@.len() as int));
        let name = if name.len() == 0 { str_chars("rest") } else { name };
        let ns = chars_to_string(name.as_slice());
        if contains_name(params, name.as_slice()) {
            return Err(ParserError::Directive(join4("Duplicate splat name '", ns.as_str(), "' in path: ", path)));
        }
        params.push(ns);
        assert(params@.map_values(|x: String| x@) =~= names.push(name@));
        return Ok(());
    }
    Ok(())
}

/// Extract the `:param` and `*splat` names of a route path template.
///
/// Names are returned without their `:` or `*` prefix, in order. A leading
/// `./` is ignored. A parameter name must be non-empty, made of ASCII
/// letters, digits and `_` (trailing `?` marks it optional and is not part
/// of the name), and must not repeat; an unnamed splat is called `rest`.
/// At most [`MAX_PARAMS_PER_ROUTE`] parameters are allowed.
pub fn extract_params(path: &str) -> (r: Result<Vec<String>, ParserError>)
    ensures
        match r {
            Ok(ps) => spec_extract_params(path@) == Ok::<Seq<Seq<char>>, Seq<char>>(ps@.map_values(|x: String| x@)),
            Err(ParserError::Directive(m)) => spec_extract_params(path@) == Err::<Seq<Seq<char>>, Seq<char>>(m@),
            Err(_) => false,
        },
{
    let pc = str_chars(path);
    let mut start: usize = 0;
    if pc.len() >= 2 && pc[0] == '.' && pc[1] == '/' {
        start = 2;
    }
    let ghost norm = strip_relative(path@);
    assert(norm =~= pc@.skip(start as int));
    let mut params: Vec<String> = Vec::new();
    let mut failure: Option<ParserError> = None;
    let mut cur: Vec<char> = Vec::new();
    let mut i: usize = start;
    proof {
        assert(norm.take(0) =~= Seq::<char>::empty());
        assert(split_slash(norm.take(0)) =~= seq![Seq::<char>::empty()]);
        assert(split_slash(norm.take(0)).drop_last() =~= Seq::<Seq<char>>::empty());
        assert(params@.map_values(|x: String| x@) =~= Seq::<Seq<char>>::empty());
    }
    while i < pc.len()
        invariant
            start <= i <= pc@.len(),
            norm == pc@.skip(start as int),
            pc@ == path@,
            cur@ == split_slash(norm.take(i - start)).last(),
            fold_matches(params_fold(split_slash(norm.take(i - start)).drop_last(), path@), params@, failure),
        decreases pc@.len() - i,
    {
        let c = pc[i];
        let ghost pre = norm.take(i - start);
        let ghost next = norm.take(i + 1 - start);
        proof {
            assert(next.drop_last() =~= pre);
            assert(next.last() == c);
            lemma_split_nonempty(pre);
        }
        if c == '/' {
            proof {
                let sp = split_slash(pre);
                assert(sp.drop_last().push(sp.last()) =~= sp);
                assert(split_slash(next).drop_last() =~= sp);
            }
            if failure.is_none() {
                let res = process_segment(&cur, &mut params, path);
                if let Err(e) = res {
                    failure = Some(e);
                }
            }
            cur = Vec::new();
            proof {
                assert(split_slash(next).last() =~= Seq::<char>::empty());
            }
        } else {
            cur.push(c);
            proof {
                let sp = split_slash(pre);
                assert(split_slash(next).drop_last() =~= sp.drop_last());
            }
        }
        i = i + 1;
    }
    assert(norm.take(i - start) =~= norm);
    proof {
        lemma_split_nonempty(norm);
        let sp = split_slash(norm);
        assert(sp.drop_last().push(sp.last()) =~= sp);
    }
    if let Some(e) = failure {
        return Err(e);
    }
    let res = process_segment(&cur, &mut params, path);
    if let Err(e) = res {
        return Err(e);
    }
    if params.len() > MAX_PARAMS_PER_ROUTE {
        let count = decimal_chars(params.len());
        let cs = chars_to_string(count.as_slice());
        return Err(ParserError::Directive(join5("Too many parameters (", cs.as_str(), ") in path: ", path, " (max 20)")));
    }
    Ok(params)
}

/// The fold state agrees with the parameters collected so far, or with the
/// recorded failure.
pub open spec fn fold_matches(st: Result<Seq<Seq<char>>, Seq<char>>, params: Seq<String>, failure: Option<ParserError>) -> bool {
    match failure {
        None => st == Ok::<Seq<Seq<char>>, Seq<char>>(params.map_values(|x: String| x@)),
        Some(ParserError::Directive(m)) => st == Err::<Seq<Seq<char>>, Seq<char>>(m@),
        Some(_) => false,
    }
}

/// Every successful fold yields non-empty, pairwise distinct names.
proof fn lemma_params_fold_distinct(segs: Seq<Seq<char>>, path: Seq<char>)
    ensures
        params_fold(segs, path) matches Ok(ps) ==> (forall|i: int, j: int|
            0 <= i < ps.len() && 0 <= j < ps.len() && i != j ==> ps[i] != ps[j])
            && (forall|i: int| 0 <= i < ps.len() ==> ps[i].len() > 0),
    decreases segs.len(),
{
    if segs.len() > 0 {
        lemma_params_fold_distinct(segs.drop_last(), path);
        reveal_strlit("rest");
    }
}

/// A route path template is accepted only when its parameter names are
/// non-empty, pairwise distinct and at most [`MAX_PARAMS_PER_ROUTE`] in number.
pub proof fn lemma_extracted_params_distinct(path: Seq<char>)
    ensures
        spec_extract_params(path) matches Ok(ps) ==> {
            &&& ps.len() <= MAX_PARAMS_PER_ROUTE
            &&& forall|i: int, j: int| 0 <= i < ps.len() && 0 <= j < ps.len() && i != j ==> ps[i] != ps[j]
            &&& forall|i: int| 0 <= i < ps.len() ==> ps[i].len() > 0
        },
{
    lemma_params_fold_distinct(split_slash(strip_relative(path)), path);
}

/// Validate route attributes: the `component` attribute is required.
pub fn validate_attributes(attrs: &RouteAttributes) -> (r: Result<(), ParserError>)
    ensures
        attrs.component@.len() != 0 ==> r is Ok,
        attrs.component@.len() == 0 ==> (r matches Err(ParserError::Directive(m))
            && m@ == "Route '"@ + attrs.path@ + "' must have a 'component' attribute"@),
{
    if attrs.component.as_str().is_empty() {
        return Err(ParserError::Directive(join3("Route '", attrs.path.as_str(), "' must have a 'component' attribute")));
    }
    Ok(())
}

/// Build a route fragment from parsed attributes.
pub fn build_route_fragment(attrs: &RouteAttributes, fragment_id: String, children: Vec<WebUiFragmentRoute>) -> (r: WebUiFragmentRoute)
    ensures
        route_view(r) == (RouteV {
            path: attrs.path@,
            fragment_id: fragment_id@,
            exact: attrs.exact,
            children: routes_view(children@),
            allowed_query: attrs.query@,
        }),
{
    WebUiFragmentRoute {
        path: attrs.path.clone(),
        fragment_id,
        exact: attrs.exact,
        children,
        allowed_query: attrs.query.clone(),
    }
}

proof fn lemma_split_slash_sep(a: Seq<char>)
    ensures
        split_slash(a.push('/')) == split_slash(a).push(Seq::empty()),
{
    assert(a.push('/').drop_last() =~= a);
}

proof fn lemma_split_slash_word(a: Seq<char>, w: Seq<char>)
    requires
        forall|i: int| 0 <= i < w.len() ==> #[trigger] w[i] != '/',
    ensures
        split_slash(a + w) == split_slash(a).update(split_slash(a).len() - 1, split_slash(a).last() + w),
    decreases w.len(),
{
    lemma_split_nonempty(a);
    if w.len() == 0 {
        assert(a + w =~= a);
        assert(split_slash(a).last() + w =~= split_slash(a).last());
        assert(split_slash(a).update(split_slash(a).len() - 1, split_slash(a).last()) =~= split_slash(a));
    } else {
        lemma_split_slash_word(a, w.drop_last());
        assert((a + w).drop_last() =~= a + w.drop_last());
        assert((a + w).last() == w.last());
        let prev = split_slash(a + w.drop_last());
        assert(prev.last() == split_slash(a).last() + w.drop_last());
        assert(split_slash(a).last() + w.drop_last() + seq![w.last()] =~= split_slash(a).last() + w);
        assert(prev.len() == split_slash(a).len());
        assert(prev.last().push(w.last()) =~= split_slash(a).last() + w);
        assert(prev.update(prev.len() - 1, prev.last().push(w.last())) =~= split_slash(a).update(
            split_slash(a).len() - 1, split_slash(a).last() + w));
    }
}

/// In a path `/segment/:name`, whose static segment is made of ASCII
/// letters, digits, `_` and `-`, the parameter `name` (no `/` in it, not
/// ending in `?`) is accepted, as the path's one parameter, exactly when it
/// is made of ASCII letters (upper or lower case), digits and `_`;
/// otherwise the path has the invalid parameter name error.
pub proof fn lemma_param_names(seg: Seq<char>, name: Seq<char>)
    requires
        seg.len() > 0,
        forall|i: int| 0 <= i < seg.len() ==> {
            let c = #[trigger] seg[i];
            ('a' <= c && c <= 'z') || ('A' <= c && c <= 'Z') || ('0' <= c && c <= '9') || c == '_' || c == '-'
        },
        name.len() > 0,
        name.last() != '?',
        forall|i: int| 0 <= i < name.len() ==> #[trigger] name[i] != '/',
    ensures
        spec_extract_params("/"@ + seg + "/:"@ + name) == if forall|i: int| 0 <= i < name.len() ==> {
            let c = #[trigger] name[i];
            ('a' <= c && c <= 'z') || ('A' <= c && c <= 'Z') || ('0' <= c && c <= '9') || c == '_'
        } {
            Ok::<Seq<Seq<char>>, Seq<char>>(seq![name])
        } else {
            Err::<Seq<Seq<char>>, Seq<char>>("Invalid parameter name '"@ + name + "' in path: "@ + ("/"@ + seg + "/:"@ + name))
        },
{
    reveal_strlit("/");
    reveal_strlit("/:");
    let path = "/"@ + seg + "/:"@ + name;
    let empty = Seq::<char>::empty();
    let p1 = empty.push('/');
    lemma_split_slash_sep(empty);
    assert(split_slash(empty) == seq![empty]);
    assert(split_slash(p1) =~= seq![empty, empty]);
    assert(forall|i: int| 0 <= i < seg.len() ==> #[trigger] seg[i] != '/');
    lemma_split_slash_word(p1, seg);
    let p2 = p1 + seg;
    assert(split_slash(p2) =~= seq![empty, seg]) by {
        assert(empty + seg =~= seg);
    }
    let p3 = p2.push('/');
    lemma_split_slash_sep(p2);
    assert(split_slash(p3) =~= seq![empty, seg, empty]);
    let last = seq![':'] + name;
    assert(forall|i: int| 0 <= i < last.len() ==> #[trigger] last[i] != '/') by {
        assert forall|i: int| 0 <= i < last.len() implies #[trigger] last[i] != '/' by {
            if i > 0 {
                assert(last[i] == name[i - 1]);
            }
        }
    }
    lemma_split_slash_word(p3, last);
    assert(p3 + last =~= path);
    let segs = seq![empty, seg, last];
    assert(split_slash(path) =~= segs) by {
        assert(empty + last =~= last);
    }
    assert(path[0] == '/');
    assert(strip_relative(path) == path);
    assert(segs.drop_last() =~= seq![empty, seg]);
    assert(segs.drop_last().drop_last() =~= seq![empty]);
    assert(segs.drop_last().drop_last().drop_last() =~= Seq::<Seq<char>>::empty());
    assert(seq![empty].drop_last() =~= Seq::<Seq<char>>::empty());
    assert(seq![empty].last() == empty);
    assert(seq![empty, seg].drop_last() =~= seq![empty]);
    assert(seq![empty, seg].last() == seg);
    let st0 = params_fold(Seq::<Seq<char>>::empty(), path);
    assert(st0 == Ok::<Seq<Seq<char>>, Seq<char>>(Seq::empty()));
    let st1 = params_fold(seq![empty], path);
    assert(st1 == param_step(st0, empty, path));
    assert(st1 == Ok::<Seq<Seq<char>>, Seq<char>>(Seq::empty()));
    let st2 = params_fold(seq![empty, seg], path);
    assert(st2 == param_step(st1, seg, path));
    assert(seg[0] != ':' && seg[0] != '*');
    assert(st2 == Ok::<Seq<Seq<char>>, Seq<char>>(Seq::empty()));
    assert(last[0] == ':');
    assert(last.skip(1) =~= name);
    assert(trim_trailing_question(name) == name);
    let inline_ok = forall|i: int| 0 <= i < name.len() ==> {
        let c = #[trigger] name[i];
        ('a' <= c && c <= 'z') || ('A' <= c && c <= 'Z') || ('0' <= c && c <= '9') || c == '_'
    };
    assert(inline_ok == (forall|k: int| 0 <= k < name.len() ==> is_param_char(#[trigger] name[k])));
    assert(!Seq::<Seq<char>>::empty().contains(name));
    assert(Seq::<Seq<char>>::empty().push(name) =~= seq![name]);
    assert(params_fold(segs, path) == param_step(st2, last, path));
}

proof fn lemma_split_one(x: Seq<char>)
    requires
        forall|i: int| 0 <= i < x.len() ==> #[trigger] x[i] != '/',
    ensures
        split_slash(seq!['/'] + x) == seq![Seq::<char>::empty(), x],
{
    let empty = Seq::<char>::empty();
    lemma_split_slash_sep(empty);
    assert(empty.push('/') =~= seq!['/']);
    assert(split_slash(empty) == seq![empty]);
    lemma_split_slash_word(seq!['/'], x);
    assert(empty + x =~= x);
    assert(split_slash(seq!['/'] + x) =~= seq![empty, x]);
}

proof fn lemma_split_two(x: Seq<char>, y: Seq<char>)
    requires
        forall|i: int| 0 <= i < x.len() ==> #[trigger] x[i] != '/',
        forall|i: int| 0 <= i < y.len() ==> #[trigger] y[i] != '/',
    ensures
        split_slash(seq!['/'] + x + seq!['/'] + y) == seq![Seq::<char>::empty(), x, y],
{
    let empty = Seq::<char>::empty();
    lemma_split_one(x);
    let p = seq!['/'] + x;
    lemma_split_slash_sep(p);
    assert(p.push('/') =~= p + seq!['/']);
    lemma_split_slash_word(p.push('/'), y);
    assert(empty + y =~= y);
    assert(split_slash(seq!['/'] + x + seq!['/'] + y) =~= seq![empty, x, y]);
}

proof fn lemma_no_slash_after_mark(m: char, x: Seq<char>)
    requires
        m != '/',
        forall|i: int| 0 <= i < x.len() ==> #[trigger] x[i] != '/',
    ensures
        forall|i: int| 0 <= i < (seq![m] + x).len() ==> #[trigger] (seq![m] + x)[i] != '/',
{
    assert forall|i: int| 0 <= i < (seq![m] + x).len() implies #[trigger] (seq![m] + x)[i] != '/' by {
        if i > 0 {
            assert((seq![m] + x)[i] == x[i - 1]);
        }
    }
}

/// Parameters of a path come out in order, each once: `/:a/:b`, with names
/// of ASCII letters, digits and `_`, has the parameters `a` then `b` when
/// they differ, and the duplicate parameter error when they are the same.
/// An optional parameter `:name?` is named without its `?`, and a splat
/// `*name` is named `name`, or `rest` when the name is empty.
pub proof fn lemma_param_order_and_forms(a: Seq<char>, b: Seq<char>, w: Seq<char>)
    requires
        a.len() > 0,
        b.len() > 0,
        forall|i: int| 0 <= i < a.len() ==> {
            let c = #[trigger] a[i];
            ('a' <= c && c <= 'z') || ('A' <= c && c <= 'Z') || ('0' <= c && c <= '9') || c == '_'
        },
        forall|i: int| 0 <= i < b.len() ==> {
            let c = #[trigger] b[i];
            ('a' <= c && c <= 'z') || ('A' <= c && c <= 'Z') || ('0' <= c && c <= '9') || c == '_'
        },
        forall|i: int| 0 <= i < w.len() ==> #[trigger] w[i] != '/',
    ensures
        spec_extract_params("/:"@ + a + "/:"@ + b) == if a == b {
            Err::<Seq<Seq<char>>, Seq<char>>("Duplicate parameter name '"@ + b + "' in path: "@ + ("/:"@ + a + "/:"@ + b))
        } else {
            Ok::<Seq<Seq<char>>, Seq<char>>(seq![a, b])
        },
        spec_extract_params("/:"@ + a + "?"@) == Ok::<Seq<Seq<char>>, Seq<char>>(seq![a]),
        spec_extract_params("/*"@ + w) == Ok::<Seq<Seq<char>>, Seq<char>>(seq![if w.len() == 0 { "rest"@ } else { w }]),
{
    reveal_strlit("/:");
    reveal_strlit("?");
    reveal_strlit("/*");
    let empty = Seq::<char>::empty();
    let none = Seq::<Seq<char>>::empty();
    assert(forall|i: int| 0 <= i < a.len() ==> #[trigger] a[i] != '/');
    assert(forall|i: int| 0 <= i < b.len() ==> #[trigger] b[i] != '/');
    assert(forall|i: int| 0 <= i < a.len() ==> is_param_char(#[trigger] a[i]));
    assert(forall|i: int| 0 <= i < b.len() ==> is_param_char(#[trigger] b[i]));
    assert(params_fold(none, empty) == Ok::<Seq<Seq<char>>, Seq<char>>(none));
    // Two parameters.
    let sa = seq![':'] + a;
    let sb = seq![':'] + b;
    lemma_no_slash_after_mark(':', a);
    lemma_no_slash_after_mark(':', b);
    lemma_split_two(sa, sb);
    let p2 = "/:"@ + a + "/:"@ + b;
    assert(seq!['/'] + sa + seq!['/'] + sb =~= p2);
    assert(p2[0] == '/');
    assert(strip_relative(p2) == p2);
    let segs = seq![empty, sa, sb];
    assert(segs.drop_last() =~= seq![empty, sa]);
    assert(seq![empty, sa].drop_last() =~= seq![empty]);
    assert(seq![empty].drop_last() =~= none);
    assert(sa.skip(1) =~= a);
    assert(sb.skip(1) =~= b);
    assert(a.last() != '?');
    assert(b.last() != '?');
    assert(trim_trailing_question(a) == a);
    assert(trim_trailing_question(b) == b);
    let f1 = params_fold(seq![empty], p2);
    assert(f1 == param_step(params_fold(none, p2), empty, p2));
    assert(f1 == Ok::<Seq<Seq<char>>, Seq<char>>(none));
    let f2 = params_fold(seq![empty, sa], p2);
    assert(f2 == param_step(f1, sa, p2));
    assert(!none.contains(a));
    assert(none.push(a) =~= seq![a]);
    assert(f2 == Ok::<Seq<Seq<char>>, Seq<char>>(seq![a]));
    assert(params_fold(segs, p2) == param_step(f2, sb, p2));
    assert(seq![a].contains(b) == (a == b)) by {
        if a == b {
            assert(seq![a][0] == b);
        }
    }
    assert(seq![a].push(b) =~= seq![a, b]);
    // An optional parameter.
    let sq = seq![':'] + a + seq!['?'];
    assert(sq =~= seq![':'] + (a + seq!['?']));
    assert(forall|i: int| 0 <= i < (a + seq!['?']).len() ==> #[trigger] (a + seq!['?'])[i] != '/') by {
        assert forall|i: int| 0 <= i < (a + seq!['?']).len() implies #[trigger] (a + seq!['?'])[i] != '/' by {
            if i < a.len() {
                assert((a + seq!['?'])[i] == a[i]);
            }
        }
    }
    lemma_no_slash_after_mark(':', a + seq!['?']);
    lemma_split_one(sq);
    let p3 = "/:"@ + a + "?"@;
    assert(seq!['/'] + sq =~= p3);
    assert(p3[0] == '/');
    assert(strip_relative(p3) == p3);
    assert(sq.skip(1) =~= a.push('?'));
    assert(a.push('?').drop_last() =~= a);
    assert(trim_trailing_question(a.push('?')) == trim_trailing_question(a));
    let segs3 = seq![empty, sq];
    assert(segs3.drop_last() =~= seq![empty]);
    let g1 = params_fold(seq![empty], p3);
    assert(g1 == param_step(params_fold(none, p3), empty, p3));
    assert(params_fold(segs3, p3) == param_step(g1, sq, p3));
    // A splat.
    let sw = seq!['*'] + w;
    lemma_no_slash_after_mark('*', w);
    lemma_split_one(sw);
    let p4 = "/*"@ + w;
    assert(seq!['/'] + sw =~= p4);
    assert(p4[0] == '/');
    assert(strip_relative(p4) == p4);
    assert(sw.skip(1) =~= w);
    let segs4 = seq![empty, sw];
    assert(segs4.drop_last() =~= seq![empty]);
    let h1 = params_fold(seq![empty], p4);
    assert(h1 == param_step(params_fold(none, p4), empty, p4));
    assert(params_fold(segs4, p4) == param_step(h1, sw, p4));
}

} // verus!
