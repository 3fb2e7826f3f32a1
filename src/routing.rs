//! The control-plane route table: path patterns and methods mapped to
//! function ids. A pattern is an exact path, a prefix ending in `/*`, or a
//! path whose `:name` segments match any one segment.
use crate::gateway::{find_char, index_of};
use crate::text::text_eq;
use vstd::prelude::*;
use vstd::string::*;

verus! {

/// HTTP method of a route; `Any` matches every method.
#[derive(Debug, Clone, Copy, PartialEq, Eq, Hash, Structural)]
pub enum RouteMethod {
    Get,
    Post,
    Put,
    Delete,
    Patch,
    Head,
    Options,
    Any,
}

/// The code of a character with ASCII lower-case letters moved to upper case.
pub open spec fn ascii_upper(c: char) -> u32 {
    if 'a' <= c && c <= 'z' {
        ((c as u32) - 32) as u32
    } else {
        c as u32
    }
}

/// Equal once ASCII letters are folded to one case.
pub open spec fn eq_ignore_ascii_case(a: Seq<char>, b: Seq<char>) -> bool {
    a.len() == b.len() && forall|i: int| 0 <= i < a.len() ==> ascii_upper(#[trigger] a[i]) == ascii_upper(b[i])
}

pub open spec fn route_method_name(m: RouteMethod) -> Seq<char> {
    match m {
        RouteMethod::Get => "GET"@,
        RouteMethod::Post => "POST"@,
        RouteMethod::Put => "PUT"@,
        RouteMethod::Delete => "DELETE"@,
        RouteMethod::Patch => "PATCH"@,
        RouteMethod::Head => "HEAD"@,
        RouteMethod::Options => "OPTIONS"@,
        RouteMethod::Any => "ANY"@,
    }
}

pub open spec fn method_matches(m: RouteMethod, method: Seq<char>) -> bool {
    match m {
        RouteMethod::Any => true,
        _ => eq_ignore_ascii_case(method, route_method_name(m)),
    }
}

/// The method named by an upper-cased name; `*` and `ANY` name `Any`, and an
/// unknown name reads as `Get`.
pub open spec fn route_method_of_upper(u: Seq<char>) -> RouteMethod {
    if u == "POST"@ {
        RouteMethod::Post
    } else if u == "PUT"@ {
        RouteMethod::Put
    } else if u == "DELETE"@ {
        RouteMethod::Delete
    } else if u == "PATCH"@ {
        RouteMethod::Patch
    } else if u == "HEAD"@ {
        RouteMethod::Head
    } else if u == "OPTIONS"@ {
        RouteMethod::Options
    } else if u == "*"@ || u == "ANY"@ {
        RouteMethod::Any
    } else {
        RouteMethod::Get
    }
}

/// What `str::to_uppercase` makes of a text.
pub uninterp spec fn upper_of(s: Seq<char>) -> Seq<char>;

/// Relies on `str::to_uppercase`: the result depends on the characters alone.
#[verifier::external_body]
fn uppercase(s: &str) -> (r: String)
    ensures
        r@ == upper_of(s@),
{
    s.to_uppercase()
}

pub fn eq_ignore_case(a: &str, b: &str) -> (r: bool)
    ensures
        r == eq_ignore_ascii_case(a@, b@),
{
    let n = a.unicode_len();
    if n != b.unicode_len() {
        return false;
    }
    let mut i: usize = 0;
    while i < n
        invariant
            n == a@.len(),
            n == b@.len(),
            0 <= i <= n,
            forall|j: int| 0 <= j < i ==> ascii_upper(#[trigger] a@[j]) == ascii_upper(b@[j]),
        decreases n - i,
    {
        let x = a.get_char(i);
        let y = b.get_char(i);
        let ux: u32 = if 'a' <= x && x <= 'z' {
            (x as u32) - 32
        } else {
            x as u32
        };
        let uy: u32 = if 'a' <= y && y <= 'z' {
            (y as u32) - 32
        } else {
            y as u32
        };
        if ux != uy {
            return false;
        }
        i = i + 1;
    }
    true
}

impl RouteMethod {
    /// The method's name in upper case.
    pub fn name(&self) -> (r: &'static str)
        ensures
            r@ == route_method_name(*self),
    {
        match self {
            RouteMethod::Get => "GET",
            RouteMethod::Post => "POST",
            RouteMethod::Put => "PUT",
            RouteMethod::Delete => "DELETE",
            RouteMethod::Patch => "PATCH",
            RouteMethod::Head => "HEAD",
            RouteMethod::Options => "OPTIONS",
            RouteMethod::Any => "ANY",
        }
    }

    /// Whether this route method accepts a request method, ignoring ASCII case.
    pub fn matches(&self, method: &str) -> (r: bool)
        ensures
            r == method_matches(*self, method@),
    {
        match self {
            RouteMethod::Any => true,
            _ => eq_ignore_case(method, self.name()),
        }
    }

    /// The method named by an already upper-cased name.
    pub fn from_upper(u: &str) -> (m: RouteMethod)
        ensures
            m == route_method_of_upper(u@),
    {
        if text_eq(u, "POST") {
            RouteMethod::Post
        } else if text_eq(u, "PUT") {
            RouteMethod::Put
        } else if text_eq(u, "DELETE") {
            RouteMethod::Delete
        } else if text_eq(u, "PATCH") {
            RouteMethod::Patch
        } else if text_eq(u, "HEAD") {
            RouteMethod::Head
        } else if text_eq(u, "OPTIONS") {
            RouteMethod::Options
        } else if text_eq(u, "*") || text_eq(u, "ANY") {
            RouteMethod::Any
        } else {
            RouteMethod::Get
        }
    }

    /// The method named by `s` in any case.
    pub fn parse(s: &str) -> (m: RouteMethod)
        ensures
            m == route_method_of_upper(upper_of(s@)),
    {
        let u = uppercase(s);
        RouteMethod::from_upper(u.as_str())
    }
}

impl<'a> From<&'a str> for RouteMethod {
    fn from(s: &'a str) -> (m: RouteMethod) {
        RouteMethod::parse(s)
    }
}

impl<'a> vstd::std_specs::convert::FromSpecImpl<&'a str> for RouteMethod {
    open spec fn obeys_from_spec() -> bool {
        true
    }

    open spec fn from_spec(s: &'a str) -> RouteMethod {
        route_method_of_upper(upper_of(s@))
    }
}

/// The pieces of `s` between occurrences of `c`, from index `from` on.
pub open spec fn split_from(s: Seq<char>, c: char, from: int) -> Seq<Seq<char>>
    decreases s.len() - from,
{
    let e = index_of(s, c, from);
    if from < 0 || from > s.len() {
        Seq::empty()
    } else if e >= s.len() || e < from {
        seq![s.subrange(from, s.len() as int)]
    } else {
        seq![s.subrange(from, e)] + split_from(s, c, e + 1)
    }
}

/// The `/`-separated segments of a path.
pub open spec fn segments(s: Seq<char>) -> Seq<Seq<char>> {
    split_from(s, '/', 0)
}

proof fn lemma_index_of_range(s: Seq<char>, c: char, from: int)
    requires
        0 <= from <= s.len(),
    ensures
        from <= index_of(s, c, from) <= s.len(),
    decreases s.len() - from,
{
    if from < s.len() && s[from] != c {
        lemma_index_of_range(s, c, from + 1);
    }
}

/// The pieces of `s` between occurrences of `c`.
pub fn split_text(s: &str, c: char) -> (r: Vec<String>)
    ensures
        r@.map_values(|x: String| x@) == split_from(s@, c, 0),
{
    let n = s.unicode_len();
    let mut out: Vec<String> = Vec::new();
    let mut pos: usize = 0;
    assert(out@.map_values(|x: String| x@) + split_from(s@, c, 0) =~= split_from(s@, c, 0));
    loop
        invariant
            n == s@.len(),
            0 <= pos <= n,
            out@.map_values(|x: String| x@) + split_from(s@, c, pos as int) == split_from(s@, c, 0),
        decreases n - pos,
    {
        let e = find_char(s, c, pos);
        let seg = s.substring_char(pos, e).to_owned();
        let ghost before = out@.map_values(|x: String| x@);
        out.push(seg);
        assert(out@.map_values(|x: String| x@) =~= before.push(seg@));
        if e >= n {
            assert(before + split_from(s@, c, pos as int) =~= out@.map_values(|x: String| x@));
            return out;
        }
        assert(before + split_from(s@, c, pos as int) =~= out@.map_values(|x: String| x@) + split_from(
            s@,
            c,
            e + 1,
        ));
        pos = e + 1;
    }
}

pub open spec fn segment_matches(r: Seq<char>, p: Seq<char>) -> bool {
    (r.len() > 0 && r[0] == ':') || r == p
}

pub open spec fn path_matches(pattern: Seq<char>, path: Seq<char>) -> bool {
    if pattern.len() >= 2 && pattern.subrange(pattern.len() - 2, pattern.len() as int) == "/*"@ {
        let prefix = pattern.subrange(0, pattern.len() - 2);
        path.len() >= prefix.len() && path.subrange(0, prefix.len() as int) == prefix
    } else if pattern.contains(':') {
        let rs = segments(pattern);
        let ps = segments(path);
        rs.len() == ps.len() && forall|i: int| 0 <= i < rs.len() ==> segment_matches(#[trigger] rs[i], ps[i])
    } else {
        pattern == path
    }
}

/// A route: a path pattern and method mapped to a function id.
#[derive(Debug)]
pub struct Route {
    pub path: String,
    pub method: RouteMethod,
    pub function_id: String,
    /// Higher goes first.
    pub priority: u32,
    pub enabled: bool,
}

pub open spec fn route_matches(r: &Route, path: Seq<char>, method: Seq<char>) -> bool {
    view_matches(route_view(*r), path, method)
}

/// An enabled route whose method and pattern both take the request.
pub open spec fn view_matches(r: RouteView, path: Seq<char>, method: Seq<char>) -> bool {
    r.4 && method_matches(r.1, method) && path_matches(r.0, path)
}

fn starts_with(s: &str, prefix: &str) -> (r: bool)
    ensures
        r == (s@.len() >= prefix@.len() && s@.subrange(0, prefix@.len() as int) == prefix@),
{
    let n = s.unicode_len();
    let m = prefix.unicode_len();
    if m > n {
        return false;
    }
    text_eq(s.substring_char(0, m), prefix)
}

fn contains_char(s: &str, c: char) -> (r: bool)
    ensures
        r == s@.contains(c),
{
    let n = s.unicode_len();
    let i = find_char(s, c, 0);
    proof {
        lemma_index_of_first(s@, c, 0);
    }
    i < n
}

proof fn lemma_index_of_first(s: Seq<char>, c: char, from: int)
    requires
        0 <= from <= s.len(),
    ensures
        index_of(s, c, from) < s.len() ==> s[index_of(s, c, from)] == c,
        forall|j: int| from <= j < index_of(s, c, from) ==> s[j] != c,
    decreases s.len() - from,
{
    if from < s.len() && s[from] != c {
        lemma_index_of_first(s, c, from + 1);
    }
}

impl Route {
    /// An enabled route of priority zero.
    pub fn new(method: RouteMethod, path: &str, function_id: &str) -> (r: Route)
        ensures
            r.method == method,
            r.path@ == path@,
            r.function_id@ == function_id@,
            r.priority == 0,
            r.enabled,
    {
        Route { path: path.to_owned(), method, function_id: function_id.to_owned(), priority: 0, enabled: true }
    }

    pub fn priority(self, priority: u32) -> (r: Route)
        ensures
            r == (Route { priority, ..self }),
    {
        let mut s = self;
        s.priority = priority;
        s
    }

    pub fn enabled(self, enabled: bool) -> (r: Route)
        ensures
            r == (Route { enabled, ..self }),
    {
        let mut s = self;
        s.enabled = enabled;
        s
    }

    /// Whether the route takes a request for `path` with `method`.
    pub fn matches(&self, path: &str, method: &str) -> (r: bool)
        ensures
            r == route_matches(self, path@, method@),
    {
        if !self.enabled {
            return false;
        }
        if !self.method.matches(method) {
            return false;
        }
        let p = self.path.as_str();
        let n = p.unicode_len();
        let wildcard = n >= 2 && text_eq(p.substring_char(n - 2, n), "/*");
        if wildcard {
            starts_with(path, p.substring_char(0, n - 2))
        } else if contains_char(p, ':') {
            let rs = split_text(p, '/');
            let ps = split_text(path, '/');
            let ghost rv = rs@.map_values(|x: String| x@);
            let ghost pv = ps@.map_values(|x: String| x@);
            assert(rv.len() == rs@.len() && pv.len() == ps@.len());
            if rs.len() != ps.len() {
                return false;
            }
            let mut i: usize = 0;
            while i < rs.len()
                invariant
                    rv == rs@.map_values(|x: String| x@),
                    pv == ps@.map_values(|x: String| x@),
                    rv == segments(self.path@),
                    pv == segments(path@),
                    self.path@.contains(':'),
                    !(self.path@.len() >= 2 && self.path@.subrange(self.path@.len() - 2, self.path@.len() as int) == "/*"@),
                    rs@.len() == ps@.len(),
                    0 <= i <= rs@.len(),
                    forall|j: int| 0 <= j < i ==> segment_matches(#[trigger] rv[j], pv[j]),
                decreases rs@.len() - i,
            {
                let r = rs[i].as_str();
                let param = r.unicode_len() > 0 && r.get_char(0) == ':';
                if !param && !text_eq(r, ps[i].as_str()) {
                    assert(!segment_matches(rv[i as int], pv[i as int]));
                    assert(rv == segments(self.path@) && pv == segments(path@));
                    assert(!path_matches(self.path@, path@));
                    return false;
                }
                i = i + 1;
            }
            true
        } else {
            text_eq(p, path)
        }
    }

    /// A copy of the route.
    pub fn duplicate(&self) -> (r: Route)
        ensures
            r.path@ == self.path@,
            r.method == self.method,
            r.function_id@ == self.function_id@,
            r.priority == self.priority,
            r.enabled == self.enabled,
    {
        Route {
            path: self.path.clone(),
            method: self.method,
            function_id: self.function_id.clone(),
            priority: self.priority,
            enabled: self.enabled,
        }
    }
}

/// A route as a value: path, method, function id, priority, enabled.
pub type RouteView = (Seq<char>, RouteMethod, Seq<char>, u32, bool);

pub open spec fn route_view(r: Route) -> RouteView {
    (r.path@, r.method, r.function_id@, r.priority, r.enabled)
}

pub open spec fn routes_view(s: Seq<Route>) -> Seq<RouteView> {
    s.map_values(|r: Route| route_view(r))
}

/// Highest priority first.
pub open spec fn by_priority(s: Seq<RouteView>) -> bool {
    forall|i: int, j: int| 0 <= i < j < s.len() ==> (#[trigger] s[i]).3 >= (#[trigger] s[j]).3
}

/// Where a route of priority `p` goes: after every route of priority at least `p`.
pub open spec fn insert_at(s: Seq<RouteView>, p: u32, i: int) -> int
    decreases s.len() - i,
{
    if i < 0 || i >= s.len() || s[i].3 < p {
        i
    } else {
        insert_at(s, p, i + 1)
    }
}

proof fn lemma_insert_at(s: Seq<RouteView>, p: u32, i: int)
    requires
        0 <= i <= s.len(),
    ensures
        i <= insert_at(s, p, i) <= s.len(),
        forall|j: int| i <= j < insert_at(s, p, i) ==> (#[trigger] s[j]).3 >= p,
        insert_at(s, p, i) < s.len() ==> s[insert_at(s, p, i)].3 < p,
    decreases s.len() - i,
{
    if i < s.len() && s[i].3 >= p {
        lemma_insert_at(s, p, i + 1);
    }
}

/// The routes kept in priority order, highest first; routes of equal
/// priority stay in the order they were added.
#[derive(Debug)]
pub struct RouteTable {
    routes: Vec<Route>,
}

impl RouteTable {
    pub closed spec fn view(&self) -> Seq<RouteView> {
        routes_view(self.routes@)
    }

    pub closed spec fn wf(&self) -> bool {
        by_priority(self.view())
    }

    pub fn new() -> (t: RouteTable)
        ensures
            t.wf(),
            t.view() == Seq::<RouteView>::empty(),
    {
        let t = RouteTable { routes: Vec::new() };
        assert(t.view() =~= Seq::<RouteView>::empty());
        t
    }

    /// Adds a route after every route of at least its priority.
    pub fn add(&mut self, route: Route)
        requires
            old(self).wf(),
        ensures
            final(self).wf(),
            final(self).view() == old(self).view().insert(
                insert_at(old(self).view(), route.priority, 0),
                route_view(route),
            ),
    {
        let ghost s = self.view();
        let ghost rv = route_view(route);
        let mut i: usize = 0;
        proof {
            lemma_insert_at(s, route.priority, 0);
        }
        while i < self.routes.len() && self.routes[i].priority >= route.priority
            invariant
                s == self.view(),
                0 <= i <= self.routes@.len(),
                insert_at(s, route.priority, 0) == insert_at(s, route.priority, i as int),
            decreases self.routes@.len() - i,
        {
            i = i + 1;
        }
        proof {
            lemma_insert_at(s, route.priority, i as int);
        }
        self.routes.insert(i, route);
        proof {
            assert(self.view() =~= s.insert(i as int, rv));
            let t = self.view();
            assert forall|a: int, b: int| 0 <= a < b < t.len() implies (#[trigger] t[a]).3 >= (#[trigger] t[b]).3 by {
                if a < i && b < i {
                    assert(t[a] == s[a] && t[b] == s[b]);
                } else if a < i && b == i {
                    assert(t[a] == s[a]);
                } else if a < i {
                    assert(t[a] == s[a] && t[b] == s[b - 1]);
                } else if a == i {
                    assert(t[b] == s[b - 1]);
                } else {
                    assert(t[a] == s[a - 1] && t[b] == s[b - 1]);
                }
            }
        }
    }

    /// Removes every route of a function.
    pub fn remove_function(&mut self, function_id: &str)
        requires
            old(self).wf(),
        ensures
            final(self).wf(),
            final(self).view() == old(self).view().filter(|r: RouteView| r.2 != function_id@),
    {
        let ghost keep = |x: RouteView| x.2 != function_id@;
        let ghost s = self.view();
        let mut kept: Vec<Route> = Vec::new();
        let mut i: usize = 0;
        proof {
            reveal(Seq::filter);
        }
        assert(s.subrange(0, 0).filter(keep) =~= Seq::<RouteView>::empty());
        while i < self.routes.len()
            invariant
                s == self.view(),
                by_priority(s),
                0 <= i <= self.routes@.len(),
                keep == (|x: RouteView| x.2 != function_id@),
                routes_view(kept@) == s.subrange(0, i as int).filter(keep),
                by_priority(routes_view(kept@)),
                kept@.len() > 0 ==> forall|j: int|
                    i <= j < s.len() ==> routes_view(kept@).last().3 >= #[trigger] s[j].3,
            decreases self.routes@.len() - i,
        {
            let ghost before = routes_view(kept@);
            proof {
                reveal(Seq::filter);
            }
            assert(s.subrange(0, i + 1).drop_last() =~= s.subrange(0, i as int));
            assert(route_view(self.routes@[i as int]) == s[i as int]);
            if !text_eq(self.routes[i].function_id.as_str(), function_id) {
                kept.push(self.routes[i].duplicate());
                assert(routes_view(kept@) =~= before.push(s[i as int]));
                proof {
                    let t = routes_view(kept@);
                    assert forall|a: int, b: int| 0 <= a < b < t.len() implies (#[trigger] t[a]).3 >= (#[trigger] t[b]).3 by {
                        if b < t.len() - 1 {
                            assert(t[a] == before[a] && t[b] == before[b]);
                        } else {
                            assert(t[b] == s[i as int]);
                            if a < t.len() - 1 {
                                assert(t[a] == before[a]);
                                assert(before.last().3 >= s[i as int].3);
                                assert(before[a].3 >= before.last().3 || a == before.len() - 1);
                            }
                        }
                    }
                }
            }
            i = i + 1;
        }
        assert(s.subrange(0, s.len() as int) =~= s);
        self.routes = kept;
    }

    /// The first route, in priority order, that takes the request.
    pub fn find(&self, path: &str, method: &str) -> (r: Option<Route>)
        ensures
            match r {
                Some(x) => exists|i: int|
                    0 <= i < self.view().len() && view_matches(self.view()[i], path@, method@)
                        && route_view(x) == self.view()[i] && forall|j: int|
                        0 <= j < i ==> !view_matches(#[trigger] self.view()[j], path@, method@),
                None => forall|j: int|
                    0 <= j < self.view().len() ==> !view_matches(#[trigger] self.view()[j], path@, method@),
            },
    {
        let mut i: usize = 0;
        while i < self.routes.len()
            invariant
                0 <= i <= self.routes@.len(),
                forall|j: int| 0 <= j < i ==> !view_matches(#[trigger] self.view()[j], path@, method@),
            decreases self.routes@.len() - i,
        {
            if self.routes[i].matches(path, method) {
                let x = self.routes[i].duplicate();
                assert(route_view(x) == self.view()[i as int]);
                return Some(x);
            }
            assert(route_view(self.routes@[i as int]) == self.view()[i as int]);
            i = i + 1;
        }
        None
    }

    /// Every route, in priority order.
    pub fn list(&self) -> (r: Vec<Route>)
        ensures
            routes_view(r@) == self.view(),
    {
        let mut out: Vec<Route> = Vec::new();
        let mut i: usize = 0;
        while i < self.routes.len()
            invariant
                0 <= i <= self.routes@.len(),
                routes_view(out@) == self.view().subrange(0, i as int),
            decreases self.routes@.len() - i,
        {
            let ghost before = routes_view(out@);
            out.push(self.routes[i].duplicate());
            assert(routes_view(out@) =~= before.push(route_view(self.routes@[i as int])));
            assert(self.view().subrange(0, i + 1) =~= self.view().subrange(0, i as int).push(self.view()[i as int]));
            i = i + 1;
        }
        assert(self.view().subrange(0, self.routes@.len() as int) =~= self.view());
        out
    }

    /// The routes of one function, in priority order.
    pub fn for_function(&self, function_id: &str) -> (r: Vec<Route>)
        ensures
            routes_view(r@) == self.view().filter(|x: RouteView| x.2 == function_id@),
    {
        let ghost pick = |x: RouteView| x.2 == function_id@;
        let mut out: Vec<Route> = Vec::new();
        let mut i: usize = 0;
        proof {
            reveal(Seq::filter);
        }
        assert(self.view().subrange(0, 0).filter(pick) =~= Seq::<RouteView>::empty());
        while i < self.routes.len()
            invariant
                0 <= i <= self.routes@.len(),
                pick == (|x: RouteView| x.2 == function_id@),
                routes_view(out@) == self.view().subrange(0, i as int).filter(pick),
            decreases self.routes@.len() - i,
        {
            let ghost before = routes_view(out@);
            proof {
                reveal(Seq::filter);
            }
            assert(self.view().subrange(0, i + 1).drop_last() =~= self.view().subrange(0, i as int));
            if text_eq(self.routes[i].function_id.as_str(), function_id) {
                out.push(self.routes[i].duplicate());
                assert(routes_view(out@) =~= before.push(route_view(self.routes@[i as int])));
            }
            i = i + 1;
        }
        assert(self.view().subrange(0, self.routes@.len() as int) =~= self.view());
        out
    }
}

} // verus!
