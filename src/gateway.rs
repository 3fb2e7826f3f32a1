//! The rules of the HTTP gateway: which function a URL names, what the
//! plugin sees of the request, and how results become HTTP statuses.
use crate::text::{concat3, hex, hex_string};
use crate::wire::{WireHeader, WireMeta, WireRequest};
use vstd::prelude::*;
use vstd::string::*;

verus! {

/// Default cap on a request body: 10 MiB.
pub const DEFAULT_MAX_BODY_SIZE: usize = 10485760;

/// Default deadline of a plugin call, in milliseconds.
pub const DEFAULT_DEADLINE_MS: u64 = 30000;

/// Default idle time after which a cached library is evicted, in milliseconds.
pub const DEFAULT_IDLE_TTL_MS: u64 = 300000;

/// Default interval between cache cleanups, in milliseconds.
pub const DEFAULT_CLEANUP_INTERVAL_MS: u64 = 60000;

/// The first index at or after `from` that holds `c`, or the length.
pub open spec fn index_of(s: Seq<char>, c: char, from: int) -> int
    decreases s.len() - from,
{
    if from >= s.len() {
        s.len() as int
    } else if s[from] == c {
        from
    } else {
        index_of(s, c, from + 1)
    }
}

proof fn lemma_index_of_bounds(s: Seq<char>, c: char, from: int)
    requires
        0 <= from <= s.len(),
    ensures
        from <= index_of(s, c, from) <= s.len(),
        index_of(s, c, from) < s.len() ==> s[index_of(s, c, from)] == c,
    decreases s.len() - from,
{
    if from < s.len() && s[from] != c {
        lemma_index_of_bounds(s, c, from + 1);
    }
}

pub fn find_char(s: &str, c: char, from: usize) -> (r: usize)
    requires
        from <= s@.len(),
    ensures
        r == index_of(s@, c, from as int),
        from <= r <= s@.len(),
{
    let n = s.unicode_len();
    let mut i = from;
    proof {
        lemma_index_of_bounds(s@, c, from as int);
    }
    while i < n
        invariant
            n == s@.len(),
            from <= i <= n,
            index_of(s@, c, from as int) == index_of(s@, c, i as int),
        decreases n - i,
    {
        if s.get_char(i) == c {
            return i;
        }
        i = i + 1;
    }
    i
}

pub open spec fn rpc_prefix() -> Seq<char> {
    seq!['/', 'r', 'p', 'c', '/']
}

/// The path and query the plugin sees: the tail of the URL path, `/` when
/// the tail is empty, then `?` and the query when there is one.
pub open spec fn inner_path(tail: Seq<char>, query: Option<Seq<char>>) -> Seq<char> {
    let p = if tail.len() == 0 {
        seq!['/']
    } else {
        tail
    };
    match query {
        Some(q) => p + seq!['?'] + q,
        None => p,
    }
}

/// A function named by a multi-tenant URL, and the request path it is to see.
#[derive(Debug)]
pub struct TenantRoute {
    pub org: String,
    pub func: String,
    pub version: String,
    pub path_and_query: String,
}

/// A function named by a single-tenant URL, and the request path it is to see.
#[derive(Debug)]
pub struct IdRoute {
    pub id: String,
    pub path_and_query: String,
}

/// `/rpc/{org}/{func}/{version}{/tail}`: three non-empty segments after
/// `/rpc/`, then the rest of the path.
pub open spec fn tenant_route_of(p: Seq<char>, query: Option<Seq<char>>) -> Option<
    (Seq<char>, Seq<char>, Seq<char>, Seq<char>),
> {
    if p.len() < 5 || p.subrange(0, 5) != rpc_prefix() {
        None
    } else {
        let i1 = index_of(p, '/', 5);
        let i2 = index_of(p, '/', i1 + 1);
        let i3 = index_of(p, '/', i2 + 1);
        if i1 == 5 || i1 >= p.len() || i2 == i1 + 1 || i2 >= p.len() || i3 == i2 + 1 {
            None
        } else {
            Some(
                (
                    p.subrange(5, i1),
                    p.subrange(i1 + 1, i2),
                    p.subrange(i2 + 1, i3),
                    inner_path(p.subrange(i3, p.len() as int), query),
                ),
            )
        }
    }
}

/// `/rpc/{id}{/tail}`: one non-empty segment after `/rpc/`, then the rest.
pub open spec fn id_route_of(p: Seq<char>, query: Option<Seq<char>>) -> Option<
    (Seq<char>, Seq<char>),
> {
    if p.len() < 5 || p.subrange(0, 5) != rpc_prefix() {
        None
    } else {
        let i1 = index_of(p, '/', 5);
        if i1 == 5 {
            None
        } else {
            Some((p.subrange(5, i1), inner_path(p.subrange(i1, p.len() as int), query)))
        }
    }
}

fn has_rpc_prefix(path: &str) -> (r: bool)
    ensures
        r == (path@.len() >= 5 && path@.subrange(0, 5) == rpc_prefix()),
{
    let n = path.unicode_len();
    if n < 5 {
        return false;
    }
    let r = path.get_char(0) == '/' && path.get_char(1) == 'r' && path.get_char(2) == 'p'
        && path.get_char(3) == 'c' && path.get_char(4) == '/';
    proof {
        if r {
            assert(path@.subrange(0, 5) =~= rpc_prefix());
        } else {
            if path@.subrange(0, 5) == rpc_prefix() {
                assert(path@.subrange(0, 5)[0] == path@[0]);
                assert(path@.subrange(0, 5)[1] == path@[1]);
                assert(path@.subrange(0, 5)[2] == path@[2]);
                assert(path@.subrange(0, 5)[3] == path@[3]);
                assert(path@.subrange(0, 5)[4] == path@[4]);
            }
        }
    }
    r
}

fn inner_path_string(tail: &str, query: Option<&str>) -> (r: String)
    ensures
        r@ == inner_path(tail@, match query {
            Some(q) => Some(q@),
            None => None,
        }),
{
    proof {
        reveal_strlit("/");
        reveal_strlit("?");
    }
    let p: String = if tail.unicode_len() == 0 {
        "/".to_owned()
    } else {
        tail.to_owned()
    };
    match query {
        Some(q) => concat3(p.as_str(), "?", q),
        None => p,
    }
}

pub open spec fn opt_view(q: Option<&str>) -> Option<Seq<char>> {
    match q {
        Some(s) => Some(s@),
        None => None,
    }
}

/// Reads a multi-tenant URL. `path` is the URL path, `query` the query
/// string without its `?`.
pub fn route_tenant(path: &str, query: Option<&str>) -> (r: Option<TenantRoute>)
    ensures
        match r {
            Some(t) => tenant_route_of(path@, opt_view(query)) == Some(
                (t.org@, t.func@, t.version@, t.path_and_query@),
            ),
            None => tenant_route_of(path@, opt_view(query)) is None,
        },
{
    if !has_rpc_prefix(path) {
        return None;
    }
    let n = path.unicode_len();
    let i1 = find_char(path, '/', 5);
    if i1 == 5 || i1 >= n {
        return None;
    }
    let i2 = find_char(path, '/', i1 + 1);
    if i2 == i1 + 1 || i2 >= n {
        return None;
    }
    let i3 = find_char(path, '/', i2 + 1);
    if i3 == i2 + 1 {
        return None;
    }
    Some(
        TenantRoute {
            org: path.substring_char(5, i1).to_owned(),
            func: path.substring_char(i1 + 1, i2).to_owned(),
            version: path.substring_char(i2 + 1, i3).to_owned(),
            path_and_query: inner_path_string(path.substring_char(i3, n), query),
        },
    )
}

/// Reads a single-tenant URL. `path` is the URL path, `query` the query
/// string without its `?`.
pub fn route_id(path: &str, query: Option<&str>) -> (r: Option<IdRoute>)
    ensures
        match r {
            Some(t) => id_route_of(path@, opt_view(query)) == Some((t.id@, t.path_and_query@)),
            None => id_route_of(path@, opt_view(query)) is None,
        },
{
    if !has_rpc_prefix(path) {
        return None;
    }
    let n = path.unicode_len();
    let i1 = find_char(path, '/', 5);
    if i1 == 5 {
        return None;
    }
    Some(
        IdRoute {
            id: path.substring_char(5, i1).to_owned(),
            path_and_query: inner_path_string(path.substring_char(i1, n), query),
        },
    )
}

/// The key under which a function's library is cached: id, colon, entry file.
pub fn cache_key(id: &str, entry: &str) -> (r: String)
    ensures
        r@ == id@ + seq![':'] + entry@,
{
    proof {
        reveal_strlit(":");
    }
    concat3(id, ":", entry)
}

/// Where a single-tenant function's library lies: `{root}/functions/{id}/{entry}`.
pub fn library_path(root: &str, id: &str, entry: &str) -> (r: String)
    ensures
        r@ == root@ + "/functions/"@ + id@ + seq!['/'] + entry@,
{
    proof {
        reveal_strlit("/");
    }
    let a = concat3(root, "/functions/", id);
    concat3(a.as_str(), "/", entry)
}

/// The directory of a multi-tenant function version:
/// `{root}/functions/{org}/{func}/{version}`.
pub fn tenant_dir(root: &str, org: &str, func: &str, version: &str) -> (r: String)
    ensures
        r@ == root@ + "/functions/"@ + org@ + seq!['/'] + func@ + seq!['/'] + version@,
{
    proof {
        reveal_strlit("/");
    }
    let a = concat3(root, "/functions/", org);
    let b = concat3(a.as_str(), "/", func);
    concat3(b.as_str(), "/", version)
}

/// The status written back to the client: the plugin's own when it is a
/// valid HTTP status (100 to 999), else 500.
pub open spec fn effective_status_of(code: u16) -> u16 {
    if 100 <= code <= 999 {
        code
    } else {
        500
    }
}

pub fn effective_status(code: u16) -> (r: u16)
    ensures
        r == effective_status_of(code),
{
    if 100 <= code && code <= 999 {
        code
    } else {
        500
    }
}

/// Why the gateway answered without a plugin response.
#[derive(Debug, Clone, Copy, PartialEq, Eq, Structural)]
pub enum ErrorKind {
    BadRequest,
    NotFound,
    PayloadTooLarge,
    Timeout,
    PluginMissing,
    SymbolMissing,
    DecodeFailed,
    NullReturn,
    Joined,
}

pub open spec fn kind_status(k: ErrorKind) -> u16 {
    match k {
        ErrorKind::BadRequest => 400,
        ErrorKind::NotFound => 404,
        ErrorKind::PayloadTooLarge => 413,
        ErrorKind::Timeout => 504,
        _ => 500,
    }
}

impl ErrorKind {
    /// The HTTP status this kind of failure is answered with.
    pub fn status(&self) -> (r: u16)
        ensures
            r == kind_status(*self),
    {
        match self {
            ErrorKind::BadRequest => 400,
            ErrorKind::NotFound => 404,
            ErrorKind::PayloadTooLarge => 413,
            ErrorKind::Timeout => 504,
            _ => 500,
        }
    }
}

/// A header as the gateway received it.
#[derive(Debug)]
pub struct IncomingHeader {
    pub name: Vec<u8>,
    pub value: Vec<u8>,
}

/// Builds the request a plugin sees. A body over `max_body_size` is refused
/// before anything else is done; headers pass through in order.
pub fn build_wire_request(
    method: &str,
    scheme: Option<String>,
    authority: Option<String>,
    path_and_query: String,
    headers: Vec<IncomingHeader>,
    body: Vec<u8>,
    max_body_size: usize,
    meta: Option<WireMeta>,
) -> (r: Result<WireRequest, ErrorKind>)
    ensures
        body@.len() > max_body_size ==> r == Err::<WireRequest, ErrorKind>(ErrorKind::PayloadTooLarge),
        body@.len() <= max_body_size ==> (r matches Ok(w) && w.method@ == method@ && w.scheme
            == scheme && w.authority == authority && w.path_and_query == path_and_query
            && w.body == body && w.meta == meta && w.headers@.len() == headers@.len() && forall|
            i: int,
        |
            0 <= i < headers@.len() ==> (#[trigger] w.headers@[i]).name == headers@[i].name
                && w.headers@[i].value == headers@[i].value),
{
    if body.len() > max_body_size {
        return Err(ErrorKind::PayloadTooLarge);
    }
    let mut out: Vec<WireHeader> = Vec::new();
    let mut hs = headers;
    let ghost orig = hs@;
    let mut rev: Vec<IncomingHeader> = Vec::new();
    while hs.len() > 0
        invariant
            rev@.len() + hs@.len() == orig.len(),
            hs@ == orig.subrange(0, hs@.len() as int),
            forall|i: int| 0 <= i < rev@.len() ==> #[trigger] rev@[i] == orig[orig.len() - 1 - i],
        decreases hs@.len(),
    {
        let h = hs.pop().unwrap();
        rev.push(h);
    }
    while rev.len() > 0
        invariant
            out@.len() + rev@.len() == orig.len(),
            forall|i: int| 0 <= i < rev@.len() ==> #[trigger] rev@[i] == orig[orig.len() - 1 - i],
            forall|i: int|
                0 <= i < out@.len() ==> (#[trigger] out@[i]).name == orig[i].name && out@[i].value
                    == orig[i].value,
        decreases rev@.len(),
    {
        let h = rev.pop().unwrap();
        out.push(WireHeader { name: h.name, value: h.value });
    }
    Ok(
        WireRequest {
            method: method.to_owned(),
            scheme,
            authority,
            path_and_query,
            headers: out,
            body,
            meta,
        },
    )
}

/// The deadline of a call: the request's own, else the default.
pub fn deadline_ms(req: &WireRequest) -> (r: u64)
    ensures
        r == match req.meta {
            Some(m) => match m.deadline_ms {
                Some(d) => d,
                None => DEFAULT_DEADLINE_MS,
            },
            None => DEFAULT_DEADLINE_MS,
        },
{
    match &req.meta {
        Some(m) => match m.deadline_ms {
            Some(d) => d,
            None => DEFAULT_DEADLINE_MS,
        },
        None => DEFAULT_DEADLINE_MS,
    }
}

/// A request id: the time in nanoseconds, in lower-case hexadecimal.
pub fn request_id_from(nanos: u128) -> (r: String)
    ensures
        r@ == hex(nanos as nat),
{
    hex_string(nanos)
}

/// Relies on `SystemTime::now`: nothing is promised of the value.
#[verifier::external_body]
pub(crate) fn unix_nanos() -> u128 {
    match std::time::SystemTime::now().duration_since(std::time::UNIX_EPOCH) {
        Ok(d) => d.as_nanos(),
        Err(_) => 0,
    }
}

/// A fresh request id from the clock.
pub fn generate_request_id() -> (r: String)
    ensures
        exists|n: nat| r@ == hex(n),
{
    let n = unix_nanos();
    request_id_from(n)
}

/// Which endpoint a path of the in-host server names.
#[derive(Debug)]
pub enum ServerRoute {
    Health,
    Metrics,
    /// No function name in the path.
    NoFunction,
    /// The function named by the first segment, and the rest of the path.
    Function { name: String, sub_path: String },
}

/// The path with every leading `/` removed.
pub open spec fn strip_slashes(p: Seq<char>, from: int) -> int
    decreases p.len() - from,
{
    if from >= p.len() || p[from] != '/' {
        from
    } else {
        strip_slashes(p, from + 1)
    }
}

pub open spec fn health_path() -> Seq<char> {
    seq!['/', '_', 'h', 'e', 'a', 'l', 't', 'h']
}

pub open spec fn metrics_path() -> Seq<char> {
    seq!['/', '_', 'm', 'e', 't', 'r', 'i', 'c', 's']
}

/// The function segment of a path and the sub-path it sees.
pub open spec fn function_route_of(p: Seq<char>) -> Option<(Seq<char>, Seq<char>)> {
    let s = strip_slashes(p, 0);
    let e = index_of(p, '/', s);
    if e == s {
        None
    } else if e >= p.len() {
        Some((p.subrange(s, e), seq!['/']))
    } else {
        Some((p.subrange(s, e), p.subrange(e, p.len() as int)))
    }
}

proof fn lemma_strip_bounds(p: Seq<char>, from: int)
    requires
        0 <= from <= p.len(),
    ensures
        from <= strip_slashes(p, from) <= p.len(),
    decreases p.len() - from,
{
    if from < p.len() && p[from] == '/' {
        lemma_strip_bounds(p, from + 1);
    }
}

/// Routes a request path of the in-host server: the health and metrics
/// endpoints when enabled, else the function named by the first segment.
pub fn route_request(path: &str, enable_health: bool, enable_metrics: bool) -> (r: ServerRoute)
    ensures
        enable_health && path@ == health_path() ==> r is Health,
        !(enable_health && path@ == health_path()) && enable_metrics && path@ == metrics_path()
            ==> r is Metrics,
        !(enable_health && path@ == health_path()) && !(enable_metrics && path@ == metrics_path())
            ==> match r {
            ServerRoute::Function { name, sub_path } => function_route_of(path@) == Some(
                (name@, sub_path@),
            ),
            ServerRoute::NoFunction => function_route_of(path@) is None,
            _ => false,
        },
{
    proof {
        reveal_strlit("/_health");
        reveal_strlit("/_metrics");
        reveal_strlit("/");
    }
    if enable_health && crate::text::text_eq(path, "/_health") {
        assert(path@ =~= health_path());
        return ServerRoute::Health;
    }
    assert("/_health"@ =~= health_path());
    if enable_metrics && crate::text::text_eq(path, "/_metrics") {
        assert(path@ =~= metrics_path());
        return ServerRoute::Metrics;
    }
    assert("/_metrics"@ =~= metrics_path());
    let n = path.unicode_len();
    let mut s: usize = 0;
    proof {
        lemma_strip_bounds(path@, 0);
    }
    while s < n && path.get_char(s) == '/'
        invariant
            n == path@.len(),
            0 <= s <= n,
            strip_slashes(path@, 0) == strip_slashes(path@, s as int),
        decreases n - s,
    {
        s = s + 1;
    }
    let e = find_char(path, '/', s);
    if e == s {
        return ServerRoute::NoFunction;
    }
    let name = path.substring_char(s, e).to_owned();
    let sub_path = if e >= n {
        "/".to_owned()
    } else {
        path.substring_char(e, n).to_owned()
    };
    ServerRoute::Function { name, sub_path }
}

} // verus!
