//! Fetch-style request and response values handed to in-host functions.
use crate::strmap::StrMap;
use crate::text::{lossy_text, lossy_string, text_eq, utf8_bytes};
use vstd::prelude::*;
use vstd::utf8::*;

verus! {

broadcast use encode_utf8_valid_utf8, encode_utf8_decode_utf8;

/// HTTP method.
#[derive(Debug, Clone, Copy, PartialEq, Eq, Structural)]
pub enum Method {
    Get,
    Post,
    Put,
    Delete,
    Patch,
    Head,
    Options,
}

pub open spec fn method_name(m: Method) -> Seq<char> {
    match m {
        Method::Get => seq!['G', 'E', 'T'],
        Method::Post => seq!['P', 'O', 'S', 'T'],
        Method::Put => seq!['P', 'U', 'T'],
        Method::Delete => seq!['D', 'E', 'L', 'E', 'T', 'E'],
        Method::Patch => seq!['P', 'A', 'T', 'C', 'H'],
        Method::Head => seq!['H', 'E', 'A', 'D'],
        Method::Options => seq!['O', 'P', 'T', 'I', 'O', 'N', 'S'],
    }
}

/// The method named exactly `s` (upper case), and `Get` for any other name.
pub open spec fn method_of(s: Seq<char>) -> Method {
    if s == method_name(Method::Post) {
        Method::Post
    } else if s == method_name(Method::Put) {
        Method::Put
    } else if s == method_name(Method::Delete) {
        Method::Delete
    } else if s == method_name(Method::Patch) {
        Method::Patch
    } else if s == method_name(Method::Head) {
        Method::Head
    } else if s == method_name(Method::Options) {
        Method::Options
    } else {
        Method::Get
    }
}

impl Method {
    /// The method's name in upper case.
    pub fn as_str(&self) -> (r: &'static str)
        ensures
            r@ == method_name(*self),
    {
        match self {
            Method::Get => {
                proof {
                    reveal_strlit("GET");
                }
                "GET"
            },
            Method::Post => {
                proof {
                    reveal_strlit("POST");
                }
                "POST"
            },
            Method::Put => {
                proof {
                    reveal_strlit("PUT");
                }
                "PUT"
            },
            Method::Delete => {
                proof {
                    reveal_strlit("DELETE");
                }
                "DELETE"
            },
            Method::Patch => {
                proof {
                    reveal_strlit("PATCH");
                }
                "PATCH"
            },
            Method::Head => {
                proof {
                    reveal_strlit("HEAD");
                }
                "HEAD"
            },
            Method::Options => {
                proof {
                    reveal_strlit("OPTIONS");
                }
                "OPTIONS"
            },
        }
    }

    /// The method with this exact name; an unknown name reads as `Get`.
    pub fn parse(s: &str) -> (m: Method)
        ensures
            m == method_of(s@),
    {
        if text_eq(s, Method::Post.as_str()) {
            Method::Post
        } else if text_eq(s, Method::Put.as_str()) {
            Method::Put
        } else if text_eq(s, Method::Delete.as_str()) {
            Method::Delete
        } else if text_eq(s, Method::Patch.as_str()) {
            Method::Patch
        } else if text_eq(s, Method::Head.as_str()) {
            Method::Head
        } else if text_eq(s, Method::Options.as_str()) {
            Method::Options
        } else {
            Method::Get
        }
    }
}

impl Default for Method {
    fn default() -> (m: Method)
        ensures
            m == Method::Get,
    {
        Method::Get
    }
}

/// HTTP status code.
#[derive(Debug, Clone, Copy, PartialEq, Eq, Structural)]
pub struct StatusCode(pub u16);

impl StatusCode {
    pub fn ok() -> (s: StatusCode)
        ensures
            s.0 == 200,
    {
        StatusCode(200)
    }

    pub fn created() -> (s: StatusCode)
        ensures
            s.0 == 201,
    {
        StatusCode(201)
    }

    pub fn no_content() -> (s: StatusCode)
        ensures
            s.0 == 204,
    {
        StatusCode(204)
    }

    pub fn bad_request() -> (s: StatusCode)
        ensures
            s.0 == 400,
    {
        StatusCode(400)
    }

    pub fn unauthorized() -> (s: StatusCode)
        ensures
            s.0 == 401,
    {
        StatusCode(401)
    }

    pub fn forbidden() -> (s: StatusCode)
        ensures
            s.0 == 403,
    {
        StatusCode(403)
    }

    pub fn not_found() -> (s: StatusCode)
        ensures
            s.0 == 404,
    {
        StatusCode(404)
    }

    pub fn internal_server_error() -> (s: StatusCode)
        ensures
            s.0 == 500,
    {
        StatusCode(500)
    }

    pub fn bad_gateway() -> (s: StatusCode)
        ensures
            s.0 == 502,
    {
        StatusCode(502)
    }

    pub fn service_unavailable() -> (s: StatusCode)
        ensures
            s.0 == 503,
    {
        StatusCode(503)
    }

    /// 2xx.
    pub fn is_success(&self) -> (r: bool)
        ensures
            r == (200 <= self.0 < 300),
    {
        200 <= self.0 && self.0 < 300
    }

    /// 4xx.
    pub fn is_client_error(&self) -> (r: bool)
        ensures
            r == (400 <= self.0 < 500),
    {
        400 <= self.0 && self.0 < 500
    }

    /// 5xx.
    pub fn is_server_error(&self) -> (r: bool)
        ensures
            r == (500 <= self.0 < 600),
    {
        500 <= self.0 && self.0 < 600
    }
}

impl Default for StatusCode {
    fn default() -> (s: StatusCode)
        ensures
            s.0 == 200,
    {
        StatusCode(200)
    }
}

impl From<u16> for StatusCode {
    fn from(code: u16) -> (s: StatusCode) {
        StatusCode(code)
    }
}

impl vstd::std_specs::convert::FromSpecImpl<u16> for StatusCode {
    open spec fn obeys_from_spec() -> bool {
        true
    }

    open spec fn from_spec(code: u16) -> StatusCode {
        StatusCode(code)
    }
}

/// The text of an optional body, repaired where it is not UTF-8.
pub open spec fn body_text(b: Option<Vec<u8>>) -> Option<Seq<char>> {
    match b {
        Some(v) => Some(lossy_text(v@)),
        None => None,
    }
}

pub open spec fn text_map(m: Map<Seq<char>, String>) -> Map<Seq<char>, Seq<char>> {
    m.map_values(|s: String| s@)
}

/// Fetch-style request.
#[derive(Debug)]
pub struct FezzRequest {
    pub method: Method,
    pub url: String,
    pub headers: StrMap<String>,
    pub body: Option<Vec<u8>>,
}

impl FezzRequest {
    pub open spec fn wf(&self) -> bool {
        self.headers.wf()
    }

    pub fn new(method: Method, url: &str) -> (r: FezzRequest)
        ensures
            r.wf(),
            r.method == method,
            r.url@ == url@,
            r.headers.view() == Map::<Seq<char>, String>::empty(),
            r.body is None,
    {
        FezzRequest { method, url: url.to_owned(), headers: StrMap::new(), body: None }
    }

    /// Sets a header, replacing any earlier value under the same name.
    pub fn header(self, key: &str, value: &str) -> (r: FezzRequest)
        requires
            self.wf(),
        ensures
            r.wf(),
            r.method == self.method,
            r.url == self.url,
            text_map(r.headers.view()) == text_map(self.headers.view()).insert(key@, value@),
            r.body == self.body,
    {
        let mut s = self;
        let ghost before = s.headers.view();
        let v = value.to_owned();
        s.headers.insert(key.to_owned(), v);
        proof {
            assert(text_map(s.headers.view()) =~= text_map(before).insert(key@, value@));
        }
        s
    }

    pub fn body(self, body: Vec<u8>) -> (r: FezzRequest)
        ensures
            r.method == self.method,
            r.url == self.url,
            r.headers == self.headers,
            r.body == Some(body),
    {
        let mut s = self;
        s.body = Some(body);
        s
    }

    pub fn get_header(&self, key: &str) -> (r: Option<&String>)
        requires
            self.wf(),
        ensures
            r is Some <==> self.headers.view().contains_key(key@),
            r matches Some(v) ==> *v == self.headers.view()[key@],
    {
        self.headers.get(key)
    }

    /// The body as text, if there is a body.
    pub fn text(&self) -> (r: Option<String>)
        ensures
            match r {
                Some(s) => body_text(self.body) == Some(s@),
                None => self.body is None,
            },
    {
        match &self.body {
            Some(b) => Some(lossy_string(b.as_slice())),
            None => None,
        }
    }
}

impl Default for FezzRequest {
    fn default() -> (r: FezzRequest)
        ensures
            r.wf(),
            r.method == Method::Get,
            r.url@ == seq!['/'],
            r.headers.view() == Map::<Seq<char>, String>::empty(),
            r.body is None,
    {
        proof {
            reveal_strlit("/");
        }
        FezzRequest::new(Method::Get, "/")
    }
}

/// Fetch-style response.
#[derive(Debug)]
pub struct FezzResponse {
    pub status: StatusCode,
    pub headers: StrMap<String>,
    pub body: Option<Vec<u8>>,
}

impl FezzResponse {
    pub open spec fn wf(&self) -> bool {
        self.headers.wf()
    }

    pub fn new(status: StatusCode) -> (r: FezzResponse)
        ensures
            r.wf(),
            r.status == status,
            r.headers.view() == Map::<Seq<char>, String>::empty(),
            r.body is None,
    {
        FezzResponse { status, headers: StrMap::new(), body: None }
    }

    pub fn ok() -> (r: FezzResponse)
        ensures
            r.wf(),
            r.status == StatusCode(200),
            r.headers.view() == Map::<Seq<char>, String>::empty(),
            r.body is None,
    {
        FezzResponse::new(StatusCode(200))
    }

    /// A 200 response whose body is `content`, typed as plain text.
    pub fn text(content: &str) -> (r: FezzResponse)
        ensures
            r.wf(),
            r.status == StatusCode(200),
            text_map(r.headers.view()) == map![content_type_name() => text_plain()],
            (r.body matches Some(b) && b@ == encode_utf8(content@)),
    {
        FezzResponse::error(StatusCode(200), content)
    }

    /// A response with the given status whose body is `message`, typed as plain text.
    pub fn error(status: StatusCode, message: &str) -> (r: FezzResponse)
        ensures
            r.wf(),
            r.status == status,
            text_map(r.headers.view()) == map![content_type_name() => text_plain()],
            (r.body matches Some(b) && b@ == encode_utf8(message@)),
    {
        proof {
            reveal_strlit("Content-Type");
            reveal_strlit("text/plain");
        }
        let r0 = FezzResponse::new(status);
        assert(text_map(r0.headers.view()) =~= Map::<Seq<char>, Seq<char>>::empty());
        let ct = "Content-Type";
        let tp = "text/plain";
        assert(ct@ =~= content_type_name());
        assert(tp@ =~= text_plain());
        let r = r0.header(ct, tp).body(utf8_bytes(message));
        assert(text_map(r.headers.view()) =~= map![content_type_name() => text_plain()]);
        r
    }

    /// Sets a header, replacing any earlier value under the same name.
    pub fn header(self, key: &str, value: &str) -> (r: FezzResponse)
        requires
            self.wf(),
        ensures
            r.wf(),
            r.status == self.status,
            text_map(r.headers.view()) == text_map(self.headers.view()).insert(key@, value@),
            r.body == self.body,
    {
        let mut s = self;
        let ghost before = s.headers.view();
        s.headers.insert(key.to_owned(), value.to_owned());
        proof {
            assert(text_map(s.headers.view()) =~= text_map(before).insert(key@, value@));
        }
        s
    }

    pub fn body(self, body: Vec<u8>) -> (r: FezzResponse)
        ensures
            r.status == self.status,
            r.headers == self.headers,
            r.body == Some(body),
    {
        let mut s = self;
        s.body = Some(body);
        s
    }

    /// The body as text, if there is a body.
    pub fn text_body(&self) -> (r: Option<String>)
        ensures
            match r {
                Some(s) => body_text(self.body) == Some(s@),
                None => self.body is None,
            },
            (self.body matches Some(b) && valid_utf8(b@)) ==> (r matches Some(s) && encode_utf8(s@)
                == self.body.unwrap()@),
    {
        match &self.body {
            Some(b) => {
                let s = lossy_string(b.as_slice());
                proof {
                    if valid_utf8(b@) {
                        vstd::utf8::decode_utf8_encode_utf8(b@);
                    }
                }
                Some(s)
            },
            None => None,
        }
    }
}

pub open spec fn content_type_name() -> Seq<char> {
    seq!['C', 'o', 'n', 't', 'e', 'n', 't', '-', 'T', 'y', 'p', 'e']
}

pub open spec fn text_plain() -> Seq<char> {
    seq!['t', 'e', 'x', 't', '/', 'p', 'l', 'a', 'i', 'n']
}

impl Default for FezzResponse {
    fn default() -> (r: FezzResponse)
        ensures
            r.wf(),
            r.status == StatusCode(200),
            r.headers.view() == Map::<Seq<char>, String>::empty(),
            r.body is None,
    {
        FezzResponse::ok()
    }
}

} // verus!
