//! The plugin call as the host and the plugin adapter see it: what the
//! plugin's output means, and the responses that stand in for a handler that
//! failed.
use crate::gateway::ErrorKind;
use crate::text::utf8_bytes;
use crate::wire::{
    decode_request, decode_response, encode_response, response_of, ResponseView, WireHeader,
    WireRequest, WireResponse,
};
use vstd::prelude::*;
use vstd::utf8::*;

verus! {

/// How a plugin call failed on the host's side.
#[derive(Debug, Clone, Copy, PartialEq, Eq, Structural)]
pub enum InvokeError {
    PluginMissing,
    SymbolMissing,
    DecodeFailed,
    NullReturn,
    Timeout,
    Joined,
}

impl InvokeError {
    /// The gateway's error kind for this failure.
    pub fn kind(&self) -> (k: ErrorKind)
        ensures
            k == match *self {
                InvokeError::PluginMissing => ErrorKind::PluginMissing,
                InvokeError::SymbolMissing => ErrorKind::SymbolMissing,
                InvokeError::DecodeFailed => ErrorKind::DecodeFailed,
                InvokeError::NullReturn => ErrorKind::NullReturn,
                InvokeError::Timeout => ErrorKind::Timeout,
                InvokeError::Joined => ErrorKind::Joined,
            },
    {
        match self {
            InvokeError::PluginMissing => ErrorKind::PluginMissing,
            InvokeError::SymbolMissing => ErrorKind::SymbolMissing,
            InvokeError::DecodeFailed => ErrorKind::DecodeFailed,
            InvokeError::NullReturn => ErrorKind::NullReturn,
            InvokeError::Timeout => ErrorKind::Timeout,
            InvokeError::Joined => ErrorKind::Joined,
        }
    }
}

/// What the plugin's handle symbol returned, as the caller copied it out
/// before freeing the plugin's buffer.
#[derive(Debug)]
pub enum PluginOutput {
    /// A null pointer with the length that came with it.
    Null { len: usize },
    /// The bytes of the returned buffer.
    Bytes(Vec<u8>),
}

// ---------------------------------------------------------------------------
// JSON error bodies
// ---------------------------------------------------------------------------

pub open spec fn hex_digit(d: u8) -> u8 {
    if d < 10 {
        (48 + d) as u8
    } else {
        (87 + d) as u8
    }
}

/// One byte of a JSON string: quote and backslash take a backslash, control
/// bytes become `\u00XX`, the rest stand as they are.
pub open spec fn escape_byte(b: u8) -> Seq<u8> {
    if b == 34 || b == 92 {
        seq![92u8, b]
    } else if b < 32 {
        seq![92u8, 117u8, 48u8, 48u8, hex_digit(b / 16), hex_digit(b % 16)]
    } else {
        seq![b]
    }
}

pub open spec fn json_escape(s: Seq<u8>) -> Seq<u8>
    decreases s.len(),
{
    if s.len() == 0 {
        Seq::empty()
    } else {
        json_escape(s.drop_last()) + escape_byte(s.last())
    }
}

/// `{"error":"<prefix><message>"}` with the message escaped.
pub open spec fn error_json(prefix: Seq<char>, message: Seq<char>) -> Seq<u8> {
    encode_utf8("{\"error\":\""@) + encode_utf8(prefix) + json_escape(encode_utf8(message))
        + encode_utf8("\"}"@)
}

fn append(out: &mut Vec<u8>, b: &[u8])
    ensures
        final(out)@ == old(out)@ + b@,
{
    let ghost start = out@;
    let mut j: usize = 0;
    while j < b.len()
        invariant
            0 <= j <= b@.len(),
            out@ == start + b@.subrange(0, j as int),
        decreases b@.len() - j,
    {
        out.push(b[j]);
        assert(b@.subrange(0, j + 1) =~= b@.subrange(0, j as int).push(b@[j as int]));
        j = j + 1;
    }
    assert(b@.subrange(0, b@.len() as int) =~= b@);
}

fn escape_into(out: &mut Vec<u8>, s: &[u8])
    ensures
        final(out)@ == old(out)@ + json_escape(s@),
{
    let ghost start = out@;
    let mut i: usize = 0;
    assert(s@.subrange(0, 0) =~= Seq::<u8>::empty());
    while i < s.len()
        invariant
            0 <= i <= s@.len(),
            out@ == start + json_escape(s@.subrange(0, i as int)),
        decreases s@.len() - i,
    {
        let b = s[i];
        let ghost before = out@;
        if b == 34 || b == 92 {
            out.push(92u8);
            out.push(b);
        } else if b < 32 {
            out.push(92u8);
            out.push(117u8);
            out.push(48u8);
            out.push(48u8);
            let hi = b / 16;
            let lo = b % 16;
            out.push(if hi < 10 { 48 + hi } else { 87 + hi });
            out.push(if lo < 10 { 48 + lo } else { 87 + lo });
        } else {
            out.push(b);
        }
        assert(out@ =~= before + escape_byte(b));
        assert(s@.subrange(0, i + 1).drop_last() =~= s@.subrange(0, i as int));
        i = i + 1;
    }
    assert(s@.subrange(0, s@.len() as int) =~= s@);
}

/// The body `{"error":"<prefix><message>"}`, the message escaped for JSON.
pub fn error_json_body(prefix: &str, message: &str) -> (r: Vec<u8>)
    ensures
        r@ == error_json(prefix@, message@),
{
    let mut out = utf8_bytes("{\"error\":\"");
    append(&mut out, prefix.as_bytes());
    escape_into(&mut out, message.as_bytes());
    append(&mut out, "\"}".as_bytes());
    out
}

pub open spec fn json_header() -> (Seq<u8>, Seq<u8>) {
    (encode_utf8("content-type"@), encode_utf8("application/json"@))
}

/// A response with a JSON error body, typed `application/json`.
pub open spec fn json_error_response(status: u16, prefix: Seq<char>, message: Seq<char>) -> ResponseView {
    ResponseView { status, headers: seq![json_header()], body: error_json(prefix, message) }
}

fn json_error(status: u16, prefix: &str, message: &str) -> (r: WireResponse)
    ensures
        r@ == json_error_response(status, prefix@, message@),
{
    let h = WireHeader { name: utf8_bytes("content-type"), value: utf8_bytes("application/json") };
    let mut headers: Vec<WireHeader> = Vec::new();
    headers.push(h);
    let r = WireResponse { status, headers, body: error_json_body(prefix, message) };
    assert(r@.headers =~= seq![json_header()]);
    r
}

/// The response that stands in for a handler that panicked:
/// 500, `{"error":"Function panicked: <message>"}`.
pub fn panic_response(message: &str) -> (r: WireResponse)
    ensures
        r@ == json_error_response(500, "Function panicked: "@, message@),
{
    json_error(500, "Function panicked: ", message)
}

/// The response that stands in for a request that did not decode:
/// 400, `{"error":"Invalid request: <message>"}`.
pub fn invalid_request_response(message: &str) -> (r: WireResponse)
    ensures
        r@ == json_error_response(400, "Invalid request: "@, message@),
{
    json_error(400, "Invalid request: ", message)
}

/// The response that stands in for a plugin that returned no bytes:
/// 500, `{"error":"Serialization failed"}`.
pub fn serialization_failure_response() -> (r: WireResponse)
    ensures
        r@ == json_error_response(500, "Serialization failed"@, Seq::empty()),
{
    proof {
        reveal_strlit("");
    }
    assert(""@ =~= Seq::<char>::empty());
    json_error(500, "Serialization failed", "")
}

// ---------------------------------------------------------------------------
// The host's side
// ---------------------------------------------------------------------------

/// What the host makes of a plugin's output: no bytes at all stand for a
/// serialization failure inside the plugin; a null pointer with a length is
/// refused; bytes must decode as a response.
pub open spec fn output_meaning(out: PluginOutput) -> Result<ResponseView, InvokeError> {
    match out {
        PluginOutput::Null { len } => if len == 0 {
            Ok(json_error_response(500, "Serialization failed"@, Seq::empty()))
        } else {
            Err(InvokeError::NullReturn)
        },
        PluginOutput::Bytes(b) => match response_of(b@) {
            Some(v) => Ok(v),
            None => Err(InvokeError::DecodeFailed),
        },
    }
}

pub fn interpret_output(out: PluginOutput) -> (r: Result<WireResponse, InvokeError>)
    ensures
        match (r, output_meaning(out)) {
            (Ok(w), Ok(v)) => w@ == v,
            (Err(e), Err(f)) => e == f,
            _ => false,
        },
{
    match out {
        PluginOutput::Null { len } => {
            if len == 0 {
                Ok(serialization_failure_response())
            } else {
                Err(InvokeError::NullReturn)
            }
        },
        PluginOutput::Bytes(b) => match decode_response(b.as_slice()) {
            Ok(w) => Ok(w),
            Err(_) => Err(InvokeError::DecodeFailed),
        },
    }
}

// ---------------------------------------------------------------------------
// The plugin adapter's side
// ---------------------------------------------------------------------------

/// How the user's handler ended.
#[derive(Debug)]
pub enum HandlerOutcome {
    Returned(WireResponse),
    /// It unwound, with this message.
    Panicked(String),
}

/// The adapter's first step: the request for the handler, or, when the
/// bytes do not decode, the encoded 400 response to return instead (the
/// handler is then not called).
pub fn adapter_input(input: &[u8]) -> (r: Result<WireRequest, Vec<u8>>)
    ensures
        match r {
            Ok(w) => crate::wire::request_of(input@) == Some(w@),
            Err(b) => crate::wire::request_of(input@) is None && b@ == crate::wire::response_bytes(
                json_error_response(400, "Invalid request: "@, "malformed request"@),
            ),
        },
{
    match decode_request(input) {
        Ok(w) => Ok(w),
        Err(_) => Err(encode_response(&invalid_request_response("malformed request"))),
    }
}

/// The adapter's last step: the bytes handed back across the boundary. A
/// panic never crosses it: it becomes a 500 response.
pub fn adapter_output(outcome: HandlerOutcome) -> (r: Vec<u8>)
    ensures
        match outcome {
            HandlerOutcome::Returned(w) => r@ == crate::wire::response_bytes(w@),
            HandlerOutcome::Panicked(m) => r@ == crate::wire::response_bytes(
                json_error_response(500, "Function panicked: "@, m@),
            ),
        },
{
    match outcome {
        HandlerOutcome::Returned(w) => encode_response(&w),
        HandlerOutcome::Panicked(m) => encode_response(&panic_response(m.as_str())),
    }
}

/// A plugin that echoes its input: the body the host decodes from the
/// plugin's response is the request body, byte for byte.
pub proof fn lemma_echo_body_survives(
    req: crate::wire::RequestView,
    status: u16,
    headers: Seq<(Seq<u8>, Seq<u8>)>,
)
    requires
        crate::wire::request_valid(req),
        crate::wire::response_valid(ResponseView { status, headers, body: req.body }),
    ensures
        crate::wire::request_of(crate::wire::request_bytes(req)) == Some(req),
        ({
            let seen = crate::wire::request_of(crate::wire::request_bytes(req)).unwrap();
            let back = ResponseView { status, headers, body: seen.body };
            response_of(crate::wire::response_bytes(back)) matches Some(v) && v.body == req.body
        }),
{
    crate::wire::lemma_request_round_trip(req);
    crate::wire::lemma_response_round_trip(ResponseView { status, headers, body: req.body });
}

} // verus!
