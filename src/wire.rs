//! The request and response values that cross the host/plugin boundary, and
//! their binary encoding.
//!
//! Every message is a sequence of frames (see `frame`). Each field sits in a
//! frame of its own tag; decoders skip frames whose tag they do not know, and
//! a later frame for a field replaces an earlier one.
use crate::frame::{all_fit, copy_range, lemma_parse_frames_bytes, fits_frame, frame, frames_bytes, frames_view, parse_frames, push_frame, split_frames, Frame};
use vstd::bytes::*;
use vstd::prelude::*;
use vstd::slice::*;
use vstd::utf8::*;

verus! {

broadcast use encode_utf8_valid_utf8, encode_utf8_decode_utf8;

/// One header: name and value as raw bytes, neither canonicalised.
#[derive(Debug)]
pub struct WireHeader {
    pub name: Vec<u8>,
    pub value: Vec<u8>,
}

impl View for WireHeader {
    type V = (Seq<u8>, Seq<u8>);

    open spec fn view(&self) -> (Seq<u8>, Seq<u8>) {
        (self.name@, self.value@)
    }
}

/// Optional request metadata.
#[derive(Debug)]
pub struct WireMeta {
    pub trace_id: Option<String>,
    pub deadline_ms: Option<u64>,
    pub client_ip: Option<String>,
}

/// The value a `WireMeta` stands for.
pub struct MetaView {
    pub trace_id: Option<Seq<char>>,
    pub deadline_ms: Option<u64>,
    pub client_ip: Option<Seq<char>>,
}

/// The request handed to a plugin.
#[derive(Debug)]
pub struct WireRequest {
    pub method: String,
    pub scheme: Option<String>,
    pub authority: Option<String>,
    pub path_and_query: String,
    pub headers: Vec<WireHeader>,
    pub body: Vec<u8>,
    pub meta: Option<WireMeta>,
}

/// The value a `WireRequest` stands for.
pub struct RequestView {
    pub method: Seq<char>,
    pub scheme: Option<Seq<char>>,
    pub authority: Option<Seq<char>>,
    pub path_and_query: Seq<char>,
    pub headers: Seq<(Seq<u8>, Seq<u8>)>,
    pub body: Seq<u8>,
    pub meta: Option<MetaView>,
}

/// The response a plugin hands back.
#[derive(Debug)]
pub struct WireResponse {
    pub status: u16,
    pub headers: Vec<WireHeader>,
    pub body: Vec<u8>,
}

/// The value a `WireResponse` stands for.
pub struct ResponseView {
    pub status: u16,
    pub headers: Seq<(Seq<u8>, Seq<u8>)>,
    pub body: Seq<u8>,
}

/// The bytes were not a well-formed encoding.
#[derive(Debug, Clone, Copy, PartialEq, Eq, Structural)]
pub struct DecodeError;

pub open spec fn opt_str_view(o: Option<String>) -> Option<Seq<char>> {
    match o {
        Some(s) => Some(s@),
        None => None,
    }
}

pub open spec fn headers_view(hs: Seq<WireHeader>) -> Seq<(Seq<u8>, Seq<u8>)> {
    hs.map_values(|h: WireHeader| h@)
}

impl View for WireMeta {
    type V = MetaView;

    open spec fn view(&self) -> MetaView {
        MetaView {
            trace_id: opt_str_view(self.trace_id),
            deadline_ms: self.deadline_ms,
            client_ip: opt_str_view(self.client_ip),
        }
    }
}

pub open spec fn opt_meta_view(o: Option<WireMeta>) -> Option<MetaView> {
    match o {
        Some(m) => Some(m@),
        None => None,
    }
}

impl View for WireRequest {
    type V = RequestView;

    open spec fn view(&self) -> RequestView {
        RequestView {
            method: self.method@,
            scheme: opt_str_view(self.scheme),
            authority: opt_str_view(self.authority),
            path_and_query: self.path_and_query@,
            headers: headers_view(self.headers@),
            body: self.body@,
            meta: opt_meta_view(self.meta),
        }
    }
}

impl View for WireResponse {
    type V = ResponseView;

    open spec fn view(&self) -> ResponseView {
        ResponseView { status: self.status, headers: headers_view(self.headers@), body: self.body@ }
    }
}

// ---------------------------------------------------------------------------
// Payload encodings
// ---------------------------------------------------------------------------

pub open spec fn le8(n: nat) -> Seq<u8> {
    spec_u64_to_le_bytes(n as u64)
}

/// An optional text: a marker byte, then the UTF-8 bytes when present.
pub open spec fn opt_text_bytes(o: Option<Seq<char>>) -> Seq<u8> {
    match o {
        Some(s) => seq![1u8] + encode_utf8(s),
        None => seq![0u8],
    }
}

/// An optional integer: a marker byte, then eight little-endian bytes when present.
pub open spec fn opt_u64_bytes(o: Option<u64>) -> Seq<u8> {
    match o {
        Some(x) => seq![1u8] + spec_u64_to_le_bytes(x),
        None => seq![0u8],
    }
}

/// A header: the name's length, the name, then the value up to the end.
pub open spec fn pair_bytes(h: (Seq<u8>, Seq<u8>)) -> Seq<u8> {
    le8(h.0.len()) + h.0 + h.1
}

pub open spec fn header_frame(h: (Seq<u8>, Seq<u8>)) -> (u8, Seq<u8>) {
    (1u8, pair_bytes(h))
}

pub open spec fn header_frames(hs: Seq<(Seq<u8>, Seq<u8>)>) -> Seq<(u8, Seq<u8>)> {
    hs.map_values(|h: (Seq<u8>, Seq<u8>)| header_frame(h))
}

pub open spec fn headers_bytes(hs: Seq<(Seq<u8>, Seq<u8>)>) -> Seq<u8> {
    frames_bytes(header_frames(hs))
}

pub open spec fn meta_frames(m: MetaView) -> Seq<(u8, Seq<u8>)> {
    seq![
        (1u8, opt_text_bytes(m.trace_id)),
        (2u8, opt_u64_bytes(m.deadline_ms)),
        (3u8, opt_text_bytes(m.client_ip)),
    ]
}

pub open spec fn opt_meta_bytes(o: Option<MetaView>) -> Seq<u8> {
    match o {
        Some(m) => seq![1u8] + frames_bytes(meta_frames(m)),
        None => seq![0u8],
    }
}

pub open spec fn request_frames(r: RequestView) -> Seq<(u8, Seq<u8>)> {
    seq![
        (1u8, encode_utf8(r.method)),
        (2u8, opt_text_bytes(r.scheme)),
        (3u8, opt_text_bytes(r.authority)),
        (4u8, encode_utf8(r.path_and_query)),
        (5u8, headers_bytes(r.headers)),
        (6u8, r.body),
        (7u8, opt_meta_bytes(r.meta)),
    ]
}

pub open spec fn response_frames(s: ResponseView) -> Seq<(u8, Seq<u8>)> {
    seq![(1u8, spec_u16_to_le_bytes(s.status)), (2u8, headers_bytes(s.headers)), (3u8, s.body)]
}

/// The encoding of a request.
pub open spec fn request_bytes(r: RequestView) -> Seq<u8> {
    frames_bytes(request_frames(r))
}

/// The encoding of a response.
pub open spec fn response_bytes(s: ResponseView) -> Seq<u8> {
    frames_bytes(response_frames(s))
}

/// A request whose every frame fits the eight-byte length prefix.
pub open spec fn request_valid(r: RequestView) -> bool {
    &&& all_fit(request_frames(r))
    &&& all_fit(header_frames(r.headers))
    &&& (r.meta matches Some(m) ==> all_fit(meta_frames(m)))
}

/// A response whose every frame fits the eight-byte length prefix.
pub open spec fn response_valid(s: ResponseView) -> bool {
    &&& all_fit(response_frames(s))
    &&& all_fit(header_frames(s.headers))
}

// ---------------------------------------------------------------------------
// Payload decodings
// ---------------------------------------------------------------------------

pub open spec fn text_of(p: Seq<u8>) -> Option<Seq<char>> {
    if valid_utf8(p) {
        Some(decode_utf8(p))
    } else {
        None
    }
}

pub open spec fn opt_text_of(p: Seq<u8>) -> Option<Option<Seq<char>>> {
    if p.len() == 1 && p[0] == 0 {
        Some(None)
    } else if p.len() >= 1 && p[0] == 1 {
        match text_of(p.drop_first()) {
            Some(s) => Some(Some(s)),
            None => None,
        }
    } else {
        None
    }
}

pub open spec fn opt_u64_of(p: Seq<u8>) -> Option<Option<u64>> {
    if p.len() == 1 && p[0] == 0 {
        Some(None)
    } else if p.len() == 9 && p[0] == 1 {
        Some(Some(spec_u64_from_le_bytes(p.drop_first())))
    } else {
        None
    }
}

pub open spec fn pair_of(p: Seq<u8>) -> Option<(Seq<u8>, Seq<u8>)> {
    if p.len() < 8 {
        None
    } else {
        let n = spec_u64_from_le_bytes(p.subrange(0, 8)) as int;
        if n > p.len() - 8 {
            None
        } else {
            Some((p.subrange(8, 8 + n), p.subrange(8 + n, p.len() as int)))
        }
    }
}

/// Reads headers from frame `i` on; frames of other tags are skipped.
pub open spec fn pairs_from(fs: Seq<(u8, Seq<u8>)>, i: int, acc: Seq<(Seq<u8>, Seq<u8>)>) -> Option<
    Seq<(Seq<u8>, Seq<u8>)>,
>
    decreases fs.len() - i,
{
    if i < 0 || i >= fs.len() {
        Some(acc)
    } else if fs[i].0 == 1 {
        match pair_of(fs[i].1) {
            Some(h) => pairs_from(fs, i + 1, acc.push(h)),
            None => None,
        }
    } else {
        pairs_from(fs, i + 1, acc)
    }
}

pub open spec fn headers_of(p: Seq<u8>) -> Option<Seq<(Seq<u8>, Seq<u8>)>> {
    match parse_frames(p) {
        Some(fs) => pairs_from(fs, 0, Seq::empty()),
        None => None,
    }
}

pub open spec fn no_meta() -> MetaView {
    MetaView { trace_id: None, deadline_ms: None, client_ip: None }
}

pub open spec fn meta_step(m: MetaView, f: (u8, Seq<u8>)) -> Option<MetaView> {
    if f.0 == 1 {
        match opt_text_of(f.1) {
            Some(t) => Some(MetaView { trace_id: t, ..m }),
            None => None,
        }
    } else if f.0 == 2 {
        match opt_u64_of(f.1) {
            Some(d) => Some(MetaView { deadline_ms: d, ..m }),
            None => None,
        }
    } else if f.0 == 3 {
        match opt_text_of(f.1) {
            Some(c) => Some(MetaView { client_ip: c, ..m }),
            None => None,
        }
    } else {
        Some(m)
    }
}

pub open spec fn meta_from(fs: Seq<(u8, Seq<u8>)>, i: int, acc: MetaView) -> Option<MetaView>
    decreases fs.len() - i,
{
    if i < 0 || i >= fs.len() {
        Some(acc)
    } else {
        match meta_step(acc, fs[i]) {
            Some(a) => meta_from(fs, i + 1, a),
            None => None,
        }
    }
}

pub open spec fn opt_meta_of(p: Seq<u8>) -> Option<Option<MetaView>> {
    if p.len() == 1 && p[0] == 0 {
        Some(None)
    } else if p.len() >= 1 && p[0] == 1 {
        match parse_frames(p.drop_first()) {
            Some(fs) => match meta_from(fs, 0, no_meta()) {
                Some(m) => Some(Some(m)),
                None => None,
            },
            None => None,
        }
    } else {
        None
    }
}

/// The fields of a request read so far; the required ones may still be missing.
pub struct RequestSlots {
    pub method: Option<Seq<char>>,
    pub scheme: Option<Seq<char>>,
    pub authority: Option<Seq<char>>,
    pub path_and_query: Option<Seq<char>>,
    pub headers: Option<Seq<(Seq<u8>, Seq<u8>)>>,
    pub body: Option<Seq<u8>>,
    pub meta: Option<MetaView>,
}

pub open spec fn no_request_slots() -> RequestSlots {
    RequestSlots {
        method: None,
        scheme: None,
        authority: None,
        path_and_query: None,
        headers: None,
        body: None,
        meta: None,
    }
}

pub open spec fn request_step(s: RequestSlots, f: (u8, Seq<u8>)) -> Option<RequestSlots> {
    let (t, p) = f;
    if t == 1 {
        match text_of(p) {
            Some(x) => Some(RequestSlots { method: Some(x), ..s }),
            None => None,
        }
    } else if t == 2 {
        match opt_text_of(p) {
            Some(x) => Some(RequestSlots { scheme: x, ..s }),
            None => None,
        }
    } else if t == 3 {
        match opt_text_of(p) {
            Some(x) => Some(RequestSlots { authority: x, ..s }),
            None => None,
        }
    } else if t == 4 {
        match text_of(p) {
            Some(x) => Some(RequestSlots { path_and_query: Some(x), ..s }),
            None => None,
        }
    } else if t == 5 {
        match headers_of(p) {
            Some(x) => Some(RequestSlots { headers: Some(x), ..s }),
            None => None,
        }
    } else if t == 6 {
        Some(RequestSlots { body: Some(p), ..s })
    } else if t == 7 {
        match opt_meta_of(p) {
            Some(x) => Some(RequestSlots { meta: x, ..s }),
            None => None,
        }
    } else {
        Some(s)
    }
}

pub open spec fn request_from(fs: Seq<(u8, Seq<u8>)>, i: int, acc: RequestSlots) -> Option<
    RequestSlots,
>
    decreases fs.len() - i,
{
    if i < 0 || i >= fs.len() {
        Some(acc)
    } else {
        match request_step(acc, fs[i]) {
            Some(a) => request_from(fs, i + 1, a),
            None => None,
        }
    }
}

pub open spec fn request_of_slots(s: RequestSlots) -> Option<RequestView> {
    if s.method is Some && s.path_and_query is Some && s.headers is Some && s.body is Some {
        Some(
            RequestView {
                method: s.method.unwrap(),
                scheme: s.scheme,
                authority: s.authority,
                path_and_query: s.path_and_query.unwrap(),
                headers: s.headers.unwrap(),
                body: s.body.unwrap(),
                meta: s.meta,
            },
        )
    } else {
        None
    }
}

/// What a request decoder makes of the bytes; `None` when they are malformed.
pub open spec fn request_of(b: Seq<u8>) -> Option<RequestView> {
    match parse_frames(b) {
        Some(fs) => match request_from(fs, 0, no_request_slots()) {
            Some(s) => request_of_slots(s),
            None => None,
        },
        None => None,
    }
}

/// The fields of a response read so far.
pub struct ResponseSlots {
    pub status: Option<u16>,
    pub headers: Option<Seq<(Seq<u8>, Seq<u8>)>>,
    pub body: Option<Seq<u8>>,
}

pub open spec fn response_step(s: ResponseSlots, f: (u8, Seq<u8>)) -> Option<ResponseSlots> {
    let (t, p) = f;
    if t == 1 {
        if p.len() == 2 {
            Some(ResponseSlots { status: Some(spec_u16_from_le_bytes(p)), ..s })
        } else {
            None
        }
    } else if t == 2 {
        match headers_of(p) {
            Some(x) => Some(ResponseSlots { headers: Some(x), ..s }),
            None => None,
        }
    } else if t == 3 {
        Some(ResponseSlots { body: Some(p), ..s })
    } else {
        Some(s)
    }
}

pub open spec fn response_from(fs: Seq<(u8, Seq<u8>)>, i: int, acc: ResponseSlots) -> Option<
    ResponseSlots,
>
    decreases fs.len() - i,
{
    if i < 0 || i >= fs.len() {
        Some(acc)
    } else {
        match response_step(acc, fs[i]) {
            Some(a) => response_from(fs, i + 1, a),
            None => None,
        }
    }
}

pub open spec fn response_of_slots(s: ResponseSlots) -> Option<ResponseView> {
    if s.status is Some && s.headers is Some && s.body is Some {
        Some(
            ResponseView {
                status: s.status.unwrap(),
                headers: s.headers.unwrap(),
                body: s.body.unwrap(),
            },
        )
    } else {
        None
    }
}

/// What a response decoder makes of the bytes; `None` when they are malformed.
pub open spec fn response_of(b: Seq<u8>) -> Option<ResponseView> {
    match parse_frames(b) {
        Some(fs) => match response_from(
            fs,
            0,
            ResponseSlots { status: None, headers: None, body: None },
        ) {
            Some(s) => response_of_slots(s),
            None => None,
        },
        None => None,
    }
}

// ---------------------------------------------------------------------------
// Round trips
// ---------------------------------------------------------------------------

proof fn lemma_text_round(s: Seq<char>)
    ensures
        text_of(encode_utf8(s)) == Some(s),
{
}

proof fn lemma_opt_text_round(o: Option<Seq<char>>)
    ensures
        opt_text_of(opt_text_bytes(o)) == Some(o),
{
    if let Some(s) = o {
        assert((seq![1u8] + encode_utf8(s)).drop_first() =~= encode_utf8(s));
    }
}

proof fn lemma_opt_u64_round(o: Option<u64>)
    ensures
        opt_u64_of(opt_u64_bytes(o)) == Some(o),
{
    lemma_auto_spec_u64_to_from_le_bytes();
    if let Some(x) = o {
        assert((seq![1u8] + spec_u64_to_le_bytes(x)).drop_first() =~= spec_u64_to_le_bytes(x));
    }
}

proof fn lemma_pair_round(h: (Seq<u8>, Seq<u8>))
    requires
        fits_frame(pair_bytes(h)),
    ensures
        pair_of(pair_bytes(h)) == Some(h),
{
    lemma_auto_spec_u64_to_from_le_bytes();
    let p = pair_bytes(h);
    let n = h.0.len();
    assert(le8(n).len() == 8);
    assert(p.subrange(0, 8) =~= le8(n));
    assert(spec_u64_from_le_bytes(p.subrange(0, 8)) == n as u64);
    assert(p.subrange(8, 8 + n as int) =~= h.0);
    assert(p.subrange(8 + n as int, p.len() as int) =~= h.1);
}

proof fn lemma_pairs_from(hs: Seq<(Seq<u8>, Seq<u8>)>, i: int)
    requires
        all_fit(header_frames(hs)),
        0 <= i <= hs.len(),
    ensures
        pairs_from(header_frames(hs), i, hs.take(i)) == Some(hs),
    decreases hs.len() - i,
{
    let fs = header_frames(hs);
    if i == hs.len() {
        assert(hs.take(i) =~= hs);
    } else {
        assert(fs[i] == header_frame(hs[i]));
        assert(fits_frame(fs[i].1));
        lemma_pair_round(hs[i]);
        assert(hs.take(i).push(hs[i]) =~= hs.take(i + 1));
        lemma_pairs_from(hs, i + 1);
    }
}

proof fn lemma_headers_round(hs: Seq<(Seq<u8>, Seq<u8>)>)
    requires
        all_fit(header_frames(hs)),
    ensures
        headers_of(headers_bytes(hs)) == Some(hs),
{
    lemma_parse_frames_bytes(header_frames(hs));
    lemma_pairs_from(hs, 0);
    assert(hs.take(0) =~= Seq::<(Seq<u8>, Seq<u8>)>::empty());
}

proof fn lemma_opt_meta_round(o: Option<MetaView>)
    requires
        o matches Some(m) ==> all_fit(meta_frames(m)),
    ensures
        opt_meta_of(opt_meta_bytes(o)) == Some(o),
{
    if let Some(m) = o {
        let fs = meta_frames(m);
        lemma_parse_frames_bytes(fs);
        assert((seq![1u8] + frames_bytes(fs)).drop_first() =~= frames_bytes(fs));
        lemma_opt_text_round(m.trace_id);
        lemma_opt_u64_round(m.deadline_ms);
        lemma_opt_text_round(m.client_ip);
        let a1 = MetaView { trace_id: m.trace_id, ..no_meta() };
        let a2 = MetaView { deadline_ms: m.deadline_ms, ..a1 };
        let a3 = MetaView { client_ip: m.client_ip, ..a2 };
        assert(meta_from(fs, 3, a3) == Some(a3));
        assert(meta_from(fs, 2, a2) == Some(a3));
        assert(meta_from(fs, 1, a1) == Some(a3));
        assert(meta_from(fs, 0, no_meta()) == Some(a3));
        assert(a3 == m);
    }
}

/// Decoding the encoding of a well-sized request gives back that request.
pub proof fn lemma_request_round_trip(r: RequestView)
    requires
        request_valid(r),
    ensures
        request_of(request_bytes(r)) == Some(r),
{
    let fs = request_frames(r);
    lemma_parse_frames_bytes(fs);
    lemma_text_round(r.method);
    lemma_opt_text_round(r.scheme);
    lemma_opt_text_round(r.authority);
    lemma_text_round(r.path_and_query);
    lemma_headers_round(r.headers);
    lemma_opt_meta_round(r.meta);
    let a0 = no_request_slots();
    let a1 = RequestSlots { method: Some(r.method), ..a0 };
    let a2 = RequestSlots { scheme: r.scheme, ..a1 };
    let a3 = RequestSlots { authority: r.authority, ..a2 };
    let a4 = RequestSlots { path_and_query: Some(r.path_and_query), ..a3 };
    let a5 = RequestSlots { headers: Some(r.headers), ..a4 };
    let a6 = RequestSlots { body: Some(r.body), ..a5 };
    let a7 = RequestSlots { meta: r.meta, ..a6 };
    assert(request_from(fs, 7, a7) == Some(a7));
    assert(request_from(fs, 6, a6) == Some(a7));
    assert(request_from(fs, 5, a5) == Some(a7));
    assert(request_from(fs, 4, a4) == Some(a7));
    assert(request_from(fs, 3, a3) == Some(a7));
    assert(request_from(fs, 2, a2) == Some(a7));
    assert(request_from(fs, 1, a1) == Some(a7));
    assert(request_from(fs, 0, a0) == Some(a7));
    assert(request_of_slots(a7) == Some(r));
}

/// Decoding the encoding of a well-sized response gives back that response.
pub proof fn lemma_response_round_trip(s: ResponseView)
    requires
        response_valid(s),
    ensures
        response_of(response_bytes(s)) == Some(s),
{
    let fs = response_frames(s);
    lemma_parse_frames_bytes(fs);
    lemma_auto_spec_u16_to_from_le_bytes();
    lemma_headers_round(s.headers);
    let a0 = ResponseSlots { status: None, headers: None, body: None };
    let a1 = ResponseSlots { status: Some(s.status), ..a0 };
    let a2 = ResponseSlots { headers: Some(s.headers), ..a1 };
    let a3 = ResponseSlots { body: Some(s.body), ..a2 };
    assert(spec_u16_to_le_bytes(s.status).len() == 2);
    assert(response_from(fs, 3, a3) == Some(a3));
    assert(response_from(fs, 2, a2) == Some(a3));
    assert(response_from(fs, 1, a1) == Some(a3));
    assert(response_from(fs, 0, a0) == Some(a3));
    assert(response_of_slots(a3) == Some(s));
}

// ---------------------------------------------------------------------------
// Encoding
// ---------------------------------------------------------------------------

proof fn lemma_frames_bytes_push(fs: Seq<(u8, Seq<u8>)>, f: (u8, Seq<u8>))
    ensures
        frames_bytes(fs.push(f)) == frames_bytes(fs) + frame(f.0, f.1),
    decreases fs.len(),
{
    if fs.len() == 0 {
        assert(fs.push(f).drop_first() =~= Seq::<(u8, Seq<u8>)>::empty());
        assert(fs.push(f)[0] == f);
        assert(frames_bytes(Seq::<(u8, Seq<u8>)>::empty()) == Seq::<u8>::empty());
        assert(frames_bytes(fs) == Seq::<u8>::empty());
        assert(frames_bytes(fs.push(f)) =~= frame(f.0, f.1) + Seq::<u8>::empty());
    } else {
        assert(fs.push(f).drop_first() =~= fs.drop_first().push(f));
        lemma_frames_bytes_push(fs.drop_first(), f);
        assert(frames_bytes(fs.push(f)) =~= frames_bytes(fs) + frame(f.0, f.1));
    }
}

fn append_bytes(out: &mut Vec<u8>, b: &[u8])
    ensures
        final(out)@ == old(out)@ + b@,
{
    let ghost start = out@;
    let mut j: usize = 0;
    while j < b.len()
        invariant
            0 <= j <= b@.len(),
            out@ == start + b@.subrange(0, j as int),
        decreases b@.len() - j,
    {
        out.push(b[j]);
        assert(b@.subrange(0, j + 1) =~= b@.subrange(0, j as int).push(b@[j as int]));
        j = j + 1;
    }
    assert(b@.subrange(0, b@.len() as int) =~= b@);
}

fn text_payload(s: &String) -> (r: &[u8])
    ensures
        r@ == encode_utf8(s@),
{
    s.as_str().as_bytes()
}

fn opt_text_payload(o: &Option<String>) -> (r: Vec<u8>)
    ensures
        r@ == opt_text_bytes(opt_str_view(*o)),
{
    let mut out: Vec<u8> = Vec::new();
    match o {
        Some(s) => {
            out.push(1u8);
            append_bytes(&mut out, text_payload(s));
            assert(out@ =~= opt_text_bytes(opt_str_view(*o)));
        },
        None => {
            out.push(0u8);
            assert(out@ =~= opt_text_bytes(opt_str_view(*o)));
        },
    }
    out
}

fn opt_u64_payload(o: Option<u64>) -> (r: Vec<u8>)
    ensures
        r@ == opt_u64_bytes(o),
{
    let mut out: Vec<u8> = Vec::new();
    match o {
        Some(x) => {
            out.push(1u8);
            let b = u64_to_le_bytes(x);
            append_bytes(&mut out, b.as_slice());
            assert(out@ =~= opt_u64_bytes(o));
        },
        None => {
            out.push(0u8);
            assert(out@ =~= opt_u64_bytes(o));
        },
    }
    out
}

fn pair_payload(h: &WireHeader) -> (r: Vec<u8>)
    ensures
        r@ == pair_bytes(h@),
{
    let mut out = u64_to_le_bytes(h.name.len() as u64);
    append_bytes(&mut out, h.name.as_slice());
    append_bytes(&mut out, h.value.as_slice());
    out
}

fn headers_payload(hs: &Vec<WireHeader>) -> (r: Vec<u8>)
    ensures
        r@ == headers_bytes(headers_view(hs@)),
{
    let ghost hv = headers_view(hs@);
    let mut out: Vec<u8> = Vec::new();
    let mut i: usize = 0;
    assert(header_frames(hv).take(0) =~= Seq::<(u8, Seq<u8>)>::empty());
    while i < hs.len()
        invariant
            hv == headers_view(hs@),
            0 <= i <= hs@.len(),
            out@ == frames_bytes(header_frames(hv).take(i as int)),
        decreases hs@.len() - i,
    {
        let p = pair_payload(&hs[i]);
        push_frame(&mut out, 1u8, p.as_slice());
        proof {
            let fs = header_frames(hv);
            assert(fs.take(i + 1) =~= fs.take(i as int).push(fs[i as int]));
            lemma_frames_bytes_push(fs.take(i as int), fs[i as int]);
        }
        i = i + 1;
    }
    assert(header_frames(hv).take(hs@.len() as int) =~= header_frames(hv));
    out
}

fn meta_payload(o: &Option<WireMeta>) -> (r: Vec<u8>)
    ensures
        r@ == opt_meta_bytes(opt_meta_view(*o)),
{
    let mut out: Vec<u8> = Vec::new();
    match o {
        Some(m) => {
            out.push(1u8);
            let ghost fs = meta_frames(m@);
            let ghost start = out@;
            let p1 = opt_text_payload(&m.trace_id);
            push_frame(&mut out, 1u8, p1.as_slice());
            let p2 = opt_u64_payload(m.deadline_ms);
            push_frame(&mut out, 2u8, p2.as_slice());
            let p3 = opt_text_payload(&m.client_ip);
            push_frame(&mut out, 3u8, p3.as_slice());
            proof {
                lemma_frames_bytes_push(fs.take(0), fs[0]);
                lemma_frames_bytes_push(fs.take(1), fs[1]);
                lemma_frames_bytes_push(fs.take(2), fs[2]);
                assert(fs.take(0).push(fs[0]) =~= fs.take(1));
                assert(fs.take(1).push(fs[1]) =~= fs.take(2));
                assert(fs.take(2).push(fs[2]) =~= fs);
                assert(frames_bytes(fs.take(0)) =~= Seq::<u8>::empty());
            }
            assert(out@ =~= opt_meta_bytes(opt_meta_view(*o)));
        },
        None => {
            out.push(0u8);
            assert(out@ =~= opt_meta_bytes(opt_meta_view(*o)));
        },
    }
    out
}

/// Encodes a request.
pub fn encode_request(r: &WireRequest) -> (b: Vec<u8>)
    ensures
        b@ == request_bytes(r@),
{
    let ghost fs = request_frames(r@);
    let mut out: Vec<u8> = Vec::new();
    push_frame(&mut out, 1u8, text_payload(&r.method));
    let p2 = opt_text_payload(&r.scheme);
    push_frame(&mut out, 2u8, p2.as_slice());
    let p3 = opt_text_payload(&r.authority);
    push_frame(&mut out, 3u8, p3.as_slice());
    push_frame(&mut out, 4u8, text_payload(&r.path_and_query));
    let p5 = headers_payload(&r.headers);
    push_frame(&mut out, 5u8, p5.as_slice());
    push_frame(&mut out, 6u8, r.body.as_slice());
    let p7 = meta_payload(&r.meta);
    push_frame(&mut out, 7u8, p7.as_slice());
    proof {
        lemma_frames_bytes_push(fs.take(0), fs[0]);
        assert(fs.take(0).push(fs[0]) =~= fs.take(1));
        lemma_frames_bytes_push(fs.take(1), fs[1]);
        assert(fs.take(1).push(fs[1]) =~= fs.take(2));
        lemma_frames_bytes_push(fs.take(2), fs[2]);
        assert(fs.take(2).push(fs[2]) =~= fs.take(3));
        lemma_frames_bytes_push(fs.take(3), fs[3]);
        assert(fs.take(3).push(fs[3]) =~= fs.take(4));
        lemma_frames_bytes_push(fs.take(4), fs[4]);
        assert(fs.take(4).push(fs[4]) =~= fs.take(5));
        lemma_frames_bytes_push(fs.take(5), fs[5]);
        assert(fs.take(5).push(fs[5]) =~= fs.take(6));
        lemma_frames_bytes_push(fs.take(6), fs[6]);
        assert(fs.take(6).push(fs[6]) =~= fs.take(7));
        assert(frames_bytes(fs.take(0)) =~= Seq::<u8>::empty());
        assert(fs.take(7) =~= fs);
        assert(out@ =~= frames_bytes(fs.take(0)) + frame(fs[0].0, fs[0].1) + frame(fs[1].0, fs[1].1)
            + frame(fs[2].0, fs[2].1) + frame(fs[3].0, fs[3].1) + frame(fs[4].0, fs[4].1) + frame(
            fs[5].0,
            fs[5].1,
        ) + frame(fs[6].0, fs[6].1));
    }
    out
}

/// Encodes a response.
pub fn encode_response(s: &WireResponse) -> (b: Vec<u8>)
    ensures
        b@ == response_bytes(s@),
{
    let ghost fs = response_frames(s@);
    let mut out: Vec<u8> = Vec::new();
    let p1 = u16_to_le_bytes(s.status);
    push_frame(&mut out, 1u8, p1.as_slice());
    let p2 = headers_payload(&s.headers);
    push_frame(&mut out, 2u8, p2.as_slice());
    push_frame(&mut out, 3u8, s.body.as_slice());
    proof {
        lemma_frames_bytes_push(fs.take(0), fs[0]);
        lemma_frames_bytes_push(fs.take(1), fs[1]);
        lemma_frames_bytes_push(fs.take(2), fs[2]);
        assert(fs.take(0).push(fs[0]) =~= fs.take(1));
        assert(fs.take(1).push(fs[1]) =~= fs.take(2));
        assert(fs.take(2).push(fs[2]) =~= fs);
        assert(frames_bytes(fs.take(0)) =~= Seq::<u8>::empty());
        assert(out@ =~= frames_bytes(fs));
    }
    out
}

// ---------------------------------------------------------------------------
// Decoding
// ---------------------------------------------------------------------------

/// Relies on `String::from_utf8`: it accepts a byte vector exactly when the
/// bytes are valid UTF-8, and the string it returns holds those same bytes.
#[verifier::external_body]
fn string_from_utf8(b: Vec<u8>) -> (r: Option<String>)
    ensures
        r is Some <==> valid_utf8(b@),
        r matches Some(s) ==> encode_utf8(s@) == b@,
{
    String::from_utf8(b).ok()
}

fn text_from(p: &[u8]) -> (r: Option<String>)
    ensures
        opt_str_view(r) == text_of(p@),
{
    let v = slice_to_vec(p);
    string_from_utf8(v)
}

fn opt_text_from(p: &[u8]) -> (r: Option<Option<String>>)
    ensures
        match r {
            Some(x) => opt_text_of(p@) == Some(opt_str_view(x)),
            None => opt_text_of(p@) is None,
        },
{
    if p.len() == 1 && p[0] == 0 {
        Some(None)
    } else if p.len() >= 1 && p[0] == 1 {
        let rest = slice_subrange(p, 1, p.len());
        assert(rest@ =~= p@.drop_first());
        match text_from(rest) {
            Some(t) => Some(Some(t)),
            None => None,
        }
    } else {
        None
    }
}

fn opt_u64_from(p: &[u8]) -> (r: Option<Option<u64>>)
    ensures
        match r {
            Some(x) => opt_u64_of(p@) == Some(x),
            None => opt_u64_of(p@) is None,
        },
{
    if p.len() == 1 && p[0] == 0 {
        Some(None)
    } else if p.len() == 9 && p[0] == 1 {
        let rest = slice_subrange(p, 1, 9);
        assert(rest@ =~= p@.drop_first());
        Some(Some(u64_from_le_bytes(rest)))
    } else {
        None
    }
}

fn pair_from(p: &[u8]) -> (r: Option<WireHeader>)
    ensures
        match r {
            Some(h) => pair_of(p@) == Some(h@),
            None => pair_of(p@) is None,
        },
{
    if p.len() < 8 {
        return None;
    }
    let n = u64_from_le_bytes(slice_subrange(p, 0, 8));
    if n > (p.len() - 8) as u64 {
        return None;
    }
    let end = 8 + n as usize;
    let name = copy_range(p, 8, end);
    let value = copy_range(p, end, p.len());
    Some(WireHeader { name, value })
}

fn headers_from(p: &[u8]) -> (r: Option<Vec<WireHeader>>)
    ensures
        match r {
            Some(hs) => headers_of(p@) == Some(headers_view(hs@)),
            None => headers_of(p@) is None,
        },
{
    let frames = match split_frames(p) {
        Some(f) => f,
        None => return None,
    };
    let ghost fv = frames_view(frames@);
    let mut out: Vec<WireHeader> = Vec::new();
    let mut i: usize = 0;
    assert(headers_view(out@) =~= Seq::<(Seq<u8>, Seq<u8>)>::empty());
    while i < frames.len()
        invariant
            fv == frames_view(frames@),
            parse_frames(p@) == Some(fv),
            0 <= i <= frames@.len(),
            headers_of(p@) == pairs_from(fv, i as int, headers_view(out@)),
        decreases frames@.len() - i,
    {
        assert(fv[i as int] == frames@[i as int]@);
        if frames[i].tag == 1 {
            match pair_from(frames[i].payload.as_slice()) {
                Some(h) => {
                    let ghost before = headers_view(out@);
                    out.push(h);
                    assert(headers_view(out@) =~= before.push(h@));
                },
                None => return None,
            }
        }
        i = i + 1;
    }
    Some(out)
}

fn meta_from_bytes(p: &[u8]) -> (r: Option<Option<WireMeta>>)
    ensures
        match r {
            Some(x) => opt_meta_of(p@) == Some(opt_meta_view(x)),
            None => opt_meta_of(p@) is None,
        },
{
    if p.len() == 1 && p[0] == 0 {
        return Some(None);
    }
    if p.len() == 0 || p[0] != 1 {
        return None;
    }
    let rest = slice_subrange(p, 1, p.len());
    assert(rest@ =~= p@.drop_first());
    let frames = match split_frames(rest) {
        Some(f) => f,
        None => return None,
    };
    let ghost fv = frames_view(frames@);
    let mut m = WireMeta { trace_id: None, deadline_ms: None, client_ip: None };
    let mut i: usize = 0;
    while i < frames.len()
        invariant
            fv == frames_view(frames@),
            parse_frames(p@.drop_first()) == Some(fv),
            0 <= i <= frames@.len(),
            meta_from(fv, 0, no_meta()) == meta_from(fv, i as int, m@),
        decreases frames@.len() - i,
    {
        assert(fv[i as int] == frames@[i as int]@);
        let f = &frames[i];
        if f.tag == 1 {
            match opt_text_from(f.payload.as_slice()) {
                Some(t) => m.trace_id = t,
                None => return None,
            }
        } else if f.tag == 2 {
            match opt_u64_from(f.payload.as_slice()) {
                Some(d) => m.deadline_ms = d,
                None => return None,
            }
        } else if f.tag == 3 {
            match opt_text_from(f.payload.as_slice()) {
                Some(c) => m.client_ip = c,
                None => return None,
            }
        }
        i = i + 1;
    }
    Some(Some(m))
}

/// The fields of a request read so far.
struct RequestParts {
    method: Option<String>,
    scheme: Option<String>,
    authority: Option<String>,
    path_and_query: Option<String>,
    headers: Option<Vec<WireHeader>>,
    body: Option<Vec<u8>>,
    meta: Option<WireMeta>,
}

impl View for RequestParts {
    type V = RequestSlots;

    closed spec fn view(&self) -> RequestSlots {
        RequestSlots {
            method: opt_str_view(self.method),
            scheme: opt_str_view(self.scheme),
            authority: opt_str_view(self.authority),
            path_and_query: opt_str_view(self.path_and_query),
            headers: match self.headers {
                Some(h) => Some(headers_view(h@)),
                None => None,
            },
            body: match self.body {
                Some(b) => Some(b@),
                None => None,
            },
            meta: opt_meta_view(self.meta),
        }
    }
}

fn request_step_exec(parts: &mut RequestParts, f: &Frame) -> (ok: bool)
    ensures
        ok ==> request_step(old(parts)@, f@) == Some(final(parts)@),
        !ok ==> request_step(old(parts)@, f@) is None,
{
    let p = f.payload.as_slice();
    if f.tag == 1 {
        match text_from(p) {
            Some(x) => {
                parts.method = Some(x);
                true
            },
            None => false,
        }
    } else if f.tag == 2 {
        match opt_text_from(p) {
            Some(x) => {
                parts.scheme = x;
                true
            },
            None => false,
        }
    } else if f.tag == 3 {
        match opt_text_from(p) {
            Some(x) => {
                parts.authority = x;
                true
            },
            None => false,
        }
    } else if f.tag == 4 {
        match text_from(p) {
            Some(x) => {
                parts.path_and_query = Some(x);
                true
            },
            None => false,
        }
    } else if f.tag == 5 {
        match headers_from(p) {
            Some(x) => {
                parts.headers = Some(x);
                true
            },
            None => false,
        }
    } else if f.tag == 6 {
        parts.body = Some(slice_to_vec(p));
        true
    } else if f.tag == 7 {
        match meta_from_bytes(p) {
            Some(x) => {
                parts.meta = x;
                true
            },
            None => false,
        }
    } else {
        true
    }
}

/// Decodes a request; fails exactly when the bytes are not the encoding of one.
pub fn decode_request(b: &[u8]) -> (r: Result<WireRequest, DecodeError>)
    ensures
        match r {
            Ok(x) => request_of(b@) == Some(x@),
            Err(_) => request_of(b@) is None,
        },
{
    let frames = match split_frames(b) {
        Some(f) => f,
        None => return Err(DecodeError),
    };
    let ghost fv = frames_view(frames@);
    let mut parts = RequestParts {
        method: None,
        scheme: None,
        authority: None,
        path_and_query: None,
        headers: None,
        body: None,
        meta: None,
    };
    let mut i: usize = 0;
    while i < frames.len()
        invariant
            fv == frames_view(frames@),
            parse_frames(b@) == Some(fv),
            0 <= i <= frames@.len(),
            request_from(fv, 0, no_request_slots()) == request_from(fv, i as int, parts@),
        decreases frames@.len() - i,
    {
        assert(fv[i as int] == frames@[i as int]@);
        if !request_step_exec(&mut parts, &frames[i]) {
            return Err(DecodeError);
        }
        i = i + 1;
    }
    let RequestParts { method, scheme, authority, path_and_query, headers, body, meta } = parts;
    match (method, path_and_query, headers, body) {
        (Some(method), Some(path_and_query), Some(headers), Some(body)) => Ok(
            WireRequest { method, scheme, authority, path_and_query, headers, body, meta },
        ),
        _ => Err(DecodeError),
    }
}

/// Decodes a response; fails exactly when the bytes are not the encoding of one.
pub fn decode_response(b: &[u8]) -> (r: Result<WireResponse, DecodeError>)
    ensures
        match r {
            Ok(x) => response_of(b@) == Some(x@),
            Err(_) => response_of(b@) is None,
        },
{
    let frames = match split_frames(b) {
        Some(f) => f,
        None => return Err(DecodeError),
    };
    let ghost fv = frames_view(frames@);
    let mut status: Option<u16> = None;
    let mut headers: Option<Vec<WireHeader>> = None;
    let mut body: Option<Vec<u8>> = None;
    let mut i: usize = 0;
    while i < frames.len()
        invariant
            fv == frames_view(frames@),
            parse_frames(b@) == Some(fv),
            0 <= i <= frames@.len(),
            response_from(fv, 0, ResponseSlots { status: None, headers: None, body: None })
                == response_from(
                fv,
                i as int,
                ResponseSlots {
                    status: status,
                    headers: match headers {
                        Some(h) => Some(headers_view(h@)),
                        None => None,
                    },
                    body: match body {
                        Some(x) => Some(x@),
                        None => None,
                    },
                },
            ),
        decreases frames@.len() - i,
    {
        assert(fv[i as int] == frames@[i as int]@);
        let f = &frames[i];
        let p = f.payload.as_slice();
        if f.tag == 1 {
            if p.len() != 2 {
                return Err(DecodeError);
            }
            status = Some(u16_from_le_bytes(p));
        } else if f.tag == 2 {
            match headers_from(p) {
                Some(x) => headers = Some(x),
                None => return Err(DecodeError),
            }
        } else if f.tag == 3 {
            body = Some(slice_to_vec(p));
        }
        i = i + 1;
    }
    match (status, headers, body) {
        (Some(status), Some(headers), Some(body)) => Ok(WireResponse { status, headers, body }),
        _ => Err(DecodeError),
    }
}

} // verus!
