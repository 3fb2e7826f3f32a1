use fezz::wire::{
    decode_request, decode_response, encode_request, encode_response, WireHeader, WireMeta,
    WireRequest, WireResponse,
};

fn header(n: &str, v: &[u8]) -> WireHeader {
    WireHeader { name: n.as_bytes().to_vec(), value: v.to_vec() }
}

fn sample_request(body: Vec<u8>) -> WireRequest {
    WireRequest {
        method: "POST".to_string(),
        scheme: Some("https".to_string()),
        authority: None,
        path_and_query: "/any/path?q=1".to_string(),
        headers: vec![header("x-a", b"1"), header("x-a", b"2"), header("bin", &[0, 255, 10])],
        body,
        meta: Some(WireMeta {
            trace_id: Some("t-1".to_string()),
            deadline_ms: Some(1500),
            client_ip: None,
        }),
    }
}

fn same_request(a: &WireRequest, b: &WireRequest) -> bool {
    let hs = |h: &Vec<WireHeader>| h.iter().map(|x| (x.name.clone(), x.value.clone())).collect::<Vec<_>>();
    let meta = |m: &Option<WireMeta>| {
        m.as_ref().map(|m| (m.trace_id.clone(), m.deadline_ms, m.client_ip.clone()))
    };
    a.method == b.method
        && a.scheme == b.scheme
        && a.authority == b.authority
        && a.path_and_query == b.path_and_query
        && hs(&a.headers) == hs(&b.headers)
        && a.body == b.body
        && meta(&a.meta) == meta(&b.meta)
}

#[test]
fn request_round_trips() {
    for body in [vec![], vec![7u8], vec![0u8, 0, 1, 0], vec![0xabu8; 1 << 20]] {
        let r = sample_request(body);
        let back = decode_request(&encode_request(&r)).unwrap();
        assert!(same_request(&r, &back));
    }
    let bare = WireRequest {
        method: "GET".to_string(),
        scheme: None,
        authority: Some("h\u{e9}te".to_string()),
        path_and_query: "/".to_string(),
        headers: vec![],
        body: vec![],
        meta: None,
    };
    assert!(same_request(&bare, &decode_request(&encode_request(&bare)).unwrap()));
}

#[test]
fn response_round_trips() {
    let s = WireResponse {
        status: 404,
        headers: vec![header("content-type", b"text/plain"), header("", b"")],
        body: vec![0, 1, 0xff],
    };
    let back = decode_response(&encode_response(&s)).unwrap();
    assert_eq!(back.status, 404);
    assert_eq!(back.body, vec![0, 1, 0xff]);
    assert_eq!(back.headers.len(), 2);
    assert_eq!(back.headers[0].name, b"content-type".to_vec());
    assert_eq!(back.headers[1].value, Vec::<u8>::new());
}

#[test]
fn exact_encoding_of_a_response() {
    let s = WireResponse { status: 0x0102, headers: vec![], body: vec![9] };
    let b = encode_response(&s);
    let mut want = vec![1u8, 2, 0, 0, 0, 0, 0, 0, 0, 0x02, 0x01];
    want.extend_from_slice(&[2u8, 0, 0, 0, 0, 0, 0, 0, 0]);
    want.extend_from_slice(&[3u8, 1, 0, 0, 0, 0, 0, 0, 0, 9]);
    assert_eq!(b, want);
}

#[test]
fn malformed_bytes_are_rejected() {
    assert!(decode_request(&[]).is_err());
    assert!(decode_response(&[1, 2, 3]).is_err());
    let mut b = encode_request(&sample_request(vec![1, 2, 3]));
    b.pop();
    assert!(decode_request(&b).is_err());
    let s = WireResponse { status: 200, headers: vec![], body: vec![] };
    let good = encode_response(&s);
    assert!(decode_response(&good[..good.len() - 9]).is_err());
}

#[test]
fn invalid_utf8_method_is_rejected() {
    let good = encode_request(&sample_request(vec![]));
    let first_len = 1 + 8 + 4;
    let mut bad = vec![1u8, 2, 0, 0, 0, 0, 0, 0, 0, 0xc3, 0x28];
    bad.extend_from_slice(&good[first_len..]);
    assert!(decode_request(&bad).is_err());
    let mut fine = vec![1u8, 2, 0, 0, 0, 0, 0, 0, 0, b'G', b'O'];
    fine.extend_from_slice(&good[first_len..]);
    assert_eq!(decode_request(&fine).unwrap().method, "GO");
}

#[test]
fn unknown_frames_are_skipped_and_later_frames_win() {
    let s = WireResponse { status: 200, headers: vec![], body: vec![1] };
    let mut b = vec![42u8, 2, 0, 0, 0, 0, 0, 0, 0, 7, 7];
    b.extend(encode_response(&s));
    b.extend_from_slice(&[3u8, 1, 0, 0, 0, 0, 0, 0, 0, 5]);
    let back = decode_response(&b).unwrap();
    assert_eq!(back.status, 200);
    assert_eq!(back.body, vec![5]);
}
