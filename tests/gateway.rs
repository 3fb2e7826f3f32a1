use fezz::cache::LibraryCache;
use fezz::envfile::{parse_env, parse_env_line};
use fezz::gateway::{
    build_wire_request, cache_key, deadline_ms, effective_status, generate_request_id,
    library_path, request_id_from, route_id, route_request, route_tenant, tenant_dir, ErrorKind,
    IncomingHeader, ServerRoute, DEFAULT_MAX_BODY_SIZE,
};
use fezz::pipeline::{
    adapter_input, adapter_output, error_json_body, interpret_output, panic_response,
    HandlerOutcome, InvokeError, PluginOutput,
};
use fezz::wire::{encode_request, WireHeader, WireMeta, WireRequest, WireResponse};
use std::collections::HashMap;

fn header(n: &str, v: &str) -> WireHeader {
    WireHeader { name: n.as_bytes().to_vec(), value: v.as_bytes().to_vec() }
}

fn wire_request(method: &str, path_and_query: &str, body: Vec<u8>) -> WireRequest {
    build_wire_request(method, None, None, path_and_query.to_string(), vec![], body, DEFAULT_MAX_BODY_SIZE, None)
        .ok()
        .unwrap()
}

/// Runs one call through the whole boundary: the host encodes, the plugin
/// adapter decodes and calls `handler`, the host reads the plugin's bytes.
fn call_plugin(req: &WireRequest, handler: &mut dyn FnMut(WireRequest) -> HandlerOutcome) -> WireResponse {
    let bytes = encode_request(req);
    let out = match adapter_input(&bytes) {
        Ok(seen) => adapter_output(handler(seen)),
        Err(reply) => reply,
    };
    interpret_output(PluginOutput::Bytes(out)).ok().unwrap()
}

fn echo(req: WireRequest) -> HandlerOutcome {
    HandlerOutcome::Returned(WireResponse {
        status: 200,
        headers: vec![header("content-type", "application/octet-stream")],
        body: req.body,
    })
}

#[test]
fn echo_round_trip_through_the_gateway() {
    let route = route_tenant("/rpc/org/echo/v1/any/path", Some("q=1")).unwrap();
    assert_eq!((route.org.as_str(), route.func.as_str(), route.version.as_str()), ("org", "echo", "v1"));
    assert_eq!(route.path_and_query, "/any/path?q=1");
    let req = wire_request("POST", &route.path_and_query, vec![0x00, 0x01, 0xff]);
    let mut seen_path = String::new();
    let resp = call_plugin(&req, &mut |r: WireRequest| {
        seen_path = r.path_and_query.clone();
        echo(r)
    });
    assert_eq!(seen_path, "/any/path?q=1");
    assert_eq!(effective_status(resp.status), 200);
    assert_eq!(resp.body, vec![0x00, 0x01, 0xff]);
}

#[test]
fn echo_keeps_every_body() {
    for body in [vec![], vec![42u8], vec![0u8; 1 << 20], vec![b'a', 0, b'b', 0]] {
        let req = wire_request("POST", "/", body.clone());
        let resp = call_plugin(&req, &mut echo);
        assert_eq!(resp.body, body);
    }
}

fn kv_plugin(store: &mut HashMap<String, String>, req: WireRequest) -> HandlerOutcome {
    let reply = |status: u16, body: String| {
        HandlerOutcome::Returned(WireResponse {
            status,
            headers: vec![header("content-type", "application/json")],
            body: body.into_bytes(),
        })
    };
    if req.method == "POST" && req.path_and_query == "/set" {
        let v: serde_json::Value = serde_json::from_slice(&req.body).unwrap();
        let key = v["key"].as_str().unwrap().to_string();
        let value = v["value"].as_str().unwrap().to_string();
        store.insert(key.clone(), value.clone());
        return reply(200, format!("{{\"success\":true,\"message\":\"Key '{}' set\",\"data\":\"{}\"}}", key, value));
    }
    if req.method == "GET" && req.path_and_query.starts_with("/get") {
        let key = req.path_and_query.split("key=").nth(1).unwrap_or("");
        return match store.get(key) {
            Some(v) => reply(200, format!("{{\"success\":true,\"data\":\"{}\"}}", v)),
            None => reply(404, "{\"success\":false}".to_string()),
        };
    }
    reply(404, "{}".to_string())
}

#[test]
fn key_value_set_then_get() {
    let mut store = HashMap::new();
    let set = wire_request("POST", "/set", br#"{"key":"k","value":"v"}"#.to_vec());
    let r = call_plugin(&set, &mut |q| kv_plugin(&mut store, q));
    assert_eq!(r.status, 200);
    assert!(String::from_utf8(r.body).unwrap().starts_with("{\"success\":true"));
    let r = call_plugin(&wire_request("GET", "/get?key=k", vec![]), &mut |q| kv_plugin(&mut store, q));
    assert_eq!(r.status, 200);
    let v: serde_json::Value = serde_json::from_slice(&r.body).unwrap();
    assert_eq!(v["data"], "v");
    let r = call_plugin(&wire_request("GET", "/get?key=missing", vec![]), &mut |q| kv_plugin(&mut store, q));
    assert_eq!(r.status, 404);
}

#[test]
fn panic_is_isolated() {
    let mut handler = |r: WireRequest| {
        if r.path_and_query == "/boom" {
            HandlerOutcome::Panicked("boom".to_string())
        } else {
            HandlerOutcome::Returned(WireResponse { status: 200, headers: vec![], body: b"ok".to_vec() })
        }
    };
    let r = call_plugin(&wire_request("POST", "/boom", vec![]), &mut handler);
    assert_eq!(r.status, 500);
    assert_eq!(r.headers[0].name, b"content-type".to_vec());
    assert_eq!(r.headers[0].value, b"application/json".to_vec());
    assert_eq!(String::from_utf8(r.body).unwrap(), "{\"error\":\"Function panicked: boom\"}");
    let r = call_plugin(&wire_request("GET", "/healthy", vec![]), &mut handler);
    assert_eq!(r.status, 200);
}

#[test]
fn panic_message_is_escaped() {
    let r = panic_response("say \"hi\"\n");
    assert_eq!(
        String::from_utf8(r.body).unwrap(),
        "{\"error\":\"Function panicked: say \\\"hi\\\"\\u000a\"}"
    );
    assert_eq!(error_json_body("", "a\\b"), b"{\"error\":\"a\\\\b\"}".to_vec());
}

#[test]
fn malformed_request_gets_400_without_the_handler() {
    let reply = adapter_input(&[1, 2, 3]).err().unwrap();
    let r = interpret_output(PluginOutput::Bytes(reply)).ok().unwrap();
    assert_eq!(r.status, 400);
    assert!(String::from_utf8(r.body).unwrap().starts_with("{\"error\":\"Invalid request: "));
}

#[test]
fn null_outputs() {
    let r = interpret_output(PluginOutput::Null { len: 0 }).ok().unwrap();
    assert_eq!(r.status, 500);
    assert!(String::from_utf8(r.body).unwrap().contains("Serialization failed"));
    let e = interpret_output(PluginOutput::Null { len: 4 }).err().unwrap();
    assert_eq!(e, InvokeError::NullReturn);
    assert_eq!(e.kind().status(), 500);
    let e = interpret_output(PluginOutput::Bytes(vec![9, 9])).err().unwrap();
    assert_eq!(e, InvokeError::DecodeFailed);
    assert_eq!(InvokeError::Timeout.kind().status(), 504);
}

#[test]
fn oversize_body_is_refused_before_the_plugin() {
    let max = 16usize;
    let r = build_wire_request("POST", None, None, "/".to_string(), vec![], vec![0u8; max + 1], max, None);
    assert_eq!(r.err(), Some(ErrorKind::PayloadTooLarge));
    assert_eq!(ErrorKind::PayloadTooLarge.status(), 413);
    let ok = build_wire_request(
        "POST",
        Some("http".to_string()),
        Some("example".to_string()),
        "/".to_string(),
        vec![
            IncomingHeader { name: b"a".to_vec(), value: b"1".to_vec() },
            IncomingHeader { name: b"a".to_vec(), value: b"2".to_vec() },
        ],
        vec![0u8; max],
        max,
        None,
    )
    .ok()
    .unwrap();
    assert_eq!(ok.headers.len(), 2);
    assert_eq!(ok.headers[1].value, b"2".to_vec());
    assert_eq!(ok.authority.as_deref(), Some("example"));
}

#[test]
fn cache_warmth_and_ttl_eviction() {
    let idle_ttl = 300_000u64;
    let interval = 60_000u64;
    let mut cache: LibraryCache<u32> = LibraryCache::new(idle_ttl);
    let mut loads = 0u32;
    let mut acquire = |cache: &mut LibraryCache<u32>, now: u64| -> u32 {
        if !cache.touch("F:fezz.so", now) {
            loads += 1;
            cache.install("F:fezz.so", loads, now);
        }
        *cache.get("F:fezz.so").unwrap()
    };
    assert_eq!(acquire(&mut cache, 0), 1);
    assert_eq!(acquire(&mut cache, 1_000), 1);
    assert_eq!(cache.cleanup(1_000 + idle_ttl + interval), 1);
    assert!(cache.get("F:fezz.so").is_none());
    assert_eq!(acquire(&mut cache, 1_000 + idle_ttl + interval), 2);
}

#[test]
fn single_tenant_routes() {
    let r = route_id("/rpc/hello", None).unwrap();
    assert_eq!((r.id.as_str(), r.path_and_query.as_str()), ("hello", "/"));
    let r = route_id("/rpc/hello/a/b", Some("x=1")).unwrap();
    assert_eq!((r.id.as_str(), r.path_and_query.as_str()), ("hello", "/a/b?x=1"));
    assert!(route_id("/rpc/", None).is_none());
    assert!(route_id("/other/hello", None).is_none());
    assert!(route_tenant("/rpc/org/func", None).is_none());
    let t = route_tenant("/rpc/o/f/v", None).unwrap();
    assert_eq!(t.path_and_query, "/");
}

#[test]
fn names_and_paths() {
    assert_eq!(cache_key("hello", "fezz.so"), "hello:fezz.so");
    assert_eq!(library_path("./HHRF_ROOT", "hello", "fezz.so"), "./HHRF_ROOT/functions/hello/fezz.so");
    assert_eq!(tenant_dir("/r", "o", "f", "v1"), "/r/functions/o/f/v1");
    assert_eq!(request_id_from(255), "ff");
    assert_eq!(request_id_from(0), "0");
    assert!(!generate_request_id().is_empty());
}

#[test]
fn statuses() {
    assert_eq!(effective_status(200), 200);
    assert_eq!(effective_status(99), 500);
    assert_eq!(effective_status(1000), 500);
    assert_eq!(ErrorKind::BadRequest.status(), 400);
    assert_eq!(ErrorKind::NotFound.status(), 404);
    assert_eq!(ErrorKind::SymbolMissing.status(), 500);
}

#[test]
fn deadlines() {
    let mut r = wire_request("GET", "/", vec![]);
    assert_eq!(deadline_ms(&r), 30_000);
    r.meta = Some(WireMeta { trace_id: None, deadline_ms: Some(250), client_ip: None });
    assert_eq!(deadline_ms(&r), 250);
}

#[test]
fn server_routes() {
    assert!(matches!(route_request("/_health", true, true), ServerRoute::Health));
    assert!(matches!(route_request("/_metrics", true, true), ServerRoute::Metrics));
    assert!(matches!(route_request("/", true, true), ServerRoute::NoFunction));
    match route_request("/_health", false, true) {
        ServerRoute::Function { name, sub_path } => assert_eq!((name.as_str(), sub_path.as_str()), ("_health", "/")),
        _ => panic!("expected a function"),
    }
    match route_request("//echo/a/b", true, true) {
        ServerRoute::Function { name, sub_path } => assert_eq!((name.as_str(), sub_path.as_str()), ("echo", "/a/b")),
        _ => panic!("expected a function"),
    }
}

#[test]
fn env_files() {
    let text = "# comment\n\nA=1\n  B = \"two words\" \r\nC='x'\nbroken line\n=nokey\nD=\"unbalanced'\n";
    let pairs = parse_env(text);
    let got: Vec<(&str, &str)> = pairs.iter().map(|(k, v)| (k.as_str(), v.as_str())).collect();
    assert_eq!(got, vec![("A", "1"), ("B", "two words"), ("C", "x"), ("D", "\"unbalanced'")]);
    assert_eq!(parse_env_line("K=a=b"), Some(("K".to_string(), "a=b".to_string())));
    assert!(parse_env("").is_empty());
}
