use fezz::http::{FezzRequest, FezzResponse, Method, StatusCode};

#[test]
fn test_fezz_request_builder() {
    let request = FezzRequest::new(Method::Post, "/api/test")
        .header("Content-Type", "application/json")
        .body(br#"{"key": "value"}"#.to_vec());

    assert_eq!(request.method, Method::Post);
    assert_eq!(request.url, "/api/test");
    assert_eq!(request.get_header("Content-Type"), Some(&"application/json".to_string()));
    assert!(request.body.is_some());
    assert_eq!(request.text(), Some(r#"{"key": "value"}"#.to_string()));
}

#[test]
fn test_fezz_response_error() {
    let response = FezzResponse::error(StatusCode::not_found(), "Resource not found");

    assert_eq!(response.status, StatusCode::not_found());
    assert!(response.status.is_client_error());
    assert_eq!(response.text_body(), Some("Resource not found".to_string()));
}

#[test]
fn test_status_code_helpers() {
    assert!(StatusCode::ok().is_success());
    assert!(StatusCode::created().is_success());
    assert!(!StatusCode::not_found().is_success());

    assert!(StatusCode::bad_request().is_client_error());
    assert!(StatusCode::not_found().is_client_error());
    assert!(!StatusCode::ok().is_client_error());

    assert!(StatusCode::internal_server_error().is_server_error());
    assert!(StatusCode::bad_gateway().is_server_error());
    assert!(!StatusCode::ok().is_server_error());
}

#[test]
fn test_method_display() {
    assert_eq!(Method::Get.as_str().to_string(), "GET");
    assert_eq!(Method::Post.as_str().to_string(), "POST");
    assert_eq!(Method::Put.as_str().to_string(), "PUT");
    assert_eq!(Method::Delete.as_str().to_string(), "DELETE");
}

#[test]
fn method_parse_is_exact() {
    assert_eq!(Method::parse("PATCH"), Method::Patch);
    assert_eq!(Method::parse("OPTIONS"), Method::Options);
    assert_eq!(Method::parse("patch"), Method::Get);
    assert_eq!(Method::parse("TRACE"), Method::Get);
}

#[test]
fn text_response_and_lossy_body() {
    let r = FezzResponse::text("Hello");
    assert_eq!(r.status, StatusCode(200));
    assert_eq!(r.headers.get("Content-Type"), Some(&"text/plain".to_string()));
    assert_eq!(r.text_body(), Some("Hello".to_string()));
    let odd = FezzResponse::ok().body(vec![b'a', 0xff, b'b']);
    assert_eq!(odd.text_body(), Some("a\u{fffd}b".to_string()));
    assert_eq!(FezzResponse::ok().text_body(), None);
    assert_eq!(FezzRequest::default().url, "/");
    assert_eq!(StatusCode::from(204u16), StatusCode::no_content());
    let h = FezzResponse::ok().header("X", "1").header("X", "2");
    assert_eq!(h.headers.get("X"), Some(&"2".to_string()));
    assert_eq!(h.headers.len(), 1);
}
