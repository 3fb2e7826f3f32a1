use fezz::attrs::{manifest_from_attrs, AttrError, AttrValue, MetaItem};

fn s(name: &str, value: &str) -> MetaItem {
    MetaItem::NameValue(name.to_string(), AttrValue::Str(value.to_string()))
}

#[test]
fn test_macro_function_manifest() {
    let manifest = manifest_from_attrs(vec![
        s("id", "macro-hello"),
        s("version", "v1"),
        s("method", "GET"),
        s("path", "/api/hello"),
    ])
    .ok()
    .unwrap();
    assert_eq!(manifest.id, "macro-hello");
    assert_eq!(manifest.version, "v1");
    assert_eq!(manifest.method, "GET");
    assert_eq!(manifest.path, "/api/hello");
    assert_eq!(manifest.timeout, 30);
}

#[test]
fn test_macro_function_manifest_with_timeout() {
    let manifest = manifest_from_attrs(vec![
        s("id", "macro-timeout"),
        s("version", "v2"),
        s("method", "POST"),
        s("path", "/api/submit"),
        MetaItem::NameValue("timeout".to_string(), AttrValue::Int(Some(60))),
        s("description", "A function with custom timeout"),
    ])
    .ok()
    .unwrap();
    assert_eq!(manifest.id, "macro-timeout");
    assert_eq!(manifest.version, "v2");
    assert_eq!(manifest.method, "POST");
    assert_eq!(manifest.path, "/api/submit");
    assert_eq!(manifest.timeout, 60);
    assert_eq!(manifest.description, "A function with custom timeout");
}

#[test]
fn attribute_defaults_and_errors() {
    let m = manifest_from_attrs(vec![s("id", "x")]).ok().unwrap();
    assert_eq!((m.version.as_str(), m.method.as_str(), m.path.as_str(), m.timeout), ("v1", "GET", "/", 30));
    assert_eq!(m.description, "");
    assert!(matches!(manifest_from_attrs(vec![]), Err(AttrError::MissingId)));
    assert!(matches!(manifest_from_attrs(vec![MetaItem::Other]), Err(AttrError::ExpectedNameValue)));
    match manifest_from_attrs(vec![s("id", "x"), s("colour", "red")]) {
        Err(AttrError::UnknownAttribute(n)) => assert_eq!(n, "colour"),
        _ => panic!("expected an unknown attribute"),
    }
    let bad = MetaItem::NameValue("timeout".to_string(), AttrValue::Int(None));
    assert!(matches!(manifest_from_attrs(vec![s("id", "x"), bad]), Err(AttrError::BadInteger)));
    let expr = MetaItem::NameValue("id".to_string(), AttrValue::NotLiteral);
    assert!(matches!(manifest_from_attrs(vec![expr]), Err(AttrError::ExpectedLiteral)));
    let ignored = MetaItem::NameValue("path".to_string(), AttrValue::Int(Some(3)));
    let m = manifest_from_attrs(vec![s("id", "x"), ignored, s("id", "y")]).ok().unwrap();
    assert_eq!((m.id.as_str(), m.path.as_str()), ("y", "/"));
}
