use fezz::config::HhrfConfig;
use fezz::manifest::{FunctionManifest, OwnedFunctionManifest};
use fezz::naming::to_pascal_case;

#[test]
fn test_manifest_creation() {
    let manifest = FunctionManifest::new("test-fn", "v1", "GET", "/api/test");
    assert_eq!(manifest.id, "test-fn");
    assert_eq!(manifest.version, "v1");
    assert_eq!(manifest.method, "GET");
    assert_eq!(manifest.path, "/api/test");
    assert_eq!(manifest.timeout, 30);
}

#[test]
fn test_manifest_with_timeout() {
    let manifest = FunctionManifest::new("test-fn", "v1", "POST", "/api/submit").with_timeout(60);
    assert_eq!(manifest.timeout, 60);
}

#[test]
fn test_owned_manifest_creation() {
    let manifest = OwnedFunctionManifest::new("test-fn", "v1", "GET", "/api/test");
    assert_eq!(manifest.id, "test-fn");
    assert_eq!(manifest.version, "v1");
}

#[test]
fn test_manifest_to_owned() {
    let manifest = FunctionManifest::new("test-fn", "v1", "GET", "/api/test");
    let owned = manifest.to_owned();
    assert_eq!(owned.id, "test-fn");
    assert_eq!(owned.version, "v1");
}

#[test]
fn manifest_defaults() {
    let m = FunctionManifest::default();
    assert_eq!((m.id, m.version, m.method, m.path, m.timeout), ("", "v1", "GET", "/", 30));
    let o = OwnedFunctionManifest::default();
    assert!(o.same_as(&m.to_owned()));
    let d = FunctionManifest::new("a", "v2", "PUT", "/p").with_description("about");
    assert_eq!(d.description, "about");
    let od = OwnedFunctionManifest::new("a", "v2", "PUT", "/p").with_description("about").with_timeout(5);
    assert_eq!(od.description, "about");
    assert_eq!(od.timeout, 5);
}

#[test]
fn pascal_case_names() {
    assert_eq!(to_pascal_case("macro_hello"), "MacroHello");
    assert_eq!(to_pascal_case("fetch"), "Fetch");
    assert_eq!(to_pascal_case("a__b"), "AB");
    assert_eq!(to_pascal_case(""), "");
    assert_eq!(to_pascal_case("\u{df}_x"), "SSX");
}

#[test]
fn config_bind_addr() {
    let c = HhrfConfig::new();
    assert_eq!(c.bind_addr(), "0.0.0.0:8080");
    assert_eq!(c.max_body_size, 10 * 1024 * 1024);
    let c = HhrfConfig::new().host("127.0.0.1").port(3000).env("ENVIRONMENT", "development");
    assert_eq!(c.bind_addr(), "127.0.0.1:3000");
    assert_eq!(c.env.get("ENVIRONMENT"), Some(&"development".to_string()));
    let c = HhrfConfig::new().port(0);
    assert_eq!(c.bind_addr(), "0.0.0.0:0");
}
