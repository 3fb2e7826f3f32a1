use fezz::handler::{error_response, FezzError, FunctionContext};
use fezz::http::{FezzRequest, FezzResponse, Method, StatusCode};
use fezz::registry::{FunctionRegistry, FunctionState, LoadStep, UnloadStep};
use fezz::strmap::StrMap;

/// A handler for the tests: answers with fixed text, and counts its callbacks.
struct TestFunction {
    response_text: String,
    loads: u32,
    fetches: u32,
    fail_unload: bool,
}

impl TestFunction {
    fn new(text: &str) -> Self {
        TestFunction { response_text: text.to_string(), loads: 0, fetches: 0, fail_unload: false }
    }
}

fn load(reg: &mut FunctionRegistry<TestFunction>, name: &str) -> Result<(), FezzError> {
    match reg.begin_load(name)? {
        LoadStep::Run(_ctx) => {
            reg.finish_load(name, true);
            Ok(())
        }
        LoadStep::AlreadyLoaded => Ok(()),
    }
}

fn execute(
    reg: &mut FunctionRegistry<TestFunction>,
    name: &str,
    _request: FezzRequest,
    request_id: &str,
) -> Result<FezzResponse, FezzError> {
    match reg.begin_load(name)? {
        LoadStep::Run(_ctx) => {
            reg.finish_load(name, true);
        }
        LoadStep::AlreadyLoaded => {}
    }
    let ctx = reg.begin_invocation(name, request_id)?;
    assert_eq!(ctx.request_id, request_id);
    let text = reg.handler(name).unwrap().response_text.clone();
    reg.end_invocation(name);
    Ok(FezzResponse::text(&text))
}

#[test]
fn test_function_registry_register() {
    let mut registry = FunctionRegistry::new();

    let result = registry.register("test", TestFunction::new("Hello"));

    assert!(result.is_ok());

    let functions = registry.list();
    assert_eq!(functions.len(), 1);
    assert_eq!(functions[0].0, "test");
}

#[test]
fn test_function_registry_duplicate_register() {
    let mut registry = FunctionRegistry::new();

    registry.register("test", TestFunction::new("Hello")).unwrap();

    let result = registry.register("test", TestFunction::new("Hello2"));

    assert!(result.is_err());
}

#[test]
fn test_function_registry_execute() {
    let mut registry = FunctionRegistry::new();

    registry.register("test", TestFunction::new("Test Response")).unwrap();

    let request = FezzRequest::new(Method::Get, "/");
    let response = execute(&mut registry, "test", request, "req-123").unwrap();

    assert!(response.status.is_success());
    assert_eq!(response.text_body(), Some("Test Response".to_string()));
}

#[test]
fn test_function_registry_execute_not_found() {
    let mut registry: FunctionRegistry<TestFunction> = FunctionRegistry::new();

    let request = FezzRequest::new(Method::Get, "/");
    let result = execute(&mut registry, "nonexistent", request, "req-123");

    assert!(result.is_err());
    assert_eq!(result.err().unwrap().message, "Function 'nonexistent' not found");
}

#[test]
fn test_function_load_unload_lifecycle() {
    let mut registry = FunctionRegistry::new();
    registry.register("lifecycle", TestFunction::new("")).unwrap();

    assert_eq!(registry.get_state("lifecycle"), Some(FunctionState::Unloaded));

    load(&mut registry, "lifecycle").unwrap();
    assert_eq!(registry.get_state("lifecycle"), Some(FunctionState::Ready));

    match registry.begin_unload("lifecycle").unwrap() {
        UnloadStep::Run(_) => registry.finish_unload("lifecycle"),
        UnloadStep::AlreadyUnloaded => panic!("was loaded"),
    }
    assert_eq!(registry.get_state("lifecycle"), Some(FunctionState::Unloaded));
}

#[test]
fn execute_on_unloaded_loads_once_then_fetches() {
    let mut reg = FunctionRegistry::new();
    reg.register("f", TestFunction::new("x")).unwrap();
    let mut loads = 0;
    let mut fetches = 0;
    for _ in 0..3 {
        if let LoadStep::Run(ctx) = reg.begin_load("f").unwrap() {
            assert_eq!(ctx.function_name, "f");
            loads += 1;
            reg.finish_load("f", true);
        }
        reg.begin_invocation("f", "r").unwrap();
        fetches += 1;
        reg.end_invocation("f");
    }
    assert_eq!((loads, fetches), (1, 3));
}

#[test]
fn active_invocations_return_to_zero() {
    let mut reg = FunctionRegistry::new();
    reg.register("f", TestFunction::new("x")).unwrap();
    load(&mut reg, "f").unwrap();
    reg.begin_invocation("f", "a").unwrap();
    reg.begin_invocation("f", "b").unwrap();
    assert_eq!(reg.active_invocations("f"), Some(2));
    reg.end_invocation("f");
    reg.begin_invocation("f", "c").unwrap();
    reg.end_invocation("f");
    reg.end_invocation("f");
    assert_eq!(reg.active_invocations("f"), Some(0));
    reg.end_invocation("f");
    assert_eq!(reg.active_invocations("f"), Some(0));
}

#[test]
fn failing_unload_still_ends_unloaded() {
    let mut reg = FunctionRegistry::new();
    let mut f = TestFunction::new("x");
    f.fail_unload = true;
    reg.register("f", f).unwrap();
    load(&mut reg, "f").unwrap();
    if let UnloadStep::Run(_) = reg.begin_unload("f").unwrap() {
        let failed = reg.handler("f").unwrap().fail_unload;
        assert!(failed);
        reg.finish_unload("f");
    }
    assert_eq!(reg.get_state("f"), Some(FunctionState::Unloaded));
}

#[test]
fn failed_load_and_busy_states() {
    let mut reg = FunctionRegistry::new();
    reg.register("f", TestFunction::new("x")).unwrap();
    assert!(matches!(reg.begin_load("f"), Ok(LoadStep::Run(_))));
    let busy = reg.begin_load("f").err().unwrap();
    assert_eq!(busy.code, 500);
    assert_eq!(busy.message, "Function 'f' is busy loading or unloading");
    assert_eq!(reg.begin_invocation("f", "r").err().unwrap().code, 503);
    reg.finish_load("f", false);
    assert_eq!(reg.get_state("f"), Some(FunctionState::Unloaded));
    assert!(matches!(reg.begin_unload("f"), Ok(UnloadStep::AlreadyUnloaded)));
    let h = reg.remove("f").ok().unwrap();
    assert_eq!(h.loads + h.fetches, 0);
    assert_eq!(reg.remove("f").err().unwrap().code, 404);
}

#[test]
fn registry_env_reaches_contexts() {
    let mut env: StrMap<String> = StrMap::new();
    env.insert("ENVIRONMENT".to_string(), "development".to_string());
    let mut reg = FunctionRegistry::with_env(env);
    reg.register("f", TestFunction::new("x")).unwrap();
    match reg.begin_load("f").unwrap() {
        LoadStep::Run(ctx) => {
            assert_eq!(ctx.get_env("ENVIRONMENT"), Some(&"development".to_string()));
        }
        LoadStep::AlreadyLoaded => panic!("was unloaded"),
    }
}

#[test]
fn test_function_context() {
    let ctx = FunctionContext::new("test-fn", "req-456")
        .with_env("API_KEY", "secret123")
        .with_env("ENV", "test");

    assert_eq!(ctx.function_name, "test-fn");
    assert_eq!(ctx.request_id, "req-456");
    assert_eq!(ctx.get_env("API_KEY"), Some(&"secret123".to_string()));
    assert_eq!(ctx.get_env("ENV"), Some(&"test".to_string()));
    assert_eq!(ctx.get_env("NONEXISTENT"), None);
}

#[test]
fn test_fezz_error_conversion() {
    let error = FezzError::not_found("Item not found");
    let response: FezzResponse = error_response(error);

    assert_eq!(response.status, StatusCode::not_found());
}

#[test]
fn error_constructors_and_text() {
    assert_eq!(FezzError::new("boom").code, 500);
    assert_eq!(FezzError::bad_request("bad").code, 400);
    let e = FezzError::with_code(418, "teapot");
    assert_eq!(e.describe(), "[418] teapot");
    assert_eq!(e.clone_error().message, "teapot");
}
