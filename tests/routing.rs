use fezz::routing::{Route, RouteMethod, RouteTable};

#[test]
fn test_route_method_from_str() {
    assert_eq!(RouteMethod::from("GET"), RouteMethod::Get);
    assert_eq!(RouteMethod::from("post"), RouteMethod::Post);
    assert_eq!(RouteMethod::from("*"), RouteMethod::Any);
}

#[test]
fn test_route_method_matches() {
    assert!(RouteMethod::Get.matches("GET"));
    assert!(RouteMethod::Get.matches("get"));
    assert!(!RouteMethod::Get.matches("POST"));
    assert!(RouteMethod::Any.matches("GET"));
    assert!(RouteMethod::Any.matches("POST"));
}

#[test]
fn test_route_exact_match() {
    let route = Route::new(RouteMethod::Get, "/api/users", "users-list");

    assert!(route.matches("/api/users", "GET"));
    assert!(!route.matches("/api/users", "POST"));
    assert!(!route.matches("/api/users/1", "GET"));
}

#[test]
fn test_route_wildcard_match() {
    let route = Route::new(RouteMethod::Get, "/api/*", "api-handler");

    assert!(route.matches("/api/users", "GET"));
    assert!(route.matches("/api/users/1", "GET"));
    assert!(!route.matches("/other", "GET"));
}

#[test]
fn test_route_param_match() {
    let route = Route::new(RouteMethod::Get, "/api/users/:id", "user-get");

    assert!(route.matches("/api/users/123", "GET"));
    assert!(route.matches("/api/users/abc", "GET"));
    assert!(!route.matches("/api/users", "GET"));
    assert!(!route.matches("/api/users/1/details", "GET"));
}

#[test]
fn test_route_table_add_and_find() {
    let mut table = RouteTable::new();

    table.add(Route::new(RouteMethod::Get, "/api/users", "users-list"));
    table.add(Route::new(RouteMethod::Post, "/api/users", "users-create"));

    let route = table.find("/api/users", "GET");
    assert!(route.is_some());
    assert_eq!(route.unwrap().function_id, "users-list");

    let route = table.find("/api/users", "POST");
    assert!(route.is_some());
    assert_eq!(route.unwrap().function_id, "users-create");
}

#[test]
fn test_route_table_priority() {
    let mut table = RouteTable::new();

    table.add(Route::new(RouteMethod::Get, "/api/*", "api-catch-all").priority(0));
    table.add(Route::new(RouteMethod::Get, "/api/users", "users-list").priority(10));

    let route = table.find("/api/users", "GET");
    assert!(route.is_some());
    assert_eq!(route.unwrap().function_id, "users-list");

    let route = table.find("/api/other", "GET");
    assert!(route.is_some());
    assert_eq!(route.unwrap().function_id, "api-catch-all");
}

#[test]
fn test_route_table_remove() {
    let mut table = RouteTable::new();

    table.add(Route::new(RouteMethod::Get, "/api/users", "users-list"));
    table.add(Route::new(RouteMethod::Get, "/api/posts", "posts-list"));

    table.remove_function("users-list");

    let routes = table.list();
    assert_eq!(routes.len(), 1);
    assert_eq!(routes[0].function_id, "posts-list");
}

#[test]
fn route_method_from_any_word_and_unknown() {
    assert_eq!(RouteMethod::from("any"), RouteMethod::Any);
    assert_eq!(RouteMethod::from("Options"), RouteMethod::Options);
    assert_eq!(RouteMethod::from("BREW"), RouteMethod::Get);
    assert_eq!(RouteMethod::from_upper("delete"), RouteMethod::Get);
    assert_eq!(RouteMethod::from_upper("DELETE"), RouteMethod::Delete);
}

#[test]
fn disabled_route_never_matches() {
    let route = Route::new(RouteMethod::Any, "/x", "f").enabled(false);
    assert!(!route.matches("/x", "GET"));
}

#[test]
fn equal_priorities_keep_insertion_order() {
    let mut table = RouteTable::new();
    table.add(Route::new(RouteMethod::Get, "/a", "first").priority(5));
    table.add(Route::new(RouteMethod::Get, "/a", "second").priority(5));
    table.add(Route::new(RouteMethod::Get, "/a", "top").priority(9));
    let ids: Vec<String> = table.list().into_iter().map(|r| r.function_id).collect();
    assert_eq!(ids, vec!["top", "first", "second"]);
    assert_eq!(table.find("/a", "GET").unwrap().function_id, "top");
    assert_eq!(table.for_function("second").len(), 1);
    assert!(table.find("/b", "GET").is_none());
}
