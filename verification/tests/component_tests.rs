use htmoxide::component::{
    derive_method, derive_route, to_pascal_case, ComponentRecord, ComponentRegistry,
};

#[test]
fn pascal_case_conversion() {
    assert_eq!(to_pascal_case("counter"), "Counter");
    assert_eq!(to_pascal_case("todo_list"), "TodoList");
    assert_eq!(to_pascal_case("a_b_c"), "ABC");
    assert_eq!(to_pascal_case(""), "");
    assert_eq!(to_pascal_case("__x"), "X");
    assert_eq!(to_pascal_case("already_Upper"), "AlreadyUpper");
    assert_eq!(to_pascal_case("trailing_"), "Trailing");
}

#[test]
fn route_derivation() {
    assert_eq!(derive_route("counter", None, None), "/counter");
    assert_eq!(derive_route("counter", Some("/api"), None), "/api/counter");
    assert_eq!(derive_route("counter", None, Some("/c/{id}")), "/c/{id}");
    assert_eq!(
        derive_route("toggle", Some("/todos"), Some("/{id}/toggle")),
        "/todos/{id}/toggle"
    );
}

#[test]
fn method_defaults_to_get() {
    assert_eq!(derive_method(None), "GET");
    assert_eq!(derive_method(Some("POST")), "POST");
}

#[test]
fn registry_freezes_without_collisions() {
    let mut reg = ComponentRegistry::new();
    reg.register(ComponentRecord::new(
        "a".to_string(),
        "/a".to_string(),
        "GET".to_string(),
    ));
    reg.register(ComponentRecord::new(
        "b".to_string(),
        "/b".to_string(),
        "GET".to_string(),
    ));
    // same path under a different method is no collision
    reg.register(ComponentRecord::new(
        "c".to_string(),
        "/a".to_string(),
        "POST".to_string(),
    ));
    let frozen = reg.freeze().expect("no collision expected");
    assert_eq!(frozen.records().len(), 3);
    assert_eq!(frozen.records()[0].name, "a");
}

#[test]
fn registry_reports_collision() {
    let mut reg = ComponentRegistry::new();
    reg.register(ComponentRecord::new(
        "a".to_string(),
        "/dup".to_string(),
        "GET".to_string(),
    ));
    reg.register(ComponentRecord::new(
        "b".to_string(),
        "/dup".to_string(),
        "GET".to_string(),
    ));
    let err = reg.freeze().expect_err("collision expected");
    assert_eq!(err.path, "/dup");
    assert_eq!(err.method, "GET");
}
