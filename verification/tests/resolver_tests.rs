use htmoxide::params::ParamMap;
use htmoxide::persist::{apply_cookie_ops, cookie_ops, CookieOp};
use htmoxide::scalar::{parse_value, scalar_to_string, Scalar};
use htmoxide::state_loader::{StateLoader, UNSET_SENTINEL};
use htmoxide::view_state::ViewState;

fn map_of(ps: &[(&str, &str)]) -> ParamMap {
    let mut m = ParamMap::new();
    for (k, v) in ps {
        m.insert(k.to_string(), v.to_string());
    }
    m
}

fn counter_defaults() -> ViewState {
    ViewState::new(vec![("count".to_string(), Scalar::Int(0))])
}

#[test]
fn parse_value_classifies() {
    assert_eq!(parse_value("42"), Scalar::Int(42));
    assert_eq!(parse_value("-7"), Scalar::Int(-7));
    assert_eq!(parse_value("+5"), Scalar::Int(5));
    assert_eq!(parse_value("007"), Scalar::Int(7));
    assert_eq!(parse_value("true"), Scalar::Bool(true));
    assert_eq!(parse_value("false"), Scalar::Bool(false));
    assert_eq!(parse_value("TRUE"), Scalar::Str("TRUE".to_string()));
    assert_eq!(parse_value("hello"), Scalar::Str("hello".to_string()));
    assert_eq!(parse_value(""), Scalar::Str("".to_string()));
    // out of i64 range: kept as text
    assert_eq!(
        parse_value("9223372036854775808"),
        Scalar::Str("9223372036854775808".to_string())
    );
    assert_eq!(parse_value("-9223372036854775808"), Scalar::Int(i64::MIN));
    assert_eq!(parse_value("12a"), Scalar::Str("12a".to_string()));
}

#[test]
fn scalar_to_string_prints() {
    assert_eq!(scalar_to_string(&Scalar::Int(42)), "42");
    assert_eq!(scalar_to_string(&Scalar::Int(-7)), "-7");
    assert_eq!(scalar_to_string(&Scalar::Int(i64::MIN)), "-9223372036854775808");
    assert_eq!(scalar_to_string(&Scalar::Int(i64::MAX)), "9223372036854775807");
    assert_eq!(scalar_to_string(&Scalar::Bool(true)), "true");
    assert_eq!(scalar_to_string(&Scalar::Bool(false)), "false");
    assert_eq!(scalar_to_string(&Scalar::Str("x y".to_string())), "x y");
}

#[test]
fn precedence_cookie_over_default() {
    // cookie count=5, empty query: the cookie wins over the default
    let loader = StateLoader::new(map_of(&[("count", "5")]), ParamMap::new());
    let resolved = loader.load(&counter_defaults());
    assert_eq!(resolved.state.get("count"), Some(&Scalar::Int(5)));
    assert_eq!(resolved.raw.get("count").map(|s| s.as_str()), Some("5"));
}

#[test]
fn precedence_query_over_cookie() {
    // query count=7 wins over cookie count=5
    let loader = StateLoader::new(map_of(&[("count", "5")]), map_of(&[("count", "7")]));
    let resolved = loader.load(&counter_defaults());
    assert_eq!(resolved.state.get("count"), Some(&Scalar::Int(7)));
    assert_eq!(resolved.raw.get("count").map(|s| s.as_str()), Some("7"));
}

#[test]
fn precedence_default_when_absent() {
    let loader = StateLoader::new(ParamMap::new(), ParamMap::new());
    let resolved = loader.load(&counter_defaults());
    assert_eq!(resolved.state.get("count"), Some(&Scalar::Int(0)));
    assert_eq!(resolved.raw.get("count").map(|s| s.as_str()), Some("0"));
}

#[test]
fn sentinel_resets_field_and_clears_cookie() {
    // the sentinel empties the raw value; the empty string no longer fits
    // the integer field, so the state degrades to the defaults
    let loader = StateLoader::new(
        map_of(&[("count", "5")]),
        map_of(&[("count", UNSET_SENTINEL)]),
    );
    let resolved = loader.load(&counter_defaults());
    assert_eq!(resolved.state.get("count"), Some(&Scalar::Int(0)));
    assert_eq!(resolved.raw.get("count").map(|s| s.as_str()), Some(""));
    // persisting removes the cookie
    let ops = cookie_ops(&resolved.raw);
    assert_eq!(ops, vec![CookieOp::Remove("count".to_string())]);
    let mut jar = map_of(&[("count", "5")]);
    apply_cookie_ops(&mut jar, &ops);
    assert!(jar.get("count").is_none());
}

#[test]
fn unparsable_cookie_falls_back_to_defaults() {
    // a textual cookie on an integer field is a type mismatch: the whole
    // state degrades to the defaults, not just the one field
    let defaults = ViewState::new(vec![
        ("count".to_string(), Scalar::Int(0)),
        ("name".to_string(), Scalar::Str("".to_string())),
    ]);
    let loader = StateLoader::new(map_of(&[("count", "oops"), ("name", "bob")]), ParamMap::new());
    let resolved = loader.load(&defaults);
    assert_eq!(resolved.state.get("count"), Some(&Scalar::Int(0)));
    assert_eq!(resolved.state.get("name"), Some(&Scalar::Str("".to_string())));
    // the raw map still carries the merged values
    assert_eq!(resolved.raw.get("count").map(|s| s.as_str()), Some("oops"));
    assert_eq!(resolved.raw.get("name").map(|s| s.as_str()), Some("bob"));
}

#[test]
fn resolve_persist_resolve_is_stable() {
    // resolve with a query, persist to the jar, resolve again without a
    // query: the resolution is unchanged
    let defaults = ViewState::new(vec![
        ("count".to_string(), Scalar::Int(0)),
        ("name".to_string(), Scalar::Str("".to_string())),
    ]);
    let mut jar = map_of(&[("count", "5")]);
    let first = StateLoader::new(jar.clone(), map_of(&[("name", "bob")])).load(&defaults);
    let ops = cookie_ops(&first.raw);
    apply_cookie_ops(&mut jar, &ops);
    let second = StateLoader::new(jar, ParamMap::new()).load(&defaults);
    assert_eq!(first, second);
}

#[test]
fn duplicate_default_names_keep_first() {
    let defaults = ViewState::new(vec![
        ("n".to_string(), Scalar::Int(1)),
        ("n".to_string(), Scalar::Int(2)),
    ]);
    assert_eq!(defaults.len(), 1);
    assert_eq!(defaults.get("n"), Some(&Scalar::Int(1)));
}

#[test]
fn empty_schema_resolves_empty() {
    let defaults = ViewState::new(Vec::new());
    let resolved = StateLoader::new(map_of(&[("x", "1")]), ParamMap::new()).load(&defaults);
    assert_eq!(resolved.state.len(), 0);
    assert_eq!(resolved.raw.len(), 0);
}

#[test]
fn bool_field_round_trip() {
    let defaults = ViewState::new(vec![("dark".to_string(), Scalar::Bool(false))]);
    let resolved = StateLoader::new(ParamMap::new(), map_of(&[("dark", "true")])).load(&defaults);
    assert_eq!(resolved.state.get("dark"), Some(&Scalar::Bool(true)));
    let ops = cookie_ops(&resolved.raw);
    assert_eq!(
        ops,
        vec![CookieOp::Store("dark".to_string(), "true".to_string())]
    );
}

#[test]
fn sentinel_on_string_field_yields_empty() {
    // on a string field the sentinel resolves to the empty string itself
    let defaults = ViewState::new(vec![("name".to_string(), Scalar::Str("x".to_string()))]);
    let loader = StateLoader::new(
        map_of(&[("name", "bob")]),
        map_of(&[("name", UNSET_SENTINEL)]),
    );
    let resolved = loader.load(&defaults);
    assert_eq!(resolved.state.get("name"), Some(&Scalar::Str("".to_string())));
    let ops = cookie_ops(&resolved.raw);
    assert_eq!(ops, vec![CookieOp::Remove("name".to_string())]);
}
