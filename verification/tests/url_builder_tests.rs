use htmoxide::params::{parse_query_string, ParamMap};
use htmoxide::url_builder::UrlBuilder;

fn pairs(ps: &[(&str, &str)]) -> Vec<(String, String)> {
    ps.iter().map(|(k, v)| (k.to_string(), v.to_string())).collect()
}

#[test]
fn build_filters_empty_values() {
    // overriding a parameter with an empty value drops it from the URL
    let url = UrlBuilder::new("/x".to_string(), "count=0")
        .with_params(pairs(&[("count", "")]))
        .build();
    assert_eq!(url, "/x");
}

#[test]
fn build_filters_empty_keys() {
    let url = UrlBuilder::new("/x".to_string(), "")
        .with_params(pairs(&[("", "v"), ("a", "1")]))
        .build();
    assert_eq!(url, "/x?a=1");
}

#[test]
fn build_with_no_params_returns_path() {
    assert_eq!(UrlBuilder::new("/plain".to_string(), "").build(), "/plain");
}

#[test]
fn build_appends_query() {
    let url = UrlBuilder::new("/x".to_string(), "a=1&b=2").build();
    assert_eq!(url, "/x?a=1&b=2");
}

#[test]
fn with_params_overrides_last_wins() {
    // later writes win over the parsed query string
    let b = UrlBuilder::new("/x".to_string(), "a=1&b=2").with_params(pairs(&[("b", "3")]));
    let all = b.all_params();
    assert_eq!(all.get("a").map(|s| s.as_str()), Some("1"));
    assert_eq!(all.get("b").map(|s| s.as_str()), Some("3"));
    assert_eq!(all.len(), 2);
    assert_eq!(b.build(), "/x?a=1&b=3");
}

#[test]
fn build_main_url_defaults_to_root() {
    let url = UrlBuilder::new("/component".to_string(), "a=1").build_main_url();
    assert_eq!(url, "/?a=1");
    let url = UrlBuilder::new("/component".to_string(), "").build_main_url();
    assert_eq!(url, "/");
}

#[test]
fn build_main_url_uses_recorded_page() {
    let url = UrlBuilder::new("/component".to_string(), "a=1")
        .with_main_page("/page".to_string())
        .build_main_url();
    assert_eq!(url, "/page?a=1");
}

#[test]
fn build_page_url_uses_given_path() {
    let url = UrlBuilder::new("/component".to_string(), "a=1").build_page_url("/other".to_string());
    assert_eq!(url, "/other?a=1");
}

#[test]
fn build_percent_encodes_values() {
    // a space is form-encoded as `+`, so the encoder visibly transforms its input
    let url = UrlBuilder::new("/x".to_string(), "")
        .with_params(pairs(&[("q", "a b")]))
        .build();
    assert_eq!(url, "/x?q=a+b");
}

#[test]
fn other_params_returns_full_map() {
    let b = UrlBuilder::new("/x".to_string(), "a=1&b=2");
    let copy = b.other_params();
    assert_eq!(copy.get("a").map(|s| s.as_str()), Some("1"));
    assert_eq!(copy.get("b").map(|s| s.as_str()), Some("2"));
}

#[test]
fn parse_query_string_last_occurrence_wins() {
    let m = parse_query_string("a=1&b=2&a=3");
    assert_eq!(m.get("a").map(|s| s.as_str()), Some("3"));
    assert_eq!(m.get("b").map(|s| s.as_str()), Some("2"));
    assert_eq!(m.len(), 2);
}

#[test]
fn parse_query_string_edge_cases() {
    assert_eq!(parse_query_string("").len(), 0);
    assert_eq!(parse_query_string("&&").len(), 0);
    // a key without `=` maps to the empty value
    let m = parse_query_string("flag");
    assert_eq!(m.get("flag").map(|s| s.as_str()), Some(""));
    // an empty key is dropped
    assert_eq!(parse_query_string("=x").len(), 0);
    // only the first `=` splits
    let m = parse_query_string("a=b=c");
    assert_eq!(m.get("a").map(|s| s.as_str()), Some("b=c"));
}

#[test]
fn param_map_overwrites_in_place_and_removes() {
    let mut m = ParamMap::new();
    m.insert("a".to_string(), "1".to_string());
    m.insert("b".to_string(), "2".to_string());
    m.insert("a".to_string(), "3".to_string());
    // overwriting keeps the key's first position
    assert_eq!(
        m.entries(),
        &vec![
            ("a".to_string(), "3".to_string()),
            ("b".to_string(), "2".to_string())
        ]
    );
    m.remove("a");
    assert_eq!(m.entries(), &vec![("b".to_string(), "2".to_string())]);
    m.remove("missing");
    assert_eq!(m.len(), 1);
}

#[test]
fn build_escapes_separators_inside_values() {
    // a `&` inside a value is percent-encoded, so it cannot split the query
    let url = UrlBuilder::new("/x".to_string(), "")
        .with_params(pairs(&[("a", "x&y=z")]))
        .build();
    assert_eq!(url, "/x?a=x%26y%3Dz");
}
