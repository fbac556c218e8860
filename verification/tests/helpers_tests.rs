use htmoxide::body::Body;
use htmoxide::client_helpers::{clear_input_handler, preserved_params};
use htmoxide::decimal::{i64_to_dec, parse_i64};
use htmoxide::params::ParamMap;
use htmoxide::qs_form::QsForm;
use htmoxide::state::StateExtractor;

#[test]
fn clear_input_handler_builds_script() {
    assert_eq!(
        clear_input_handler("search-input", "keyup"),
        "document.getElementById('search-input').value = ''; \
         htmx.trigger('#search-input', 'keyup');"
    );
}

#[test]
fn preserved_params_filters_excluded_and_empty() {
    let mut m = ParamMap::new();
    m.insert("filter".to_string(), "x".to_string());
    m.insert("sort".to_string(), "asc".to_string());
    m.insert("empty".to_string(), "".to_string());
    let kept = preserved_params(&m, &vec!["filter".to_string()]);
    assert_eq!(kept, vec![("sort".to_string(), "asc".to_string())]);
}

#[test]
fn parse_i64_matches_integer_grammar() {
    assert_eq!(parse_i64("0"), Some(0));
    assert_eq!(parse_i64("-1"), Some(-1));
    assert_eq!(parse_i64("+12"), Some(12));
    assert_eq!(parse_i64(""), None);
    assert_eq!(parse_i64("-"), None);
    assert_eq!(parse_i64("+"), None);
    assert_eq!(parse_i64("1.5"), None);
    assert_eq!(parse_i64(" 1"), None);
    assert_eq!(parse_i64("9223372036854775807"), Some(i64::MAX));
    assert_eq!(parse_i64("9223372036854775808"), None);
    assert_eq!(parse_i64("-9223372036854775808"), Some(i64::MIN));
    assert_eq!(parse_i64("-9223372036854775809"), None);
    // agrees with the standard parser on a spread of inputs
    for s in ["007", "--1", "1e3", "0x10", "42abc", "18446744073709551615"] {
        assert_eq!(parse_i64(s), s.parse::<i64>().ok(), "input {s:?}");
    }
}

#[test]
fn i64_to_dec_is_canonical() {
    assert_eq!(i64_to_dec(0), "0");
    assert_eq!(i64_to_dec(10), "10");
    assert_eq!(i64_to_dec(-305), "-305");
    assert_eq!(i64_to_dec(i64::MIN), i64::MIN.to_string());
    assert_eq!(i64_to_dec(i64::MAX), i64::MAX.to_string());
}

#[test]
fn wrappers_expose_their_payload() {
    assert_eq!(Body(7u32).into_inner(), 7);
    assert_eq!(StateExtractor("s".to_string()).into_inner(), "s");
    assert_eq!(QsForm(vec![1, 2]).into_inner(), vec![1, 2]);
}
