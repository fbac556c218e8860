use htmoxide::params::ParamMap;
use htmoxide::state_urls_middleware::{state_urls_redirect, StateUrlsConfig};

fn jar_of(ps: &[(&str, &str)]) -> ParamMap {
    let mut m = ParamMap::new();
    for (k, v) in ps {
        m.insert(k.to_string(), v.to_string());
    }
    m
}

#[test]
fn redirects_cookie_state_into_url() {
    // a full navigation without a query picks up the cookie state
    let config = StateUrlsConfig::new();
    let r = state_urls_redirect(&config, false, false, "/simple", &jar_of(&[("count", "3")]));
    assert_eq!(r.as_deref(), Some("/simple?count=3"));
}

#[test]
fn denylisted_cookie_is_not_promoted() {
    let config = StateUrlsConfig::with_denylist(vec!["count".to_string()]);
    let r = state_urls_redirect(&config, false, false, "/simple", &jar_of(&[("count", "3")]));
    assert_eq!(r, None);
}

#[test]
fn partial_update_requests_pass_through() {
    let config = StateUrlsConfig::new();
    let r = state_urls_redirect(&config, true, false, "/simple", &jar_of(&[("count", "3")]));
    assert_eq!(r, None);
}

#[test]
fn requests_with_any_query_pass_through() {
    // any query parameter at all suppresses the redirect
    let config = StateUrlsConfig::new();
    let r = state_urls_redirect(&config, false, true, "/simple", &jar_of(&[("count", "3")]));
    assert_eq!(r, None);
}

#[test]
fn empty_cookie_values_are_skipped() {
    let config = StateUrlsConfig::new();
    let r = state_urls_redirect(&config, false, false, "/simple", &jar_of(&[("count", "")]));
    assert_eq!(r, None);
}

#[test]
fn mixed_cookies_promote_only_allowed_nonempty() {
    let config = StateUrlsConfig::default();
    let jar = jar_of(&[("session", "abc"), ("count", "3"), ("empty", "")]);
    let r = state_urls_redirect(&config, false, false, "/page", &jar);
    assert_eq!(r.as_deref(), Some("/page?count=3"));
}

#[test]
fn default_denylist_covers_sensitive_names() {
    let config = StateUrlsConfig::default();
    for name in [
        "token", "session", "session_id", "sessionid", "csrf", "csrf_token", "auth", "auth_token",
        "jwt", "bearer", "id",
    ] {
        let r = state_urls_redirect(&config, false, false, "/p", &jar_of(&[(name, "v")]));
        assert_eq!(r, None, "{name} should be denylisted");
    }
}

#[test]
fn deny_extends_the_denylist() {
    let config = StateUrlsConfig::new().deny(vec!["my_secret".to_string()]);
    let jar = jar_of(&[("my_secret", "s"), ("count", "2")]);
    let r = state_urls_redirect(&config, false, false, "/p", &jar);
    assert_eq!(r.as_deref(), Some("/p?count=2"));
}
