//! The bookmark redirect: a full navigation that carries no query string is
//! redirected to the same path with the non-sensitive, nonempty cookies as
//! query parameters, so cookie-only state becomes visible, bookmarkable and
//! shareable; every other request passes through unchanged.

use vstd::prelude::*;
use crate::encoding::{encode_pairs, urlencoded_of};
use crate::params::ParamMap;
use crate::strutil::{list_contains, list_has_str, push_char};

verus! {

/// Configuration for the bookmark redirect: names of cookies that must
/// never be promoted into query parameters.
#[derive(Debug)]
pub struct StateUrlsConfig {
    pub denylist: Vec<String>,
}

/// The denylist that `Default` installs: common names of session, token
/// and related sensitive cookies.
pub open spec fn default_denylist() -> Seq<Seq<char>> {
    seq![
        "token"@,
        "session"@,
        "session_id"@,
        "sessionid"@,
        "csrf"@,
        "csrf_token"@,
        "auth"@,
        "auth_token"@,
        "jwt"@,
        "bearer"@,
        "id"@,
    ]
}

impl StateUrlsConfig {
    pub open spec fn spec_denylist(&self) -> Seq<Seq<char>> {
        self.denylist.deep_view()
    }

    /// A config with an empty denylist.
    pub fn new() -> (r: Self)
        ensures
            r.spec_denylist() =~= Seq::<Seq<char>>::empty(),
    {
        StateUrlsConfig { denylist: Vec::new() }
    }

    /// A config with the given denylist.
    pub fn with_denylist(items: Vec<String>) -> (r: Self)
        ensures
            r.spec_denylist() == items.deep_view(),
    {
        StateUrlsConfig { denylist: items }
    }

    /// Adds names to the denylist.
    pub fn deny(self, items: Vec<String>) -> (r: Self)
        ensures
            r.spec_denylist() == self.spec_denylist() + items.deep_view(),
    {
        let ghost before = self.denylist.deep_view();
        let ghost added = items.deep_view();
        let mut denylist = self.denylist;
        let mut items = items;
        denylist.append(&mut items);
        proof {
            assert(denylist.deep_view() =~= before + added);
        }
        StateUrlsConfig { denylist }
    }
}

impl Default for StateUrlsConfig {
    /// A config denylisting common sensitive cookie names.
    fn default() -> (r: Self)
        ensures
            r.spec_denylist() =~= default_denylist(),
    {
        let mut denylist: Vec<String> = Vec::new();
        denylist.push(String::from_str("token"));
        denylist.push(String::from_str("session"));
        denylist.push(String::from_str("session_id"));
        denylist.push(String::from_str("sessionid"));
        denylist.push(String::from_str("csrf"));
        denylist.push(String::from_str("csrf_token"));
        denylist.push(String::from_str("auth"));
        denylist.push(String::from_str("auth_token"));
        denylist.push(String::from_str("jwt"));
        denylist.push(String::from_str("bearer"));
        denylist.push(String::from_str("id"));
        proof {
            assert(denylist.deep_view() =~= default_denylist());
        }
        StateUrlsConfig { denylist }
    }
}

/// The cookies a redirect promotes: those whose name is not denylisted and
/// whose value is nonempty, in jar order.
pub open spec fn promoted_cookies(
    cookies: Seq<(Seq<char>, Seq<char>)>,
    denylist: Seq<Seq<char>>,
) -> Seq<(Seq<char>, Seq<char>)>
    decreases cookies.len(),
{
    if cookies.len() == 0 {
        Seq::empty()
    } else {
        promoted_cookies(cookies.drop_last(), denylist) + if !list_has_str(
            denylist,
            cookies.last().0,
        ) && cookies.last().1.len() > 0 {
            seq![cookies.last()]
        } else {
            Seq::empty()
        }
    }
}

/// The redirect, if any: only a full navigation (no partial-update marker)
/// with no query string at all and at least one promotable cookie is
/// redirected, to the same path with those cookies as its query.
pub open spec fn redirect_decision(
    denylist: Seq<Seq<char>>,
    is_partial_update: bool,
    has_query: bool,
    path: Seq<char>,
    cookies: Seq<(Seq<char>, Seq<char>)>,
) -> Option<Seq<char>> {
    if is_partial_update || has_query {
        None
    } else {
        let kept = promoted_cookies(cookies, denylist);
        if kept.len() == 0 {
            None
        } else {
            Some(path + seq!['?'] + urlencoded_of(kept))
        }
    }
}

/// Decides whether a request is redirected to carry its cookie state in
/// the URL, and to where.
pub fn state_urls_redirect(
    config: &StateUrlsConfig,
    is_partial_update: bool,
    has_query: bool,
    path: &str,
    cookies: &ParamMap,
) -> (r: Option<String>)
    ensures
        match r {
            Some(u) => redirect_decision(
                config.spec_denylist(),
                is_partial_update,
                has_query,
                path@,
                cookies@,
            ) == Some(u@),
            None => redirect_decision(
                config.spec_denylist(),
                is_partial_update,
                has_query,
                path@,
                cookies@,
            ) is None,
        },
{
    if is_partial_update || has_query {
        return None;
    }
    let entries = cookies.entries();
    let mut kept: Vec<(String, String)> = Vec::new();
    let mut i: usize = 0;
    while i < entries.len()
        invariant
            i <= entries@.len(),
            entries.deep_view() == cookies@,
            kept.deep_view() =~= promoted_cookies(
                cookies@.subrange(0, i as int),
                config.spec_denylist(),
            ),
        decreases entries@.len() - i,
    {
        proof {
            assert(cookies@.subrange(0, i + 1).drop_last() =~= cookies@.subrange(0, i as int));
            assert(cookies@.subrange(0, i + 1).last() == cookies@[i as int]);
            assert(cookies@[i as int] == (entries@[i as int].0@, entries@[i as int].1@));
        }
        let denied = list_contains(&config.denylist, entries[i].0.as_str());
        if !denied && !entries[i].1.as_str().is_empty() {
            let k = entries[i].0.clone();
            let v = entries[i].1.clone();
            let ghost prev = kept.deep_view();
            kept.push((k, v));
            proof {
                assert(kept.deep_view() =~= prev.push((k@, v@)));
                assert(kept.deep_view() =~= promoted_cookies(
                    cookies@.subrange(0, i + 1),
                    config.spec_denylist(),
                ));
            }
        }
        i += 1;
    }
    proof {
        assert(cookies@.subrange(0, cookies@.len() as int) =~= cookies@);
    }
    if kept.len() == 0 {
        return None;
    }
    let qs = encode_pairs(&kept);
    let mut out = path.to_owned();
    push_char(&mut out, '?');
    out.append(qs.as_str());
    Some(out)
}

} // verus!
