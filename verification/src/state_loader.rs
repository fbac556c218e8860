//! Per-field resolution of component state. Each field starts from its
//! default, a cookie of the field's name overrides it, and a query
//! parameter overrides both; a reserved sentinel as a query value forces
//! the field to the empty string. When the merged values no longer fit the
//! field shapes of the defaults, the whole state degrades to the defaults.

use vstd::prelude::*;
use crate::params::{lemma_pm_insert_at, pm_get, ParamMap};
use crate::scalar::{
    kind_of,
    parse_scalar,
    parse_value,
    same_kind,
    scalar_str,
    scalar_to_string,
    Scalar,
    ScalarV,
};
use crate::strutil::str_eq;
use crate::view_state::ViewState;

verus! {

/// Query value that explicitly unsets a field.
pub const UNSET_SENTINEL: &'static str = "__HTMOXIDE_UNSET__";

/// View of the unset sentinel.
pub open spec fn sentinel() -> Seq<char> {
    UNSET_SENTINEL@
}

/// One field's merged value: the default, overridden by the parsed cookie
/// value when a cookie exists, overridden by the parsed query value when
/// the field occurs in the query; the sentinel as query value forces the
/// empty string.
pub open spec fn merged_value(
    default: ScalarV,
    cookie: Option<Seq<char>>,
    query: Option<Seq<char>>,
) -> ScalarV {
    let base = match cookie {
        Some(c) => parse_scalar(c),
        None => default,
    };
    match query {
        Some(q) => if q == sentinel() {
            ScalarV::Str(Seq::empty())
        } else {
            parse_scalar(q)
        },
        None => base,
    }
}

/// All fields merged, in the defaults' order.
pub open spec fn resolved_fields(
    defaults: Seq<(Seq<char>, ScalarV)>,
    cookies: Seq<(Seq<char>, Seq<char>)>,
    query: Seq<(Seq<char>, Seq<char>)>,
) -> Seq<(Seq<char>, ScalarV)> {
    Seq::new(
        defaults.len(),
        |i: int|
            (
                defaults[i].0,
                merged_value(
                    defaults[i].1,
                    pm_get(cookies, defaults[i].0),
                    pm_get(query, defaults[i].0),
                ),
            ),
    )
}

/// Whether every merged value still has its field's shape, so that the
/// merged map deserializes back into the state type.
pub open spec fn kinds_match(a: Seq<(Seq<char>, ScalarV)>, b: Seq<(Seq<char>, ScalarV)>) -> bool {
    a.len() == b.len() && forall|i: int|
        0 <= i < a.len() ==> kind_of((#[trigger] a[i]).1) == kind_of(b[i].1)
}

/// The resolved state: the merged fields, or the defaults wholesale when
/// some merged value no longer fits its field's shape.
pub open spec fn resolved_state(
    defaults: Seq<(Seq<char>, ScalarV)>,
    cookies: Seq<(Seq<char>, Seq<char>)>,
    query: Seq<(Seq<char>, Seq<char>)>,
) -> Seq<(Seq<char>, ScalarV)> {
    let m = resolved_fields(defaults, cookies, query);
    if kinds_match(m, defaults) {
        m
    } else {
        defaults
    }
}

/// The raw merged map: every field's merged value, printed.
pub open spec fn raw_entries(
    defaults: Seq<(Seq<char>, ScalarV)>,
    cookies: Seq<(Seq<char>, Seq<char>)>,
    query: Seq<(Seq<char>, Seq<char>)>,
) -> Seq<(Seq<char>, Seq<char>)> {
    Seq::new(
        defaults.len(),
        |i: int|
            (
                resolved_fields(defaults, cookies, query)[i].0,
                scalar_str(resolved_fields(defaults, cookies, query)[i].1),
            ),
    )
}

/// A resolved state together with the raw merged map it was derived from;
/// the raw map feeds cookie persistence and URL building.
#[derive(Debug, PartialEq, Eq)]
pub struct ResolvedState {
    pub state: ViewState,
    pub raw: ParamMap,
}

/// Loads component state from cookies and query parameters over a type's
/// defaults.
#[derive(Debug)]
pub struct StateLoader {
    cookies: ParamMap,
    query_params: ParamMap,
}

impl StateLoader {
    pub closed spec fn spec_cookies(&self) -> Seq<(Seq<char>, Seq<char>)> {
        self.cookies@
    }

    pub closed spec fn spec_query(&self) -> Seq<(Seq<char>, Seq<char>)> {
        self.query_params@
    }

    /// Builds a loader from the request's cookie values and query
    /// parameters.
    pub fn new(cookies: ParamMap, query_params: ParamMap) -> (r: Self)
        ensures
            r.spec_cookies() == cookies@,
            r.spec_query() == query_params@,
    {
        StateLoader { cookies, query_params }
    }

    /// Resolves state over the given defaults: per field, query over cookie
    /// over default; the whole state falls back to the defaults when a
    /// merged value no longer fits its field's shape. Also returns the raw
    /// merged map, which never fails to build.
    pub fn load(&self, defaults: &ViewState) -> (r: ResolvedState)
        requires
            defaults.wf(),
        ensures
            r.state@ == resolved_state(defaults@, self.spec_cookies(), self.spec_query()),
            r.state.wf(),
            r.raw@ == raw_entries(defaults@, self.spec_cookies(), self.spec_query()),
            r.raw.wf(),
    {
        let ghost rf = resolved_fields(defaults@, self.spec_cookies(), self.spec_query());
        let fields = defaults.fields();
        let n = fields.len();
        let mut merged: Vec<(String, Scalar)> = Vec::new();
        let mut ok: bool = true;
        let mut i: usize = 0;
        while i < n
            invariant
                i <= n,
                n == defaults@.len(),
                fields.deep_view() == defaults@,
                n == fields@.len(),
                rf == resolved_fields(defaults@, self.spec_cookies(), self.spec_query()),
                merged.deep_view() =~= rf.subrange(0, i as int),
                ok == (forall|j: int|
                    0 <= j < i ==> kind_of((#[trigger] rf[j]).1) == kind_of(defaults@[j].1)),
            decreases n - i,
        {
            let name: &String = &fields[i].0;
            let defval: &Scalar = &fields[i].1;
            proof {
                assert((name@, defval@) == defaults@[i as int]);
            }
            let mut cur: Scalar = defval.clone();
            match self.cookies.get(name.as_str()) {
                Some(cookie_value) => {
                    cur = parse_value(cookie_value.as_str());
                },
                None => {},
            }
            match self.query_params.get(name.as_str()) {
                Some(query_value) => {
                    if str_eq(query_value.as_str(), UNSET_SENTINEL) {
                        cur = Scalar::Str(String::new());
                    } else {
                        cur = parse_value(query_value.as_str());
                    }
                },
                None => {},
            }
            proof {
                assert(cur@ == merged_value(
                    defaults@[i as int].1,
                    pm_get(self.spec_cookies(), defaults@[i as int].0),
                    pm_get(self.spec_query(), defaults@[i as int].0),
                ));
                assert(rf[i as int] == (defaults@[i as int].0, cur@));
            }
            let matches_kind = same_kind(&cur, defval);
            ok = ok && matches_kind;
            let ghost prev = merged.deep_view();
            merged.push((name.clone(), cur));
            proof {
                assert(merged.deep_view() =~= prev.push(rf[i as int]));
                assert(merged.deep_view() =~= rf.subrange(0, i + 1));
            }
            i += 1;
        }
        proof {
            assert(merged.deep_view() =~= rf);
        }
        // the raw merged map, one entry per field
        let ghost raws = raw_entries(defaults@, self.spec_cookies(), self.spec_query());
        let mut raw = ParamMap::new();
        let mut j: usize = 0;
        while j < merged.len()
            invariant
                j <= merged.len(),
                merged.deep_view() == rf,
                merged@.len() == rf.len(),
                defaults.wf(),
                n == defaults@.len(),
                rf == resolved_fields(defaults@, self.spec_cookies(), self.spec_query()),
                raws == raw_entries(defaults@, self.spec_cookies(), self.spec_query()),
                merged@.len() == n,
                raw.wf(),
                raw@ =~= raws.subrange(0, j as int),
            decreases merged@.len() - j,
        {
            let field_name = merged[j].0.clone();
            let printed = scalar_to_string(&merged[j].1);
            proof {
                assert(field_name@ == rf[j as int].0);
                assert(rf[j as int].0 == defaults@[j as int].0);
                assert(printed@ == raws[j as int].1);
                assert forall|l: int| 0 <= l < raw@.len() implies (#[trigger] raw@[l]).0
                    != field_name@ by {
                    assert(raw@[l].0 == defaults@[l].0);
                    assert(defaults@[l].0 != defaults@[j as int].0);
                }
                lemma_pm_insert_at(raw@, field_name@, printed@, raw@.len() as int);
            }
            let ghost prev_raw = raw@;
            raw.insert(field_name, printed);
            proof {
                assert(raw@ =~= prev_raw.push(raws[j as int]));
                assert(raw@ =~= raws.subrange(0, j + 1));
            }
            j += 1;
        }
        proof {
            assert(raw@ =~= raws);
        }
        let state = if ok {
            proof {
                assert forall|a: int, b: int|
                    0 <= a < b < merged.deep_view().len() implies (#[trigger] merged.deep_view()[
                    a]).0 != (#[trigger] merged.deep_view()[b]).0 by {
                    assert(merged.deep_view()[a].0 == defaults@[a].0);
                    assert(merged.deep_view()[b].0 == defaults@[b].0);
                }
                assert(kinds_match(rf, defaults@));
            }
            ViewState::from_unique_fields(merged)
        } else {
            proof {
                assert(!kinds_match(rf, defaults@));
            }
            defaults.clone()
        };
        ResolvedState { state, raw }
    }
}

/// Per-field precedence: a field resolves from the query when the query
/// names it (the sentinel forcing the empty string), else from its cookie,
/// else to its default.
pub proof fn lemma_field_precedence(
    defaults: Seq<(Seq<char>, ScalarV)>,
    cookies: Seq<(Seq<char>, Seq<char>)>,
    query: Seq<(Seq<char>, Seq<char>)>,
    i: int,
)
    requires
        0 <= i < defaults.len(),
    ensures
        resolved_fields(defaults, cookies, query)[i].0 == defaults[i].0,
        match pm_get(query, defaults[i].0) {
            Some(q) => resolved_fields(defaults, cookies, query)[i].1 == (if q == sentinel() {
                ScalarV::Str(Seq::empty())
            } else {
                parse_scalar(q)
            }),
            None => match pm_get(cookies, defaults[i].0) {
                Some(c) => resolved_fields(defaults, cookies, query)[i].1 == parse_scalar(c),
                None => resolved_fields(defaults, cookies, query)[i].1 == defaults[i].1,
            },
        },
        kinds_match(resolved_fields(defaults, cookies, query), defaults)
            ==> resolved_state(defaults, cookies, query)[i] == resolved_fields(
            defaults,
            cookies,
            query,
        )[i],
{
}

} // verus!
