//! Writing resolved state back to cookies: one cookie per field, scoped to
//! path `/`; a field with a nonempty raw value is set, one with an empty
//! raw value has its cookie removed. This is what makes state durable
//! across requests without every link carrying every parameter.

use vstd::prelude::*;
use crate::params::{
    lemma_pm_get_at,
    lemma_pm_insert_get,
    lemma_pm_insert_unique,
    lemma_pm_remove_get,
    lemma_pm_remove_unique,
    pm_get,
    pm_insert,
    pm_remove,
    unique_keys,
    ParamMap,
};
use crate::scalar::{
    lemma_bool_scalar_stable,
    lemma_int_scalar_stable,
    parse_scalar,
    scalar_str,
    ScalarV,
};
use crate::decimal::lemma_dec_digits_all_digits;
use crate::state_loader::{
    kinds_match,
    raw_entries,
    resolved_fields,
    resolved_state,
    sentinel,
};
use crate::view_state::unique_names;

verus! {

/// One write that the persistence step performs on the cookie jar.
#[derive(Debug, PartialEq, Eq)]
pub enum CookieOp {
    Store(String, String),
    Remove(String),
}

/// Model of a cookie write.
pub enum CookieOpV {
    Store(Seq<char>, Seq<char>),
    Remove(Seq<char>),
}

impl View for CookieOp {
    type V = CookieOpV;

    open spec fn view(&self) -> CookieOpV {
        match self {
            CookieOp::Store(n, v) => CookieOpV::Store(n@, v@),
            CookieOp::Remove(n) => CookieOpV::Remove(n@),
        }
    }
}

impl DeepView for CookieOp {
    type V = CookieOpV;

    open spec fn deep_view(&self) -> CookieOpV {
        self@
    }
}

/// The write one raw entry calls for.
pub open spec fn persist_op(entry: (Seq<char>, Seq<char>)) -> CookieOpV {
    if entry.1.len() > 0 {
        CookieOpV::Store(entry.0, entry.1)
    } else {
        CookieOpV::Remove(entry.0)
    }
}

/// The writes a whole raw map calls for, one per entry, in order.
pub open spec fn persist_ops_of(raw: Seq<(Seq<char>, Seq<char>)>) -> Seq<CookieOpV> {
    Seq::new(raw.len(), |i: int| persist_op(raw[i]))
}

/// The cookie writes for a resolved raw map: set each field with a
/// nonempty value, remove the cookie of each field with an empty one.
pub fn cookie_ops(raw: &ParamMap) -> (r: Vec<CookieOp>)
    ensures
        r.deep_view() == persist_ops_of(raw@),
{
    let entries = raw.entries();
    let mut out: Vec<CookieOp> = Vec::new();
    let mut i: usize = 0;
    while i < entries.len()
        invariant
            i <= entries@.len(),
            entries.deep_view() == raw@,
            out.deep_view() =~= persist_ops_of(raw@).subrange(0, i as int),
        decreases entries@.len() - i,
    {
        let ghost prev = out.deep_view();
        proof {
            assert(raw@[i as int] == (entries@[i as int].0@, entries@[i as int].1@));
        }
        if entries[i].1.as_str().is_empty() {
            out.push(CookieOp::Remove(entries[i].0.clone()));
        } else {
            out.push(CookieOp::Store(entries[i].0.clone(), entries[i].1.clone()));
        }
        proof {
            assert(out.deep_view() =~= prev.push(persist_op(raw@[i as int])));
            assert(out.deep_view() =~= persist_ops_of(raw@).subrange(0, i + 1));
        }
        i += 1;
    }
    proof {
        assert(persist_ops_of(raw@).subrange(0, raw@.len() as int) =~= persist_ops_of(raw@));
    }
    out
}

/// A jar after one write.
pub open spec fn apply_op(jar: Seq<(Seq<char>, Seq<char>)>, op: CookieOpV) -> Seq<
    (Seq<char>, Seq<char>),
> {
    match op {
        CookieOpV::Store(n, v) => pm_insert(jar, n, v),
        CookieOpV::Remove(n) => pm_remove(jar, n),
    }
}

/// A jar after a sequence of writes, applied in order.
pub open spec fn apply_ops(jar: Seq<(Seq<char>, Seq<char>)>, ops: Seq<CookieOpV>) -> Seq<
    (Seq<char>, Seq<char>),
>
    decreases ops.len(),
{
    if ops.len() == 0 {
        jar
    } else {
        apply_ops(apply_op(jar, ops[0]), ops.drop_first())
    }
}

/// Applies cookie writes to a jar held as a parameter map.
pub fn apply_cookie_ops(jar: &mut ParamMap, ops: &Vec<CookieOp>)
    requires
        old(jar).wf(),
    ensures
        final(jar).wf(),
        final(jar)@ == apply_ops(old(jar)@, ops.deep_view()),
{
    let ghost dv = ops.deep_view();
    proof {
        assert(dv.subrange(0, dv.len() as int) =~= dv);
    }
    let mut i: usize = 0;
    while i < ops.len()
        invariant
            i <= ops@.len(),
            dv == ops.deep_view(),
            dv.len() == ops@.len(),
            jar.wf(),
            apply_ops(old(jar)@, dv) == apply_ops(jar@, dv.subrange(i as int, dv.len() as int)),
        decreases ops@.len() - i,
    {
        let ghost suffix = dv.subrange(i as int, dv.len() as int);
        let ghost jar_before = jar@;
        proof {
            assert(suffix[0] == dv[i as int]);
            assert(suffix.drop_first() =~= dv.subrange(i + 1, dv.len() as int));
        }
        match &ops[i] {
            CookieOp::Store(n, v) => {
                jar.insert(n.clone(), v.clone());
            },
            CookieOp::Remove(n) => {
                jar.remove(n.as_str());
            },
        }
        proof {
            assert(jar@ == apply_op(jar_before, dv[i as int]));
            assert(apply_ops(jar_before, suffix) == apply_ops(jar@, suffix.drop_first()));
        }
        i += 1;
    }
    proof {
        assert(dv.subrange(dv.len() as int, dv.len() as int) =~= Seq::<CookieOpV>::empty());
    }
}

/// Sentinel law: when the query carries the unset sentinel for a field,
/// that field's raw value resolves to the empty string and its cookie
/// write is a removal, whatever value its cookie held before.
pub proof fn lemma_sentinel_unsets(
    defaults: Seq<(Seq<char>, ScalarV)>,
    cookies: Seq<(Seq<char>, Seq<char>)>,
    query: Seq<(Seq<char>, Seq<char>)>,
    i: int,
)
    requires
        0 <= i < defaults.len(),
        pm_get(query, defaults[i].0) == Some(sentinel()),
    ensures
        raw_entries(defaults, cookies, query)[i].1 == Seq::<char>::empty(),
        persist_ops_of(raw_entries(defaults, cookies, query))[i] == CookieOpV::Remove(
            defaults[i].0,
        ),
{
    let rf = resolved_fields(defaults, cookies, query);
    assert(rf[i].1 == ScalarV::Str(Seq::empty()));
    assert(scalar_str(rf[i].1) =~= Seq::<char>::empty());
}

/// After the persistence writes, a key reads as its raw value when that is
/// nonempty, as absent when its raw value is empty, and as before for keys
/// the raw map does not mention.
proof fn lemma_apply_persist_get(
    jar: Seq<(Seq<char>, Seq<char>)>,
    raw: Seq<(Seq<char>, Seq<char>)>,
    key: Seq<char>,
)
    requires
        unique_keys(jar),
        unique_keys(raw),
    ensures
        unique_keys(apply_ops(jar, persist_ops_of(raw))),
        pm_get(apply_ops(jar, persist_ops_of(raw)), key) == (match pm_get(raw, key) {
            Some(v) => if v.len() > 0 {
                Some(v)
            } else {
                None::<Seq<char>>
            },
            None => pm_get(jar, key),
        }),
    decreases raw.len(),
{
    let ops = persist_ops_of(raw);
    if raw.len() == 0 {
        assert(ops.len() == 0);
    } else {
        let head = raw[0];
        let jar1 = apply_op(jar, ops[0]);
        assert(ops[0] == persist_op(head));
        if head.1.len() > 0 {
            lemma_pm_insert_unique(jar, head.0, head.1);
            lemma_pm_insert_get(jar, head.0, head.1, key);
        } else {
            lemma_pm_remove_unique(jar, head.0);
            lemma_pm_remove_get(jar, head.0, key);
        }
        let tail = raw.drop_first();
        assert forall|a: int, b: int| 0 <= a < b < tail.len() implies (#[trigger] tail[a]).0
            != (#[trigger] tail[b]).0 by {
            assert(tail[a] == raw[a + 1]);
            assert(tail[b] == raw[b + 1]);
        }
        assert(ops.drop_first() =~= persist_ops_of(tail));
        lemma_apply_persist_get(jar1, tail, key);
        assert(apply_ops(jar, ops) == apply_ops(jar1, ops.drop_first()));
        if head.0 == key {
            assert forall|j: int| 0 <= j < tail.len() implies (#[trigger] tail[j]).0 != key by {
                assert(tail[j] == raw[j + 1]);
            }
            lemma_pm_get_at(tail, key, tail.len() as int);
            assert(pm_get(raw, key) == Some(head.1));
        } else {
            assert(pm_get(raw, key) == pm_get(tail, key));
        }
    }
}

/// The resolution prints and re-reads to itself: every merged value keeps
/// its value through printing, and a merged value that prints empty is its
/// field's default.
pub open spec fn stable_resolution(
    defaults: Seq<(Seq<char>, ScalarV)>,
    cookies: Seq<(Seq<char>, Seq<char>)>,
    query: Seq<(Seq<char>, Seq<char>)>,
) -> bool {
    let rf = resolved_fields(defaults, cookies, query);
    forall|i: int|
        0 <= i < rf.len() ==> {
            let v = (#[trigger] rf[i]).1;
            parse_scalar(scalar_str(v)) == v && (scalar_str(v).len() == 0 ==> v == defaults[i].1)
        }
}

/// A resolution whose merged values are all integers and booleans is
/// stable: such values print nonempty and re-read to themselves.
pub proof fn lemma_machine_resolution_stable(
    defaults: Seq<(Seq<char>, ScalarV)>,
    cookies: Seq<(Seq<char>, Seq<char>)>,
    query: Seq<(Seq<char>, Seq<char>)>,
)
    requires
        forall|i: int|
            0 <= i < resolved_fields(defaults, cookies, query).len() ==> match (#[trigger] resolved_fields(
                defaults,
                cookies,
                query,
            )[i]).1 {
                ScalarV::Int(n) => i64::MIN <= n <= i64::MAX,
                ScalarV::Bool(_) => true,
                ScalarV::Str(_) => false,
            },
    ensures
        stable_resolution(defaults, cookies, query),
{
    let rf = resolved_fields(defaults, cookies, query);
    assert forall|i: int| 0 <= i < rf.len() implies {
        let v = (#[trigger] rf[i]).1;
        parse_scalar(scalar_str(v)) == v && (scalar_str(v).len() == 0 ==> v == defaults[i].1)
    } by {
        match rf[i].1 {
            ScalarV::Int(n) => {
                lemma_int_scalar_stable(n);
                if n >= 0 {
                    lemma_dec_digits_all_digits(n as nat);
                } else {
                    lemma_dec_digits_all_digits((-n) as nat);
                }
            },
            ScalarV::Bool(b) => {
                lemma_bool_scalar_stable(b);
                reveal_strlit("true");
                reveal_strlit("false");
            },
            ScalarV::Str(_) => {},
        }
    }
}

/// Round-trip law: resolving, writing the raw map to the cookie jar, and
/// resolving again with the query now absent yields the same resolved
/// state and the same raw map, provided the first resolution kept every
/// field's shape and is stable under printing.
pub proof fn lemma_persist_resolve_round_trip(
    defaults: Seq<(Seq<char>, ScalarV)>,
    cookies: Seq<(Seq<char>, Seq<char>)>,
    query: Seq<(Seq<char>, Seq<char>)>,
)
    requires
        unique_names(defaults),
        unique_keys(cookies),
        kinds_match(resolved_fields(defaults, cookies, query), defaults),
        stable_resolution(defaults, cookies, query),
    ensures
        ({
            let raw = raw_entries(defaults, cookies, query);
            let jar2 = apply_ops(cookies, persist_ops_of(raw));
            &&& resolved_state(defaults, jar2, Seq::empty()) == resolved_state(
                defaults,
                cookies,
                query,
            )
            &&& raw_entries(defaults, jar2, Seq::empty()) == raw
        }),
{
    let rf = resolved_fields(defaults, cookies, query);
    let raw = raw_entries(defaults, cookies, query);
    let jar2 = apply_ops(cookies, persist_ops_of(raw));
    let rf2 = resolved_fields(defaults, jar2, Seq::empty());
    assert forall|a: int, b: int| 0 <= a < b < raw.len() implies (#[trigger] raw[a]).0
        != (#[trigger] raw[b]).0 by {
        assert(raw[a].0 == defaults[a].0);
        assert(raw[b].0 == defaults[b].0);
        assert(defaults[a].0 != defaults[b].0);
    }
    assert forall|i: int| 0 <= i < defaults.len() implies rf2[i] == rf[i] by {
        let name = defaults[i].0;
        lemma_apply_persist_get(cookies, raw, name);
        assert forall|j: int| 0 <= j < i implies (#[trigger] raw[j]).0 != name by {
            assert(raw[j].0 == defaults[j].0);
        }
        lemma_pm_get_at(raw, name, i);
        assert(pm_get(raw, name) == Some(scalar_str(rf[i].1)));
        assert(pm_get(Seq::<(Seq<char>, Seq<char>)>::empty(), name) is None);
        if scalar_str(rf[i].1).len() > 0 {
            assert(pm_get(jar2, name) == Some(scalar_str(rf[i].1)));
            assert(rf2[i].1 == parse_scalar(scalar_str(rf[i].1)));
            assert(rf2[i].1 == rf[i].1);
        } else {
            assert(pm_get(jar2, name) is None);
            assert(rf2[i].1 == defaults[i].1);
            assert(rf[i].1 == defaults[i].1);
        }
    }
    assert(rf2 =~= rf);
    assert(kinds_match(rf2, defaults));
    assert(resolved_state(defaults, jar2, Seq::empty()) == rf2);
    assert(resolved_state(defaults, cookies, query) == rf);
    assert(raw_entries(defaults, jar2, Seq::empty()) =~= raw);
}

} // verus!
