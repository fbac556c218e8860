//! Parameter maps: named textual values coming from a query string or from a
//! cookie jar. Keys are unique; insertion overwrites in place, so the map
//! keeps the order in which keys first appeared.

use vstd::prelude::*;
use crate::strutil::{find_char, find_char_in, lemma_find_char, str_eq};

verus! {

/// Value of `key` in an entry sequence: the first matching entry wins.
pub open spec fn pm_get(ps: Seq<(Seq<char>, Seq<char>)>, key: Seq<char>) -> Option<Seq<char>>
    decreases ps.len(),
{
    if ps.len() == 0 {
        None
    } else if ps[0].0 == key {
        Some(ps[0].1)
    } else {
        pm_get(ps.drop_first(), key)
    }
}

/// Entry sequence after binding `key` to `value`: the first entry with that
/// key is overwritten in place, or a new entry is appended.
pub open spec fn pm_insert(
    ps: Seq<(Seq<char>, Seq<char>)>,
    key: Seq<char>,
    value: Seq<char>,
) -> Seq<(Seq<char>, Seq<char>)>
    decreases ps.len(),
{
    if ps.len() == 0 {
        seq![(key, value)]
    } else if ps[0].0 == key {
        seq![(key, value)] + ps.drop_first()
    } else {
        seq![ps[0]] + pm_insert(ps.drop_first(), key, value)
    }
}

/// Entry sequence after unbinding `key`: the first entry with that key is
/// dropped.
pub open spec fn pm_remove(ps: Seq<(Seq<char>, Seq<char>)>, key: Seq<char>) -> Seq<
    (Seq<char>, Seq<char>),
>
    decreases ps.len(),
{
    if ps.len() == 0 {
        ps
    } else if ps[0].0 == key {
        ps.drop_first()
    } else {
        seq![ps[0]] + pm_remove(ps.drop_first(), key)
    }
}

pub open spec fn unique_keys(ps: Seq<(Seq<char>, Seq<char>)>) -> bool {
    forall|i: int, j: int|
        0 <= i < j < ps.len() ==> (#[trigger] ps[i]).0 != (#[trigger] ps[j]).0
}

/// `pm_get` is pinned down by the position of the first matching entry
/// (`ps.len()` when there is none).
pub proof fn lemma_pm_get_at(ps: Seq<(Seq<char>, Seq<char>)>, key: Seq<char>, i: int)
    requires
        0 <= i <= ps.len(),
        forall|j: int| 0 <= j < i ==> (#[trigger] ps[j]).0 != key,
        i < ps.len() ==> ps[i].0 == key,
    ensures
        pm_get(ps, key) == if i < ps.len() {
            Some(ps[i].1)
        } else {
            None::<Seq<char>>
        },
    decreases ps.len(),
{
    if ps.len() > 0 {
        if ps[0].0 == key {
            assert(i == 0);
        } else {
            assert(i > 0);
            assert forall|j: int| 0 <= j < i - 1 implies (#[trigger] ps.drop_first()[j]).0
                != key by {
                assert(ps.drop_first()[j] == ps[j + 1]);
            }
            if i - 1 < ps.drop_first().len() {
                assert(ps.drop_first()[i - 1] == ps[i]);
            }
            lemma_pm_get_at(ps.drop_first(), key, i - 1);
            if i < ps.len() {
                assert(ps.drop_first()[i - 1] == ps[i]);
            }
        }
    }
}

/// `pm_insert` overwrites the first matching entry in place, or appends.
pub proof fn lemma_pm_insert_at(
    ps: Seq<(Seq<char>, Seq<char>)>,
    key: Seq<char>,
    value: Seq<char>,
    i: int,
)
    requires
        0 <= i <= ps.len(),
        forall|j: int| 0 <= j < i ==> (#[trigger] ps[j]).0 != key,
        i < ps.len() ==> ps[i].0 == key,
    ensures
        pm_insert(ps, key, value) =~= if i < ps.len() {
            ps.update(i, (key, value))
        } else {
            ps.push((key, value))
        },
    decreases ps.len(),
{
    if ps.len() > 0 {
        if ps[0].0 == key {
            assert(i == 0);
        } else {
            assert(i > 0);
            assert forall|j: int| 0 <= j < i - 1 implies (#[trigger] ps.drop_first()[j]).0
                != key by {
                assert(ps.drop_first()[j] == ps[j + 1]);
            }
            if i - 1 < ps.drop_first().len() {
                assert(ps.drop_first()[i - 1] == ps[i]);
            }
            lemma_pm_insert_at(ps.drop_first(), key, value, i - 1);
        }
    }
}

/// `pm_remove` drops the first matching entry, or leaves the map unchanged.
pub proof fn lemma_pm_remove_at(ps: Seq<(Seq<char>, Seq<char>)>, key: Seq<char>, i: int)
    requires
        0 <= i <= ps.len(),
        forall|j: int| 0 <= j < i ==> (#[trigger] ps[j]).0 != key,
        i < ps.len() ==> ps[i].0 == key,
    ensures
        pm_remove(ps, key) =~= if i < ps.len() {
            ps.remove(i)
        } else {
            ps
        },
    decreases ps.len(),
{
    if ps.len() > 0 {
        if ps[0].0 == key {
            assert(i == 0);
        } else {
            assert(i > 0);
            assert forall|j: int| 0 <= j < i - 1 implies (#[trigger] ps.drop_first()[j]).0
                != key by {
                assert(ps.drop_first()[j] == ps[j + 1]);
            }
            if i - 1 < ps.drop_first().len() {
                assert(ps.drop_first()[i - 1] == ps[i]);
            }
            lemma_pm_remove_at(ps.drop_first(), key, i - 1);
        }
    }
}

/// Reading back after an insert: the inserted key yields the new value,
/// every other key is untouched.
pub proof fn lemma_pm_insert_get(
    ps: Seq<(Seq<char>, Seq<char>)>,
    key: Seq<char>,
    value: Seq<char>,
    other: Seq<char>,
)
    ensures
        pm_get(pm_insert(ps, key, value), other) == if other == key {
            Some(value)
        } else {
            pm_get(ps, other)
        },
    decreases ps.len(),
{
    let out = pm_insert(ps, key, value);
    if ps.len() == 0 {
        assert(out == seq![(key, value)]);
        assert(out.drop_first() =~= Seq::<(Seq<char>, Seq<char>)>::empty());
    } else if ps[0].0 == key {
        assert(out == seq![(key, value)] + ps.drop_first());
        assert(out[0] == (key, value));
        assert(out.drop_first() =~= ps.drop_first());
        if other == key {
            assert(pm_get(out, other) == Some(value));
        } else {
            lemma_pm_get_skip_head(ps, other);
            assert(pm_get(out, other) == pm_get(out.drop_first(), other));
        }
    } else {
        assert(out == seq![ps[0]] + pm_insert(ps.drop_first(), key, value));
        assert(out[0] == ps[0]);
        assert(out.drop_first() =~= pm_insert(ps.drop_first(), key, value));
        lemma_pm_insert_get(ps.drop_first(), key, value, other);
        if other == ps[0].0 {
            assert(pm_get(out, other) == Some(ps[0].1));
            assert(pm_get(ps, other) == Some(ps[0].1));
        } else {
            assert(pm_get(out, other) == pm_get(out.drop_first(), other));
            assert(pm_get(ps, other) == pm_get(ps.drop_first(), other));
        }
    }
}

proof fn lemma_pm_get_skip_head(ps: Seq<(Seq<char>, Seq<char>)>, key: Seq<char>)
    requires
        ps.len() > 0,
        ps[0].0 != key,
    ensures
        pm_get(ps, key) == pm_get(ps.drop_first(), key),
{
}

/// Reading back after a removal: the removed key is gone, every other key
/// is untouched (given unique keys).
pub proof fn lemma_pm_remove_get(
    ps: Seq<(Seq<char>, Seq<char>)>,
    key: Seq<char>,
    other: Seq<char>,
)
    requires
        unique_keys(ps),
    ensures
        pm_get(pm_remove(ps, key), other) == if other == key {
            None::<Seq<char>>
        } else {
            pm_get(ps, other)
        },
    decreases ps.len(),
{
    let out = pm_remove(ps, key);
    if ps.len() == 0 {
    } else if ps[0].0 == key {
        assert(out =~= ps.drop_first());
        if other == key {
            let dropped = ps.drop_first();
            assert forall|j: int| 0 <= j < dropped.len() implies (#[trigger] dropped[j]).0
                != key by {
                assert(ps.drop_first()[j] == ps[j + 1]);
            }
            lemma_pm_get_at(ps.drop_first(), key, ps.drop_first().len() as int);
        }
    } else {
        assert(out == seq![ps[0]] + pm_remove(ps.drop_first(), key));
        assert(out[0] == ps[0]);
        assert(out.drop_first() =~= pm_remove(ps.drop_first(), key));
        assert forall|i: int, j: int|
            0 <= i < j < ps.drop_first().len() implies (#[trigger] ps.drop_first()[i]).0
            != (#[trigger] ps.drop_first()[j]).0 by {
            assert(ps.drop_first()[i] == ps[i + 1]);
            assert(ps.drop_first()[j] == ps[j + 1]);
        }
        lemma_pm_remove_get(ps.drop_first(), key, other);
    }
}

/// Index of the first entry with the given key, or `ps.len()` when there
/// is none.
pub open spec fn key_index(ps: Seq<(Seq<char>, Seq<char>)>, key: Seq<char>) -> int
    decreases ps.len(),
{
    if ps.len() == 0 {
        0
    } else if ps[0].0 == key {
        0
    } else {
        1 + key_index(ps.drop_first(), key)
    }
}

pub proof fn lemma_key_index(ps: Seq<(Seq<char>, Seq<char>)>, key: Seq<char>)
    ensures
        0 <= key_index(ps, key) <= ps.len(),
        forall|j: int| 0 <= j < key_index(ps, key) ==> (#[trigger] ps[j]).0 != key,
        key_index(ps, key) < ps.len() ==> ps[key_index(ps, key)].0 == key,
    decreases ps.len(),
{
    if ps.len() > 0 && ps[0].0 != key {
        lemma_key_index(ps.drop_first(), key);
        assert forall|j: int| 0 <= j < key_index(ps, key) implies (#[trigger] ps[j]).0 != key by {
            if j > 0 {
                assert(ps.drop_first()[j - 1] == ps[j]);
            }
        }
        if key_index(ps, key) < ps.len() {
            assert(ps.drop_first()[key_index(ps.drop_first(), key)] == ps[key_index(ps, key)]);
        }
    }
}

/// Inserting keeps keys unique.
pub proof fn lemma_pm_insert_unique(ps: Seq<(Seq<char>, Seq<char>)>, key: Seq<char>, value: Seq<char>)
    requires
        unique_keys(ps),
    ensures
        unique_keys(pm_insert(ps, key, value)),
{
    lemma_key_index(ps, key);
    let i = key_index(ps, key);
    lemma_pm_insert_at(ps, key, value, i);
    let out = pm_insert(ps, key, value);
    if i < ps.len() {
        assert forall|a: int, b: int| 0 <= a < b < out.len() implies (#[trigger] out[a]).0
            != (#[trigger] out[b]).0 by {
            assert(ps[a].0 != ps[b].0);
        }
    } else {
        assert forall|a: int, b: int| 0 <= a < b < out.len() implies (#[trigger] out[a]).0
            != (#[trigger] out[b]).0 by {
            if b < ps.len() {
                assert(ps[a].0 != ps[b].0);
            } else {
                assert(out[b].0 == key);
                assert(ps[a].0 != key);
            }
        }
    }
}

/// Removing keeps keys unique.
pub proof fn lemma_pm_remove_unique(ps: Seq<(Seq<char>, Seq<char>)>, key: Seq<char>)
    requires
        unique_keys(ps),
    ensures
        unique_keys(pm_remove(ps, key)),
{
    lemma_key_index(ps, key);
    let i = key_index(ps, key);
    lemma_pm_remove_at(ps, key, i);
    let out = pm_remove(ps, key);
    if i < ps.len() {
        assert forall|a: int, b: int| 0 <= a < b < out.len() implies (#[trigger] out[a]).0
            != (#[trigger] out[b]).0 by {
            let a0 = if a < i { a } else { a + 1 };
            let b0 = if b < i { b } else { b + 1 };
            assert(out[a] == ps[a0]);
            assert(out[b] == ps[b0]);
            assert(ps[a0].0 != ps[b0].0);
        }
    }
}

/// Mapping from parameter names to textual values, as parsed from a query
/// string or collected from a cookie jar.
#[derive(Debug, PartialEq, Eq)]
pub struct ParamMap {
    entries: Vec<(String, String)>,
}

impl View for ParamMap {
    type V = Seq<(Seq<char>, Seq<char>)>;

    closed spec fn view(&self) -> Seq<(Seq<char>, Seq<char>)> {
        self.entries.deep_view()
    }
}

impl Clone for ParamMap {
    fn clone(&self) -> (r: Self)
        ensures
            r@ == self@,
    {
        let mut entries: Vec<(String, String)> = Vec::new();
        let mut i: usize = 0;
        while i < self.entries.len()
            invariant
                i <= self.entries.len(),
                entries.deep_view() =~= self@.subrange(0, i as int),
            decreases self.entries.len() - i,
        {
            let k = self.entries[i].0.clone();
            let v = self.entries[i].1.clone();
            let ghost prev = entries.deep_view();
            entries.push((k, v));
            proof {
                assert(entries.deep_view() =~= prev.push((k@, v@)));
                assert((k@, v@) == self@[i as int]);
                assert(entries.deep_view() =~= self@.subrange(0, i + 1));
            }
            i += 1;
        }
        proof {
            assert(self@.subrange(0, self@.len() as int) =~= self@);
        }
        ParamMap { entries }
    }
}

impl ParamMap {
    /// Keys are unique.
    pub open spec fn wf(&self) -> bool {
        unique_keys(self@)
    }

    /// An empty map.
    pub fn new() -> (r: Self)
        ensures
            r@ =~= Seq::<(Seq<char>, Seq<char>)>::empty(),
            r.wf(),
    {
        ParamMap { entries: Vec::new() }
    }

    pub fn len(&self) -> (n: usize)
        ensures
            n == self@.len(),
    {
        self.entries.len()
    }

    pub fn is_empty(&self) -> (r: bool)
        ensures
            r == (self@.len() == 0),
    {
        self.entries.len() == 0
    }

    /// The entries, in order.
    pub fn entries(&self) -> (r: &Vec<(String, String)>)
        ensures
            r.deep_view() == self@,
    {
        &self.entries
    }

    /// Looks the value of `key` up.
    pub fn get<'a>(&'a self, key: &str) -> (r: Option<&'a String>)
        ensures
            match r {
                Some(v) => pm_get(self@, key@) == Some(v@),
                None => pm_get(self@, key@) is None,
            },
    {
        let mut i: usize = 0;
        while i < self.entries.len()
            invariant
                i <= self@.len(),
                self@.len() == self.entries@.len(),
                forall|j: int| 0 <= j < i ==> (#[trigger] self@[j]).0 != key@,
            decreases self@.len() - i,
        {
            if str_eq(self.entries[i].0.as_str(), key) {
                proof {
                    lemma_pm_get_at(self@, key@, i as int);
                }
                return Some(&self.entries[i].1);
            }
            i += 1;
        }
        proof {
            lemma_pm_get_at(self@, key@, self@.len() as int);
        }
        None
    }

    /// Binds `key` to `value`, overwriting in place if the key is present.
    pub fn insert(&mut self, key: String, value: String)
        requires
            old(self).wf(),
        ensures
            final(self).wf(),
            final(self)@ == pm_insert(old(self)@, key@, value@),
    {
        let ghost ps = self@;
        let mut i: usize = 0;
        while i < self.entries.len()
            invariant
                ps == old(self)@,
                self@ == ps,
                i <= ps.len(),
                ps.len() == self.entries@.len(),
                unique_keys(ps),
                forall|j: int| 0 <= j < i ==> (#[trigger] ps[j]).0 != key@,
            decreases ps.len() - i,
        {
            if str_eq(self.entries[i].0.as_str(), key.as_str()) {
                proof {
                    lemma_pm_insert_at(ps, key@, value@, i as int);
                }
                self.entries[i] = (key, value);
                proof {
                    assert(self@ =~= ps.update(i as int, (key@, value@)));
                    assert forall|a: int, b: int|
                        0 <= a < b < self@.len() implies (#[trigger] self@[a]).0
                        != (#[trigger] self@[b]).0 by {
                        assert(ps[a].0 != ps[b].0);
                    }
                }
                return ;
            }
            i += 1;
        }
        proof {
            lemma_pm_insert_at(ps, key@, value@, ps.len() as int);
        }
        self.entries.push((key, value));
        proof {
            assert(self@ =~= ps.push((key@, value@)));
            assert forall|a: int, b: int|
                0 <= a < b < self@.len() implies (#[trigger] self@[a]).0 != (#[trigger] self@[b]).0
            by {
                if b < ps.len() {
                    assert(ps[a].0 != ps[b].0);
                } else {
                    assert(self@[b].0 == key@);
                    assert(ps[a].0 != key@);
                }
            }
        }
    }

    /// Unbinds `key`, if present.
    pub fn remove(&mut self, key: &str)
        requires
            old(self).wf(),
        ensures
            final(self).wf(),
            final(self)@ == pm_remove(old(self)@, key@),
    {
        let ghost ps = self@;
        let mut i: usize = 0;
        while i < self.entries.len()
            invariant
                ps == old(self)@,
                self@ == ps,
                i <= ps.len(),
                ps.len() == self.entries@.len(),
                unique_keys(ps),
                forall|j: int| 0 <= j < i ==> (#[trigger] ps[j]).0 != key@,
            decreases ps.len() - i,
        {
            if str_eq(self.entries[i].0.as_str(), key) {
                proof {
                    lemma_pm_remove_at(ps, key@, i as int);
                }
                self.entries.remove(i);
                proof {
                    assert(self@ =~= ps.remove(i as int));
                    assert forall|a: int, b: int|
                        0 <= a < b < self@.len() implies (#[trigger] self@[a]).0
                        != (#[trigger] self@[b]).0 by {
                        let a0 = if a < i { a } else { a + 1 };
                        let b0 = if b < i { b } else { b + 1 };
                        assert(self@[a] == ps[a0]);
                        assert(self@[b] == ps[b0]);
                        assert(ps[a0].0 != ps[b0].0);
                    }
                }
                return ;
            }
            i += 1;
        }
        proof {
            lemma_pm_remove_at(ps, key@, ps.len() as int);
        }
    }
}

/// Key/value pairs of one `&`-separated query-string segment: none when the
/// segment or its key is empty, else the part before the first `=` and the
/// part after it (empty when there is no `=`).
pub open spec fn segment_pairs(seg: Seq<char>) -> Seq<(Seq<char>, Seq<char>)> {
    if seg.len() == 0 {
        Seq::empty()
    } else {
        let j = find_char(seg, '=') as int;
        if j == 0 {
            Seq::empty()
        } else {
            let key = seg.subrange(0, j);
            let value = if j == seg.len() {
                Seq::<char>::empty()
            } else {
                seg.subrange(j + 1, seg.len() as int)
            };
            seq![(key, value)]
        }
    }
}

/// Key/value pairs of a whole query string, in order of appearance.
pub open spec fn query_pairs(q: Seq<char>) -> Seq<(Seq<char>, Seq<char>)>
    decreases q.len(),
    via query_pairs_decreases
{
    if q.len() == 0 {
        Seq::empty()
    } else {
        let i = find_char(q, '&') as int;
        let seg = q.subrange(0, i);
        let rest = if i == q.len() {
            Seq::<char>::empty()
        } else {
            q.subrange(i + 1, q.len() as int)
        };
        segment_pairs(seg) + query_pairs(rest)
    }
}

#[via_fn]
proof fn query_pairs_decreases(q: Seq<char>) {
    if q.len() > 0 {
        lemma_find_char(q, '&');
    }
}

/// Map after binding the pairs of `extra` over `ps`, left to right: a key
/// bound several times keeps its last value.
pub open spec fn overlay(
    ps: Seq<(Seq<char>, Seq<char>)>,
    extra: Seq<(Seq<char>, Seq<char>)>,
) -> Seq<(Seq<char>, Seq<char>)>
    decreases extra.len(),
{
    if extra.len() == 0 {
        ps
    } else {
        pm_insert(overlay(ps, extra.drop_last()), extra.last().0, extra.last().1)
    }
}

/// The map described by a pair sequence alone.
pub open spec fn pairs_fold(ps: Seq<(Seq<char>, Seq<char>)>) -> Seq<(Seq<char>, Seq<char>)> {
    overlay(Seq::empty(), ps)
}

pub proof fn lemma_overlay_snoc(
    ps: Seq<(Seq<char>, Seq<char>)>,
    extra: Seq<(Seq<char>, Seq<char>)>,
    p: (Seq<char>, Seq<char>),
)
    ensures
        overlay(ps, extra + seq![p]) == pm_insert(overlay(ps, extra), p.0, p.1),
{
    assert((extra + seq![p]).drop_last() =~= extra);
    assert((extra + seq![p]).last() == p);
}

proof fn lemma_pairs_fold_snoc(ps: Seq<(Seq<char>, Seq<char>)>, p: (Seq<char>, Seq<char>))
    ensures
        pairs_fold(ps + seq![p]) == pm_insert(pairs_fold(ps), p.0, p.1),
{
    lemma_overlay_snoc(Seq::empty(), ps, p);
}

/// The last value bound to `key` in a pair sequence, scanning it as written.
pub open spec fn pairs_last_value(ps: Seq<(Seq<char>, Seq<char>)>, key: Seq<char>) -> Option<
    Seq<char>,
>
    decreases ps.len(),
{
    if ps.len() == 0 {
        None
    } else if ps.last().0 == key {
        Some(ps.last().1)
    } else {
        pairs_last_value(ps.drop_last(), key)
    }
}

/// Overlaying pairs over a map: a key the pairs bind ends at its last bound
/// value; every other key keeps its prior value.
pub proof fn lemma_overlay_get(
    ps: Seq<(Seq<char>, Seq<char>)>,
    extra: Seq<(Seq<char>, Seq<char>)>,
    key: Seq<char>,
)
    ensures
        pm_get(overlay(ps, extra), key) == match pairs_last_value(extra, key) {
            Some(v) => Some(v),
            None => pm_get(ps, key),
        },
    decreases extra.len(),
{
    if extra.len() > 0 {
        lemma_pm_insert_get(overlay(ps, extra.drop_last()), extra.last().0, extra.last().1, key);
        lemma_overlay_get(ps, extra.drop_last(), key);
    }
}

/// In a parsed query string a repeated key resolves to its last occurrence.
pub proof fn lemma_pairs_fold_get(ps: Seq<(Seq<char>, Seq<char>)>, key: Seq<char>)
    ensures
        pm_get(pairs_fold(ps), key) == pairs_last_value(ps, key),
{
    lemma_overlay_get(Seq::empty(), ps, key);
    if pairs_last_value(ps, key) is None {
        lemma_pm_get_at(Seq::empty(), key, 0);
    }
}

/// Splits a query string on `&`, then each segment once on `=`; segments
/// without a key are dropped, and a repeated key keeps its last value.
pub fn parse_query_string(query: &str) -> (r: ParamMap)
    ensures
        r.wf(),
        r@ == pairs_fold(query_pairs(query@)),
{
    let n = query.unicode_len();
    let mut pm = ParamMap::new();
    let ghost mut done: Seq<(Seq<char>, Seq<char>)> = Seq::empty();
    let mut pos: usize = 0;
    proof {
        assert(query@.subrange(0, n as int) =~= query@);
        assert(done + query_pairs(query@.subrange(0, n as int)) =~= query_pairs(query@));
        assert(pm@ =~= pairs_fold(done));
    }
    loop
        invariant_except_break
            n == query@.len(),
            pos <= n,
            pm.wf(),
            pm@ == pairs_fold(done),
            done + query_pairs(query@.subrange(pos as int, n as int)) =~= query_pairs(query@),
        ensures
            pm.wf(),
            pm@ == pairs_fold(query_pairs(query@)),
        decreases n - pos,
    {
        let ghost restv = query@.subrange(pos as int, n as int);
        let rest = query.substring_char(pos, n);
        let i_rel = find_char_in(rest, '&');
        proof {
            lemma_find_char(rest@, '&');
        }
        let seg = rest.substring_char(0, i_rel);
        let ghost segv = restv.subrange(0, i_rel as int);
        proof {
            assert(seg@ =~= segv);
        }
        let j = find_char_in(seg, '=');
        proof {
            lemma_find_char(seg@, '=');
        }
        if i_rel > 0 && j > 0 {
            let key = seg.substring_char(0, j).to_owned();
            let value = if j < i_rel {
                seg.substring_char(j + 1, i_rel).to_owned()
            } else {
                String::new()
            };
            proof {
                assert(segment_pairs(segv) =~= seq![(key@, value@)]);
                lemma_pairs_fold_snoc(done, (key@, value@));
            }
            pm.insert(key, value);
        } else {
            proof {
                assert(segment_pairs(segv) =~= Seq::<(Seq<char>, Seq<char>)>::empty());
                assert(done + segment_pairs(segv) =~= done);
            }
        }
        proof {
            done = done + segment_pairs(segv);
            assert(pm@ == pairs_fold(done));
            assert(query_pairs(restv) == segment_pairs(segv) + query_pairs(
                if i_rel == restv.len() {
                    Seq::<char>::empty()
                } else {
                    restv.subrange(i_rel as int + 1, restv.len() as int)
                },
            ));
        }
        if pos + i_rel == n {
            proof {
                assert(i_rel == restv.len());
                assert(query_pairs(restv) =~= segment_pairs(segv));
                assert(done =~= query_pairs(query@));
            }
            break ;
        }
        proof {
            assert(i_rel < restv.len());
            assert(restv.subrange(i_rel as int + 1, restv.len() as int) =~= query@.subrange(
                pos + i_rel + 1,
                n as int,
            ));
            assert(done + query_pairs(query@.subrange(pos + i_rel + 1, n as int))
                =~= query_pairs(query@));
        }
        pos = pos + i_rel + 1;
    }
    pm
}

} // verus!
