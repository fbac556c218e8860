//! Character-level string helpers shared by the parsing and building code.

use vstd::prelude::*;

verus! {

/// Relies on String::push: appends exactly one character to the string.
#[verifier::external_body]
pub(crate) fn push_char(s: &mut String, c: char)
    ensures
        final(s)@ == old(s)@ + seq![c],
{
    s.push(c);
}

/// Whether `name` occurs in the list.
pub open spec fn list_has_str(names: Seq<Seq<char>>, name: Seq<char>) -> bool {
    exists|i: int| 0 <= i < names.len() && names[i] == name
}

/// Scans a list of names for `name`.
pub fn list_contains(list: &Vec<String>, name: &str) -> (r: bool)
    ensures
        r == list_has_str(list.deep_view(), name@),
{
    let mut i: usize = 0;
    while i < list.len()
        invariant
            i <= list.len(),
            forall|j: int| 0 <= j < i ==> #[trigger] list.deep_view()[j] != name@,
        decreases list.len() - i,
    {
        if str_eq(list[i].as_str(), name) {
            proof {
                assert(list.deep_view()[i as int] == name@);
            }
            return true;
        }
        i += 1;
    }
    false
}

/// Index of the first occurrence of `c` in `s`, or `s.len()` when `c` does
/// not occur.
pub open spec fn find_char(s: Seq<char>, c: char) -> nat
    decreases s.len(),
{
    if s.len() == 0 {
        0
    } else if s[0] == c {
        0
    } else {
        1 + find_char(s.drop_first(), c)
    }
}

/// What `find_char` returns: the position of the first occurrence, or the
/// length when there is none.
pub proof fn lemma_find_char(s: Seq<char>, c: char)
    ensures
        find_char(s, c) <= s.len(),
        forall|k: int| 0 <= k < find_char(s, c) ==> s[k] != c,
        find_char(s, c) < s.len() ==> s[find_char(s, c) as int] == c,
    decreases s.len(),
{
    if s.len() > 0 && s[0] != c {
        lemma_find_char(s.drop_first(), c);
        assert forall|k: int| 0 <= k < find_char(s, c) implies s[k] != c by {
            if k > 0 {
                assert(s.drop_first()[k - 1] == s[k]);
            }
        }
        if find_char(s, c) < s.len() {
            assert(s.drop_first()[find_char(s.drop_first(), c) as int] == s[find_char(
                s,
                c,
            ) as int]);
        }
    }
}

/// `find_char` is pinned down by exhibiting the first occurrence.
pub proof fn lemma_find_char_at(s: Seq<char>, c: char, k: int)
    requires
        0 <= k <= s.len(),
        forall|j: int| 0 <= j < k ==> s[j] != c,
        k < s.len() ==> s[k] == c,
    ensures
        find_char(s, c) == k,
    decreases s.len(),
{
    if s.len() > 0 {
        if s[0] == c {
            assert(k == 0);
        } else {
            assert(k > 0);
            assert forall|j: int| 0 <= j < k - 1 implies s.drop_first()[j] != c by {
                assert(s.drop_first()[j] == s[j + 1]);
            }
            if k - 1 < s.drop_first().len() {
                assert(s.drop_first()[k - 1] == s[k]);
            }
            lemma_find_char_at(s.drop_first(), c, k - 1);
        }
    }
}

/// Finds the first occurrence of `c` in `s`, scanning left to right.
pub fn find_char_in(s: &str, c: char) -> (i: usize)
    ensures
        i == find_char(s@, c),
{
    let n = s.unicode_len();
    let mut i: usize = 0;
    while i < n
        invariant
            i <= n,
            n == s@.len(),
            forall|k: int| 0 <= k < i ==> s@[k] != c,
        decreases n - i,
    {
        if s.get_char(i) == c {
            proof {
                lemma_find_char_at(s@, c, i as int);
            }
            return i;
        }
        i += 1;
    }
    proof {
        lemma_find_char_at(s@, c, n as int);
    }
    n
}

/// Character-for-character string comparison.
pub fn str_eq(a: &str, b: &str) -> (r: bool)
    ensures
        r == (a@ == b@),
{
    let n = a.unicode_len();
    if n != b.unicode_len() {
        return false;
    }
    let mut i: usize = 0;
    while i < n
        invariant
            n == a@.len(),
            n == b@.len(),
            i <= n,
            forall|k: int| 0 <= k < i ==> a@[k] == b@[k],
        decreases n - i,
    {
        if a.get_char(i) != b.get_char(i) {
            return false;
        }
        i += 1;
    }
    proof {
        assert(a@ =~= b@);
    }
    true
}

} // verus!
