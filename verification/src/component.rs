//! Component registration: records collected at startup, checked for route
//! collisions, and frozen into a read-only table before serving begins.
//! Also the naming helpers used when a component is declared: deriving its
//! route path and its PascalCase marker name.

use vstd::prelude::*;
use crate::strutil::{find_char, find_char_in, lemma_find_char, push_char, str_eq};

verus! {

/// One registered component: its name, route path and HTTP method.
#[derive(Debug)]
pub struct ComponentRecord {
    pub name: String,
    pub path: String,
    pub method: String,
}

impl View for ComponentRecord {
    type V = (Seq<char>, Seq<char>, Seq<char>);

    open spec fn view(&self) -> (Seq<char>, Seq<char>, Seq<char>) {
        (self.name@, self.path@, self.method@)
    }
}

impl DeepView for ComponentRecord {
    type V = (Seq<char>, Seq<char>, Seq<char>);

    open spec fn deep_view(&self) -> (Seq<char>, Seq<char>, Seq<char>) {
        self@
    }
}

impl Clone for ComponentRecord {
    fn clone(&self) -> (r: Self)
        ensures
            r@ == self@,
    {
        ComponentRecord {
            name: self.name.clone(),
            path: self.path.clone(),
            method: self.method.clone(),
        }
    }
}

impl ComponentRecord {
    pub fn new(name: String, path: String, method: String) -> (r: Self)
        ensures
            r@ == (name@, path@, method@),
    {
        ComponentRecord { name, path, method }
    }
}

/// Two records collide when they claim the same path and method.
pub open spec fn records_collide(
    a: (Seq<char>, Seq<char>, Seq<char>),
    b: (Seq<char>, Seq<char>, Seq<char>),
) -> bool {
    a.1 == b.1 && a.2 == b.2
}

pub open spec fn no_collisions(rs: Seq<(Seq<char>, Seq<char>, Seq<char>)>) -> bool {
    forall|i: int, j: int|
        0 <= i < j < rs.len() ==> !records_collide(#[trigger] rs[i], #[trigger] rs[j])
}

/// A collision found at startup: the path and method two records share.
#[derive(Debug)]
pub struct RouteCollision {
    pub path: String,
    pub method: String,
}

/// The registry while it is being populated at startup.
#[derive(Debug)]
pub struct ComponentRegistry {
    records: Vec<ComponentRecord>,
}

/// The read-only route table served from: collision-free by construction.
#[derive(Debug)]
pub struct FrozenRegistry {
    records: Vec<ComponentRecord>,
}

impl ComponentRegistry {
    pub closed spec fn spec_records(&self) -> Seq<(Seq<char>, Seq<char>, Seq<char>)> {
        self.records.deep_view()
    }

    /// An empty registry.
    pub fn new() -> (r: Self)
        ensures
            r.spec_records() =~= Seq::<(Seq<char>, Seq<char>, Seq<char>)>::empty(),
    {
        ComponentRegistry { records: Vec::new() }
    }

    /// Adds one component record.
    pub fn register(&mut self, record: ComponentRecord)
        ensures
            final(self).spec_records() == old(self).spec_records().push(record@),
    {
        let ghost prev = self.spec_records();
        self.records.push(record);
        proof {
            assert(self.spec_records() =~= prev.push(self.records@.last()@));
        }
    }

    pub fn len(&self) -> (n: usize)
        ensures
            n == self.spec_records().len(),
    {
        self.records.len()
    }

    /// Checks the collected records and freezes them into the route table;
    /// a collision (two records with one path and method) is reported
    /// instead, with the shared path and method.
    pub fn freeze(self) -> (r: Result<FrozenRegistry, RouteCollision>)
        ensures
            match r {
                Ok(f) => f.spec_records() == self.spec_records() && no_collisions(
                    self.spec_records(),
                ),
                Err(e) => !no_collisions(self.spec_records()) && (exists|i: int, j: int|
                    0 <= i < j < self.spec_records().len() && records_collide(
                        #[trigger] self.spec_records()[i],
                        #[trigger] self.spec_records()[j],
                    ) && self.spec_records()[i].1 == e.path@ && self.spec_records()[i].2
                        == e.method@),
            },
    {
        let ghost rs = self.spec_records();
        let n = self.records.len();
        let mut i: usize = 0;
        while i < n
            invariant
                i <= n,
                n == rs.len(),
                rs == self.spec_records(),
                n == self.records.len(),
                forall|a: int, b: int|
                    0 <= a < b < rs.len() && a < i ==> !records_collide(
                        #[trigger] rs[a],
                        #[trigger] rs[b],
                    ),
            decreases n - i,
        {
            let mut j: usize = i + 1;
            while j < n
                invariant
                    i < j <= n,
                    n == rs.len(),
                    rs == self.spec_records(),
                    n == self.records.len(),
                    forall|b: int| i < b < j ==> !records_collide(rs[i as int], #[trigger] rs[b]),
                decreases n - j,
            {
                let same_path = str_eq(
                    self.records[i].path.as_str(),
                    self.records[j].path.as_str(),
                );
                let same_method = str_eq(
                    self.records[i].method.as_str(),
                    self.records[j].method.as_str(),
                );
                if same_path && same_method {
                    proof {
                        assert(records_collide(rs[i as int], rs[j as int]));
                    }
                    return Err(
                        RouteCollision {
                            path: self.records[i].path.clone(),
                            method: self.records[i].method.clone(),
                        },
                    );
                }
                j += 1;
            }
            i += 1;
        }
        Ok(FrozenRegistry { records: self.records })
    }
}

impl FrozenRegistry {
    pub closed spec fn spec_records(&self) -> Seq<(Seq<char>, Seq<char>, Seq<char>)> {
        self.records.deep_view()
    }

    /// Every frozen registry is collision-free.
    pub open spec fn wf(&self) -> bool {
        no_collisions(self.spec_records())
    }

    /// The route table, in registration order.
    pub fn records(&self) -> (r: &Vec<ComponentRecord>)
        ensures
            r.deep_view() == self.spec_records(),
    {
        &self.records
    }
}

/// The route path a component declaration derives: an explicit path after
/// an optional prefix, or the prefix (or nothing) before `/` and the
/// component's function name.
pub open spec fn derived_route(
    fn_name: Seq<char>,
    prefix: Option<Seq<char>>,
    path: Option<Seq<char>>,
) -> Seq<char> {
    match (prefix, path) {
        (Some(p), Some(q)) => p + q,
        (Some(p), None) => p + seq!['/'] + fn_name,
        (None, Some(q)) => q,
        (None, None) => seq!['/'] + fn_name,
    }
}

/// Derives a component's route path from its function name and the
/// declared prefix and path, if any.
pub fn derive_route(fn_name: &str, prefix: Option<&str>, path: Option<&str>) -> (r: String)
    ensures
        r@ == derived_route(
            fn_name@,
            match prefix {
                Some(p) => Some(p@),
                None => None,
            },
            match path {
                Some(q) => Some(q@),
                None => None,
            },
        ),
{
    match (prefix, path) {
        (Some(p), Some(q)) => {
            let mut out = p.to_owned();
            out.append(q);
            out
        },
        (Some(p), None) => {
            let mut out = p.to_owned();
            push_char(&mut out, '/');
            out.append(fn_name);
            out
        },
        (None, Some(q)) => q.to_owned(),
        (None, None) => {
            let mut out = String::new();
            push_char(&mut out, '/');
            out.append(fn_name);
            out
        },
    }
}

/// The HTTP method a component declaration derives: the declared one, or
/// `GET`.
pub fn derive_method(method: Option<&str>) -> (r: String)
    ensures
        r@ == match method {
            Some(m) => m@,
            None => "GET"@,
        },
{
    match method {
        Some(m) => m.to_owned(),
        None => String::from_str("GET"),
    }
}

/// Uppercases an ASCII lowercase letter; leaves any other character alone.
pub open spec fn ascii_upper(c: char) -> char {
    if c == 'a' {
        'A'
    } else if c == 'b' {
        'B'
    } else if c == 'c' {
        'C'
    } else if c == 'd' {
        'D'
    } else if c == 'e' {
        'E'
    } else if c == 'f' {
        'F'
    } else if c == 'g' {
        'G'
    } else if c == 'h' {
        'H'
    } else if c == 'i' {
        'I'
    } else if c == 'j' {
        'J'
    } else if c == 'k' {
        'K'
    } else if c == 'l' {
        'L'
    } else if c == 'm' {
        'M'
    } else if c == 'n' {
        'N'
    } else if c == 'o' {
        'O'
    } else if c == 'p' {
        'P'
    } else if c == 'q' {
        'Q'
    } else if c == 'r' {
        'R'
    } else if c == 's' {
        'S'
    } else if c == 't' {
        'T'
    } else if c == 'u' {
        'U'
    } else if c == 'v' {
        'V'
    } else if c == 'w' {
        'W'
    } else if c == 'x' {
        'X'
    } else if c == 'y' {
        'Y'
    } else if c == 'z' {
        'Z'
    } else {
        c
    }
}

fn ascii_upper_exec(c: char) -> (r: char)
    ensures
        r == ascii_upper(c),
{
    if c == 'a' {
        'A'
    } else if c == 'b' {
        'B'
    } else if c == 'c' {
        'C'
    } else if c == 'd' {
        'D'
    } else if c == 'e' {
        'E'
    } else if c == 'f' {
        'F'
    } else if c == 'g' {
        'G'
    } else if c == 'h' {
        'H'
    } else if c == 'i' {
        'I'
    } else if c == 'j' {
        'J'
    } else if c == 'k' {
        'K'
    } else if c == 'l' {
        'L'
    } else if c == 'm' {
        'M'
    } else if c == 'n' {
        'N'
    } else if c == 'o' {
        'O'
    } else if c == 'p' {
        'P'
    } else if c == 'q' {
        'Q'
    } else if c == 'r' {
        'R'
    } else if c == 's' {
        'S'
    } else if c == 't' {
        'T'
    } else if c == 'u' {
        'U'
    } else if c == 'v' {
        'V'
    } else if c == 'w' {
        'W'
    } else if c == 'x' {
        'X'
    } else if c == 'y' {
        'Y'
    } else if c == 'z' {
        'Z'
    } else {
        c
    }
}

/// A word with its first character uppercased (ASCII).
pub open spec fn capitalized(word: Seq<char>) -> Seq<char> {
    if word.len() == 0 {
        word
    } else {
        seq![ascii_upper(word[0])] + word.drop_first()
    }
}

/// `snake_case` turned `PascalCase`: the words between `_` separators,
/// each with its first character uppercased (ASCII), joined without
/// separators.
pub open spec fn pascal_of(s: Seq<char>) -> Seq<char>
    decreases s.len(),
    via pascal_of_decreases
{
    if s.len() == 0 {
        Seq::empty()
    } else {
        let i = find_char(s, '_') as int;
        capitalized(s.subrange(0, i)) + if i == s.len() {
            Seq::<char>::empty()
        } else {
            pascal_of(s.subrange(i + 1, s.len() as int))
        }
    }
}

#[via_fn]
proof fn pascal_of_decreases(s: Seq<char>) {
    if s.len() > 0 {
        lemma_find_char(s, '_');
    }
}

/// Turns a snake_case component name into the PascalCase name of its
/// marker type.
pub fn to_pascal_case(s: &str) -> (r: String)
    ensures
        r@ == pascal_of(s@),
{
    let n = s.unicode_len();
    let mut out = String::new();
    let mut pos: usize = 0;
    if n == 0 {
        return out;
    }
    proof {
        assert(s@.subrange(0, n as int) =~= s@);
        assert(out@ + pascal_of(s@) =~= pascal_of(s@));
    }
    loop
        invariant_except_break
            n == s@.len(),
            pos < n,
            out@ + pascal_of(s@.subrange(pos as int, n as int)) =~= pascal_of(s@),
        ensures
            out@ == pascal_of(s@),
        decreases n - pos,
    {
        let ghost restv = s@.subrange(pos as int, n as int);
        let rest = s.substring_char(pos, n);
        let i_rel = find_char_in(rest, '_');
        proof {
            lemma_find_char(rest@, '_');
        }
        if i_rel > 0 {
            let word = rest.substring_char(0, i_rel);
            let first = ascii_upper_exec(word.get_char(0));
            push_char(&mut out, first);
            let tail = word.substring_char(1, i_rel);
            out.append(tail);
            proof {
                assert(word@ =~= restv.subrange(0, i_rel as int));
                assert(seq![ascii_upper(word@[0])] + word@.drop_first() =~= seq![first] + tail@);
                assert(capitalized(restv.subrange(0, i_rel as int)) =~= seq![first] + tail@);
            }
        } else {
            proof {
                assert(capitalized(restv.subrange(0, 0)) =~= Seq::<char>::empty());
            }
        }
        if pos + i_rel == n {
            proof {
                assert(i_rel == restv.len());
                assert(pascal_of(restv) =~= capitalized(restv.subrange(0, i_rel as int)));
            }
            break ;
        }
        proof {
            assert(i_rel < restv.len());
            assert(restv.subrange(i_rel as int + 1, restv.len() as int) =~= s@.subrange(
                pos + i_rel + 1,
                n as int,
            ));
            assert(pascal_of(restv) =~= capitalized(restv.subrange(0, i_rel as int)) + pascal_of(
                s@.subrange(pos + i_rel + 1, n as int),
            ));
        }
        pos = pos + i_rel + 1;
        if pos == n {
            // the name ended in a separator; the trailing word is empty
            proof {
                assert(s@.subrange(n as int, n as int) =~= Seq::<char>::empty());
                assert(pascal_of(Seq::<char>::empty()) =~= Seq::<char>::empty());
            }
            break ;
        }
    }
    out
}

} // verus!
