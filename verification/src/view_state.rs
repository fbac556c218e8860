//! A component's configuration: named scalar fields with default values.
//! The field set and defaults act as the component's schema; resolution
//! overlays cookie and query values on top of them field by field.

use vstd::prelude::*;
use crate::scalar::{Scalar, ScalarV};
use crate::strutil::str_eq;

verus! {

/// Unique field names.
pub open spec fn unique_names(fs: Seq<(Seq<char>, ScalarV)>) -> bool {
    forall|i: int, j: int|
        0 <= i < j < fs.len() ==> (#[trigger] fs[i]).0 != (#[trigger] fs[j]).0
}

pub open spec fn has_name(fs: Seq<(Seq<char>, ScalarV)>, name: Seq<char>) -> bool {
    exists|i: int| 0 <= i < fs.len() && (#[trigger] fs[i]).0 == name
}

/// The field sequence with later duplicates of a name dropped: the first
/// occurrence wins.
pub open spec fn dedup_fields(fs: Seq<(Seq<char>, ScalarV)>) -> Seq<(Seq<char>, ScalarV)>
    decreases fs.len(),
{
    if fs.len() == 0 {
        Seq::empty()
    } else {
        let prev = dedup_fields(fs.drop_last());
        if has_name(prev, fs.last().0) {
            prev
        } else {
            prev + seq![fs.last()]
        }
    }
}

/// Value of the field named `name`, if any.
pub open spec fn field_value(fs: Seq<(Seq<char>, ScalarV)>, name: Seq<char>) -> Option<ScalarV>
    decreases fs.len(),
{
    if fs.len() == 0 {
        None
    } else if fs[0].0 == name {
        Some(fs[0].1)
    } else {
        field_value(fs.drop_first(), name)
    }
}

/// `field_value` is pinned down by the position of the first field with the
/// name (`fs.len()` when there is none).
pub proof fn lemma_field_value_at(fs: Seq<(Seq<char>, ScalarV)>, name: Seq<char>, i: int)
    requires
        0 <= i <= fs.len(),
        forall|j: int| 0 <= j < i ==> (#[trigger] fs[j]).0 != name,
        i < fs.len() ==> fs[i].0 == name,
    ensures
        field_value(fs, name) == if i < fs.len() {
            Some(fs[i].1)
        } else {
            None::<ScalarV>
        },
    decreases fs.len(),
{
    if fs.len() > 0 {
        if fs[0].0 == name {
            assert(i == 0);
        } else {
            assert(i > 0);
            assert forall|j: int| 0 <= j < i - 1 implies (#[trigger] fs.drop_first()[j]).0
                != name by {
                assert(fs.drop_first()[j] == fs[j + 1]);
            }
            if i - 1 < fs.drop_first().len() {
                assert(fs.drop_first()[i - 1] == fs[i]);
            }
            lemma_field_value_at(fs.drop_first(), name, i - 1);
        }
    }
}

/// A component's typed configuration snapshot: named scalar fields, each
/// with a well-defined value, names unique.
#[derive(Debug, PartialEq, Eq)]
pub struct ViewState {
    fields: Vec<(String, Scalar)>,
}

impl View for ViewState {
    type V = Seq<(Seq<char>, ScalarV)>;

    closed spec fn view(&self) -> Seq<(Seq<char>, ScalarV)> {
        self.fields.deep_view()
    }
}

impl Clone for ViewState {
    fn clone(&self) -> (r: Self)
        ensures
            r@ == self@,
    {
        let mut fields: Vec<(String, Scalar)> = Vec::new();
        let mut i: usize = 0;
        while i < self.fields.len()
            invariant
                i <= self.fields.len(),
                fields.deep_view() =~= self@.subrange(0, i as int),
            decreases self.fields.len() - i,
        {
            let k = self.fields[i].0.clone();
            let v = self.fields[i].1.clone();
            let ghost prev = fields.deep_view();
            fields.push((k, v));
            proof {
                assert(fields.deep_view() =~= prev.push((k@, v@)));
                assert((k@, v@) == self@[i as int]);
                assert(fields.deep_view() =~= self@.subrange(0, i + 1));
            }
            i += 1;
        }
        proof {
            assert(self@.subrange(0, self@.len() as int) =~= self@);
        }
        ViewState { fields }
    }
}

fn fields_contain_name(fields: &Vec<(String, Scalar)>, name: &str) -> (r: bool)
    ensures
        r == has_name(fields.deep_view(), name@),
{
    let mut i: usize = 0;
    while i < fields.len()
        invariant
            i <= fields.len(),
            forall|j: int| 0 <= j < i ==> (#[trigger] fields.deep_view()[j]).0 != name@,
        decreases fields.len() - i,
    {
        if str_eq(fields[i].0.as_str(), name) {
            proof {
                assert(fields.deep_view()[i as int].0 == name@);
            }
            return true;
        }
        i += 1;
    }
    false
}

impl ViewState {
    /// Field names are unique.
    pub open spec fn wf(&self) -> bool {
        unique_names(self@)
    }

    /// Builds a state from named defaults; a repeated name keeps its first
    /// value. A type with no fields simply yields an empty state.
    pub fn new(fields: Vec<(String, Scalar)>) -> (r: Self)
        ensures
            r.wf(),
            r@ == dedup_fields(fields.deep_view()),
    {
        let ghost all = fields.deep_view();
        let mut out: Vec<(String, Scalar)> = Vec::new();
        let mut i: usize = 0;
        while i < fields.len()
            invariant
                i <= fields.len(),
                all == fields.deep_view(),
                all.len() == fields.len(),
                out.deep_view() =~= dedup_fields(all.subrange(0, i as int)),
                unique_names(out.deep_view()),
            decreases fields.len() - i,
        {
            proof {
                assert(all.subrange(0, i + 1).drop_last() =~= all.subrange(0, i as int));
                assert(all.subrange(0, i + 1).last() == all[i as int]);
            }
            let name = &fields[i].0;
            proof {
                assert(name@ == all[i as int].0);
            }
            let present = fields_contain_name(&out, name.as_str());
            if !present {
                let k = name.clone();
                let v = fields[i].1.clone();
                let ghost prev = out.deep_view();
                proof {
                    assert(!has_name(prev, k@));
                }
                out.push((k, v));
                proof {
                    let dv = out.deep_view();
                    assert(dv =~= prev.push((k@, v@)));
                    assert((k@, v@) == all[i as int]);
                    assert(dv =~= dedup_fields(all.subrange(0, i + 1)));
                    assert forall|a: int, b: int|
                        0 <= a < b < dv.len() implies (#[trigger] dv[a]).0 != (#[trigger] dv[b]).0
                    by {
                        if b == prev.len() {
                            assert(!has_name(prev, k@));
                            assert(prev[a].0 != k@);
                        } else {
                            assert(prev[a].0 != prev[b].0);
                        }
                    }
                }
            } else {
                proof {
                    assert(has_name(dedup_fields(all.subrange(0, i as int)), all[i as int].0));
                    assert(out.deep_view() =~= dedup_fields(all.subrange(0, i + 1)));
                }
            }
            i += 1;
        }
        proof {
            assert(all.subrange(0, all.len() as int) =~= all);
        }
        ViewState { fields: out }
    }

    /// Builds a state from fields already known to have unique names.
    pub(crate) fn from_unique_fields(fields: Vec<(String, Scalar)>) -> (r: Self)
        requires
            unique_names(fields.deep_view()),
        ensures
            r.wf(),
            r@ == fields.deep_view(),
    {
        ViewState { fields }
    }

    /// The fields, in order.
    pub fn fields(&self) -> (r: &Vec<(String, Scalar)>)
        ensures
            r.deep_view() == self@,
    {
        &self.fields
    }

    pub fn len(&self) -> (n: usize)
        ensures
            n == self@.len(),
    {
        self.fields.len()
    }

    /// Looks a field up by name.
    pub fn get<'a>(&'a self, name: &str) -> (r: Option<&'a Scalar>)
        ensures
            match r {
                Some(v) => field_value(self@, name@) == Some(v@),
                None => field_value(self@, name@) is None,
            },
    {
        let mut i: usize = 0;
        while i < self.fields.len()
            invariant
                i <= self@.len(),
                self@.len() == self.fields.len(),
                forall|j: int| 0 <= j < i ==> (#[trigger] self@[j]).0 != name@,
            decreases self@.len() - i,
        {
            if str_eq(self.fields[i].0.as_str(), name) {
                proof {
                    lemma_field_value_at(self@, name@, i as int);
                }
                return Some(&self.fields[i].1);
            }
            i += 1;
        }
        proof {
            lemma_field_value_at(self@, name@, self@.len() as int);
        }
        None
    }
}

} // verus!
