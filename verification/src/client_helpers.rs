//! Helpers for the rendering layer: the hidden-field parameters that
//! preserve sibling-component state in forms, and the client-side handler
//! that clears an input.

use vstd::prelude::*;
use crate::params::ParamMap;
use crate::strutil::{list_contains, list_has_str};

verus! {

/// The parameters a form keeps as hidden fields: every current parameter
/// whose name is not excluded and whose value is nonempty, in order.
pub open spec fn preserved_of(
    ps: Seq<(Seq<char>, Seq<char>)>,
    exclude: Seq<Seq<char>>,
) -> Seq<(Seq<char>, Seq<char>)>
    decreases ps.len(),
{
    if ps.len() == 0 {
        Seq::empty()
    } else {
        preserved_of(ps.drop_last(), exclude) + if !list_has_str(exclude, ps.last().0)
            && ps.last().1.len() > 0 {
            seq![ps.last()]
        } else {
            Seq::empty()
        }
    }
}

/// Selects the parameters to render as hidden fields: all current ones
/// except the excluded names (typically those being edited) and those with
/// empty values.
pub fn preserved_params(params: &ParamMap, exclude: &Vec<String>) -> (r: Vec<(String, String)>)
    ensures
        r.deep_view() == preserved_of(params@, exclude.deep_view()),
{
    let entries = params.entries();
    let mut kept: Vec<(String, String)> = Vec::new();
    let mut i: usize = 0;
    while i < entries.len()
        invariant
            i <= entries@.len(),
            entries.deep_view() == params@,
            kept.deep_view() =~= preserved_of(params@.subrange(0, i as int), exclude.deep_view()),
        decreases entries@.len() - i,
    {
        proof {
            assert(params@.subrange(0, i + 1).drop_last() =~= params@.subrange(0, i as int));
            assert(params@.subrange(0, i + 1).last() == params@[i as int]);
            assert(params@[i as int] == (entries@[i as int].0@, entries@[i as int].1@));
        }
        let excluded = list_contains(exclude, entries[i].0.as_str());
        if !excluded && !entries[i].1.as_str().is_empty() {
            let k = entries[i].0.clone();
            let v = entries[i].1.clone();
            let ghost prev = kept.deep_view();
            kept.push((k, v));
            proof {
                assert(kept.deep_view() =~= prev.push((k@, v@)));
                assert(kept.deep_view() =~= preserved_of(
                    params@.subrange(0, i + 1),
                    exclude.deep_view(),
                ));
            }
        }
        i += 1;
    }
    proof {
        assert(params@.subrange(0, params@.len() as int) =~= params@);
    }
    kept
}

/// The onclick handler that clears an input element and re-triggers its
/// event.
pub fn clear_input_handler(input_id: &str, event: &str) -> (r: String)
    ensures
        r@ == "document.getElementById('"@ + input_id@ + "').value = ''; htmx.trigger('#"@
            + input_id@ + "', '"@ + event@ + "');"@,
{
    let mut out = String::from_str("document.getElementById('");
    out.append(input_id);
    out.append("').value = ''; htmx.trigger('#");
    out.append(input_id);
    out.append("', '");
    out.append(event);
    out.append("');");
    out
}

} // verus!
