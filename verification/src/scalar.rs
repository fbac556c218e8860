//! Scalar field values. A component state field holds an integer, a boolean
//! or a string; textual values coming from queries and cookies are classified
//! by attempting an integer reading first, then a boolean, else keeping the
//! text.

use vstd::prelude::*;
use crate::decimal::{
    dec_int,
    i64_literal_val,
    i64_to_dec,
    is_digit,
    lemma_dec_int_round_trip,
    parse_i64,
};
use crate::strutil::str_eq;

verus! {

/// One scalar field value.
#[derive(Debug, PartialEq, Eq)]
pub enum Scalar {
    Int(i64),
    Bool(bool),
    Str(String),
}

/// Mathematical model of a `Scalar`.
pub enum ScalarV {
    Int(int),
    Bool(bool),
    Str(Seq<char>),
}

impl View for Scalar {
    type V = ScalarV;

    open spec fn view(&self) -> ScalarV {
        match self {
            Scalar::Int(n) => ScalarV::Int(*n as int),
            Scalar::Bool(b) => ScalarV::Bool(*b),
            Scalar::Str(s) => ScalarV::Str(s@),
        }
    }
}

impl DeepView for Scalar {
    type V = ScalarV;

    open spec fn deep_view(&self) -> ScalarV {
        self@
    }
}

impl Clone for Scalar {
    fn clone(&self) -> (r: Self)
        ensures
            r@ == self@,
    {
        match self {
            Scalar::Int(n) => Scalar::Int(*n),
            Scalar::Bool(b) => Scalar::Bool(*b),
            Scalar::Str(s) => Scalar::Str(s.clone()),
        }
    }
}

/// The three scalar shapes, used to detect type mismatches between a merged
/// value and a field's declared default.
pub enum ScalarKind {
    Int,
    Bool,
    Str,
}

pub open spec fn kind_of(v: ScalarV) -> ScalarKind {
    match v {
        ScalarV::Int(_) => ScalarKind::Int,
        ScalarV::Bool(_) => ScalarKind::Bool,
        ScalarV::Str(_) => ScalarKind::Str,
    }
}

/// Classification of a textual value: an integer literal in `i64` range
/// reads as an integer, `true`/`false` as a boolean, anything else stays
/// a string (fractional numerals included).
pub open spec fn parse_scalar(s: Seq<char>) -> ScalarV {
    match i64_literal_val(s) {
        Some(v) => ScalarV::Int(v),
        None => if s == "true"@ {
            ScalarV::Bool(true)
        } else if s == "false"@ {
            ScalarV::Bool(false)
        } else {
            ScalarV::Str(s)
        },
    }
}

/// Textual form of a scalar, as written to cookies and raw parameter maps.
pub open spec fn scalar_str(v: ScalarV) -> Seq<char> {
    match v {
        ScalarV::Int(n) => dec_int(n),
        ScalarV::Bool(b) => if b {
            "true"@
        } else {
            "false"@
        },
        ScalarV::Str(s) => s,
    }
}

/// Reads a textual value into a scalar, never failing: unreadable text is
/// kept as a string.
pub fn parse_value(value: &str) -> (r: Scalar)
    ensures
        r@ == parse_scalar(value@),
{
    match parse_i64(value) {
        Some(n) => Scalar::Int(n),
        None => {
            if str_eq(value, "true") {
                Scalar::Bool(true)
            } else if str_eq(value, "false") {
                Scalar::Bool(false)
            } else {
                Scalar::Str(value.to_owned())
            }
        },
    }
}

/// Prints a scalar in the form used for cookies and raw parameter maps.
pub fn scalar_to_string(v: &Scalar) -> (r: String)
    ensures
        r@ == scalar_str(v@),
{
    match v {
        Scalar::Int(n) => i64_to_dec(*n),
        Scalar::Bool(b) => {
            if *b {
                String::from_str("true")
            } else {
                String::from_str("false")
            }
        },
        Scalar::Str(s) => s.clone(),
    }
}

/// Whether two scalars have the same shape.
pub fn same_kind(a: &Scalar, b: &Scalar) -> (r: bool)
    ensures
        r == (kind_of(a@) == kind_of(b@)),
{
    match (a, b) {
        (Scalar::Int(_), Scalar::Int(_)) => true,
        (Scalar::Bool(_), Scalar::Bool(_)) => true,
        (Scalar::Str(_), Scalar::Str(_)) => true,
        _ => false,
    }
}

/// An integer scalar survives printing and re-reading unchanged.
pub proof fn lemma_int_scalar_stable(n: int)
    requires
        i64::MIN <= n <= i64::MAX,
    ensures
        parse_scalar(scalar_str(ScalarV::Int(n))) == ScalarV::Int(n),
{
    lemma_dec_int_round_trip(n);
}

/// A boolean scalar survives printing and re-reading unchanged.
pub proof fn lemma_bool_scalar_stable(b: bool)
    ensures
        parse_scalar(scalar_str(ScalarV::Bool(b))) == ScalarV::Bool(b),
{
    reveal_strlit("true");
    reveal_strlit("false");
    if b {
        assert(!is_digit("true"@[0]));
        assert(i64_literal_val("true"@) is None);
    } else {
        assert(!is_digit("false"@[0]));
        assert(i64_literal_val("false"@) is None);
    }
    assert("true"@ != "false"@);
}

} // verus!
