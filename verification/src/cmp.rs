//! Equality, ordering and containment of values.
//!
//! Equality is structural; a state literal on either side queries the other
//! side instead.  Ordering is defined only for comparable pairs: integers
//! against integers and strings against strings, lexicographically.  The
//! `contains` test looks for a substring in a string, an equal element in
//! an array, or a key in an object.

use vstd::prelude::*;

use crate::object::ohas;
use crate::value::lemma_model_entries;
use crate::value::lemma_model_seq;
use crate::value::lex_lt;
use crate::value::model;
use crate::value::query_of;
use crate::value::render_of;
use crate::value::Scalar;
use crate::value::Value;
use crate::value::VModel;

verus! {

/// An ordering between two comparable values.
#[derive(Clone, Copy, Debug, PartialEq, Eq, Structural)]
pub enum Cmpn {
    /// The left value is smaller.
    Less,
    /// The values are equal.
    Equal,
    /// The left value is greater.
    Greater,
}

/// Liquid equality: structural, except that a state literal on either side
/// queries the other side.
pub open spec fn eq_of(a: VModel, b: VModel) -> bool {
    match a {
        VModel::State(st) => query_of(b, st),
        _ => match b {
            VModel::State(st) => query_of(a, st),
            _ => a == b,
        },
    }
}

/// Liquid ordering: integers numerically, strings lexicographically;
/// any other pair is incomparable.
pub open spec fn cmp_of(a: VModel, b: VModel) -> Option<Cmpn> {
    match (a, b) {
        (VModel::Int(x), VModel::Int(y)) => if x < y {
            Some(Cmpn::Less)
        } else if x == y {
            Some(Cmpn::Equal)
        } else {
            Some(Cmpn::Greater)
        },
        (VModel::Str(x), VModel::Str(y)) => if lex_lt(x, y) {
            Some(Cmpn::Less)
        } else if x == y {
            Some(Cmpn::Equal)
        } else {
            Some(Cmpn::Greater)
        },
        _ => None,
    }
}

/// Whether `p` occurs as a contiguous run inside `s`.
pub open spec fn has_substring(s: Seq<u8>, p: Seq<u8>) -> bool {
    exists|i: int| 0 <= i <= s.len() - p.len() && #[trigger] s.subrange(i, i + p.len()) == p
}

/// Liquid containment: substring for strings, an equal element for arrays,
/// a key for objects.
pub open spec fn contains_of(a: VModel, b: VModel) -> bool {
    match a {
        VModel::Str(s) => has_substring(s, render_of(b)),
        VModel::Arr(items) => exists|i: int| 0 <= i < items.len() && eq_of(#[trigger] items[i], b),
        VModel::Obj(es) => ohas(es, render_of(b)),
        _ => false,
    }
}

/// Decides Liquid equality.
#[verifier::loop_isolation(false)]
pub fn value_eq(a: &Value, b: &Value) -> (r: bool)
    ensures
        r == eq_of(model(*a), model(*b)),
    decreases *a,
{
    match a {
        Value::State(st) => b.query_state(*st),
        _ => {
            match b {
                Value::State(st) => a.query_state(*st),
                _ => value_eq_plain(a, b),
            }
        },
    }
}

/// Decides structural equality of two values, neither a state literal.
#[verifier::loop_isolation(false)]
fn value_eq_plain(a: &Value, b: &Value) -> (r: bool)
    ensures
        r == (model(*a) == model(*b)),
    decreases *a,
{
    match (a, b) {
        (Value::Nil, Value::Nil) => true,
        (Value::Scalar(Scalar::Bool(x)), Value::Scalar(Scalar::Bool(y))) => x == y,
        (Value::Scalar(Scalar::Integer(x)), Value::Scalar(Scalar::Integer(y))) => x == y,
        (Value::Scalar(Scalar::Str(x)), Value::Scalar(Scalar::Str(y))) => crate::value::bytes_eq(
            x,
            y,
        ),
        (Value::State(x), Value::State(y)) => x == y,
        (Value::Array(x), Value::Array(y)) => {
            proof {
                lemma_model_seq(x@);
                lemma_model_seq(y@);
            }
            if x.len() != y.len() {
                return false;
            }
            let mut i: usize = 0;
            while i < x.len()
                invariant
                    0 <= i <= x@.len(),
                    forall|j: int|
                        0 <= j < i ==> crate::value::model_seq(x@)[j] == crate::value::model_seq(
                            y@,
                        )[j],
                decreases x@.len() - i,
            {
                if !value_eq_plain(&x[i], &y[i]) {
                    assert(crate::value::model_seq(x@)[i as int] != crate::value::model_seq(
                        y@,
                    )[i as int]);
                    return false;
                }
                i = i + 1;
            }
            proof {
                assert(crate::value::model_seq(x@) =~= crate::value::model_seq(y@));
            }
            true
        },
        (Value::Object(x), Value::Object(y)) => {
            proof {
                lemma_model_entries(x.entries@);
                lemma_model_entries(y.entries@);
            }
            if x.entries.len() != y.entries.len() {
                return false;
            }
            let mut i: usize = 0;
            while i < x.entries.len()
                invariant
                    0 <= i <= x.entries@.len(),
                    forall|j: int| 0 <= j < i ==> x.m()[j] == y.m()[j],
                decreases x.entries@.len() - i,
            {
                if !crate::value::bytes_eq(&x.entries[i].0, &y.entries[i].0) {
                    assert(x.m()[i as int].0 != y.m()[i as int].0);
                    return false;
                }
                if !value_eq_plain(&x.entries[i].1, &y.entries[i].1) {
                    assert(x.m()[i as int].1 != y.m()[i as int].1);
                    return false;
                }
                i = i + 1;
            }
            proof {
                assert(x.m() =~= y.m());
            }
            true
        },
        _ => {
            assert(model(*a) != model(*b));
            false
        },
    }
}

/// Decides Liquid ordering.
pub fn value_cmp(a: &Value, b: &Value) -> (r: Option<Cmpn>)
    ensures
        r == cmp_of(model(*a), model(*b)),
{
    match (a, b) {
        (Value::Scalar(Scalar::Integer(x)), Value::Scalar(Scalar::Integer(y))) => {
            if *x < *y {
                Some(Cmpn::Less)
            } else if *x == *y {
                Some(Cmpn::Equal)
            } else {
                Some(Cmpn::Greater)
            }
        },
        (Value::Scalar(Scalar::Str(x)), Value::Scalar(Scalar::Str(y))) => {
            if crate::value::bytes_lt(x, y) {
                Some(Cmpn::Less)
            } else if crate::value::bytes_eq(x, y) {
                Some(Cmpn::Equal)
            } else {
                Some(Cmpn::Greater)
            }
        },
        _ => None,
    }
}

/// Decides whether `p` occurs inside `s`.
fn bytes_contains(s: &Vec<u8>, p: &Vec<u8>) -> (r: bool)
    ensures
        r == has_substring(s@, p@),
{
    if p.len() > s.len() {
        assert(!has_substring(s@, p@));
        return false;
    }
    if p.len() == 0 {
        proof {
            assert(s@.subrange(0, 0 + p@.len() as int) =~= p@);
            assert(has_substring(s@, p@));
        }
        return true;
    }
    let mut i: usize = 0;
    while i <= s.len() - p.len()
        invariant
            s@.len() <= usize::MAX,
            1 <= p@.len() <= s@.len(),
            0 <= i <= s@.len() - p@.len() + 1,
            forall|j: int| 0 <= j < i ==> #[trigger] s@.subrange(j, j + p@.len()) != p@,
        decreases s@.len() - p@.len() + 1 - i,
    {
        let mut q: usize = 0;
        let mut matched = true;
        while q < p.len()
            invariant
                s@.len() <= usize::MAX,
                1 <= p@.len() <= s@.len(),
                0 <= i <= s@.len() - p@.len(),
                0 <= q <= p@.len(),
                matched ==> forall|t: int| 0 <= t < q ==> s@[i + t] == p@[t],
                !matched ==> #[trigger] s@.subrange(i as int, i + p@.len()) != p@,
            decreases p@.len() - q,
        {
            assert(i + q < s@.len());
            if s[i + q] != p[q] {
                proof {
                    assert(s@.subrange(i as int, i + p@.len())[q as int] != p@[q as int]);
                }
                matched = false;
                q = p.len();
            } else {
                q = q + 1;
            }
        }
        if matched {
            proof {
                assert(s@.subrange(i as int, i + p@.len()) =~= p@);
            }
            return true;
        }
        i = i + 1;
    }
    proof {
        assert forall|j: int| 0 <= j <= s@.len() - p@.len() implies #[trigger] s@.subrange(
            j,
            j + p@.len(),
        ) != p@ by {}
    }
    false
}

/// Decides Liquid containment.
#[verifier::loop_isolation(false)]
pub fn value_contains(a: &Value, b: &Value) -> (r: bool)
    ensures
        r == contains_of(model(*a), model(*b)),
{
    match a {
        Value::Scalar(Scalar::Str(s)) => {
            let needle = b.render();
            bytes_contains(s, &needle)
        },
        Value::Array(items) => {
            proof {
                lemma_model_seq(items@);
            }
            let mut i: usize = 0;
            while i < items.len()
                invariant
                    0 <= i <= items@.len(),
                    forall|j: int|
                        0 <= j < i ==> !eq_of(
                            #[trigger] crate::value::model_seq(items@)[j],
                            model(*b),
                        ),
                decreases items@.len() - i,
            {
                if value_eq(&items[i], b) {
                    proof {
                        let ma = model(*a);
                        if let VModel::Arr(ims) = ma {
                            assert(ims == crate::value::model_seq(items@));
                            assert(0 <= (i as int) && (i as int) < ims.len());
                            assert(eq_of(ims[i as int], model(*b)));
                        }
                    }
                    return true;
                }
                i = i + 1;
            }
            false
        },
        Value::Object(o) => {
            proof {
                lemma_model_entries(o.entries@);
            }
            let needle = b.render();
            o.contains_key(&needle)
        },
        _ => false,
    }
}

} // verus!
