//! The Liquid view of arrays.
//!
//! Indices are signed: `-1` is the last element, `-n` the n-th from the
//! end; an out-of-range index reads as a miss, never a panic.  The
//! [`ArrayView`] capability exposes that indexing discipline, and the law
//! at the end relates negative indexing to arithmetic modulo the length.

use vstd::prelude::*;

use crate::value::model;
use crate::value::model_seq;
use crate::value::lemma_model_seq;
use crate::value::Value;
use crate::value::VModel;

verus! {

/// Where a signed Liquid index points in a sequence of length `len`:
/// non-negative indices count from the front, negative ones from the end.
pub open spec fn liquid_index(index: int, len: int) -> int {
    if 0 <= index {
        index
    } else {
        len + index
    }
}

/// Turns a signed index into a position, given the array's size.
/// Negative indices count from the end; the result may still lie outside
/// the array, which readers treat as a miss.
pub fn convert_index(index: i32, max_size: i32) -> (r: i32)
    requires
        max_size >= 0,
    ensures
        r == liquid_index(index as int, max_size as int),
{
    if 0 <= index {
        index
    } else {
        max_size + index
    }
}

/// Passes a value view through unchanged.
pub fn convert_value(s: &Value) -> (r: &Value)
    ensures
        r == s,
{
    s
}

/// Accessor capability for arrays.
pub trait ArrayView {
    /// The models of the contained items.
    spec fn view_items(&self) -> Seq<VModel>;

    /// The number of elements.
    fn size(&self) -> (r: i32)
        requires
            self.view_items().len() <= i32::MAX,
        ensures
            r == self.view_items().len(),
    ;

    /// Whether the signed index falls inside the array: membership agrees
    /// with reads, so an index below the negative length is a miss.
    fn contains_key(&self, index: i32) -> (r: bool)
        requires
            self.view_items().len() <= i32::MAX,
        ensures
            r == (0 <= liquid_index(index as int, self.view_items().len() as int)
                < self.view_items().len()),
            r == (-(self.view_items().len() as int) <= index < self.view_items().len()),
    ;

    /// The element the signed index points at, if any.
    fn get(&self, index: i32) -> (r: Option<&Value>)
        requires
            self.view_items().len() <= i32::MAX,
        ensures
            ({
                let ci = liquid_index(index as int, self.view_items().len() as int);
                match r {
                    Some(v) => 0 <= ci < self.view_items().len() && model(*v)
                        == self.view_items()[ci],
                    None => !(0 <= ci < self.view_items().len()),
                }
            }),
    ;

    /// The first element, if any.
    fn first(&self) -> (r: Option<&Value>)
        requires
            self.view_items().len() <= i32::MAX,
        ensures
            match r {
                Some(v) => self.view_items().len() > 0 && model(*v) == self.view_items()[0],
                None => self.view_items().len() == 0,
            },
    {
        let r = self.get(0);
        r
    }

    /// The last element, if any.
    fn last(&self) -> (r: Option<&Value>)
        requires
            self.view_items().len() <= i32::MAX,
        ensures
            match r {
                Some(v) => self.view_items().len() > 0 && model(*v) == self.view_items()[
                    self.view_items().len() - 1],
                None => self.view_items().len() == 0,
            },
    {
        let r = self.get(-1);
        r
    }
}

impl ArrayView for Vec<Value> {
    open spec fn view_items(&self) -> Seq<VModel> {
        model_seq(self@)
    }

    fn size(&self) -> (r: i32)
        ensures
            r == self.view_items().len(),
    {
        proof {
            lemma_model_seq(self@);
        }
        self.len() as i32
    }

    fn contains_key(&self, index: i32) -> (r: bool)
        ensures
            r == (0 <= liquid_index(index as int, self.view_items().len() as int)
                < self.view_items().len()),
            r == (-(self.view_items().len() as int) <= index < self.view_items().len()),
    {
        let ci = convert_index(index, self.size());
        0 <= ci && ci < self.size()
    }

    fn get(&self, index: i32) -> (r: Option<&Value>)
        ensures
            ({
                let ci = liquid_index(index as int, self.view_items().len() as int);
                match r {
                    Some(v) => 0 <= ci < self.view_items().len() && model(*v)
                        == self.view_items()[ci],
                    None => !(0 <= ci < self.view_items().len()),
                }
            }),
    {
        proof {
            lemma_model_seq(self@);
        }
        let ci = convert_index(index, self.size());
        if 0 <= ci && ci < self.size() {
            Some(&self[ci as usize])
        } else {
            None
        }
    }
}

/// Law: within range, a signed Liquid index selects the same position as
/// the index taken modulo the length.  For any array of length `n > 0` and
/// any `i` with `-n <= i < n`, the element read at `i` is the element read
/// at `i % n`.
pub proof fn lemma_liquid_index_wraps(items: Seq<VModel>, i: int)
    requires
        items.len() > 0,
        -(items.len() as int) <= i < items.len(),
    ensures
        liquid_index(i, items.len() as int) == i % (items.len() as int),
        items[liquid_index(i, items.len() as int)] == items[i % (items.len() as int)],
{
    let n = items.len() as int;
    if 0 <= i {
        assert(i % n == i) by (nonlinear_arith)
            requires
                0 <= i < n,
        ;
    } else {
        assert((i + n) % n == i + n) by (nonlinear_arith)
            requires
                0 <= i + n < n,
        ;
        assert(i % n == (i + n) % n) by (nonlinear_arith)
            requires
                n > 0,
        ;
    }
}

} // verus!
