//! Path resolution inside a value tree.
//!
//! A path is a sequence of scalar keys.  Resolution walks the keys left to
//! right: objects are looked up by the key's string form, arrays by the key
//! coerced to an integer under the signed indexing rules.  On arrays and
//! strings the names `size`, `first` and `last` act as pseudo-properties
//! when they are the last key.  A miss never errors: it resolves to nil,
//! and indexing onward into nil stays nil.

use vstd::prelude::*;

use crate::array::liquid_index;
use crate::value::int_coerce;
use crate::value::model;
use crate::value::model_scalar;
use crate::value::lemma_model_seq;
use crate::value::lemma_model_entries;
use crate::value::render_of;
use crate::value::Scalar;
use crate::value::Value;
use crate::value::VModel;
use crate::object::oget;

verus! {

/// The bytes of the pseudo-property name `size`.
pub open spec fn size_bytes() -> Seq<u8> {
    seq![115u8, 105u8, 122u8, 101u8]
}

/// The bytes of the pseudo-property name `first`.
pub open spec fn first_bytes() -> Seq<u8> {
    seq![102u8, 105u8, 114u8, 115u8, 116u8]
}

/// The bytes of the pseudo-property name `last`.
pub open spec fn last_bytes() -> Seq<u8> {
    seq![108u8, 97u8, 115u8, 116u8]
}

/// The string form a key takes when indexing an object.
pub open spec fn key_str(k: VModel) -> Seq<u8> {
    render_of(k)
}

/// The models of a path of scalar keys.
pub open spec fn model_path(s: Seq<Scalar>) -> Seq<VModel> {
    Seq::new(s.len(), |i: int| model_scalar(s[i]))
}

/// A length as an integer scalar: saturating at the largest 64-bit value,
/// which no real tree reaches.
pub open spec fn size_int(n: int) -> int {
    if n <= i64::MAX {
        n
    } else {
        i64::MAX as int
    }
}

/// Where a path leads from `m`, starting at key `i`: the resolved value,
/// or nil on any miss.
pub open spec fn resolve_model(m: VModel, path: Seq<VModel>, i: int) -> VModel
    decreases path.len() - i,
{
    if i < 0 || i >= path.len() {
        m
    } else {
        let k = path[i];
        let last_seg = i == path.len() - 1;
        match m {
            VModel::Obj(es) => match oget(es, key_str(k)) {
                Some(v) => resolve_model(v, path, i + 1),
                None => resolve_model(VModel::Nil, path, i + 1),
            },
            VModel::Arr(items) => {
                if last_seg && key_str(k) == size_bytes() {
                    VModel::Int(size_int(items.len() as int))
                } else if last_seg && key_str(k) == first_bytes() {
                    if items.len() > 0 {
                        items[0]
                    } else {
                        VModel::Nil
                    }
                } else if last_seg && key_str(k) == last_bytes() {
                    if items.len() > 0 {
                        items[items.len() - 1]
                    } else {
                        VModel::Nil
                    }
                } else {
                    match int_coerce(k) {
                        Some(ix) => {
                            let ci = liquid_index(ix as int, items.len() as int);
                            if 0 <= ci < items.len() {
                                resolve_model(items[ci], path, i + 1)
                            } else {
                                resolve_model(VModel::Nil, path, i + 1)
                            }
                        },
                        None => resolve_model(VModel::Nil, path, i + 1),
                    }
                }
            },
            VModel::Str(s) => {
                if last_seg && key_str(k) == size_bytes() {
                    VModel::Int(size_int(s.len() as int))
                } else if last_seg && key_str(k) == first_bytes() {
                    if s.len() > 0 {
                        VModel::Str(s.subrange(0, 1))
                    } else {
                        VModel::Nil
                    }
                } else if last_seg && key_str(k) == last_bytes() {
                    if s.len() > 0 {
                        VModel::Str(s.subrange(s.len() - 1, s.len() as int))
                    } else {
                        VModel::Nil
                    }
                } else {
                    resolve_model(VModel::Nil, path, i + 1)
                }
            },
            _ => resolve_model(VModel::Nil, path, i + 1),
        }
    }
}

/// Decides whether `k` is the word `size`.
fn is_size_key(k: &Vec<u8>) -> (r: bool)
    ensures
        r == (k@ == size_bytes()),
{
    let w = vec![115u8, 105u8, 122u8, 101u8];
    assert(w@ =~= size_bytes());
    crate::value::bytes_eq(k, &w)
}

/// Decides whether `k` is the word `first`.
fn is_first_key(k: &Vec<u8>) -> (r: bool)
    ensures
        r == (k@ == first_bytes()),
{
    let w = vec![102u8, 105u8, 114u8, 115u8, 116u8];
    assert(w@ =~= first_bytes());
    crate::value::bytes_eq(k, &w)
}

/// Decides whether `k` is the word `last`.
fn is_last_key(k: &Vec<u8>) -> (r: bool)
    ensures
        r == (k@ == last_bytes()),
{
    let w = vec![108u8, 97u8, 115u8, 116u8];
    assert(w@ =~= last_bytes());
    crate::value::bytes_eq(k, &w)
}

/// Resolves `path` inside `v` from key `from` on, never failing: a miss
/// yields nil.
pub fn resolve(v: &Value, path: &Vec<Scalar>, from: usize) -> (r: Value)
    requires
        from <= path@.len(),
    ensures
        model(r) == resolve_model(model(*v), model_path(path@), from as int),
    decreases path@.len() - from,
{
    let ghost pm = model_path(path@);
    if from == path.len() {
        return v.to_value();
    }
    let key = &path[from];
    let ks = key.to_kstr();
    assert(ks@ == key_str(pm[from as int]));
    let last_seg = from == path.len() - 1;
    match v {
        Value::Object(o) => {
            proof {
                lemma_model_entries(o.entries@);
            }
            assert(model(*v) == VModel::Obj(o.m()));
            match o.get(&ks) {
                Some(w) => {
                    assert(oget(o.m(), key_str(pm[from as int])) == Some(model(*w)));
                    let rr = resolve(w, path, from + 1);
                    assert(resolve_model(model(*v), pm, from as int) == resolve_model(
                        model(*w),
                        pm,
                        from as int + 1,
                    ));
                    rr
                },
                None => {
                    let nil_value = Value::Nil;
                    resolve(&nil_value, path, from + 1)
                },
            }
        },
        Value::Array(items) => {
            proof {
                lemma_model_seq(items@);
            }
            if last_seg && is_size_key(&ks) {
                let n = items.len();
                let s: i64 = if (n as u64) <= (i64::MAX as u64) {
                    n as i64
                } else {
                    i64::MAX
                };
                Value::Scalar(Scalar::Integer(s))
            } else if last_seg && is_first_key(&ks) {
                if items.len() > 0 {
                    items[0].to_value()
                } else {
                    Value::Nil
                }
            } else if last_seg && is_last_key(&ks) {
                if items.len() > 0 {
                    items[items.len() - 1].to_value()
                } else {
                    Value::Nil
                }
            } else {
                match key.to_integer() {
                    Some(ix) => {
                        let n = items.len();
                        let n64: u64 = n as u64;
                        if ix >= 0 {
                            if (ix as u64) < n64 {
                                let ui: usize = ix as usize;
                                assert(ui as int == liquid_index(ix as int, n as int));
                                resolve(&items[ui], path, from + 1)
                            } else {
                                let nil_value = Value::Nil;
                                resolve(&nil_value, path, from + 1)
                            }
                        } else {
                            // `-(ix + 1) + 1` is the magnitude, safe at the
                            // smallest value.
                            let mag64: i64 = -(ix + 1);
                            let magu: u64 = (mag64 as u64) + 1;
                            if magu <= n64 {
                                let ui: usize = (n64 - magu) as usize;
                                assert(ui as int == liquid_index(ix as int, n as int));
                                resolve(&items[ui], path, from + 1)
                            } else {
                                let nil_value = Value::Nil;
                                resolve(&nil_value, path, from + 1)
                            }
                        }
                    },
                    None => {
                        let nil_value = Value::Nil;
                        resolve(&nil_value, path, from + 1)
                    },
                }
            }
        },
        Value::Scalar(Scalar::Str(s)) => {
            if last_seg && is_size_key(&ks) {
                let n = s.len();
                let sz: i64 = if (n as u64) <= (i64::MAX as u64) {
                    n as i64
                } else {
                    i64::MAX
                };
                Value::Scalar(Scalar::Integer(sz))
            } else if last_seg && is_first_key(&ks) {
                if s.len() > 0 {
                    let piece = vec![s[0]];
                    assert(piece@ =~= s@.subrange(0, 1));
                    Value::Scalar(Scalar::Str(piece))
                } else {
                    Value::Nil
                }
            } else if last_seg && is_last_key(&ks) {
                if s.len() > 0 {
                    let piece = vec![s[s.len() - 1]];
                    assert(piece@ =~= s@.subrange(s@.len() - 1, s@.len() as int));
                    Value::Scalar(Scalar::Str(piece))
                } else {
                    Value::Nil
                }
            } else {
                let nil_value = Value::Nil;
                resolve(&nil_value, path, from + 1)
            }
        },
        _ => {
            let nil_value = Value::Nil;
            resolve(&nil_value, path, from + 1)
        },
    }
}

/// Resolves `path` from key `from` on, starting inside an object rather
/// than a wrapped value.
pub fn resolve_in_object(o: &crate::object::Object, path: &Vec<Scalar>, from: usize) -> (r: Value)
    requires
        from <= path@.len(),
    ensures
        model(r) == resolve_model(VModel::Obj(o.m()), model_path(path@), from as int),
    decreases path@.len() - from,
{
    let ghost pm = model_path(path@);
    if from == path.len() {
        return Value::Object(o.duplicate());
    }
    let key = &path[from];
    let ks = key.to_kstr();
    assert(ks@ == key_str(pm[from as int]));
    match o.get(&ks) {
        Some(w) => resolve(w, path, from + 1),
        None => {
            let nil_value = Value::Nil;
            resolve(&nil_value, path, from + 1)
        },
    }
}

/// Law: resolution is total.  From any starting value, any path resolves
/// to some value; a miss is the nil value, never an error.  Stated over the
/// model: the resolved model of a nil start stays nil on every suffix.
pub proof fn lemma_resolve_nil(path: Seq<VModel>, i: int)
    ensures
        resolve_model(VModel::Nil, path, i) == VModel::Nil,
    decreases path.len() - i,
{
    if 0 <= i < path.len() {
        lemma_resolve_nil(path, i + 1);
    }
}

} // verus!
