//! The insertion-ordered object map.
//!
//! Keys are byte strings; values are whole value trees.  Insertion order is
//! kept: a later `insert` of a present key replaces the value in place.
//! Contracts are stated over the model entry sequence
//! (see [`crate::value::model_entries`]); lookups take the first entry with
//! the key, so they are meaningful even without assuming key uniqueness.

use vstd::prelude::*;

use crate::value::lemma_model_entries;
use crate::value::model;
use crate::value::model_entries;
use crate::value::Value;
use crate::value::VModel;

verus! {

/// The position of the first entry at or after `i` carrying key `k`.
pub open spec fn opos_from(es: Seq<(Seq<u8>, VModel)>, k: Seq<u8>, i: int) -> Option<int>
    decreases es.len() - i,
{
    if i < 0 || i >= es.len() {
        None
    } else if es[i].0 == k {
        Some(i)
    } else {
        opos_from(es, k, i + 1)
    }
}

/// The position of the first entry carrying key `k`.
pub open spec fn opos(es: Seq<(Seq<u8>, VModel)>, k: Seq<u8>) -> Option<int> {
    opos_from(es, k, 0)
}

/// Whether some entry of `es` carries key `k`.
pub open spec fn ohas(es: Seq<(Seq<u8>, VModel)>, k: Seq<u8>) -> bool {
    opos(es, k) is Some
}

/// The value stored under key `k`, when present: the first entry's.
pub open spec fn oget(es: Seq<(Seq<u8>, VModel)>, k: Seq<u8>) -> Option<VModel> {
    match opos(es, k) {
        Some(i) => Some(es[i].1),
        None => None,
    }
}

/// The entry sequence after storing `m` under `k`: a present key keeps its
/// place, a new key goes to the end.
pub open spec fn oset(es: Seq<(Seq<u8>, VModel)>, k: Seq<u8>, m: VModel) -> Seq<(Seq<u8>, VModel)> {
    match opos(es, k) {
        Some(i) => es.update(i, (k, m)),
        None => es.push((k, m)),
    }
}

/// Whether the keys of `es` are pairwise distinct.
pub open spec fn keys_unique(es: Seq<(Seq<u8>, VModel)>) -> bool {
    forall|i: int, j: int| 0 <= i < j < es.len() ==> (#[trigger] es[i]).0 != (#[trigger] es[j]).0
}

/// What `opos_from` finds: a position carrying `k` with none before it,
/// or a guarantee that no position at or after `i` carries `k`.
pub proof fn lemma_opos_from(es: Seq<(Seq<u8>, VModel)>, k: Seq<u8>, i: int)
    requires
        0 <= i <= es.len(),
    ensures
        match opos_from(es, k, i) {
            Some(p) => i <= p < es.len() && es[p].0 == k && (forall|j: int|
                i <= j < p ==> (#[trigger] es[j]).0 != k),
            None => forall|j: int| i <= j < es.len() ==> (#[trigger] es[j]).0 != k,
        },
    decreases es.len() - i,
{
    if i < es.len() && es[i].0 != k {
        lemma_opos_from(es, k, i + 1);
    }
}

/// Reading a key back after storing it yields the stored value.
pub proof fn lemma_oget_oset(es: Seq<(Seq<u8>, VModel)>, k: Seq<u8>, v: VModel)
    ensures
        oget(oset(es, k, v), k) == Some(v),
{
    lemma_opos_from(es, k, 0);
    match opos_from(es, k, 0) {
        Some(i) => {
            let upd = es.update(i, (k, v));
            lemma_opos_prefix(upd, k, 0, i);
        },
        None => {
            let upd = es.push((k, v));
            lemma_opos_prefix(upd, k, 0, es.len() as int);
        },
    }
}

/// Storing under one key leaves every other key's reading unchanged.
pub proof fn lemma_oget_oset_other(es: Seq<(Seq<u8>, VModel)>, k: Seq<u8>, v: VModel, k2: Seq<u8>)
    requires
        k2 != k,
    ensures
        oget(oset(es, k, v), k2) == oget(es, k2),
{
    lemma_opos_from(es, k, 0);
    lemma_opos_from(es, k2, 0);
    match opos_from(es, k, 0) {
        Some(i) => {
            let upd = es.update(i, (k, v));
            lemma_opos_other_update(es, i, k, v, k2, 0);
            match opos_from(es, k2, 0) {
                Some(p) => {
                    assert(es[p].0 == k2);
                    assert(p != i);
                    assert(upd[p] == es[p]);
                },
                None => {},
            }
        },
        None => {
            let pushed = es.push((k, v));
            lemma_opos_other_push(es, k, v, k2, 0);
            match opos_from(es, k2, 0) {
                Some(p) => {
                    assert(p < es.len());
                    assert(pushed[p] == es[p]);
                },
                None => {},
            }
        },
    }
}

/// Searches for a key other than the stored one run identically over the
/// updated entries.
proof fn lemma_opos_other_update(
    es: Seq<(Seq<u8>, VModel)>,
    i: int,
    k: Seq<u8>,
    v: VModel,
    k2: Seq<u8>,
    j: int,
)
    requires
        0 <= i < es.len(),
        es[i].0 == k,
        k2 != k,
        0 <= j <= es.len(),
    ensures
        opos_from(es.update(i, (k, v)), k2, j) == opos_from(es, k2, j),
    decreases es.len() - j,
{
    let upd = es.update(i, (k, v));
    if j < es.len() {
        if j == i {
            assert(upd[j].0 == k);
            lemma_opos_other_update(es, i, k, v, k2, j + 1);
        } else {
            assert(upd[j] == es[j]);
            if es[j].0 != k2 {
                lemma_opos_other_update(es, i, k, v, k2, j + 1);
            }
        }
    }
}

/// Searches for a key other than the appended one run identically over
/// the extended entries.
proof fn lemma_opos_other_push(
    es: Seq<(Seq<u8>, VModel)>,
    k: Seq<u8>,
    v: VModel,
    k2: Seq<u8>,
    j: int,
)
    requires
        k2 != k,
        0 <= j <= es.len(),
    ensures
        opos_from(es.push((k, v)), k2, j) == opos_from(es, k2, j),
    decreases es.len() - j,
{
    let pushed = es.push((k, v));
    if j < es.len() {
        assert(pushed[j] == es[j]);
        if es[j].0 != k2 {
            lemma_opos_other_push(es, k, v, k2, j + 1);
        }
    } else {
        assert(pushed[j].0 == k);
        assert(opos_from(pushed, k2, j + 1) is None);
    }
}

/// When every entry before `p` misses `k` and entry `p` carries it, the
/// search from any earlier point finds `p`.
proof fn lemma_opos_prefix(es: Seq<(Seq<u8>, VModel)>, k: Seq<u8>, i: int, p: int)
    requires
        0 <= i <= p < es.len(),
        es[p].0 == k,
        forall|j: int| i <= j < p ==> (#[trigger] es[j]).0 != k,
    ensures
        opos_from(es, k, i) == Some(p),
    decreases p - i,
{
    if i < p {
        lemma_opos_prefix(es, k, i + 1, p);
    }
}

/// An insertion-ordered mapping from byte-string keys to values.
#[derive(Debug)]
pub struct Object {
    /// The entries, in insertion order.  Exposed for specification.
    pub entries: Vec<(Vec<u8>, Value)>,
}

impl Object {
    /// The model entry sequence the contracts speak of.
    pub open spec fn m(&self) -> Seq<(Seq<u8>, VModel)> {
        model_entries(self.entries@)
    }

    /// Well-formedness: keys are pairwise distinct.  Construction through
    /// `new` and `insert` keeps it; lookups do not depend on it.
    pub open spec fn wf(&self) -> bool {
        keys_unique(self.m())
    }

    /// Creates an empty object.
    pub fn new() -> (r: Object)
        ensures
            r.m() == Seq::<(Seq<u8>, VModel)>::empty(),
            r.wf(),
    {
        Object { entries: Vec::new() }
    }

    /// The number of entries.
    pub fn len(&self) -> (r: usize)
        ensures
            r == self.m().len(),
    {
        proof {
            lemma_model_entries(self.entries@);
        }
        self.entries.len()
    }

    /// Finds the first position of `k` at or after `i`.
    fn position_from(&self, k: &Vec<u8>, i: usize) -> (r: Option<usize>)
        requires
            i <= self.m().len(),
        ensures
            match r {
                Some(p) => Some(p as int) == opos_from(self.m(), k@, i as int) && p
                    < self.m().len(),
                None => opos_from(self.m(), k@, i as int) is None,
            },
        decreases self.m().len() - i,
    {
        proof {
            lemma_model_entries(self.entries@);
        }
        if i == self.entries.len() {
            None
        } else if crate::value::bytes_eq(&self.entries[i].0, k) {
            Some(i)
        } else {
            self.position_from(k, i + 1)
        }
    }

    /// Finds the position of the first entry carrying `k`.
    fn position(&self, k: &Vec<u8>) -> (r: Option<usize>)
        ensures
            match r {
                Some(p) => Some(p as int) == opos(self.m(), k@) && p < self.m().len(),
                None => opos(self.m(), k@) is None,
            },
    {
        self.position_from(k, 0)
    }

    /// Whether `k` is present.
    pub fn contains_key(&self, k: &Vec<u8>) -> (r: bool)
        ensures
            r == ohas(self.m(), k@),
    {
        self.position(k).is_some()
    }

    /// The value under `k`, when present: the first entry's.
    pub fn get(&self, k: &Vec<u8>) -> (r: Option<&Value>)
        ensures
            match r {
                Some(v) => oget(self.m(), k@) == Some(model(*v)),
                None => oget(self.m(), k@) is None,
            },
    {
        proof {
            lemma_model_entries(self.entries@);
        }
        match self.position(k) {
            Some(i) => Some(&self.entries[i].1),
            None => None,
        }
    }

    /// Stores `v` under `k`.  A present key keeps its place and the old
    /// value comes back; a new key goes to the end.
    pub fn insert(&mut self, k: Vec<u8>, v: Value) -> (r: Option<Value>)
        ensures
            final(self).m() == oset(old(self).m(), k@, model(v)),
            match r {
                Some(w) => ohas(old(self).m(), k@) && model(w) == oget(
                    old(self).m(),
                    k@,
                ).unwrap(),
                None => !ohas(old(self).m(), k@),
            },
            old(self).wf() ==> final(self).wf(),
    {
        proof {
            lemma_model_entries(old(self).entries@);
            lemma_opos_from(old(self).m(), k@, 0);
        }
        let ghost es0 = self.m();
        match self.position(&k) {
            Some(i) => {
                let prev = self.entries[i].1.to_value();
                self.entries[i] = (k, v);
                proof {
                    lemma_model_entries(self.entries@);
                    assert(self.m() =~= es0.update(i as int, (self.entries@[i as int].0@, model(
                        self.entries@[i as int].1,
                    ))));
                    assert(es0[i as int].0 == k@);
                    if keys_unique(es0) {
                        assert forall|a: int, b: int|
                            0 <= a < b < self.m().len() implies (#[trigger] self.m()[a]).0 != (
                        #[trigger] self.m()[b]).0 by {
                            assert(es0[a].0 != es0[b].0);
                        }
                    }
                }
                Some(prev)
            },
            None => {
                self.entries.push((k, v));
                proof {
                    lemma_model_entries(self.entries@);
                    assert(self.m() =~= es0.push((k@, model(v))));
                    if keys_unique(es0) {
                        assert forall|a: int, b: int|
                            0 <= a < b < self.m().len() implies (#[trigger] self.m()[a]).0 != (
                        #[trigger] self.m()[b]).0 by {
                            if b == self.m().len() - 1 {
                                assert(es0[a].0 != k@);
                            } else {
                                assert(es0[a].0 != es0[b].0);
                            }
                        }
                    }
                }
                None
            },
        }
    }

    /// The keys, in insertion order.
    pub fn keys(&self) -> (r: Vec<Vec<u8>>)
        ensures
            r@.len() == self.m().len(),
            forall|i: int| 0 <= i < r@.len() ==> #[trigger] r@[i]@ == self.m()[i].0,
    {
        proof {
            lemma_model_entries(self.entries@);
        }
        let mut r: Vec<Vec<u8>> = Vec::new();
        let mut i: usize = 0;
        while i < self.entries.len()
            invariant
                0 <= i <= self.entries@.len(),
                self.m().len() == self.entries@.len(),
                forall|j: int|
                    0 <= j < self.m().len() ==> #[trigger] self.m()[j] == (self.entries@[j].0@,
                    model(self.entries@[j].1)),
                r@.len() == i,
                forall|j: int| 0 <= j < i ==> #[trigger] r@[j]@ == self.m()[j].0,
            decreases self.entries@.len() - i,
        {
            r.push(crate::value::copy_bytes(&self.entries[i].0));
            i = i + 1;
        }
        r
    }

    /// An owned copy of the object: the models agree.
    pub fn duplicate(&self) -> (r: Object)
        ensures
            r.m() == self.m(),
    {
        proof {
            lemma_model_entries(self.entries@);
        }
        let mut entries: Vec<(Vec<u8>, Value)> = Vec::new();
        let mut i: usize = 0;
        while i < self.entries.len()
            invariant
                0 <= i <= self.entries@.len(),
                entries@.len() == i,
                forall|j: int|
                    0 <= j < i ==> (#[trigger] entries@[j]).0@ == self.entries@[j].0@ && model(
                        entries@[j].1,
                    ) == model(self.entries@[j].1),
            decreases self.entries@.len() - i,
        {
            let k = crate::value::copy_bytes(&self.entries[i].0);
            let v = self.entries[i].1.to_value();
            entries.push((k, v));
            i = i + 1;
        }
        proof {
            lemma_model_entries(entries@);
            assert(model_entries(entries@) =~= model_entries(self.entries@));
        }
        Object { entries }
    }

    /// The entry at position `i`, in insertion order.
    pub fn entry_at(&self, i: usize) -> (r: &(Vec<u8>, Value))
        requires
            i < self.m().len(),
        ensures
            (r.0@, model(r.1)) == self.m()[i as int],
    {
        proof {
            lemma_model_entries(self.entries@);
        }
        &self.entries[i]
    }
}

} // verus!
