//! The lexically scoped variable stack.
//!
//! A stack is a read-only globals view at the bottom, a never-empty vector
//! of frames above it, and a separate index map for the counters that the
//! `increment` / `decrement` tags own.  The first key of a path picks the
//! frame: topmost frame first, then downward, then the globals view, then
//! the indexes.  The rest of the path resolves inside the picked frame.

use vstd::prelude::*;

use crate::error::ErrModel;
use crate::error::Error;
use crate::find::key_str;
use crate::find::model_path;
use crate::find::resolve_in_object;
use crate::find::resolve_model;
use crate::object::oget;
use crate::object::ohas;
use crate::object::oset;
use crate::object::Object;
use crate::value::lex_lt;
use crate::value::model;
use crate::value::model_entries;
use crate::value::nil_bytes;
use crate::value::seq_has;
use crate::value::views_of;
use crate::value::Scalar;
use crate::value::Value;
use crate::value::VModel;

verus! {

/// One scope of the variable stack.
#[derive(Debug)]
pub struct Frame {
    /// The frame's name, when it was opened for a named scope.
    pub name: Option<Vec<u8>>,
    /// The variables of the scope.
    pub data: Object,
}

impl Frame {
    /// Creates an unnamed, empty frame.
    pub fn new() -> (r: Frame)
        ensures
            frame_model(r) == (FrameModel {
                name: None::<Seq<u8>>,
                data: Seq::<(Seq<u8>, VModel)>::empty(),
            }),
    {
        let r = Frame { name: None, data: Object::new() };
        r
    }

    /// Creates a named, empty frame.
    pub fn with_name(name: Vec<u8>) -> (r: Frame)
        ensures
            frame_model(r) == (FrameModel {
                name: Some(name@),
                data: Seq::<(Seq<u8>, VModel)>::empty(),
            }),
    {
        let r = Frame { name: Some(name), data: Object::new() };
        r
    }
}

/// The ghost mirror of a frame.
#[verifier::ext_equal]
pub ghost struct FrameModel {
    /// The scope's name, if any.
    pub name: Option<Seq<u8>>,
    /// The scope's variables.
    pub data: Seq<(Seq<u8>, VModel)>,
}

/// The model of a frame.
pub open spec fn frame_model(f: Frame) -> FrameModel {
    FrameModel {
        name: match f.name {
            Some(n) => Some(n@),
            None => None,
        },
        data: model_entries(f.data.entries@),
    }
}

/// The models of a sequence of frames, elementwise.
pub open spec fn frames_model(s: Seq<Frame>) -> Seq<FrameModel> {
    Seq::new(s.len(), |i: int| frame_model(s[i]))
}

/// The ghost mirror of a whole stack.
#[verifier::ext_equal]
pub ghost struct StackModel {
    /// The read-only globals view, if any.
    pub globals: Option<Seq<(Seq<u8>, VModel)>>,
    /// The frames, bottom first.
    pub frames: Seq<FrameModel>,
    /// The counters of the `increment` / `decrement` tags.
    pub indexes: Seq<(Seq<u8>, VModel)>,
}

/// Stack of variables.
#[derive(Debug)]
pub struct Stack {
    /// The read-only globals view, if any.
    pub globals: Option<Object>,
    /// The frames, bottom first.  Never empty.
    pub frames: Vec<Frame>,
    /// State of variables created through increment or decrement tags.
    pub indexes: Object,
}

/// The frame data holding key `k`, searching from frame `i` downward.
pub open spec fn find_in_frames(frames: Seq<FrameModel>, k: Seq<u8>, i: int) -> Option<
    Seq<(Seq<u8>, VModel)>,
>
    decreases i + 1,
{
    if i < 0 || i >= frames.len() {
        None
    } else if ohas(frames[i].data, k) {
        Some(frames[i].data)
    } else {
        find_in_frames(frames, k, i - 1)
    }
}

/// The storage that the first key of a path picks: topmost frame holding
/// it, else the globals view, else the index map.
pub open spec fn find_frame_m(sm: StackModel, k: Seq<u8>) -> Option<Seq<(Seq<u8>, VModel)>> {
    match find_in_frames(sm.frames, k, sm.frames.len() - 1) {
        Some(d) => Some(d),
        None => {
            let in_globals = match sm.globals {
                Some(g) => ohas(g, k),
                None => false,
            };
            if in_globals {
                match sm.globals {
                    Some(g) => Some(g),
                    None => None,
                }
            } else if ohas(sm.indexes, k) {
                Some(sm.indexes)
            } else {
                None
            }
        },
    }
}

/// What a path lookup yields: the value resolved inside the picked frame,
/// or nothing when the path is empty or its first key is nowhere defined.
pub open spec fn try_get_m(sm: StackModel, path: Seq<VModel>) -> Option<VModel> {
    if path.len() == 0 {
        None
    } else {
        match find_frame_m(sm, key_str(path[0])) {
            Some(es) => Some(resolve_model(VModel::Obj(es), path, 0)),
            None => None,
        }
    }
}

/// The name of the nearest named frame at or below frame `i`.
pub open spec fn frame_name_m(frames: Seq<FrameModel>, i: int) -> Option<Seq<u8>>
    decreases i + 1,
{
    if i < 0 || i >= frames.len() {
        None
    } else {
        match frames[i].name {
            Some(n) => Some(n),
            None => frame_name_m(frames, i - 1),
        }
    }
}

/// Whether `k` names a root: a key of some frame or of the globals view.
/// The index map's counters are reachable but are not reported as roots.
pub open spec fn root_set_has(sm: StackModel, k: Seq<u8>) -> bool {
    (match sm.globals {
        Some(g) => ohas(g, k),
        None => false,
    }) || exists|f: int| 0 <= f < sm.frames.len() && ohas(#[trigger] sm.frames[f].data, k)
}

/// Whether `roots` is strictly sorted in lexicographic order.
pub open spec fn strictly_sorted(roots: Seq<Seq<u8>>) -> bool {
    forall|i: int, j: int| 0 <= i < j < roots.len() ==> lex_lt(#[trigger] roots[i], #[trigger] roots[j])
}

/// Whether `roots` lists exactly the root names, sorted and without
/// duplicates.  Sortedness and the set pin the list completely.
pub open spec fn is_root_list(roots: Seq<Seq<u8>>, sm: StackModel) -> bool {
    &&& strictly_sorted(roots)
    &&& forall|k: Seq<u8>|
        #![trigger root_set_has(sm, k)]
        #![trigger seq_has(roots, k)]
        root_set_has(sm, k) <==> seq_has(roots, k)
}

/// The bytes of `, `, the separator of the available-roots listing.
pub open spec fn comma_space() -> Seq<u8> {
    seq![44u8, 32u8]
}

/// The names joined with `, ` between them.
pub open spec fn joined_with(s: Seq<Seq<u8>>) -> Seq<u8>
    decreases s.len(),
{
    if s.len() == 0 {
        Seq::empty()
    } else if s.len() == 1 {
        s[0]
    } else {
        joined_with(s.subrange(0, s.len() - 1)) + comma_space() + s[s.len() - 1]
    }
}

/// The bytes of the message `Unknown variable`.
pub open spec fn unknown_variable_bytes() -> Seq<u8> {
    seq![85u8, 110u8, 107u8, 110u8, 111u8, 119u8, 110u8, 32u8, 118u8, 97u8, 114u8, 105u8, 97u8, 98u8, 108u8, 101u8]
}

/// The bytes of the context key `requested variable`.
pub open spec fn requested_variable_bytes() -> Seq<u8> {
    seq![114u8, 101u8, 113u8, 117u8, 101u8, 115u8, 116u8, 101u8, 100u8, 32u8, 118u8, 97u8, 114u8, 105u8, 97u8, 98u8, 108u8, 101u8]
}

/// The bytes of the context key `available variables`.
pub open spec fn available_variables_bytes() -> Seq<u8> {
    seq![97u8, 118u8, 97u8, 105u8, 108u8, 97u8, 98u8, 108u8, 101u8, 32u8, 118u8, 97u8, 114u8, 105u8, 97u8, 98u8, 108u8, 101u8, 115u8]
}

/// The string form of a path's first key; the word `nil` for an empty path.
pub open spec fn first_key_str(path: Seq<VModel>) -> Seq<u8> {
    if path.len() == 0 {
        nil_bytes()
    } else {
        key_str(path[0])
    }
}

/// What the unknown-variable error of a failed lookup holds: the message,
/// the requested key, and the sorted listing of the available roots.
pub open spec fn is_unknown_variable_error(em: ErrModel, path: Seq<VModel>, sm: StackModel) -> bool {
    &&& em.msg == unknown_variable_bytes()
    &&& em.ctx.len() == 2
    &&& em.ctx[0].0 == requested_variable_bytes()
    &&& em.ctx[0].1 == first_key_str(path)
    &&& em.ctx[1].0 == available_variables_bytes()
    &&& exists|roots: Seq<Seq<u8>>| is_root_list(roots, sm) && em.ctx[1].1 == joined_with(roots)
}

impl Stack {
    /// The ghost mirror the contracts speak of.
    pub open spec fn m(&self) -> StackModel {
        StackModel {
            globals: match self.globals {
                Some(g) => Some(model_entries(g.entries@)),
                None => None,
            },
            frames: frames_model(self.frames@),
            indexes: model_entries(self.indexes.entries@),
        }
    }

    /// The number of frames.
    pub open spec fn depth(&self) -> int {
        self.frames@.len() as int
    }

    /// Well-formedness: the mutable globals frame at the bottom exists.
    pub open spec fn wf(&self) -> bool {
        self.frames@.len() >= 1
    }

    /// Creates an empty stack: one mutable bottom frame, no globals view.
    pub fn empty() -> (r: Stack)
        ensures
            r.wf(),
            r.depth() == 1,
            r.m().globals is None,
            r.m().frames[0] == (FrameModel {
                name: None::<Seq<u8>>,
                data: Seq::<(Seq<u8>, VModel)>::empty(),
            }),
            r.m().indexes == Seq::<(Seq<u8>, VModel)>::empty(),
    {
        let mut frames: Vec<Frame> = Vec::new();
        frames.push(Frame::new());
        let r = Stack { globals: None, frames, indexes: Object::new() };
        r
    }

    /// Creates a stack whose lookups fall back to a read-only globals view.
    pub fn with_globals(globals: Object) -> (r: Stack)
        ensures
            r.wf(),
            r.depth() == 1,
            r.m().globals == Some(globals.m()),
            r.m().frames[0] == (FrameModel {
                name: None::<Seq<u8>>,
                data: Seq::<(Seq<u8>, VModel)>::empty(),
            }),
            r.m().indexes == Seq::<(Seq<u8>, VModel)>::empty(),
    {
        let mut stack = Stack::empty();
        stack.globals = Some(globals);
        stack
    }

    /// Opens a new variable scope chained to the parent scope.
    pub fn push_frame(&mut self)
        ensures
            final(self).m() == (StackModel {
                frames: old(self).m().frames.push(
                    FrameModel { name: None::<Seq<u8>>, data: Seq::<(Seq<u8>, VModel)>::empty() },
                ),
                ..old(self).m()
            }),
    {
        self.frames.push(Frame::new());
        proof {
            assert(final(self).m().frames =~= old(self).m().frames.push(
                FrameModel { name: None::<Seq<u8>>, data: Seq::<(Seq<u8>, VModel)>::empty() },
            ));
            assert(final(self).m() =~= StackModel {
                frames: old(self).m().frames.push(
                    FrameModel { name: None::<Seq<u8>>, data: Seq::<(Seq<u8>, VModel)>::empty() },
                ),
                ..old(self).m()
            });
        }
    }

    /// Opens a new named scope chained to the parent scope.
    pub fn push_named_frame(&mut self, name: Vec<u8>)
        ensures
            final(self).m() == (StackModel {
                frames: old(self).m().frames.push(
                    FrameModel { name: Some(name@), data: Seq::<(Seq<u8>, VModel)>::empty() },
                ),
                ..old(self).m()
            }),
    {
        let ghost nm = name@;
        self.frames.push(Frame::with_name(name));
        proof {
            assert(final(self).m().frames =~= old(self).m().frames.push(
                FrameModel { name: Some(nm), data: Seq::<(Seq<u8>, VModel)>::empty() },
            ));
            assert(final(self).m() =~= StackModel {
                frames: old(self).m().frames.push(
                    FrameModel { name: Some(nm), data: Seq::<(Seq<u8>, VModel)>::empty() },
                ),
                ..old(self).m()
            });
        }
    }

    /// Closes the topmost scope.  Closing the bottom frame is a programming
    /// error, so a caller must keep at least one frame below.
    pub fn pop_frame(&mut self)
        requires
            old(self).depth() >= 2,
        ensures
            final(self).m() == (StackModel {
                frames: old(self).m().frames.subrange(0, old(self).m().frames.len() - 1),
                ..old(self).m()
            }),
    {
        let _popped = self.frames.pop();
        proof {
            assert(final(self).m().frames =~= old(self).m().frames.subrange(
                0,
                old(self).m().frames.len() - 1,
            ));
            assert(final(self).m() =~= StackModel {
                frames: old(self).m().frames.subrange(0, old(self).m().frames.len() - 1),
                ..old(self).m()
            });
        }
    }

    /// The name of the nearest named scope, walking from the top down.
    pub fn frame_name(&self) -> (r: Option<Vec<u8>>)
        ensures
            match r {
                Some(n) => frame_name_m(self.m().frames, self.m().frames.len() - 1) == Some(n@),
                None => frame_name_m(self.m().frames, self.m().frames.len() - 1) is None,
            },
    {
        self.frame_name_upto(self.frames.len())
    }

    /// The name of the nearest named scope among the first `n` frames.
    fn frame_name_upto(&self, n: usize) -> (r: Option<Vec<u8>>)
        requires
            n <= self.frames@.len(),
        ensures
            match r {
                Some(nm) => frame_name_m(self.m().frames, n - 1) == Some(nm@),
                None => frame_name_m(self.m().frames, n - 1) is None,
            },
        decreases n,
    {
        if n == 0 {
            None
        } else {
            match &self.frames[n - 1].name {
                Some(nm) => Some(crate::value::copy_bytes(nm)),
                None => self.frame_name_upto(n - 1),
            }
        }
    }

    /// The frame data holding `name` among the first `n` frames, topmost
    /// first.
    fn find_frame_upto(&self, name: &Vec<u8>, n: usize) -> (r: Option<&Object>)
        requires
            n <= self.frames@.len(),
        ensures
            match r {
                Some(o) => find_in_frames(self.m().frames, name@, n - 1) == Some(o.m()),
                None => find_in_frames(self.m().frames, name@, n - 1) is None,
            },
        decreases n,
    {
        if n == 0 {
            None
        } else if self.frames[n - 1].data.contains_key(name) {
            Some(&self.frames[n - 1].data)
        } else {
            self.find_frame_upto(name, n - 1)
        }
    }

    /// The storage that a first key picks: topmost frame holding it, else
    /// the globals view, else the index map.
    pub fn find_frame(&self, name: &Vec<u8>) -> (r: Option<&Object>)
        ensures
            match r {
                Some(o) => find_frame_m(self.m(), name@) == Some(o.m()),
                None => find_frame_m(self.m(), name@) is None,
            },
    {
        match self.find_frame_upto(name, self.frames.len()) {
            Some(o) => Some(o),
            None => {
                match &self.globals {
                    Some(g) => {
                        if g.contains_key(name) {
                            return Some(g);
                        }
                    },
                    None => {},
                }
                if self.indexes.contains_key(name) {
                    Some(&self.indexes)
                } else {
                    None
                }
            },
        }
    }

    /// Recursively indexes into the stack: the resolved value, or nothing
    /// when the path is empty or its first key is nowhere defined.
    pub fn try_get(&self, path: &Vec<Scalar>) -> (r: Option<Value>)
        ensures
            match r {
                Some(v) => try_get_m(self.m(), model_path(path@)) == Some(model(v)),
                None => try_get_m(self.m(), model_path(path@)) is None,
            },
    {
        if path.len() == 0 {
            return None;
        }
        let k = path[0].to_kstr();
        assert(k@ == key_str(model_path(path@)[0]));
        match self.find_frame(&k) {
            Some(o) => Some(resolve_in_object(o, path, 0)),
            None => None,
        }
    }

    /// Recursively indexes into the stack.  When the first key is nowhere
    /// defined the result is the unknown-variable error naming the key and
    /// the available roots; any deeper miss resolves to nil instead.
    pub fn get(&self, path: &Vec<Scalar>) -> (r: Result<Value, Error>)
        ensures
            match r {
                Ok(v) => try_get_m(self.m(), model_path(path@)) == Some(model(v)),
                Err(e) => try_get_m(self.m(), model_path(path@)) is None
                    && is_unknown_variable_error(e.m(), model_path(path@), self.m()),
            },
    {
        let found = if path.len() == 0 {
            None
        } else {
            let k = path[0].to_kstr();
            assert(k@ == key_str(model_path(path@)[0]));
            match self.find_frame(&k) {
                Some(o) => Some(resolve_in_object(o, path, 0)),
                None => None,
            }
        };
        match found {
            Some(v) => Ok(v),
            None => {
                let key = if path.len() == 0 {
                    let w = vec![110u8, 105u8, 108u8];
                    assert(w@ =~= nil_bytes());
                    w
                } else {
                    path[0].to_kstr()
                };
                assert(key@ == first_key_str(model_path(path@)));
                let roots = self.roots();
                let listing = join_bytes(&roots);
                let msg = vec![
                    85u8, 110u8, 107u8, 110u8, 111u8, 119u8, 110u8, 32u8, 118u8, 97u8, 114u8,
                    105u8, 97u8, 98u8, 108u8, 101u8,
                ];
                assert(msg@ =~= unknown_variable_bytes());
                let ck0 = vec![
                    114u8, 101u8, 113u8, 117u8, 101u8, 115u8, 116u8, 101u8, 100u8, 32u8, 118u8,
                    97u8, 114u8, 105u8, 97u8, 98u8, 108u8, 101u8,
                ];
                assert(ck0@ =~= requested_variable_bytes());
                let ck1 = vec![
                    97u8, 118u8, 97u8, 105u8, 108u8, 97u8, 98u8, 108u8, 101u8, 32u8, 118u8, 97u8,
                    114u8, 105u8, 97u8, 98u8, 108u8, 101u8, 115u8,
                ];
                assert(ck1@ =~= available_variables_bytes());
                let e = Error::with_msg(msg).context(ck0, key).context(ck1, listing);
                proof {
                    assert(e.m().ctx.len() == 2);
                    assert(e.m().ctx[0].0 == requested_variable_bytes());
                    assert(e.m().ctx[1].0 == available_variables_bytes());
                }
                Err(e)
            },
        }
    }

    /// The sorted, deduplicated names of the available roots: every key of
    /// a frame or of the globals view.
    fn roots(&self) -> (r: Vec<Vec<u8>>)
        ensures
            is_root_list(views_of(r@), self.m()),
    {
        let mut r: Vec<Vec<u8>> = Vec::new();
        let ghost base = StackModel { frames: self.m().frames.subrange(0, 0), ..self.m() };
        match &self.globals {
            Some(g) => {
                let gkeys = g.keys();
                let mut gi: usize = 0;
                while gi < gkeys.len()
                    invariant
                        0 <= gi <= gkeys@.len(),
                        gkeys@.len() == g.m().len(),
                        forall|j: int| 0 <= j < gkeys@.len() ==> #[trigger] gkeys@[j]@ == g.m()[j].0,
                        self.m().globals == Some(g.m()),
                        strictly_sorted(views_of(r@)),
                        forall|k: Seq<u8>|
                            #![trigger seq_has(views_of(r@), k)]
                            seq_has(views_of(r@), k) <==> exists|j: int|
                                0 <= j < gi && (#[trigger] g.m()[j]).0 == k,
                    decreases gkeys@.len() - gi,
                {
                    proof {
                        crate::object::lemma_opos_from(g.m(), gkeys@[gi as int]@, 0);
                    }
                    sorted_insert(&mut r, crate::value::copy_bytes(&gkeys[gi]));
                    gi = gi + 1;
                }
                proof {
                    assert forall|k: Seq<u8>|
                        seq_has(views_of(r@), k) <==> root_set_has(base, k) by {
                        crate::object::lemma_opos_from(g.m(), k, 0);
                        if ohas(g.m(), k) {
                            let p = crate::object::opos(g.m(), k).unwrap();
                            assert(g.m()[p].0 == k);
                        }
                        assert(base.frames.len() == 0);
                    }
                }
            },
            None => {
                proof {
                    assert(views_of(r@).len() == 0);
                    assert forall|k: Seq<u8>|
                        seq_has(views_of(r@), k) <==> root_set_has(base, k) by {
                        assert(base.frames.len() == 0);
                    }
                }
            },
        }
        let mut fi: usize = 0;
        while fi < self.frames.len()
            invariant
                0 <= fi <= self.frames@.len(),
                strictly_sorted(views_of(r@)),
                forall|k: Seq<u8>|
                    #![trigger seq_has(views_of(r@), k)]
                    seq_has(views_of(r@), k) <==> root_set_has(
                        StackModel { frames: self.m().frames.subrange(0, fi as int), ..self.m() },
                        k,
                    ),
            decreases self.frames@.len() - fi,
        {
            let fkeys = self.frames[fi].data.keys();
            let ghost fm = self.m().frames[fi as int].data;
            let mut ki: usize = 0;
            while ki < fkeys.len()
                invariant
                    0 <= ki <= fkeys@.len(),
                    0 <= fi < self.frames@.len(),
                    fkeys@.len() == fm.len(),
                    fm == self.m().frames[fi as int].data,
                    forall|j: int| 0 <= j < fkeys@.len() ==> #[trigger] fkeys@[j]@ == fm[j].0,
                    strictly_sorted(views_of(r@)),
                    forall|k: Seq<u8>|
                        #![trigger seq_has(views_of(r@), k)]
                        seq_has(views_of(r@), k) <==> (root_set_has(
                            StackModel {
                                frames: self.m().frames.subrange(0, fi as int),
                                ..self.m()
                            },
                            k,
                        ) || exists|j: int| 0 <= j < ki && (#[trigger] fm[j]).0 == k),
                decreases fkeys@.len() - ki,
            {
                sorted_insert(&mut r, crate::value::copy_bytes(&fkeys[ki]));
                ki = ki + 1;
            }
            proof {
                let prev = StackModel {
                    frames: self.m().frames.subrange(0, fi as int),
                    ..self.m()
                };
                let next = StackModel {
                    frames: self.m().frames.subrange(0, fi as int + 1),
                    ..self.m()
                };
                assert forall|k: Seq<u8>|
                    (root_set_has(prev, k) || exists|j: int|
                        0 <= j < fm.len() && (#[trigger] fm[j]).0 == k) <==> root_set_has(next, k) by {
                    crate::object::lemma_opos_from(fm, k, 0);
                    if ohas(fm, k) {
                        let p = crate::object::opos(fm, k).unwrap();
                        assert(fm[p].0 == k);
                        assert(next.frames[fi as int].data == fm);
                    }
                    if root_set_has(prev, k) {
                        if exists|f: int| 0 <= f < prev.frames.len() && ohas(
                            #[trigger] prev.frames[f].data,
                            k,
                        ) {
                            let f = choose|f: int|
                                0 <= f < prev.frames.len() && ohas(
                                    #[trigger] prev.frames[f].data,
                                    k,
                                );
                            assert(next.frames[f].data == prev.frames[f].data);
                        }
                    }
                    if root_set_has(next, k) && !(exists|j: int|
                        0 <= j < fm.len() && (#[trigger] fm[j]).0 == k) {
                        if exists|f: int| 0 <= f < next.frames.len() && ohas(
                            #[trigger] next.frames[f].data,
                            k,
                        ) {
                            let f = choose|f: int|
                                0 <= f < next.frames.len() && ohas(
                                    #[trigger] next.frames[f].data,
                                    k,
                                );
                            if f < fi as int {
                                assert(prev.frames[f].data == next.frames[f].data);
                            } else {
                                crate::object::lemma_opos_from(fm, k, 0);
                                let p = crate::object::opos(fm, k).unwrap();
                                assert(fm[p].0 == k);
                            }
                        }
                    }
                }
            }
            fi = fi + 1;
        }
        proof {
            assert(self.m().frames.subrange(0, self.m().frames.len() as int) =~= self.m().frames);
            assert forall|k: Seq<u8>|
                root_set_has(
                    StackModel {
                        frames: self.m().frames.subrange(0, self.m().frames.len() as int),
                        ..self.m()
                    },
                    k,
                ) <==> root_set_has(self.m(), k) by {}
        }
        r
    }

    /// Used by increment and decrement tags.
    pub fn set_index(&mut self, name: Vec<u8>, val: Value) -> (r: Option<Value>)
        ensures
            final(self).m() == (StackModel {
                indexes: oset(old(self).m().indexes, name@, model(val)),
                ..old(self).m()
            }),
            match r {
                Some(w) => ohas(old(self).m().indexes, name@) && model(w) == oget(
                    old(self).m().indexes,
                    name@,
                ).unwrap(),
                None => !ohas(old(self).m().indexes, name@),
            },
    {
        let r = self.indexes.insert(name, val);
        proof {
            assert(final(self).m() =~= StackModel {
                indexes: final(self).m().indexes,
                ..old(self).m()
            });
        }
        r
    }

    /// Used by increment and decrement tags.
    pub fn get_index(&self, name: &Vec<u8>) -> (r: Option<&Value>)
        ensures
            match r {
                Some(v) => oget(self.m().indexes, name@) == Some(model(*v)),
                None => oget(self.m().indexes, name@) is None,
            },
    {
        self.indexes.get(name)
    }

    /// Sets a value in the global frame at the bottom of the stack.
    pub fn set_global(&mut self, name: Vec<u8>, val: Value) -> (r: Option<Value>)
        requires
            old(self).wf(),
        ensures
            final(self).wf(),
            final(self).m() == (StackModel {
                frames: old(self).m().frames.update(
                    0,
                    FrameModel {
                        name: old(self).m().frames[0].name,
                        data: oset(old(self).m().frames[0].data, name@, model(val)),
                    },
                ),
                ..old(self).m()
            }),
            match r {
                Some(w) => ohas(old(self).m().frames[0].data, name@) && model(w) == oget(
                    old(self).m().frames[0].data,
                    name@,
                ).unwrap(),
                None => !ohas(old(self).m().frames[0].data, name@),
            },
    {
        let r = self.frames[0].data.insert(name, val);
        proof {
            assert(final(self).m().frames =~= old(self).m().frames.update(
                0,
                FrameModel {
                    name: old(self).m().frames[0].name,
                    data: final(self).m().frames[0].data,
                },
            ));
            assert(final(self).m() =~= StackModel {
                frames: final(self).m().frames,
                ..old(self).m()
            });
        }
        r
    }

    /// Sets a value in the topmost scope.
    pub fn set(&mut self, name: Vec<u8>, val: Value) -> (r: Option<Value>)
        requires
            old(self).wf(),
        ensures
            final(self).wf(),
            ({
                let t = old(self).m().frames.len() - 1;
                final(self).m() == (StackModel {
                    frames: old(self).m().frames.update(
                        t,
                        FrameModel {
                            name: old(self).m().frames[t].name,
                            data: oset(old(self).m().frames[t].data, name@, model(val)),
                        },
                    ),
                    ..old(self).m()
                }) && match r {
                    Some(w) => ohas(old(self).m().frames[t].data, name@) && model(w) == oget(
                        old(self).m().frames[t].data,
                        name@,
                    ).unwrap(),
                    None => !ohas(old(self).m().frames[t].data, name@),
                }
            }),
    {
        let t = self.frames.len() - 1;
        let r = self.frames[t].data.insert(name, val);
        proof {
            assert(final(self).m().frames =~= old(self).m().frames.update(
                t as int,
                FrameModel {
                    name: old(self).m().frames[t as int].name,
                    data: final(self).m().frames[t as int].data,
                },
            ));
            assert(final(self).m() =~= StackModel {
                frames: final(self).m().frames,
                ..old(self).m()
            });
        }
        r
    }
}

impl Default for Stack {
    /// An empty stack, as `empty` builds it.
    fn default() -> (r: Stack)
        ensures
            r.wf(),
            r.depth() == 1,
            r.m().globals is None,
            r.m().indexes == Seq::<(Seq<u8>, VModel)>::empty(),
    {
        Stack::empty()
    }
}

/// Inserts `k` into the sorted list `r`, keeping it sorted and dropping a
/// duplicate.
fn sorted_insert(r: &mut Vec<Vec<u8>>, k: Vec<u8>)
    requires
        strictly_sorted(views_of(old(r)@)),
    ensures
        strictly_sorted(views_of(final(r)@)),
        forall|x: Seq<u8>|
            #![trigger seq_has(views_of(final(r)@), x)]
            #![trigger seq_has(views_of(old(r)@), x)]
            seq_has(views_of(final(r)@), x) <==> (seq_has(views_of(old(r)@), x) || x == k@),
{
    let mut p: usize = 0;
    while p < r.len() && bytes_lt_local(&r[p], &k)
        invariant
            0 <= p <= r@.len(),
            forall|j: int| 0 <= j < p ==> lex_lt(#[trigger] views_of(r@)[j], k@),
            r == old(r),
        decreases r@.len() - p,
    {
        p = p + 1;
    }
    if p < r.len() && crate::value::bytes_eq(&r[p], &k) {
        proof {
            assert(views_of(r@)[p as int] == k@);
        }
        return ;
    }
    proof {
        if p < r@.len() {
            crate::value::lemma_lex_total(views_of(r@)[p as int], k@);
            assert(!lex_lt(views_of(r@)[p as int], k@));
            assert(views_of(r@)[p as int] != k@);
            assert(lex_lt(k@, views_of(r@)[p as int]));
        }
    }
    let ghost r0 = r@;
    let ghost kvec = k;
    let ghost kg = k@;
    r.insert(p, k);
    proof {
        r0.insert_ensures(p as int, kvec);
        let vs0 = views_of(r0);
        let vs1 = views_of(r@);
        assert(vs1.len() == vs0.len() + 1);
        assert forall|i: int| 0 <= i < p implies #[trigger] vs1[i] == vs0[i] by {
            assert(r@[i] == r0[i]);
        }
        assert(vs1[p as int] == kg) by {
            assert(r@[p as int] == kvec);
        }
        assert forall|i: int| p < i < vs1.len() implies #[trigger] vs1[i] == vs0[i - 1] by {
            assert(r@[i] == r0[i - 1]);
        }
        if (p as int) < vs0.len() {
            assert(lex_lt(kg, vs0[p as int]));
        }
        assert forall|a: int, b: int|
            0 <= a < b < vs1.len() implies lex_lt(#[trigger] vs1[a], #[trigger] vs1[b]) by {
            if b < p {
                assert(lex_lt(vs0[a], vs0[b]));
            } else if b == p {
                assert(lex_lt(vs0[a], kg));
            } else if a == p {
                assert(lex_lt(kg, vs0[p as int]));
                if b - 1 > p {
                    assert(lex_lt(vs0[p as int], vs0[b - 1]));
                    crate::value::lemma_lex_trans(kg, vs0[p as int], vs0[b - 1]);
                }
            } else if a < p {
                assert(lex_lt(vs0[a], vs0[b - 1]));
            } else {
                assert(lex_lt(vs0[a - 1], vs0[b - 1]));
            }
        }
        assert forall|x: Seq<u8>|
            seq_has(vs1, x) <==> (seq_has(vs0, x) || x == kg) by {
            if seq_has(vs1, x) {
                let i = choose|i: int| 0 <= i < vs1.len() && #[trigger] vs1[i] == x;
                if i < p {
                    assert(vs0[i] == x);
                } else if i == p {
                } else {
                    assert(vs0[i - 1] == x);
                }
            }
            if seq_has(vs0, x) {
                let i = choose|i: int| 0 <= i < vs0.len() && #[trigger] vs0[i] == x;
                if i < p {
                    assert(vs1[i] == x);
                } else {
                    assert(vs1[i + 1] == x);
                }
            }
            if x == kg {
                assert(vs1[p as int] == x);
            }
        }
    }
}

/// Decides lexicographic order; a local name so the loop condition stays a
/// plain call.
fn bytes_lt_local(a: &Vec<u8>, b: &Vec<u8>) -> (r: bool)
    ensures
        r == lex_lt(a@, b@),
{
    crate::value::bytes_lt(a, b)
}

/// Joins names with `, ` between them.
pub fn join_bytes(items: &Vec<Vec<u8>>) -> (r: Vec<u8>)
    ensures
        r@ == joined_with(views_of(items@)),
{
    let ghost vs = views_of(items@);
    let mut r: Vec<u8> = Vec::new();
    let mut i: usize = 0;
    while i < items.len()
        invariant
            0 <= i <= items@.len(),
            vs == views_of(items@),
            vs.len() == items@.len(),
            r@ == joined_with(vs.subrange(0, i as int)),
        decreases items@.len() - i,
    {
        if i > 0 {
            r.push(44);
            r.push(32);
        }
        let mut piece = crate::value::copy_bytes(&items[i]);
        r.append(&mut piece);
        proof {
            let s = vs.subrange(0, i + 1);
            assert(s.subrange(0, i as int) =~= vs.subrange(0, i as int));
            assert(s[s.len() - 1] == vs[i as int]);
            if i == 0 {
                assert(r@ =~= joined_with(s));
            } else {
                assert(r@ =~= joined_with(s.subrange(0, i as int)) + comma_space() + s[s.len()
                    - 1]);
            }
        }
        i = i + 1;
    }
    proof {
        assert(vs.subrange(0, vs.len() as int) =~= vs);
    }
    r
}

} // verus!
