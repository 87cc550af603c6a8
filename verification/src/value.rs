//! The Liquid data model.
//!
//! A [`Value`] is a tagged tree: nil, a scalar, an array, an object, or a
//! state query literal (`empty` / `blank`).  Contracts about values are
//! stated over [`VModel`], a ghost mirror of the tree in which text is a
//! byte sequence and integers are unbounded; [`model`] maps an executable
//! value to its ghost mirror.  Rendering, source text, truthiness and the
//! state queries are all specified over the model.

use vstd::prelude::*;

use crate::num::dec_of_int;
use crate::num::i64_of_dec;
use crate::num::render_int;
use crate::object::Object;

verus! {

/// A state query: the `empty` and `blank` literals of the language, the
/// truthiness test used by `if`, and the `default` filter's test.
#[derive(Clone, Copy, Debug, PartialEq, Eq, Structural)]
pub enum State {
    /// True of everything but `false` and nil.
    Truthy,
    /// True of whatever the `default` filter replaces.
    DefaultValue,
    /// True of zero-length sequences, objects and strings.
    Empty,
    /// True of `Empty` values, whitespace-only strings, `false` and nil.
    Blank,
}

/// A scalar: the leaf of a value tree.
#[derive(Clone, Debug, PartialEq)]
pub enum Scalar {
    /// A boolean.
    Bool(bool),
    /// A signed 64-bit integer.
    Integer(i64),
    /// A string, held as bytes.
    Str(Vec<u8>),
}

/// A Liquid value: the data tree templates are rendered against.
#[derive(Debug)]
pub enum Value {
    /// The missing value.
    Nil,
    /// A scalar leaf.
    Scalar(Scalar),
    /// A sequence of values.
    Array(Vec<Value>),
    /// An insertion-ordered mapping from string keys to values.
    Object(Object),
    /// A state query literal.
    State(State),
}

/// The ghost mirror of a value tree, used by every contract of the crate.
#[verifier::ext_equal]
pub ghost enum VModel {
    /// The missing value.
    Nil,
    /// A boolean scalar.
    Bool(bool),
    /// An integer scalar, unbounded in the model.
    Int(int),
    /// A string scalar.
    Str(Seq<u8>),
    /// An array.
    Arr(Seq<VModel>),
    /// An object: key/value pairs in insertion order.
    Obj(Seq<(Seq<u8>, VModel)>),
    /// A state query literal.
    State(State),
}

/// The model of a scalar.
pub open spec fn model_scalar(s: Scalar) -> VModel {
    match s {
        Scalar::Bool(b) => VModel::Bool(b),
        Scalar::Integer(i) => VModel::Int(i as int),
        Scalar::Str(v) => VModel::Str(v@),
    }
}

/// The model of a value tree.
pub open spec fn model(v: Value) -> VModel
    decreases v, 0int,
{
    match v {
        Value::Nil => VModel::Nil,
        Value::Scalar(s) => model_scalar(s),
        Value::Array(a) => VModel::Arr(model_seq(a@)),
        Value::Object(o) => VModel::Obj(model_entries(o.entries@)),
        Value::State(st) => VModel::State(st),
    }
}

/// The models of a sequence of values, elementwise.
pub open spec fn model_seq(s: Seq<Value>) -> Seq<VModel>
    decreases s, 1int,
{
    if s.len() == 0 {
        Seq::empty()
    } else {
        model_seq(s.subrange(0, s.len() - 1)).push(model(s[s.len() - 1]))
    }
}

/// The models of a sequence of key/value entries, elementwise.
pub open spec fn model_entries(s: Seq<(Vec<u8>, Value)>) -> Seq<(Seq<u8>, VModel)>
    decreases s, 1int,
{
    if s.len() == 0 {
        Seq::empty()
    } else {
        model_entries(s.subrange(0, s.len() - 1)).push(
            (s[s.len() - 1].0@, model(s[s.len() - 1].1)),
        )
    }
}

/// `model_seq` maps elementwise.
pub proof fn lemma_model_seq(s: Seq<Value>)
    ensures
        model_seq(s).len() == s.len(),
        forall|i: int| 0 <= i < s.len() ==> #[trigger] model_seq(s)[i] == model(s[i]),
    decreases s.len(),
{
    if s.len() > 0 {
        let t = s.subrange(0, s.len() - 1);
        lemma_model_seq(t);
    }
}

/// `model_entries` maps elementwise.
pub proof fn lemma_model_entries(s: Seq<(Vec<u8>, Value)>)
    ensures
        model_entries(s).len() == s.len(),
        forall|i: int|
            0 <= i < s.len() ==> #[trigger] model_entries(s)[i] == (s[i].0@, model(s[i].1)),
    decreases s.len(),
{
    if s.len() > 0 {
        let t = s.subrange(0, s.len() - 1);
        lemma_model_entries(t);
    }
}

/// The bytes of the word `true`.
pub open spec fn true_bytes() -> Seq<u8> {
    seq![116u8, 114u8, 117u8, 101u8]
}

/// The bytes of the word `false`.
pub open spec fn false_bytes() -> Seq<u8> {
    seq![102u8, 97u8, 108u8, 115u8, 101u8]
}

/// The bytes of the word `nil`.
pub open spec fn nil_bytes() -> Seq<u8> {
    seq![110u8, 105u8, 108u8]
}

/// The user-visible text of a value: what `{{ value }}` emits.
///
/// Nil and state literals render as nothing; booleans as `true` / `false`;
/// integers in decimal; strings as their own bytes; arrays as their items'
/// renderings run together; objects as each key followed by its value's
/// rendering.
pub open spec fn render_of(m: VModel) -> Seq<u8>
    decreases m, 0int,
{
    match m {
        VModel::Nil => Seq::empty(),
        VModel::Bool(b) => if b {
            true_bytes()
        } else {
            false_bytes()
        },
        VModel::Int(i) => dec_of_int(i),
        VModel::Str(s) => s,
        VModel::Arr(items) => render_items(items),
        VModel::Obj(es) => render_entries(es),
        VModel::State(_) => Seq::empty(),
    }
}

/// The renderings of a sequence of items, run together.
pub open spec fn render_items(items: Seq<VModel>) -> Seq<u8>
    decreases items, 1int,
{
    if items.len() == 0 {
        Seq::empty()
    } else {
        render_items(items.subrange(0, items.len() - 1)) + render_of(items[items.len() - 1])
    }
}

/// The renderings of object entries: each key followed by its value.
pub open spec fn render_entries(es: Seq<(Seq<u8>, VModel)>) -> Seq<u8>
    decreases es, 1int,
{
    if es.len() == 0 {
        Seq::empty()
    } else {
        render_entries(es.subrange(0, es.len() - 1)) + es[es.len() - 1].0 + render_of(
            es[es.len() - 1].1,
        )
    }
}

/// The source text of a value: a form that parses back for scalars.
///
/// Strings are double-quoted; arrays list `item, ` between brackets with
/// each item rendered, as the engine's array source form does; objects list
/// `key: value, ` between braces.
pub open spec fn source_of(m: VModel) -> Seq<u8>
    decreases m, 0int,
{
    match m {
        VModel::Nil => nil_bytes(),
        VModel::Bool(b) => if b {
            true_bytes()
        } else {
            false_bytes()
        },
        VModel::Int(i) => dec_of_int(i),
        VModel::Str(s) => seq![34u8] + s + seq![34u8],
        VModel::Arr(items) => seq![91u8] + source_items(items) + seq![93u8],
        VModel::Obj(es) => seq![123u8] + source_entries(es) + seq![125u8],
        VModel::State(st) => match st {
            State::Truthy => seq![116u8, 114u8, 117u8, 116u8, 104u8, 121u8],
            State::DefaultValue => seq![100u8, 101u8, 102u8, 97u8, 117u8, 108u8, 116u8],
            State::Empty => seq![101u8, 109u8, 112u8, 116u8, 121u8],
            State::Blank => seq![98u8, 108u8, 97u8, 110u8, 107u8],
        },
    }
}

/// The items of an array's source form: each rendered and comma-separated.
pub open spec fn source_items(items: Seq<VModel>) -> Seq<u8>
    decreases items, 1int,
{
    if items.len() == 0 {
        Seq::empty()
    } else {
        source_items(items.subrange(0, items.len() - 1)) + render_of(items[items.len() - 1])
            + seq![44u8, 32u8]
    }
}

/// The entries of an object's source form: `key: value, ` each.
pub open spec fn source_entries(es: Seq<(Seq<u8>, VModel)>) -> Seq<u8>
    decreases es, 1int,
{
    if es.len() == 0 {
        Seq::empty()
    } else {
        source_entries(es.subrange(0, es.len() - 1)) + es[es.len() - 1].0 + seq![58u8, 32u8]
            + render_of(es[es.len() - 1].1) + seq![44u8, 32u8]
    }
}

/// Truthiness: only `false` and nil are falsy.
pub open spec fn truthy(m: VModel) -> bool {
    !(m == VModel::Nil || m == VModel::Bool(false))
}

/// Whether a byte is ASCII whitespace.
pub open spec fn is_ws(b: u8) -> bool {
    b == 9 || b == 10 || b == 12 || b == 13 || b == 32
}

/// Whether every byte of `s` is ASCII whitespace.
pub open spec fn all_ws(s: Seq<u8>) -> bool {
    forall|i: int| 0 <= i < s.len() ==> is_ws(#[trigger] s[i])
}

/// The `Empty` query: zero-length strings, arrays and objects.
pub open spec fn empty_of(m: VModel) -> bool {
    match m {
        VModel::Str(s) => s.len() == 0,
        VModel::Arr(items) => items.len() == 0,
        VModel::Obj(es) => es.len() == 0,
        _ => false,
    }
}

/// The `Blank` query: empty values, whitespace-only strings, `false`, nil.
pub open spec fn blank_of(m: VModel) -> bool {
    empty_of(m) || m == VModel::Nil || m == VModel::Bool(false) || (m matches VModel::Str(s)
        && all_ws(s))
}

/// What each state query holds of a value.
pub open spec fn query_of(m: VModel, st: State) -> bool {
    match st {
        State::Truthy => truthy(m),
        State::Empty => empty_of(m),
        State::Blank => blank_of(m),
        State::DefaultValue => blank_of(m) || m == VModel::Int(0),
    }
}

/// The type name a value reports.
pub open spec fn kind_name_of(m: VModel) -> Seq<char> {
    match m {
        VModel::Nil => "nil"@,
        VModel::Bool(_) => "bool"@,
        VModel::Int(_) => "integer"@,
        VModel::Str(_) => "string"@,
        VModel::Arr(_) => "array"@,
        VModel::Obj(_) => "object"@,
        VModel::State(_) => "state"@,
    }
}

/// Decides equality of two byte strings.
pub fn bytes_eq(a: &Vec<u8>, b: &Vec<u8>) -> (r: bool)
    ensures
        r == (a@ == b@),
{
    if a.len() != b.len() {
        return false;
    }
    let mut i: usize = 0;
    while i < a.len()
        invariant
            a@.len() == b@.len(),
            0 <= i <= a@.len(),
            forall|j: int| 0 <= j < i ==> a@[j] == b@[j],
        decreases a@.len() - i,
    {
        if a[i] != b[i] {
            return false;
        }
        i = i + 1;
    }
    proof {
        assert(a@ =~= b@);
    }
    true
}

/// Copies a byte string.
pub fn copy_bytes(v: &Vec<u8>) -> (r: Vec<u8>)
    ensures
        r@ == v@,
{
    let r = v.clone();
    assert(r@ =~= v@);
    r
}

/// Strict lexicographic byte order, compared from position `i` on.
pub open spec fn lex_lt_from(a: Seq<u8>, b: Seq<u8>, i: int) -> bool
    decreases a.len() - i,
{
    if i < 0 || i >= a.len() {
        i < b.len()
    } else if i >= b.len() {
        false
    } else if a[i] < b[i] {
        true
    } else if a[i] > b[i] {
        false
    } else {
        lex_lt_from(a, b, i + 1)
    }
}

/// Strict lexicographic byte order: shorter prefixes come first.
pub open spec fn lex_lt(a: Seq<u8>, b: Seq<u8>) -> bool {
    lex_lt_from(a, b, 0)
}

/// Decides lexicographic order from position `i` on.
fn bytes_lt_from(a: &Vec<u8>, b: &Vec<u8>, i: usize) -> (r: bool)
    requires
        i <= a@.len(),
        i <= b@.len(),
    ensures
        r == lex_lt_from(a@, b@, i as int),
    decreases a@.len() - i,
{
    if i == a.len() {
        i < b.len()
    } else if i == b.len() {
        false
    } else if a[i] < b[i] {
        true
    } else if a[i] > b[i] {
        false
    } else {
        bytes_lt_from(a, b, i + 1)
    }
}

/// Decides strict lexicographic byte order.
pub fn bytes_lt(a: &Vec<u8>, b: &Vec<u8>) -> (r: bool)
    ensures
        r == lex_lt(a@, b@),
{
    bytes_lt_from(a, b, 0)
}

/// Lexicographic order is total: two strings compare one way, the other
/// way, or are equal.
pub proof fn lemma_lex_total(a: Seq<u8>, b: Seq<u8>)
    ensures
        lex_lt(a, b) || lex_lt(b, a) || a == b,
{
    lemma_lex_total_from(a, b, 0);
    if !lex_lt(a, b) && !lex_lt(b, a) {
        assert(a =~= b);
    }
}

proof fn lemma_lex_total_from(a: Seq<u8>, b: Seq<u8>, i: int)
    requires
        0 <= i <= a.len(),
        i <= b.len(),
    ensures
        lex_lt_from(a, b, i) || lex_lt_from(b, a, i) || (a.len() == b.len() && (forall|j: int|
            i <= j < a.len() ==> a[j] == b[j])),
    decreases (if i <= a.len() {
        a.len() - i
    } else {
        0
    }),
{
    if i < a.len() && i < b.len() && a[i] == b[i] {
        lemma_lex_total_from(a, b, i + 1);
    }
}

/// Lexicographic order is transitive.
pub proof fn lemma_lex_trans(a: Seq<u8>, b: Seq<u8>, c: Seq<u8>)
    requires
        lex_lt(a, b),
        lex_lt(b, c),
    ensures
        lex_lt(a, c),
{
    lemma_lex_trans_from(a, b, c, 0);
}

proof fn lemma_lex_trans_from(a: Seq<u8>, b: Seq<u8>, c: Seq<u8>, i: int)
    requires
        0 <= i,
        lex_lt_from(a, b, i),
        lex_lt_from(b, c, i),
    ensures
        lex_lt_from(a, c, i),
    decreases (if i <= a.len() {
        a.len() - i
    } else {
        0
    }),
{
    if i < a.len() && i < b.len() && i < c.len() && a[i] == b[i] && b[i] == c[i] {
        lemma_lex_trans_from(a, b, c, i + 1);
    }
}

/// The views of a list of byte strings, elementwise.
pub open spec fn views_of(s: Seq<Vec<u8>>) -> Seq<Seq<u8>> {
    Seq::new(s.len(), |i: int| s[i]@)
}

/// Whether `x` occurs among `names`.
pub open spec fn seq_has(names: Seq<Seq<u8>>, x: Seq<u8>) -> bool {
    exists|i: int| 0 <= i < names.len() && #[trigger] names[i] == x
}

impl Scalar {
    /// The user-visible text of the scalar.
    pub fn render(&self) -> (r: Vec<u8>)
        ensures
            r@ == render_of(model_scalar(*self)),
    {
        match self {
            Scalar::Bool(b) => {
                if *b {
                    let r = vec![116u8, 114u8, 117u8, 101u8];
                    assert(r@ =~= true_bytes());
                    r
                } else {
                    let r = vec![102u8, 97u8, 108u8, 115u8, 101u8];
                    assert(r@ =~= false_bytes());
                    r
                }
            },
            Scalar::Integer(i) => render_int(*i),
            Scalar::Str(s) => copy_bytes(s),
        }
    }

    /// The source text of the scalar: parses back to an equal scalar.
    pub fn source(&self) -> (r: Vec<u8>)
        ensures
            r@ == source_of(model_scalar(*self)),
    {
        match self {
            Scalar::Bool(_) => self.render(),
            Scalar::Integer(_) => self.render(),
            Scalar::Str(s) => {
                let mut r: Vec<u8> = Vec::new();
                r.push(34);
                let mut body = copy_bytes(s);
                r.append(&mut body);
                r.push(34);
                assert(r@ =~= seq![34u8] + s@ + seq![34u8]);
                r
            },
        }
    }

    /// The scalar as an integer: the value itself, or a numeric string
    /// coerced the way a decimal parse does.
    pub fn to_integer(&self) -> (r: Option<i64>)
        ensures
            r == int_coerce(model_scalar(*self)),
    {
        match self {
            Scalar::Integer(i) => Some(*i),
            Scalar::Str(s) => crate::num::parse_i64(s),
            Scalar::Bool(_) => None,
        }
    }

    /// The scalar's short-string form: the same bytes `render` emits.
    pub fn to_kstr(&self) -> (r: Vec<u8>)
        ensures
            r@ == render_of(model_scalar(*self)),
    {
        self.render()
    }
}

/// Integer coercion: what a scalar yields when an integer is needed.
pub open spec fn int_coerce(m: VModel) -> Option<i64> {
    match m {
        VModel::Int(i) => if i64::MIN <= i <= i64::MAX {
            Some(i as i64)
        } else {
            None
        },
        VModel::Str(s) => i64_of_dec(s),
        _ => None,
    }
}

/// One step of `render_items` along a growing prefix.
pub proof fn lemma_render_items_step(items: Seq<VModel>, j: int)
    requires
        0 <= j < items.len(),
    ensures
        render_items(items.subrange(0, j + 1)) == render_items(items.subrange(0, j)) + render_of(
            items[j],
        ),
{
    let s = items.subrange(0, j + 1);
    assert(s.subrange(0, j) =~= items.subrange(0, j));
    assert(s[s.len() - 1] == items[j]);
}

/// One step of `render_entries` along a growing prefix.
pub proof fn lemma_render_entries_step(es: Seq<(Seq<u8>, VModel)>, j: int)
    requires
        0 <= j < es.len(),
    ensures
        render_entries(es.subrange(0, j + 1)) == render_entries(es.subrange(0, j)) + es[j].0
            + render_of(es[j].1),
{
    let s = es.subrange(0, j + 1);
    assert(s.subrange(0, j) =~= es.subrange(0, j));
    assert(s[s.len() - 1] == es[j]);
}

/// One step of `source_items` along a growing prefix.
pub proof fn lemma_source_items_step(items: Seq<VModel>, j: int)
    requires
        0 <= j < items.len(),
    ensures
        source_items(items.subrange(0, j + 1)) == source_items(items.subrange(0, j)) + render_of(
            items[j],
        ) + seq![44u8, 32u8],
{
    let s = items.subrange(0, j + 1);
    assert(s.subrange(0, j) =~= items.subrange(0, j));
    assert(s[s.len() - 1] == items[j]);
}

/// One step of `source_entries` along a growing prefix.
pub proof fn lemma_source_entries_step(es: Seq<(Seq<u8>, VModel)>, j: int)
    requires
        0 <= j < es.len(),
    ensures
        source_entries(es.subrange(0, j + 1)) == source_entries(es.subrange(0, j)) + es[j].0
            + seq![58u8, 32u8] + render_of(es[j].1) + seq![44u8, 32u8],
{
    let s = es.subrange(0, j + 1);
    assert(s.subrange(0, j) =~= es.subrange(0, j));
    assert(s[s.len() - 1] == es[j]);
}

/// Whether every byte of `s` is ASCII whitespace, decided.
pub fn bytes_all_ws(s: &Vec<u8>) -> (r: bool)
    ensures
        r == all_ws(s@),
{
    let mut i: usize = 0;
    while i < s.len()
        invariant
            0 <= i <= s@.len(),
            forall|j: int| 0 <= j < i ==> is_ws(#[trigger] s@[j]),
        decreases s@.len() - i,
    {
        let b = s[i];
        if !(b == 9 || b == 10 || b == 12 || b == 13 || b == 32) {
            assert(!is_ws(s@[i as int]));
            return false;
        }
        i = i + 1;
    }
    true
}

impl Value {
    /// Wraps a scalar.
    pub fn scalar(s: Scalar) -> (r: Value)
        ensures
            model(r) == model_scalar(s),
    {
        Value::Scalar(s)
    }

    /// The user-visible text of the value: what `{{ value }}` emits.
    #[verifier::loop_isolation(false)]
    pub fn render(&self) -> (r: Vec<u8>)
        ensures
            r@ == render_of(model(*self)),
        decreases *self,
    {
        match self {
            Value::Nil => Vec::new(),
            Value::State(_) => Vec::new(),
            Value::Scalar(s) => s.render(),
            Value::Array(a) => {
                proof {
                    lemma_model_seq(a@);
                }
                let ghost items = model_seq(a@);
                let mut out: Vec<u8> = Vec::new();
                assert(out@ =~= render_items(items.subrange(0, 0)));
                let mut i: usize = 0;
                while i < a.len()
                    invariant
                        0 <= i <= a@.len(),
                        out@ == render_items(items.subrange(0, i as int)),
                    decreases a@.len() - i,
                {
                    let mut piece = a[i].render();
                    out.append(&mut piece);
                    proof {
                        lemma_render_items_step(items, i as int);
                    }
                    i = i + 1;
                }
                assert(items.subrange(0, items.len() as int) =~= items);
                out
            },
            Value::Object(o) => {
                proof {
                    lemma_model_entries(o.entries@);
                }
                let ghost es = model_entries(o.entries@);
                let mut out: Vec<u8> = Vec::new();
                assert(out@ =~= render_entries(es.subrange(0, 0)));
                let mut i: usize = 0;
                while i < o.entries.len()
                    invariant
                        0 <= i <= o.entries@.len(),
                        out@ == render_entries(es.subrange(0, i as int)),
                    decreases o.entries@.len() - i,
                {
                    out.extend_from_slice(o.entries[i].0.as_slice());
                    let mut piece = o.entries[i].1.render();
                    out.append(&mut piece);
                    proof {
                        lemma_render_entries_step(es, i as int);
                    }
                    i = i + 1;
                }
                assert(es.subrange(0, es.len() as int) =~= es);
                out
            },
        }
    }

    /// The source text of the value: scalars parse back from it.
    #[verifier::loop_isolation(false)]
    pub fn source(&self) -> (r: Vec<u8>)
        ensures
            r@ == source_of(model(*self)),
        decreases *self,
    {
        match self {
            Value::Nil => {
                let r = vec![110u8, 105u8, 108u8];
                assert(r@ =~= nil_bytes());
                r
            },
            Value::State(st) => {
                let r = match st {
                    State::Truthy => vec![116u8, 114u8, 117u8, 116u8, 104u8, 121u8],
                    State::DefaultValue => vec![
                        100u8,
                        101u8,
                        102u8,
                        97u8,
                        117u8,
                        108u8,
                        116u8,
                    ],
                    State::Empty => vec![101u8, 109u8, 112u8, 116u8, 121u8],
                    State::Blank => vec![98u8, 108u8, 97u8, 110u8, 107u8],
                };
                assert(r@ =~= source_of(model(*self)));
                r
            },
            Value::Scalar(s) => s.source(),
            Value::Array(a) => {
                proof {
                    lemma_model_seq(a@);
                }
                let ghost items = model_seq(a@);
                let mut out: Vec<u8> = Vec::new();
                out.push(91);
                assert(out@ =~= seq![91u8] + source_items(items.subrange(0, 0)));
                let mut i: usize = 0;
                while i < a.len()
                    invariant
                        0 <= i <= a@.len(),
                        out@ == seq![91u8] + source_items(items.subrange(0, i as int)),
                    decreases a@.len() - i,
                {
                    let mut piece = a[i].render();
                    out.append(&mut piece);
                    out.push(44);
                    out.push(32);
                    proof {
                        lemma_source_items_step(items, i as int);
                        assert(out@ =~= seq![91u8] + source_items(items.subrange(0, i + 1)));
                    }
                    i = i + 1;
                }
                out.push(93);
                assert(items.subrange(0, items.len() as int) =~= items);
                assert(out@ =~= seq![91u8] + source_items(items) + seq![93u8]);
                out
            },
            Value::Object(o) => {
                proof {
                    lemma_model_entries(o.entries@);
                }
                let ghost es = model_entries(o.entries@);
                let mut out: Vec<u8> = Vec::new();
                out.push(123);
                assert(out@ =~= seq![123u8] + source_entries(es.subrange(0, 0)));
                let mut i: usize = 0;
                while i < o.entries.len()
                    invariant
                        0 <= i <= o.entries@.len(),
                        out@ == seq![123u8] + source_entries(es.subrange(0, i as int)),
                    decreases o.entries@.len() - i,
                {
                    out.extend_from_slice(o.entries[i].0.as_slice());
                    out.push(58);
                    out.push(32);
                    let mut piece = o.entries[i].1.render();
                    out.append(&mut piece);
                    out.push(44);
                    out.push(32);
                    proof {
                        lemma_source_entries_step(es, i as int);
                        assert(out@ =~= seq![123u8] + source_entries(es.subrange(0, i + 1)));
                    }
                    i = i + 1;
                }
                out.push(125);
                assert(es.subrange(0, es.len() as int) =~= es);
                assert(out@ =~= seq![123u8] + source_entries(es) + seq![125u8]);
                out
            },
        }
    }

    /// An owned copy of the value: the models agree.
    #[verifier::loop_isolation(false)]
    pub fn to_value(&self) -> (r: Value)
        ensures
            model(r) == model(*self),
        decreases *self,
    {
        match self {
            Value::Nil => Value::Nil,
            Value::State(st) => Value::State(*st),
            Value::Scalar(s) => Value::Scalar(
                match s {
                    Scalar::Bool(b) => Scalar::Bool(*b),
                    Scalar::Integer(i) => Scalar::Integer(*i),
                    Scalar::Str(v) => Scalar::Str(copy_bytes(v)),
                },
            ),
            Value::Array(a) => {
                proof {
                    lemma_model_seq(a@);
                }
                let mut out: Vec<Value> = Vec::new();
                let mut i: usize = 0;
                while i < a.len()
                    invariant
                        0 <= i <= a@.len(),
                        out@.len() == i,
                        forall|j: int| 0 <= j < i ==> model(#[trigger] out@[j]) == model(a@[j]),
                    decreases a@.len() - i,
                {
                    let piece = a[i].to_value();
                    out.push(piece);
                    i = i + 1;
                }
                proof {
                    lemma_model_seq(out@);
                    assert(model_seq(out@) =~= model_seq(a@));
                }
                Value::Array(out)
            },
            Value::Object(o) => {
                proof {
                    lemma_model_entries(o.entries@);
                }
                let mut entries: Vec<(Vec<u8>, Value)> = Vec::new();
                let mut i: usize = 0;
                while i < o.entries.len()
                    invariant
                        0 <= i <= o.entries@.len(),
                        entries@.len() == i,
                        forall|j: int|
                            0 <= j < i ==> (#[trigger] entries@[j]).0@ == o.entries@[j].0@ && model(
                                entries@[j].1,
                            ) == model(o.entries@[j].1),
                    decreases o.entries@.len() - i,
                {
                    let k = copy_bytes(&o.entries[i].0);
                    let v = o.entries[i].1.to_value();
                    entries.push((k, v));
                    i = i + 1;
                }
                proof {
                    lemma_model_entries(entries@);
                    assert(model_entries(entries@) =~= model_entries(o.entries@));
                }
                Value::Object(Object { entries })
            },
        }
    }

    /// Truthiness: everything but `false` and nil.
    pub fn is_truthy(&self) -> (r: bool)
        ensures
            r == truthy(model(*self)),
    {
        match self {
            Value::Nil => false,
            Value::Scalar(Scalar::Bool(b)) => *b,
            _ => true,
        }
    }

    /// The `Empty` query: zero-length strings, arrays and objects.
    pub fn is_empty_value(&self) -> (r: bool)
        ensures
            r == empty_of(model(*self)),
    {
        match self {
            Value::Scalar(Scalar::Str(s)) => s.len() == 0,
            Value::Array(a) => {
                proof {
                    lemma_model_seq(a@);
                }
                a.len() == 0
            },
            Value::Object(o) => {
                proof {
                    lemma_model_entries(o.entries@);
                }
                o.entries.len() == 0
            },
            _ => false,
        }
    }

    /// The `Blank` query: empty, whitespace-only, `false`, or nil.
    pub fn is_blank(&self) -> (r: bool)
        ensures
            r == blank_of(model(*self)),
    {
        if self.is_empty_value() {
            return true;
        }
        match self {
            Value::Nil => true,
            Value::Scalar(Scalar::Bool(b)) => !*b,
            Value::Scalar(Scalar::Str(s)) => bytes_all_ws(s),
            _ => false,
        }
    }

    /// Answers a state query about the value.
    pub fn query_state(&self, st: State) -> (r: bool)
        ensures
            r == query_of(model(*self), st),
    {
        match st {
            State::Truthy => self.is_truthy(),
            State::Empty => self.is_empty_value(),
            State::Blank => self.is_blank(),
            State::DefaultValue => {
                if self.is_blank() {
                    true
                } else {
                    match self {
                        Value::Scalar(Scalar::Integer(i)) => *i == 0,
                        _ => false,
                    }
                }
            },
        }
    }

    /// The name of the value's type.
    pub fn kind_name(&self) -> (r: &'static str)
        ensures
            r@ == kind_name_of(model(*self)),
    {
        match self {
            Value::Nil => "nil",
            Value::Scalar(Scalar::Bool(_)) => "bool",
            Value::Scalar(Scalar::Integer(_)) => "integer",
            Value::Scalar(Scalar::Str(_)) => "string",
            Value::Array(_) => "array",
            Value::Object(_) => "object",
            Value::State(_) => "state",
        }
    }

    /// The short-string form: the same bytes `render` emits.
    pub fn to_kstr(&self) -> (r: Vec<u8>)
        ensures
            r@ == render_of(model(*self)),
    {
        self.render()
    }

    /// Narrows to a scalar.
    pub fn as_scalar(&self) -> (r: Option<&Scalar>)
        ensures
            (r is Some) == (*self matches Value::Scalar(_)),
            r matches Some(s) ==> *self matches Value::Scalar(t) && *s == t,
    {
        match self {
            Value::Scalar(s) => Some(s),
            _ => None,
        }
    }

    /// Narrows to an array.
    pub fn as_array(&self) -> (r: Option<&Vec<Value>>)
        ensures
            (r is Some) == (*self matches Value::Array(_)),
            r matches Some(a) ==> *self matches Value::Array(t) && *a == t,
    {
        match self {
            Value::Array(a) => Some(a),
            _ => None,
        }
    }

    /// Narrows to an object.
    pub fn as_object(&self) -> (r: Option<&Object>)
        ensures
            (r is Some) == (*self matches Value::Object(_)),
            r matches Some(o) ==> *self matches Value::Object(t) && *o == t,
    {
        match self {
            Value::Object(o) => Some(o),
            _ => None,
        }
    }

    /// Whether the value is nil.
    pub fn is_nil(&self) -> (r: bool)
        ensures
            r == (model(*self) == VModel::Nil),
    {
        match self {
            Value::Nil => true,
            _ => false,
        }
    }
}

} // verus!
