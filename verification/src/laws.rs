//! The engine's laws, stated and proved over the ghost interpreter.
//!
//! Each law here is a public proof: rendering is deterministic, scopes are
//! balanced on every path, `increment` counters live beside — not inside —
//! the variable frames, and a lone literal output emits exactly the
//! literal's rendering.

use vstd::prelude::*;

use crate::ast::Expr;
use crate::ast::Node;
use crate::ast::Template;
use crate::interp::counter_of;
use crate::interp::lemma_step_nodes_depth;
use crate::interp::step_node;
use crate::interp::step_nodes;
use crate::interp::RState;
use crate::interp::StepRes;
use crate::interp::dec64;
use crate::interp::inc64;
use crate::num::dec_of_int;
use crate::object::lemma_oget_oset;
use crate::object::lemma_oget_oset_other;
use crate::object::oget;
use crate::value::model;
use crate::value::render_of;
use crate::value::source_of;
use crate::value::Value;
use crate::value::VModel;

verus! {

/// Law: rendering is deterministic.  The ghost interpreter is a function
/// of the template and the starting state, and every render's output and
/// final state equal the interpreter's, so two renders of one template
/// from one state yield byte-identical output.
pub proof fn lemma_render_deterministic(t: Template, st: RState, r1: StepRes, r2: StepRes)
    requires
        r1 == step_nodes(t.nodes, 0, st),
        r2 == step_nodes(t.nodes, 0, st),
    ensures
        r1.st.out == r2.st.out,
        r1 == r2,
{
}

/// Law: the stack depth at exit equals the depth at entry, whether the
/// render succeeded, stopped on an error, or was interrupted.
pub proof fn lemma_render_balances_stack(t: Template, st: RState)
    requires
        st.stack.frames.len() >= 1,
    ensures
        step_nodes(t.nodes, 0, st).st.stack.frames.len() == st.stack.frames.len(),
{
    lemma_step_nodes_depth(t.nodes, 0, st);
}

/// Law: an `assign` never touches the increment / decrement counters.
pub proof fn lemma_assign_leaves_counters(name: Vec<u8>, e: Expr, st: RState)
    ensures
        step_node(Node::Assign(name, e), st).st.stack.indexes == st.stack.indexes,
{
}

/// Law: an `increment` never touches the variable frames or the globals
/// view; the counters are an independent namespace.
pub proof fn lemma_increment_leaves_frames(name: Vec<u8>, st: RState)
    ensures
        step_node(Node::Increment(name), st).st.stack.frames == st.stack.frames,
        step_node(Node::Increment(name), st).st.stack.globals == st.stack.globals,
{
}

/// Law: one increment step emits the old counter value in decimal, bumps
/// the counter by one (wrapping at the 64-bit edge), and touches nothing
/// else: frames, globals, every other counter and the interrupt stay as
/// they were, and the step never fails.
pub proof fn lemma_increment_step(name: Vec<u8>, st: RState)
    ensures
        ({
            let c = counter_of(st.stack, name@);
            let res = step_node(Node::Increment(name), st);
            &&& res.err is None
            &&& res.st.out == st.out + dec_of_int(c)
            &&& oget(res.st.stack.indexes, name@) == Some(VModel::Int(inc64(c)))
            &&& res.st.stack.frames == st.stack.frames
            &&& res.st.stack.globals == st.stack.globals
            &&& res.st.interrupt == st.interrupt
            &&& forall|k2: Seq<u8>|
                k2 != name@ ==> #[trigger] oget(res.st.stack.indexes, k2) == oget(
                    st.stack.indexes,
                    k2,
                )
        }),
{
    let c = counter_of(st.stack, name@);
    lemma_oget_oset(st.stack.indexes, name@, VModel::Int(inc64(c)));
    assert forall|k2: Seq<u8>|
        k2 != name@ implies #[trigger] oget(
        step_node(Node::Increment(name), st).st.stack.indexes,
        k2,
    ) == oget(st.stack.indexes, k2) by {
        lemma_oget_oset_other(st.stack.indexes, name@, VModel::Int(inc64(c)), k2);
    }
}

/// Law: one decrement step bumps the counter down by one (wrapping at the
/// 64-bit edge), emits the new value in decimal, and touches nothing else.
pub proof fn lemma_decrement_step(name: Vec<u8>, st: RState)
    ensures
        ({
            let c = dec64(counter_of(st.stack, name@));
            let res = step_node(Node::Decrement(name), st);
            &&& res.err is None
            &&& res.st.out == st.out + dec_of_int(c)
            &&& oget(res.st.stack.indexes, name@) == Some(VModel::Int(c))
            &&& res.st.stack.frames == st.stack.frames
            &&& res.st.stack.globals == st.stack.globals
            &&& res.st.interrupt == st.interrupt
            &&& forall|k2: Seq<u8>|
                k2 != name@ ==> #[trigger] oget(res.st.stack.indexes, k2) == oget(
                    st.stack.indexes,
                    k2,
                )
        }),
{
    let c = dec64(counter_of(st.stack, name@));
    lemma_oget_oset(st.stack.indexes, name@, VModel::Int(c));
    assert forall|k2: Seq<u8>|
        k2 != name@ implies #[trigger] oget(
        step_node(Node::Decrement(name), st).st.stack.indexes,
        k2,
    ) == oget(st.stack.indexes, k2) by {
        lemma_oget_oset_other(st.stack.indexes, name@, VModel::Int(c), k2);
    }
}

/// Law: two `increment` tags on a fresh counter render `01`, whatever the
/// frames hold — in particular whatever any `assign` put there.
pub proof fn lemma_increment_twice(ns: Vec<Node>, x: Seq<u8>, st: RState)
    requires
        st.interrupt is None,
        oget(st.stack.indexes, x) is None,
        ns@.len() == 2,
        ns@[0] matches Node::Increment(n0) && n0@ == x,
        ns@[1] matches Node::Increment(n1) && n1@ == x,
    ensures
        step_nodes(ns, 0, st).err is None,
        step_nodes(ns, 0, st).st.out == st.out + seq![48u8, 49u8],
        step_nodes(ns, 0, st).st.stack.frames == st.stack.frames,
        step_nodes(ns, 0, st).st.stack.globals == st.stack.globals,
{
    let st1 = step_node(ns@[0], st).st;
    assert(counter_of(st.stack, x) == 0);
    lemma_oget_oset(st.stack.indexes, x, VModel::Int(1));
    assert(counter_of(st1.stack, x) == 1);
    let st2 = step_node(ns@[1], st1).st;
    assert(crate::num::dec_of_int(0) =~= seq![48u8]) by {
        reveal_with_fuel(crate::num::dec_of_nat, 2);
    }
    assert(crate::num::dec_of_int(1) =~= seq![49u8]) by {
        reveal_with_fuel(crate::num::dec_of_nat, 2);
    }
    assert(st2.out =~= st.out + seq![48u8, 49u8]);
    assert(step_nodes(ns, 0, st) == step_nodes(ns, 2, st2)) by {
        reveal_with_fuel(step_nodes, 3);
    }
}

/// Law: the source text of an integer scalar parses back to the same
/// integer, consuming the whole text.
pub proof fn lemma_integer_source_round_trip(i: i64)
    ensures
        crate::literal::integer_literal_m(source_of(VModel::Int(i as int)), 0) == Some(
            (source_of(VModel::Int(i as int)).len() as int, i),
        ),
{
    let s = crate::num::dec_of_int(i as int);
    if i >= 0 {
        crate::num::lemma_dec_of_nat(i as nat);
        lemma_digit_token_fills(s);
        assert(s.subrange(0, s.len() as int) =~= s);
        assert(crate::num::int_of_dec(s) == Some(crate::num::dec_val(s)));
    } else {
        let k = (-(i as int)) as nat;
        crate::num::lemma_dec_of_nat(k);
        let d = crate::num::dec_of_nat(k);
        assert(s == seq![45u8] + d);
        assert(s.len() == d.len() + 1);
        assert(s[0] == 45);
        assert(forall|j: int| 0 <= j < d.len() ==> s[j + 1] == #[trigger] d[j]);
        assert(s.subrange(1, s.len() as int) =~= d);
        lemma_digit_token_fills_from(s);
        assert(s.subrange(0, s.len() as int) =~= s);
        assert(crate::num::int_of_dec(s) == Some(-crate::num::dec_val(d)));
    }
}

/// A token of digits with no leading zero (unless it is one digit) is
/// recognized to the end of the text.
proof fn lemma_digit_token_fills(s: Seq<u8>)
    requires
        s.len() >= 1,
        crate::num::all_digits(s),
        s.len() > 1 ==> s[0] != 48,
    ensures
        crate::literal::dec_int_end(s, 0) == Some(s.len() as int),
{
    assert(48 <= s[0] <= 57);
    crate::literal::lemma_digits_run(s, 1);
    if s[0] == 48 {
        assert(s.len() == 1);
    } else {
        let run = crate::literal::digits_run(s, 1);
        if 1 + run < s.len() {
            assert(crate::literal::is_digit(s[1 + run]));
        }
        assert(1 + run == s.len());
    }
}

/// The same, for a sign at position zero and digits from position one.
proof fn lemma_digit_token_fills_from(s: Seq<u8>)
    requires
        s.len() >= 2,
        s[0] == 45,
        forall|j: int| 1 <= j < s.len() ==> crate::literal::is_digit(#[trigger] s[j]),
        s.len() > 2 ==> s[1] != 48,
    ensures
        crate::literal::dec_int_end(s, 0) == Some(s.len() as int),
{
    crate::literal::lemma_digits_run(s, 2);
    if s[1] == 48 {
        assert(s.len() == 2);
    } else {
        let run = crate::literal::digits_run(s, 2);
        if 2 + run < s.len() {
            assert(crate::literal::is_digit(s[2 + run]));
        }
        assert(2 + run == s.len());
    }
}

/// Law: the source text of a string scalar that holds no double quote
/// parses back to the same bytes, consuming the whole text.  A string that
/// holds the quote byte itself cannot round-trip through the escape-free
/// quoted form.
pub proof fn lemma_string_source_round_trip(s: Seq<u8>)
    requires
        forall|j: int| 0 <= j < s.len() ==> #[trigger] s[j] != 34,
    ensures
        crate::literal::string_literal_m(source_of(VModel::Str(s)), 0) == Some(
            (source_of(VModel::Str(s)).len() as int, s),
        ),
{
    let t = seq![34u8] + s + seq![34u8];
    assert(t[0] == 34);
    assert(t[t.len() - 1] == 34);
    assert(forall|j: int| 1 <= j < t.len() - 1 ==> #[trigger] t[j] == s[j - 1]);
    lemma_quote_found(t, 34, 1, t.len() - 1);
    assert(t.subrange(1, t.len() - 1) =~= s);
}

/// The first occurrence of `q` at or after `i` is `e` when everything
/// before misses it.
proof fn lemma_quote_found(t: Seq<u8>, q: u8, i: int, e: int)
    requires
        0 <= i <= e < t.len(),
        t[e] == q,
        forall|j: int| i <= j < e ==> #[trigger] t[j] != q,
    ensures
        crate::literal::quote_end(t, i, q) == Some(e),
    decreases e - i,
{
    if i < e {
        lemma_quote_found(t, q, i + 1, e);
    }
}

/// Law: the source texts of the boolean and nil scalars parse back,
/// consuming the whole word.
pub proof fn lemma_word_source_round_trip()
    ensures
        crate::literal::starts_with(source_of(VModel::Bool(true)), 0, crate::value::true_bytes()),
        crate::literal::starts_with(
            source_of(VModel::Bool(false)),
            0,
            crate::value::false_bytes(),
        ),
        crate::literal::starts_with(source_of(VModel::Nil), 0, crate::value::nil_bytes()),
{
    let t = source_of(VModel::Bool(true));
    assert(t.subrange(0, t.len() as int) =~= crate::value::true_bytes());
    let f = source_of(VModel::Bool(false));
    assert(f.subrange(0, f.len() as int) =~= crate::value::false_bytes());
    let n = source_of(VModel::Nil);
    assert(n.subrange(0, n.len() as int) =~= crate::value::nil_bytes());
}

/// Law: with a defined root, resolution never errors: looking a path up
/// yields a value — possibly nil — whenever its first key names a root.
pub proof fn lemma_defined_root_never_errors(sm: crate::stack::StackModel, path: Seq<VModel>)
    requires
        path.len() > 0,
        crate::stack::find_frame_m(sm, crate::find::key_str(path[0])) is Some,
    ensures
        crate::stack::try_get_m(sm, path) is Some,
{
}

/// Law: a template that is one literal output emits exactly the literal's
/// rendering.
pub proof fn lemma_output_literal(ns: Vec<Node>, v: Value, st: RState)
    requires
        st.interrupt is None,
        ns@.len() == 1,
        ns@[0] matches Node::Output(e) && e matches Expr::Literal(w) && w == v,
    ensures
        step_nodes(ns, 0, st).err is None,
        step_nodes(ns, 0, st).st.out == st.out + render_of(model(v)),
        step_nodes(ns, 0, st).st.stack == st.stack,
{
    let st1 = step_node(ns@[0], st).st;
    assert(step_nodes(ns, 0, st) == step_nodes(ns, 1, st1)) by {
        reveal_with_fuel(step_nodes, 2);
    }
}

} // verus!
