//! The rendering interpreter.
//!
//! Rendering is specified by a ghost interpreter over [`RState`]: a stack
//! model, the pending interrupt, and the bytes written so far.  The
//! executable renderer mirrors it node by node, so the output and the whole
//! runtime state after a render are pinned by `step_nodes` — rendering is a
//! mathematical function of the template and the starting state.
//!
//! An error stops rendering where it happens; enclosing scopes still close,
//! so the stack comes back at its entry depth on every path.

use vstd::prelude::*;

use crate::ast::CmpOp;
use crate::ast::Cond;
use crate::ast::Expr;
use crate::ast::Node;
use crate::ast::Template;
use crate::cmp::cmp_of;
use crate::cmp::contains_of;
use crate::cmp::eq_of;
use crate::cmp::value_cmp;
use crate::cmp::value_contains;
use crate::cmp::value_eq;
use crate::cmp::Cmpn;
use crate::error::ErrModel;
use crate::error::Error;
use crate::object::Object;
use crate::find::model_path;
use crate::num::dec_of_int;
use crate::num::render_int;
use crate::object::oget;
use crate::object::oset;
use crate::runtime::Interrupt;
use crate::runtime::Runtime;
use crate::stack::available_variables_bytes;
use crate::stack::first_key_str;
use crate::stack::requested_variable_bytes;
use crate::stack::try_get_m;
use crate::stack::unknown_variable_bytes;
use crate::stack::FrameModel;
use crate::stack::StackModel;
use crate::value::int_coerce;
use crate::value::model;
use crate::value::model_seq;
use crate::value::lemma_model_seq;
use crate::value::render_of;
use crate::value::truthy;
use crate::value::Scalar;
use crate::value::Value;
use crate::value::VModel;

verus! {

/// The ghost state a render threads: the stack, the pending interrupt,
/// and the output written so far.
#[verifier::ext_equal]
pub ghost struct RState {
    /// The variable stack.
    pub stack: StackModel,
    /// The pending interrupt, if any.
    pub interrupt: Option<Interrupt>,
    /// The bytes written so far.
    pub out: Seq<u8>,
}

/// What went wrong during a render.
pub ghost enum RErr {
    /// The first key of a path names no root; carries the key.
    UnknownVariable(Seq<u8>),
    /// A `for` tag was given a value that is not an array.
    NotIterable,
    /// An ordering comparison was given an incomparable pair.
    NotComparable,
}

/// The result of a rendering step: the state after it, and the error that
/// stopped it, if one did.
#[verifier::ext_equal]
pub ghost struct StepRes {
    /// The state after the step.
    pub st: RState,
    /// The error that stopped the step, if any.
    pub err: Option<RErr>,
}

/// The ghost state of a runtime and an output buffer.
pub open spec fn rstate(rt: Runtime, out: Seq<u8>) -> RState {
    RState { stack: rt.stack.m(), interrupt: rt.interrupt.interrupt, out }
}

/// A step that went through.
pub open spec fn ok_res(st: RState) -> StepRes {
    StepRes { st, err: None }
}

/// A step stopped by an error.
pub open spec fn err_res(st: RState, e: RErr) -> StepRes {
    StepRes { st, err: Some(e) }
}

/// The bytes of the message `Expected an array`.
pub open spec fn not_iterable_bytes() -> Seq<u8> {
    seq![69u8, 120u8, 112u8, 101u8, 99u8, 116u8, 101u8, 100u8, 32u8, 97u8, 110u8, 32u8, 97u8, 114u8, 114u8, 97u8, 121u8]
}

/// The bytes of the message `Cannot compare values`.
pub open spec fn not_comparable_bytes() -> Seq<u8> {
    seq![67u8, 97u8, 110u8, 110u8, 111u8, 116u8, 32u8, 99u8, 111u8, 109u8, 112u8, 97u8, 114u8, 101u8, 32u8, 118u8, 97u8, 108u8, 117u8, 101u8, 115u8]
}

/// Whether the executable error value reports the ghost error: the right
/// message, and for an unknown variable the requested key and the listing
/// key of the available roots.
pub open spec fn err_matches(em: ErrModel, k: RErr) -> bool {
    match k {
        RErr::UnknownVariable(key) => {
            &&& em.msg == unknown_variable_bytes()
            &&& em.ctx.len() == 2
            &&& em.ctx[0].0 == requested_variable_bytes()
            &&& em.ctx[0].1 == key
            &&& em.ctx[1].0 == available_variables_bytes()
        },
        RErr::NotIterable => em.msg == not_iterable_bytes(),
        RErr::NotComparable => em.msg == not_comparable_bytes(),
    }
}

/// What an expression evaluates to: its literal's model, or the value the
/// stack resolves the path to, or the unknown-variable error.
pub open spec fn eval_expr_m(sm: StackModel, e: Expr) -> Result<VModel, RErr> {
    match e {
        Expr::Literal(v) => Ok(model(v)),
        Expr::Path(p) => match try_get_m(sm, model_path(p@)) {
            Some(m) => Ok(m),
            None => Err(RErr::UnknownVariable(first_key_str(model_path(p@)))),
        },
    }
}

/// What a condition evaluates to.  `and` and `or` evaluate the left side
/// first and only evaluate the right side when it can still decide.
pub open spec fn eval_cond_m(sm: StackModel, c: Cond) -> Result<bool, RErr>
    decreases c,
{
    match c {
        Cond::Truthy(e) => match eval_expr_m(sm, e) {
            Ok(m) => Ok(truthy(m)),
            Err(k) => Err(k),
        },
        Cond::Cmp(a, op, b) => match eval_expr_m(sm, a) {
            Ok(l) => match eval_expr_m(sm, b) {
                Ok(r) => eval_cmp_m(l, op, r),
                Err(k) => Err(k),
            },
            Err(k) => Err(k),
        },
        Cond::And(x, y) => match eval_cond_m(sm, *x) {
            Ok(true) => eval_cond_m(sm, *y),
            Ok(false) => Ok(false),
            Err(k) => Err(k),
        },
        Cond::Or(x, y) => match eval_cond_m(sm, *x) {
            Ok(true) => Ok(true),
            Ok(false) => eval_cond_m(sm, *y),
            Err(k) => Err(k),
        },
    }
}

/// What one comparison yields on two evaluated values.
pub open spec fn eval_cmp_m(l: VModel, op: CmpOp, r: VModel) -> Result<bool, RErr> {
    match op {
        CmpOp::Eq => Ok(eq_of(l, r)),
        CmpOp::Ne => Ok(!eq_of(l, r)),
        CmpOp::Contains => Ok(contains_of(l, r)),
        _ => match cmp_of(l, r) {
            Some(c) => Ok(
                match op {
                    CmpOp::Lt => c is Less,
                    CmpOp::Le => c is Less || c is Equal,
                    CmpOp::Gt => c is Greater,
                    _ => c is Greater || c is Equal,
                },
            ),
            None => Err(RErr::NotComparable),
        },
    }
}

/// The stack with a binding set in the global frame at the bottom.
pub open spec fn sm_set_global(sm: StackModel, k: Seq<u8>, v: VModel) -> StackModel {
    StackModel {
        frames: sm.frames.update(
            0,
            FrameModel { name: sm.frames[0].name, data: oset(sm.frames[0].data, k, v) },
        ),
        ..sm
    }
}

/// The stack with a binding set in the topmost frame.
pub open spec fn sm_set_top(sm: StackModel, k: Seq<u8>, v: VModel) -> StackModel {
    StackModel {
        frames: sm.frames.update(
            sm.frames.len() - 1,
            FrameModel {
                name: sm.frames[sm.frames.len() - 1].name,
                data: oset(sm.frames[sm.frames.len() - 1].data, k, v),
            },
        ),
        ..sm
    }
}

/// The stack with a counter set in the index map.
pub open spec fn sm_set_index(sm: StackModel, k: Seq<u8>, v: VModel) -> StackModel {
    StackModel { indexes: oset(sm.indexes, k, v), ..sm }
}

/// The stack with one more scope.
pub open spec fn sm_push(sm: StackModel) -> StackModel {
    StackModel {
        frames: sm.frames.push(
            FrameModel { name: None::<Seq<u8>>, data: Seq::<(Seq<u8>, VModel)>::empty() },
        ),
        ..sm
    }
}

/// The stack with the topmost scope closed.
pub open spec fn sm_pop(sm: StackModel) -> StackModel {
    StackModel { frames: sm.frames.subrange(0, sm.frames.len() - 1), ..sm }
}

/// The current value of an increment / decrement counter: the stored value
/// coerced to an integer, zero when absent or not coercible.
pub open spec fn counter_of(sm: StackModel, k: Seq<u8>) -> int {
    match oget(sm.indexes, k) {
        Some(m) => match int_coerce(m) {
            Some(i) => i as int,
            None => 0,
        },
        None => 0,
    }
}

/// The successor in 64-bit wrapping arithmetic.
pub open spec fn inc64(x: int) -> int {
    if x == i64::MAX {
        i64::MIN as int
    } else {
        x + 1
    }
}

/// The predecessor in 64-bit wrapping arithmetic.
pub open spec fn dec64(x: int) -> int {
    if x == i64::MIN {
        i64::MAX as int
    } else {
        x - 1
    }
}

/// One node's rendering step.
pub open spec fn step_node(n: Node, st: RState) -> StepRes
    decreases n, 0nat, 0nat,
{
    match n {
        Node::Text(t) => ok_res(RState { out: st.out + t@, ..st }),
        Node::Output(e) => match eval_expr_m(st.stack, e) {
            Ok(m) => ok_res(RState { out: st.out + render_of(m), ..st }),
            Err(k) => err_res(st, k),
        },
        Node::Assign(name, e) => match eval_expr_m(st.stack, e) {
            Ok(m) => ok_res(RState { stack: sm_set_global(st.stack, name@, m), ..st }),
            Err(k) => err_res(st, k),
        },
        Node::Increment(name) => {
            let c = counter_of(st.stack, name@);
            ok_res(
                RState {
                    stack: sm_set_index(st.stack, name@, VModel::Int(inc64(c))),
                    out: st.out + dec_of_int(c),
                    ..st
                },
            )
        },
        Node::Decrement(name) => {
            let c = dec64(counter_of(st.stack, name@));
            ok_res(
                RState {
                    stack: sm_set_index(st.stack, name@, VModel::Int(c)),
                    out: st.out + dec_of_int(c),
                    ..st
                },
            )
        },
        Node::Break => ok_res(RState { interrupt: Some(Interrupt::Break), ..st }),
        Node::Continue => ok_res(RState { interrupt: Some(Interrupt::Continue), ..st }),
        Node::If { cond, then_branch, else_branch } => match eval_cond_m(st.stack, cond) {
            Ok(true) => step_nodes(then_branch, 0, st),
            Ok(false) => step_nodes(else_branch, 0, st),
            Err(k) => err_res(st, k),
        },
        Node::For { var, source, body } => match eval_expr_m(st.stack, source) {
            Ok(m) => match m {
                VModel::Arr(items) => {
                    let entered = RState { stack: sm_push(st.stack), ..st };
                    let res = run_for(var, body, items, 0, entered);
                    StepRes {
                        st: RState { stack: sm_pop(res.st.stack), ..res.st },
                        err: res.err,
                    }
                },
                _ => err_res(st, RErr::NotIterable),
            },
            Err(k) => err_res(st, k),
        },
    }
}

/// The rendering steps of the nodes from position `i` on.  A pending
/// interrupt stops the sequence: no further child renders at this level.
pub open spec fn step_nodes(ns: Vec<Node>, i: int, st: RState) -> StepRes
    decreases ns, 1nat, ns@.len() - i,
{
    if i < 0 || i >= ns@.len() {
        ok_res(st)
    } else if st.interrupt is Some {
        ok_res(st)
    } else {
        let res = step_node(ns@[i], st);
        if res.err is Some {
            res
        } else {
            step_nodes(ns, i + 1, res.st)
        }
    }
}

/// The iterations of a `for` body from item `i` on: the loop variable is
/// bound in the topmost frame, the body renders, and the loop pops a
/// pending interrupt — `break` ends the loop, `continue` ends the
/// iteration.
pub open spec fn run_for(var: Vec<u8>, body: Vec<Node>, items: Seq<VModel>, i: int, st: RState) -> StepRes
    decreases body, 2nat, items.len() - i,
{
    if i < 0 || i >= items.len() {
        ok_res(st)
    } else {
        let bound = RState { stack: sm_set_top(st.stack, var@, items[i]), ..st };
        let res = step_nodes(body, 0, bound);
        if res.err is Some {
            res
        } else {
            match res.st.interrupt {
                Some(Interrupt::Break) => ok_res(RState { interrupt: None, ..res.st }),
                Some(Interrupt::Continue) => run_for(
                    var,
                    body,
                    items,
                    i + 1,
                    RState { interrupt: None, ..res.st },
                ),
                None => run_for(var, body, items, i + 1, res.st),
            }
        }
    }
}

/// Law: every rendering step leaves the stack at its entry depth, whether
/// it succeeds, errors, or is interrupted — scopes always close.
pub proof fn lemma_step_node_depth(n: Node, st: RState)
    requires
        st.stack.frames.len() >= 1,
    ensures
        step_node(n, st).st.stack.frames.len() == st.stack.frames.len(),
    decreases n, 0nat, 0nat,
{
    match n {
        Node::If { cond, then_branch, else_branch } => {
            lemma_step_nodes_depth(then_branch, 0, st);
            lemma_step_nodes_depth(else_branch, 0, st);
        },
        Node::For { var, source, body } => {
            match eval_expr_m(st.stack, source) {
                Ok(m) => match m {
                    VModel::Arr(items) => {
                        let entered = RState { stack: sm_push(st.stack), ..st };
                        lemma_run_for_depth(var, body, items, 0, entered);
                    },
                    _ => {},
                },
                Err(_) => {},
            }
        },
        _ => {},
    }
}

/// Law: rendering a node sequence leaves the stack at its entry depth.
pub proof fn lemma_step_nodes_depth(ns: Vec<Node>, i: int, st: RState)
    requires
        st.stack.frames.len() >= 1,
    ensures
        step_nodes(ns, i, st).st.stack.frames.len() == st.stack.frames.len(),
    decreases ns, 1nat, ns@.len() - i,
{
    if 0 <= i < ns@.len() && !(st.interrupt is Some) {
        lemma_step_node_depth(ns@[i], st);
        let res = step_node(ns@[i], st);
        if !(res.err is Some) {
            lemma_step_nodes_depth(ns, i + 1, res.st);
        }
    }
}

/// Law: the iterations of a loop leave the stack at its entry depth.
pub proof fn lemma_run_for_depth(var: Vec<u8>, body: Vec<Node>, items: Seq<VModel>, i: int, st: RState)
    requires
        st.stack.frames.len() >= 1,
    ensures
        run_for(var, body, items, i, st).st.stack.frames.len() == st.stack.frames.len(),
    decreases body, 2nat, items.len() - i,
{
    if 0 <= i < items.len() {
        let bound = RState { stack: sm_set_top(st.stack, var@, items[i]), ..st };
        assert(bound.stack.frames.len() == st.stack.frames.len());
        lemma_step_nodes_depth(body, 0, bound);
        let res = step_nodes(body, 0, bound);
        assert(res.st.stack.frames.len() == st.stack.frames.len());
        if res.err is Some {
            assert(run_for(var, body, items, i, st) == res);
        } else {
            match res.st.interrupt {
                Some(Interrupt::Break) => {
                    assert(run_for(var, body, items, i, st) == ok_res(
                        RState { interrupt: None, ..res.st },
                    ));
                },
                Some(Interrupt::Continue) => {
                    lemma_run_for_depth(var, body, items, i + 1, RState { interrupt: None, ..res.st });
                    assert(run_for(var, body, items, i, st) == run_for(
                        var,
                        body,
                        items,
                        i + 1,
                        RState { interrupt: None, ..res.st },
                    ));
                },
                None => {
                    lemma_run_for_depth(var, body, items, i + 1, res.st);
                    assert(run_for(var, body, items, i, st) == run_for(
                        var,
                        body,
                        items,
                        i + 1,
                        res.st,
                    ));
                },
            }
        }
    } else {
        assert(run_for(var, body, items, i, st) == ok_res(st));
    }
}

/// Evaluates an expression against the stack.
pub fn eval_expr(stack: &crate::stack::Stack, e: &Expr) -> (r: Result<Value, Error>)
    ensures
        match eval_expr_m(stack.m(), *e) {
            Ok(m) => r matches Ok(v) && model(v) == m,
            Err(k) => r matches Err(er) && err_matches(er.m(), k),
        },
{
    match e {
        Expr::Literal(v) => Ok(v.to_value()),
        Expr::Path(p) => match stack.get(p) {
            Ok(v) => Ok(v),
            Err(er) => Err(er),
        },
    }
}

/// Evaluates a condition against the stack.
pub fn eval_cond(stack: &crate::stack::Stack, c: &Cond) -> (r: Result<bool, Error>)
    ensures
        match eval_cond_m(stack.m(), *c) {
            Ok(b) => r matches Ok(rb) && rb == b,
            Err(k) => r matches Err(er) && err_matches(er.m(), k),
        },
    decreases *c,
{
    match c {
        Cond::Truthy(e) => match eval_expr(stack, e) {
            Ok(v) => Ok(v.is_truthy()),
            Err(er) => Err(er),
        },
        Cond::Cmp(a, op, b) => {
            let l = match eval_expr(stack, a) {
                Ok(v) => v,
                Err(er) => {
                    return Err(er);
                },
            };
            let r = match eval_expr(stack, b) {
                Ok(v) => v,
                Err(er) => {
                    return Err(er);
                },
            };
            match op {
                CmpOp::Eq => Ok(value_eq(&l, &r)),
                CmpOp::Ne => Ok(!value_eq(&l, &r)),
                CmpOp::Contains => Ok(value_contains(&l, &r)),
                _ => match value_cmp(&l, &r) {
                    Some(c) => Ok(
                        match op {
                            CmpOp::Lt => matches!(c, Cmpn::Less),
                            CmpOp::Le => matches!(c, Cmpn::Less) || matches!(c, Cmpn::Equal),
                            CmpOp::Gt => matches!(c, Cmpn::Greater),
                            _ => matches!(c, Cmpn::Greater) || matches!(c, Cmpn::Equal),
                        },
                    ),
                    None => {
                        let msg = vec![
                            67u8, 97u8, 110u8, 110u8, 111u8, 116u8, 32u8, 99u8, 111u8, 109u8,
                            112u8, 97u8, 114u8, 101u8, 32u8, 118u8, 97u8, 108u8, 117u8, 101u8,
                            115u8,
                        ];
                        assert(msg@ =~= not_comparable_bytes());
                        Err(Error::with_msg(msg))
                    },
                },
            }
        },
        Cond::And(x, y) => match eval_cond(stack, x) {
            Ok(true) => eval_cond(stack, y),
            Ok(false) => Ok(false),
            Err(er) => Err(er),
        },
        Cond::Or(x, y) => match eval_cond(stack, x) {
            Ok(true) => Ok(true),
            Ok(false) => eval_cond(stack, y),
            Err(er) => Err(er),
        },
    }
}

/// Renders one node into `out`, stepping the runtime as the ghost
/// interpreter says.
pub fn render_node(n: &Node, rt: &mut Runtime, out: &mut Vec<u8>) -> (r: Result<(), Error>)
    requires
        old(rt).stack.wf(),
    ensures
        final(rt).stack.wf(),
        final(rt).registers == old(rt).registers,
        final(rt).partials == old(rt).partials,
        rstate(*final(rt), final(out)@) == step_node(*n, rstate(*old(rt), old(out)@)).st,
        match r {
            Ok(u) => step_node(*n, rstate(*old(rt), old(out)@)).err is None,
            Err(e) => step_node(*n, rstate(*old(rt), old(out)@)).err matches Some(k)
                && err_matches(e.m(), k),
        },
    decreases *n, 0nat, 0nat,
{
    let ghost st0 = rstate(*rt, out@);
    proof {
        lemma_step_node_depth(*n, st0);
    }
    match n {
        Node::Text(t) => {
            let mut piece = crate::value::copy_bytes(t);
            out.append(&mut piece);
            proof {
                assert(rstate(*rt, out@) =~~= step_node(*n, st0).st);
            }
            Ok(())
        },
        Node::Output(e) => {
            match eval_expr(&rt.stack, e) {
                Ok(v) => {
                    let mut piece = v.render();
                    out.append(&mut piece);
                    proof {
                        assert(rstate(*rt, out@) =~~= step_node(*n, st0).st);
                    }
                    Ok(())
                },
                Err(er) => {
                    proof {
                        assert(rstate(*rt, out@) =~~= step_node(*n, st0).st);
                    }
                    Err(er)
                },
            }
        },
        Node::Assign(name, e) => {
            match eval_expr(&rt.stack, e) {
                Ok(v) => {
                    let _prev = rt.stack.set_global(crate::value::copy_bytes(name), v);
                    proof {
                        assert(rstate(*rt, out@) =~~= step_node(*n, st0).st);
                    }
                    Ok(())
                },
                Err(er) => {
                    proof {
                        assert(rstate(*rt, out@) =~~= step_node(*n, st0).st);
                    }
                    Err(er)
                },
            }
        },
        Node::Increment(name) => {
            let cur: i64 = match rt.stack.get_index(name) {
                Some(v) => match v.as_scalar() {
                    Some(s) => match s.to_integer() {
                        Some(i) => i,
                        None => 0,
                    },
                    None => 0,
                },
                None => 0,
            };
            assert(cur as int == counter_of(st0.stack, name@));
            let mut piece = render_int(cur);
            out.append(&mut piece);
            let next: i64 = if cur == i64::MAX {
                i64::MIN
            } else {
                cur + 1
            };
            let _prev = rt.stack.set_index(
                crate::value::copy_bytes(name),
                Value::Scalar(Scalar::Integer(next)),
            );
            proof {
                assert(rstate(*rt, out@) =~~= step_node(*n, st0).st);
            }
            Ok(())
        },
        Node::Decrement(name) => {
            let cur: i64 = match rt.stack.get_index(name) {
                Some(v) => match v.as_scalar() {
                    Some(s) => match s.to_integer() {
                        Some(i) => i,
                        None => 0,
                    },
                    None => 0,
                },
                None => 0,
            };
            assert(cur as int == counter_of(st0.stack, name@));
            let next: i64 = if cur == i64::MIN {
                i64::MAX
            } else {
                cur - 1
            };
            let mut piece = render_int(next);
            out.append(&mut piece);
            let _prev = rt.stack.set_index(
                crate::value::copy_bytes(name),
                Value::Scalar(Scalar::Integer(next)),
            );
            proof {
                assert(rstate(*rt, out@) =~~= step_node(*n, st0).st);
            }
            Ok(())
        },
        Node::Break => {
            rt.interrupt.set_interrupt(Interrupt::Break);
            proof {
                assert(rstate(*rt, out@) =~~= step_node(*n, st0).st);
            }
            Ok(())
        },
        Node::Continue => {
            rt.interrupt.set_interrupt(Interrupt::Continue);
            proof {
                assert(rstate(*rt, out@) =~~= step_node(*n, st0).st);
            }
            Ok(())
        },
        Node::If { cond, then_branch, else_branch } => {
            match eval_cond(&rt.stack, cond) {
                Ok(true) => {
                    let r = render_nodes(then_branch, 0, rt, out);
                    r
                },
                Ok(false) => {
                    let r = render_nodes(else_branch, 0, rt, out);
                    r
                },
                Err(er) => {
                    proof {
                        assert(rstate(*rt, out@) =~~= step_node(*n, st0).st);
                    }
                    Err(er)
                },
            }
        },
        Node::For { var, source, body } => {
            match eval_expr(&rt.stack, source) {
                Ok(v) => {
                    match v {
                        Value::Array(items) => {
                            rt.push_scope();
                            proof {
                                lemma_model_seq(items@);
                            }
                            let r = render_for(var, body, &items, 0, rt, out);
                            proof {
                                lemma_run_for_depth(
                                    *var,
                                    *body,
                                    model_seq(items@),
                                    0,
                                    RState { stack: sm_push(st0.stack), ..st0 },
                                );
                            }
                            rt.pop_scope();
                            proof {
                                assert(rstate(*rt, out@) =~~= step_node(*n, st0).st);
                            }
                            match r {
                                Ok(u) => Ok(()),
                                Err(er) => Err(er),
                            }
                        },
                        _ => {
                            let msg = vec![
                                69u8, 120u8, 112u8, 101u8, 99u8, 116u8, 101u8, 100u8, 32u8, 97u8,
                                110u8, 32u8, 97u8, 114u8, 114u8, 97u8, 121u8,
                            ];
                            assert(msg@ =~= not_iterable_bytes());
                            proof {
                                assert(rstate(*rt, out@) =~~= step_node(*n, st0).st);
                            }
                            Err(Error::with_msg(msg))
                        },
                    }
                },
                Err(er) => {
                    proof {
                        assert(rstate(*rt, out@) =~~= step_node(*n, st0).st);
                    }
                    Err(er)
                },
            }
        },
    }
}

/// Renders the nodes from position `from` on.
pub fn render_nodes(ns: &Vec<Node>, from: usize, rt: &mut Runtime, out: &mut Vec<u8>) -> (r:
    Result<(), Error>)
    requires
        from <= ns@.len(),
        old(rt).stack.wf(),
    ensures
        final(rt).stack.wf(),
        final(rt).registers == old(rt).registers,
        final(rt).partials == old(rt).partials,
        rstate(*final(rt), final(out)@) == step_nodes(*ns, from as int, rstate(
            *old(rt),
            old(out)@,
        )).st,
        match r {
            Ok(u) => step_nodes(*ns, from as int, rstate(*old(rt), old(out)@)).err is None,
            Err(e) => step_nodes(*ns, from as int, rstate(*old(rt), old(out)@)).err matches Some(
                k,
            ) && err_matches(e.m(), k),
        },
    decreases *ns, 1nat, ns@.len() - from,
{
    let ghost st0 = rstate(*rt, out@);
    if from == ns.len() {
        assert(rstate(*rt, out@) =~~= step_nodes(*ns, from as int, st0).st);
        return Ok(());
    }
    if rt.interrupt.interrupted() {
        assert(rstate(*rt, out@) =~~= step_nodes(*ns, from as int, st0).st);
        return Ok(());
    }
    match render_node(&ns[from], rt, out) {
        Ok(u) => {
            let r = render_nodes(ns, from + 1, rt, out);
            r
        },
        Err(er) => Err(er),
    }
}

/// Renders the iterations of a `for` body from item `idx` on.
pub fn render_for(
    var: &Vec<u8>,
    body: &Vec<Node>,
    items: &Vec<Value>,
    idx: usize,
    rt: &mut Runtime,
    out: &mut Vec<u8>,
) -> (r: Result<(), Error>)
    requires
        idx <= items@.len(),
        old(rt).stack.wf(),
    ensures
        final(rt).stack.wf(),
        final(rt).registers == old(rt).registers,
        final(rt).partials == old(rt).partials,
        rstate(*final(rt), final(out)@) == run_for(
            *var,
            *body,
            model_seq(items@),
            idx as int,
            rstate(*old(rt), old(out)@),
        ).st,
        match r {
            Ok(u) => run_for(*var, *body, model_seq(items@), idx as int, rstate(
                *old(rt),
                old(out)@,
            )).err is None,
            Err(e) => run_for(*var, *body, model_seq(items@), idx as int, rstate(
                *old(rt),
                old(out)@,
            )).err matches Some(k) && err_matches(e.m(), k),
        },
    decreases *body, 2nat, items@.len() - idx,
{
    let ghost st0 = rstate(*rt, out@);
    proof {
        lemma_model_seq(items@);
    }
    if idx == items.len() {
        assert(rstate(*rt, out@) =~~= run_for(*var, *body, model_seq(items@), idx as int, st0).st);
        return Ok(());
    }
    let v = items[idx].to_value();
    let _prev = rt.stack.set(crate::value::copy_bytes(var), v);
    assert(rstate(*rt, out@) =~~= (RState {
        stack: sm_set_top(st0.stack, var@, model_seq(items@)[idx as int]),
        ..st0
    }));
    match render_nodes(body, 0, rt, out) {
        Ok(u) => {
            match rt.interrupt.pop_interrupt() {
                Some(Interrupt::Break) => {
                    assert(rstate(*rt, out@) =~~= run_for(
                        *var,
                        *body,
                        model_seq(items@),
                        idx as int,
                        st0,
                    ).st);
                    Ok(())
                },
                _ => {
                    proof {
                        let bound = RState {
                            stack: sm_set_top(st0.stack, var@, model_seq(items@)[idx as int]),
                            ..st0
                        };
                        let res = step_nodes(*body, 0, bound);
                        assert(rstate(*rt, out@) =~~= (RState { interrupt: None, ..res.st }));
                    }
                    let r = render_for(var, body, items, idx + 1, rt, out);
                    r
                },
            }
        },
        Err(er) => Err(er),
    }
}

/// The starting state of a fresh render: one empty frame over the given
/// globals, no counters, no interrupt, nothing written.
pub open spec fn initial_state(globals: Option<Seq<(Seq<u8>, VModel)>>) -> RState {
    RState {
        stack: StackModel {
            globals,
            frames: seq![
                FrameModel { name: None::<Seq<u8>>, data: Seq::<(Seq<u8>, VModel)>::empty() },
            ],
            indexes: Seq::<(Seq<u8>, VModel)>::empty(),
        },
        interrupt: None,
        out: Seq::empty(),
    }
}

impl Template {
    /// Renders the template into `out` against the given runtime.
    pub fn render_to(&self, out: &mut Vec<u8>, rt: &mut Runtime) -> (r: Result<(), Error>)
        requires
            old(rt).stack.wf(),
        ensures
            final(rt).stack.wf(),
            rstate(*final(rt), final(out)@) == step_nodes(self.nodes, 0, rstate(
                *old(rt),
                old(out)@,
            )).st,
            match r {
                Ok(u) => step_nodes(self.nodes, 0, rstate(*old(rt), old(out)@)).err is None,
                Err(e) => step_nodes(self.nodes, 0, rstate(*old(rt), old(out)@)).err matches Some(
                    k,
                ) && err_matches(e.m(), k),
            },
    {
        render_nodes(&self.nodes, 0, rt, out)
    }

    /// Renders the template against a data tree: the whole output, or the
    /// first error.
    pub fn render(&self, globals: Object) -> (r: Result<Vec<u8>, Error>)
        ensures
            ({
                let res = step_nodes(self.nodes, 0, initial_state(Some(globals.m())));
                match r {
                    Ok(o) => res.err is None && o@ == res.st.out,
                    Err(e) => res.err matches Some(k) && err_matches(e.m(), k),
                }
            }),
    {
        let mut rt = Runtime {
            stack: crate::stack::Stack::with_globals(globals),
            partials: crate::runtime::Partials::new(),
            registers: Object::new(),
            interrupt: crate::runtime::InterruptState::new(),
        };
        let mut out: Vec<u8> = Vec::new();
        proof {
            assert(rstate(rt, out@) =~~= initial_state(Some(old_globals_m(rt))));
        }
        let r = render_nodes(&self.nodes, 0, &mut rt, &mut out);
        match r {
            Ok(u) => Ok(out),
            Err(e) => Err(e),
        }
    }
}

/// The globals model of a runtime that has one.
pub open spec fn old_globals_m(rt: Runtime) -> Seq<(Seq<u8>, VModel)> {
    match rt.stack.globals {
        Some(g) => crate::value::model_entries(g.entries@),
        None => Seq::empty(),
    }
}

} // verus!
