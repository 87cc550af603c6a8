//! Expression and condition parsing inside markup.
//!
//! Expressions are literals or variable paths; conditions chain
//! comparisons with `and` and `or`, comparisons binding tighter and both
//! combinators associating to the left.  Each parser reads from a byte
//! position and reports where it stopped, and is pinned to a ghost mirror.
//! The recursive stages carry an explicit step budget so the mirrors stay
//! total functions; the budget covers any input that fits in memory.

use vstd::prelude::*;

use crate::ast::CmpOp;
use crate::ast::Cond;
use crate::ast::Expr;
use crate::error::Error;
use crate::find::model_path;
use crate::literal::blank_word_bytes;
use crate::literal::empty_word_bytes;
use crate::literal::exp;
use crate::literal::exp_end;
use crate::literal::ident_end;
use crate::literal::ident;
use crate::literal::inf_word;
use crate::literal::nan_word;
use crate::literal::integer_literal;
use crate::literal::integer_literal_m;
use crate::literal::is_digit;
use crate::literal::null_bytes;
use crate::literal::string_literal;
use crate::literal::string_literal_m;
use crate::literal::skip_ws;
use crate::literal::ws_end;
use crate::literal::copy_range;
use crate::parser::perr_matches;
use crate::parser::unexpected_token_bytes;
use crate::parser::float_unsupported_bytes;
use crate::parser::unterminated_string_bytes;
use crate::parser::depth_bytes;
use crate::parser::PErrM;
use crate::value::false_bytes;
use crate::value::model;
use crate::value::nil_bytes;
use crate::value::true_bytes;
use crate::value::Scalar;
use crate::value::State;
use crate::value::Value;
use crate::value::VModel;

verus! {

/// The ghost mirror of an expression.
#[verifier::ext_equal]
pub ghost enum ExprM {
    /// A literal's value model.
    LitM(VModel),
    /// A path's key models.
    PathM(Seq<VModel>),
}

/// The model of an expression.
pub open spec fn expr_model(e: Expr) -> ExprM {
    match e {
        Expr::Literal(v) => ExprM::LitM(model(v)),
        Expr::Path(p) => ExprM::PathM(model_path(p@)),
    }
}

/// The ghost mirror of a condition.
#[verifier::ext_equal]
pub ghost enum CondM {
    /// A bare expression, tested for truthiness.
    TruthyM(ExprM),
    /// A comparison.
    CmpM(ExprM, CmpOp, ExprM),
    /// Both conditions hold.
    AndM(Box<CondM>, Box<CondM>),
    /// At least one condition holds.
    OrM(Box<CondM>, Box<CondM>),
}

/// The model of a condition.
pub open spec fn cond_model(c: Cond) -> CondM
    decreases c,
{
    match c {
        Cond::Truthy(e) => CondM::TruthyM(expr_model(e)),
        Cond::Cmp(a, op, b) => CondM::CmpM(expr_model(a), op, expr_model(b)),
        Cond::And(x, y) => CondM::AndM(Box::new(cond_model(*x)), Box::new(cond_model(*y))),
        Cond::Or(x, y) => CondM::OrM(Box::new(cond_model(*x)), Box::new(cond_model(*y))),
    }
}

/// The step budget for a byte run of length `n`: enough for any input
/// that fits in memory.
pub open spec fn budget(n: int) -> nat {
    if n >= usize::MAX - 2 {
        usize::MAX as nat
    } else {
        (n + 2) as nat
    }
}

/// Computes the step budget.
pub fn budget_of(n: usize) -> (r: usize)
    ensures
        r as nat == budget(n as int),
{
    if n >= usize::MAX - 2 {
        usize::MAX
    } else {
        n + 2
    }
}

/// The bytes of the word `and`.
pub open spec fn and_word() -> Seq<u8> {
    seq![97u8, 110u8, 100u8]
}

/// The bytes of the word `or`.
pub open spec fn or_word() -> Seq<u8> {
    seq![111u8, 114u8]
}

/// The bytes of the word `contains`.
pub open spec fn contains_word() -> Seq<u8> {
    seq![99u8, 111u8, 110u8, 116u8, 97u8, 105u8, 110u8, 115u8]
}

/// Whether the whole identifier at `k` is the word `nan` or `inf`.
pub open spec fn float_word_at(s: Seq<u8>, k: int) -> bool {
    let ke = ident_end(s, k);
    ke > k && (s.subrange(k, ke) == nan_word() || s.subrange(k, ke) == inf_word())
}

/// What an expression at `i` parses to: the mirror and the position after
/// it.
pub open spec fn parse_expr_m(s: Seq<u8>, i: int, fuel: nat) -> Result<(ExprM, int), PErrM>
    decreases fuel,
{
    if fuel == 0 {
        Err(PErrM::Depth)
    } else {
        let j = ws_end(s, i);
        if j < s.len() && (is_digit(s[j]) || (s[j] == 45 && j + 1 < s.len() && is_digit(
            s[j + 1],
        ))) {
            match integer_literal_m(s, j) {
                Some(p) => if (p.0 < s.len() && s[p.0] == 46 && p.0 + 1 < s.len() && is_digit(
                    s[p.0 + 1],
                )) || exp_end(s, p.0) is Some {
                    Err(PErrM::FloatLit)
                } else {
                    Ok((ExprM::LitM(VModel::Int(p.1 as int)), p.0))
                },
                None => Err(PErrM::Syntax),
            }
        } else if j < s.len() && (s[j] == 43 || s[j] == 45) && float_word_at(s, j + 1) {
            Err(PErrM::FloatLit)
        } else if j < s.len() && (s[j] == 39 || s[j] == 34) {
            match string_literal_m(s, j) {
                Some(p) => Ok((ExprM::LitM(VModel::Str(p.1)), p.0)),
                None => Err(PErrM::UnterminatedString),
            }
        } else {
            let we = ident_end(s, j);
            if we == j {
                Err(PErrM::Syntax)
            } else {
                let w = s.subrange(j, we);
                if w == nan_word() || w == inf_word() {
                    Err(PErrM::FloatLit)
                } else if w == true_bytes() {
                    Ok((ExprM::LitM(VModel::Bool(true)), we))
                } else if w == false_bytes() {
                    Ok((ExprM::LitM(VModel::Bool(false)), we))
                } else if w == nil_bytes() || w == null_bytes() {
                    Ok((ExprM::LitM(VModel::Nil), we))
                } else if w == empty_word_bytes() {
                    Ok((ExprM::LitM(VModel::State(State::Empty)), we))
                } else if w == blank_word_bytes() {
                    Ok((ExprM::LitM(VModel::State(State::Blank)), we))
                } else {
                    parse_path_m(s, we, seq![VModel::Str(w)], (fuel - 1) as nat)
                }
            }
        }
    }
}

/// What the rest of a path parses to, after `acc` keys: `.ident` and
/// bracketed literal index segments.
pub open spec fn parse_path_m(s: Seq<u8>, i: int, acc: Seq<VModel>, fuel: nat) -> Result<
    (ExprM, int),
    PErrM,
>
    decreases fuel,
{
    if fuel == 0 {
        Err(PErrM::Depth)
    } else if 0 <= i < s.len() && s[i] == 46 {
        let we = ident_end(s, i + 1);
        if we == i + 1 {
            Err(PErrM::Syntax)
        } else {
            parse_path_m(s, we, acc.push(VModel::Str(s.subrange(i + 1, we))), (fuel - 1) as nat)
        }
    } else if 0 <= i < s.len() && s[i] == 91 {
        let j = ws_end(s, i + 1);
        if j < s.len() && (is_digit(s[j]) || (s[j] == 45 && j + 1 < s.len() && is_digit(
            s[j + 1],
        ))) {
            match integer_literal_m(s, j) {
                Some(p) => {
                    let k = ws_end(s, p.0);
                    if k < s.len() && s[k] == 93 {
                        parse_path_m(s, k + 1, acc.push(VModel::Int(p.1 as int)), (fuel - 1) as nat)
                    } else {
                        Err(PErrM::Syntax)
                    }
                },
                None => Err(PErrM::Syntax),
            }
        } else if j < s.len() && (s[j] == 39 || s[j] == 34) {
            match string_literal_m(s, j) {
                Some(p) => {
                    let k = ws_end(s, p.0);
                    if k < s.len() && s[k] == 93 {
                        parse_path_m(s, k + 1, acc.push(VModel::Str(p.1)), (fuel - 1) as nat)
                    } else {
                        Err(PErrM::Syntax)
                    }
                },
                None => Err(PErrM::UnterminatedString),
            }
        } else {
            Err(PErrM::Syntax)
        }
    } else {
        Ok((ExprM::PathM(acc), i))
    }
}

/// The comparison operator at `k`, if any, and the position after it.
pub open spec fn cmp_op_at(s: Seq<u8>, k: int) -> Option<(CmpOp, int)> {
    if 0 <= k && k + 1 < s.len() && s[k] == 61 && s[k + 1] == 61 {
        Some((CmpOp::Eq, k + 2))
    } else if 0 <= k && k + 1 < s.len() && s[k] == 33 && s[k + 1] == 61 {
        Some((CmpOp::Ne, k + 2))
    } else if 0 <= k && k < s.len() && s[k] == 60 {
        if k + 1 < s.len() && s[k + 1] == 61 {
            Some((CmpOp::Le, k + 2))
        } else {
            Some((CmpOp::Lt, k + 1))
        }
    } else if 0 <= k && k < s.len() && s[k] == 62 {
        if k + 1 < s.len() && s[k + 1] == 61 {
            Some((CmpOp::Ge, k + 2))
        } else {
            Some((CmpOp::Gt, k + 1))
        }
    } else if 0 <= k && k <= s.len() && ident_end(s, k) > k && s.subrange(k, ident_end(s, k))
        == contains_word() {
        Some((CmpOp::Contains, ident_end(s, k)))
    } else {
        None
    }
}

/// What one comparison parses to: an expression, optionally compared with
/// a second one.
pub open spec fn parse_cmp_m(s: Seq<u8>, i: int, fuel: nat) -> Result<(CondM, int), PErrM>
    decreases fuel,
{
    if fuel == 0 {
        Err(PErrM::Depth)
    } else {
        match parse_expr_m(s, i, (fuel - 1) as nat) {
            Ok(p) => {
                let k = ws_end(s, p.1);
                match cmp_op_at(s, k) {
                    Some(q) => match parse_expr_m(s, q.1, (fuel - 1) as nat) {
                        Ok(p2) => Ok((CondM::CmpM(p.0, q.0, p2.0), p2.1)),
                        Err(e) => Err(e),
                    },
                    None => Ok((CondM::TruthyM(p.0), p.1)),
                }
            },
            Err(e) => Err(e),
        }
    }
}

/// Whether the word `w` stands at the whitespace-skipped position after
/// `i`, as a whole identifier.
pub open spec fn word_at(s: Seq<u8>, i: int, w: Seq<u8>) -> bool {
    let k = ws_end(s, i);
    ident_end(s, k) > k && s.subrange(k, ident_end(s, k)) == w
}

/// What an `and` chain parses to, continuing from condition `acc`.
pub open spec fn and_tail_m(s: Seq<u8>, i: int, acc: CondM, fuel: nat) -> Result<
    (CondM, int),
    PErrM,
>
    decreases fuel,
{
    if fuel == 0 {
        Err(PErrM::Depth)
    } else if word_at(s, i, and_word()) {
        let k = ws_end(s, i);
        match parse_cmp_m(s, ident_end(s, k), (fuel - 1) as nat) {
            Ok(p) => and_tail_m(s, p.1, CondM::AndM(Box::new(acc), Box::new(p.0)), (fuel
                - 1) as nat),
            Err(e) => Err(e),
        }
    } else {
        Ok((acc, i))
    }
}

/// What an `and` level parses to: comparisons joined left to right.
pub open spec fn parse_and_m(s: Seq<u8>, i: int, fuel: nat) -> Result<(CondM, int), PErrM>
    decreases fuel,
{
    if fuel == 0 {
        Err(PErrM::Depth)
    } else {
        match parse_cmp_m(s, i, (fuel - 1) as nat) {
            Ok(p) => and_tail_m(s, p.1, p.0, (fuel - 1) as nat),
            Err(e) => Err(e),
        }
    }
}

/// What an `or` chain parses to, continuing from condition `acc`.
pub open spec fn or_tail_m(s: Seq<u8>, i: int, acc: CondM, fuel: nat) -> Result<
    (CondM, int),
    PErrM,
>
    decreases fuel,
{
    if fuel == 0 {
        Err(PErrM::Depth)
    } else if word_at(s, i, or_word()) {
        let k = ws_end(s, i);
        match parse_and_m(s, ident_end(s, k), (fuel - 1) as nat) {
            Ok(p) => or_tail_m(s, p.1, CondM::OrM(Box::new(acc), Box::new(p.0)), (fuel - 1) as nat),
            Err(e) => Err(e),
        }
    } else {
        Ok((acc, i))
    }
}

/// What a whole condition parses to: `and` binds tighter than `or`, both
/// associate to the left.
pub open spec fn parse_cond_m(s: Seq<u8>, i: int, fuel: nat) -> Result<(CondM, int), PErrM>
    decreases fuel,
{
    if fuel == 0 {
        Err(PErrM::Depth)
    } else {
        match parse_and_m(s, i, (fuel - 1) as nat) {
            Ok(p) => or_tail_m(s, p.1, p.0, (fuel - 1) as nat),
            Err(e) => Err(e),
        }
    }
}

/// What a condition that must fill the whole run parses to.
pub open spec fn parse_cond_full_m(s: Seq<u8>, i: int) -> Result<CondM, PErrM> {
    match parse_cond_m(s, i, budget(s.len() as int)) {
        Ok(p) => if ws_end(s, p.1) == s.len() {
            Ok(p.0)
        } else {
            Err(PErrM::Syntax)
        },
        Err(e) => Err(e),
    }
}

/// Decides whether the whole identifier at `k` is the word `nan` or
/// `inf`.
fn is_float_word(s: &Vec<u8>, k: usize) -> (r: bool)
    requires
        k <= s@.len(),
    ensures
        r == float_word_at(s@, k as int),
{
    let ke = ident(s, k);
    if ke > k {
        let w = copy_range(s, k, ke);
        let nw = vec![110u8, 97u8, 110u8];
        assert(nw@ =~= nan_word());
        let iw = vec![105u8, 110u8, 102u8];
        assert(iw@ =~= inf_word());
        crate::value::bytes_eq(&w, &nw) || crate::value::bytes_eq(&w, &iw)
    } else {
        false
    }
}

/// The unexpected-token error.
pub fn syntax_error() -> (r: Error)
    ensures
        r.m().msg == unexpected_token_bytes(),
{
    let msg = vec![
        85u8, 110u8, 101u8, 120u8, 112u8, 101u8, 99u8, 116u8, 101u8, 100u8, 32u8, 116u8, 111u8,
        107u8, 101u8, 110u8,
    ];
    assert(msg@ =~= unexpected_token_bytes());
    Error::with_msg(msg)
}

/// The float-literal error.
pub fn float_error() -> (r: Error)
    ensures
        r.m().msg == float_unsupported_bytes(),
{
    let msg = vec![
        70u8, 108u8, 111u8, 97u8, 116u8, 32u8, 108u8, 105u8, 116u8, 101u8, 114u8, 97u8, 108u8,
        115u8, 32u8, 97u8, 114u8, 101u8, 32u8, 110u8, 111u8, 116u8, 32u8, 115u8, 117u8, 112u8,
        112u8, 111u8, 114u8, 116u8, 101u8, 100u8,
    ];
    assert(msg@ =~= float_unsupported_bytes());
    Error::with_msg(msg)
}

/// The unterminated-string error.
pub fn unterminated_string_error() -> (r: Error)
    ensures
        r.m().msg == unterminated_string_bytes(),
{
    let msg = vec![
        85u8, 110u8, 116u8, 101u8, 114u8, 109u8, 105u8, 110u8, 97u8, 116u8, 101u8, 100u8, 32u8,
        115u8, 116u8, 114u8, 105u8, 110u8, 103u8,
    ];
    assert(msg@ =~= unterminated_string_bytes());
    Error::with_msg(msg)
}

/// The exhausted-budget error.
pub fn depth_limit_error() -> (r: Error)
    ensures
        r.m().msg == depth_bytes(),
{
    let msg = vec![
        84u8, 101u8, 109u8, 112u8, 108u8, 97u8, 116u8, 101u8, 32u8, 105u8, 115u8, 32u8, 116u8,
        111u8, 111u8, 32u8, 105u8, 110u8, 118u8, 111u8, 108u8, 118u8, 101u8, 100u8,
    ];
    assert(msg@ =~= depth_bytes());
    Error::with_msg(msg)
}

/// Parses an expression from `at`.
pub fn parse_expr(s: &Vec<u8>, at: usize, fuel: usize) -> (r: Result<(Expr, usize), Error>)
    requires
        at <= s@.len(),
    ensures
        match parse_expr_m(s@, at as int, fuel as nat) {
            Ok(p) => r matches Ok(q) && expr_model(q.0) == p.0 && q.1 as int == p.1 && q.1
                <= s@.len(),
            Err(k) => r matches Err(e) && perr_matches(e.m(), k),
        },
    decreases fuel,
{
    if fuel == 0 {
        return Err(depth_limit_error());
    }
    let j = skip_ws(s, at);
    if j < s.len() && ((48 <= s[j] && s[j] <= 57) || (s[j] == 45 && j + 1 < s.len() && 48 <= s[j
        + 1] && s[j + 1] <= 57)) {
        match integer_literal(s, j) {
            Some((e, v)) => {
                let frac_start = e < s.len() && s[e] == 46 && e + 1 < s.len() && 48 <= s[e + 1]
                    && s[e + 1] <= 57;
                if frac_start || exp(s, e).is_some() {
                    Err(float_error())
                } else {
                    Ok((Expr::Literal(Value::Scalar(Scalar::Integer(v))), e))
                }
            },
            None => Err(syntax_error()),
        }
    } else if j < s.len() && (s[j] == 43 || s[j] == 45) && is_float_word(s, j + 1) {
        Err(float_error())
    } else if j < s.len() && (s[j] == 39 || s[j] == 34) {
        match string_literal(s, j) {
            Some((e, content)) => Ok((Expr::Literal(Value::Scalar(Scalar::Str(content))), e)),
            None => Err(unterminated_string_error()),
        }
    } else {
        let we = ident(s, j);
        if we == j {
            return Err(syntax_error());
        }
        let w = copy_range(s, j, we);
        let nanw = vec![110u8, 97u8, 110u8];
        assert(nanw@ =~= nan_word());
        let infw = vec![105u8, 110u8, 102u8];
        assert(infw@ =~= inf_word());
        if crate::value::bytes_eq(&w, &nanw) || crate::value::bytes_eq(&w, &infw) {
            return Err(float_error());
        }
        let tw = vec![116u8, 114u8, 117u8, 101u8];
        assert(tw@ =~= true_bytes());
        let fw = vec![102u8, 97u8, 108u8, 115u8, 101u8];
        assert(fw@ =~= false_bytes());
        let nw = vec![110u8, 105u8, 108u8];
        assert(nw@ =~= nil_bytes());
        let uw = vec![110u8, 117u8, 108u8, 108u8];
        assert(uw@ =~= null_bytes());
        let ew = vec![101u8, 109u8, 112u8, 116u8, 121u8];
        assert(ew@ =~= empty_word_bytes());
        let bw = vec![98u8, 108u8, 97u8, 110u8, 107u8];
        assert(bw@ =~= blank_word_bytes());
        if crate::value::bytes_eq(&w, &tw) {
            Ok((Expr::Literal(Value::Scalar(Scalar::Bool(true))), we))
        } else if crate::value::bytes_eq(&w, &fw) {
            Ok((Expr::Literal(Value::Scalar(Scalar::Bool(false))), we))
        } else if crate::value::bytes_eq(&w, &nw) || crate::value::bytes_eq(&w, &uw) {
            Ok((Expr::Literal(Value::Nil), we))
        } else if crate::value::bytes_eq(&w, &ew) {
            Ok((Expr::Literal(Value::State(State::Empty)), we))
        } else if crate::value::bytes_eq(&w, &bw) {
            Ok((Expr::Literal(Value::State(State::Blank)), we))
        } else {
            let mut path: Vec<Scalar> = Vec::new();
            path.push(Scalar::Str(w));
            assert(model_path(path@) =~= seq![VModel::Str(s@.subrange(j as int, we as int))]);
            parse_path(s, we, path, fuel - 1)
        }
    }
}

/// Parses the rest of a path after the keys in `acc`.
pub fn parse_path(s: &Vec<u8>, at: usize, acc: Vec<Scalar>, fuel: usize) -> (r: Result<
    (Expr, usize),
    Error,
>)
    requires
        at <= s@.len(),
    ensures
        match parse_path_m(s@, at as int, model_path(acc@), fuel as nat) {
            Ok(p) => r matches Ok(q) && expr_model(q.0) == p.0 && q.1 as int == p.1 && q.1
                <= s@.len(),
            Err(k) => r matches Err(e) && perr_matches(e.m(), k),
        },
    decreases fuel,
{
    if fuel == 0 {
        return Err(depth_limit_error());
    }
    if at < s.len() && s[at] == 46 {
        let we = ident(s, at + 1);
        if we == at + 1 {
            return Err(syntax_error());
        }
        let seg = copy_range(s, at + 1, we);
        let mut acc2 = acc;
        let ghost acc_m = model_path(acc2@);
        acc2.push(Scalar::Str(seg));
        proof {
            assert(model_path(acc2@) =~= acc_m.push(
                VModel::Str(s@.subrange(at + 1, we as int)),
            ));
        }
        parse_path(s, we, acc2, fuel - 1)
    } else if at < s.len() && s[at] == 91 {
        let j = skip_ws(s, at + 1);
        if j < s.len() && ((48 <= s[j] && s[j] <= 57) || (s[j] == 45 && j + 1 < s.len() && 48 <= s[j
            + 1] && s[j + 1] <= 57)) {
            match integer_literal(s, j) {
                Some((e, v)) => {
                    let k = skip_ws(s, e);
                    if k < s.len() && s[k] == 93 {
                        let mut acc2 = acc;
                        let ghost acc_m = model_path(acc2@);
                        acc2.push(Scalar::Integer(v));
                        proof {
                            assert(model_path(acc2@) =~= acc_m.push(VModel::Int(v as int)));
                        }
                        parse_path(s, k + 1, acc2, fuel - 1)
                    } else {
                        Err(syntax_error())
                    }
                },
                None => Err(syntax_error()),
            }
        } else if j < s.len() && (s[j] == 39 || s[j] == 34) {
            match string_literal(s, j) {
                Some((e, content)) => {
                    let k = skip_ws(s, e);
                    if k < s.len() && s[k] == 93 {
                        let ghost cm = content@;
                        let mut acc2 = acc;
                        let ghost acc_m = model_path(acc2@);
                        acc2.push(Scalar::Str(content));
                        proof {
                            assert(model_path(acc2@) =~= acc_m.push(VModel::Str(cm)));
                        }
                        parse_path(s, k + 1, acc2, fuel - 1)
                    } else {
                        Err(syntax_error())
                    }
                },
                None => Err(unterminated_string_error()),
            }
        } else {
            Err(syntax_error())
        }
    } else {
        Ok((Expr::Path(acc), at))
    }
}

/// Reads the comparison operator at `at`, if any.
fn read_cmp_op(s: &Vec<u8>, at: usize) -> (r: Option<(CmpOp, usize)>)
    requires
        at <= s@.len(),
    ensures
        match r {
            Some(q) => cmp_op_at(s@, at as int) == Some((q.0, q.1 as int)) && q.1 <= s@.len(),
            None => cmp_op_at(s@, at as int) is None,
        },
{
    let n = s.len();
    if at < n && s[at] == 61 && at + 1 < n && s[at + 1] == 61 {
        Some((CmpOp::Eq, at + 2))
    } else if at < n && s[at] == 33 && at + 1 < n && s[at + 1] == 61 {
        Some((CmpOp::Ne, at + 2))
    } else if at < n && s[at] == 60 {
        if at + 1 < n && s[at + 1] == 61 {
            Some((CmpOp::Le, at + 2))
        } else {
            Some((CmpOp::Lt, at + 1))
        }
    } else if at < n && s[at] == 62 {
        if at + 1 < n && s[at + 1] == 61 {
            Some((CmpOp::Ge, at + 2))
        } else {
            Some((CmpOp::Gt, at + 1))
        }
    } else {
        let we = ident(s, at);
        if we > at {
            let w = copy_range(s, at, we);
            let cw = vec![99u8, 111u8, 110u8, 116u8, 97u8, 105u8, 110u8, 115u8];
            assert(cw@ =~= contains_word());
            if crate::value::bytes_eq(&w, &cw) {
                return Some((CmpOp::Contains, we));
            }
        }
        None
    }
}

/// Parses one comparison.
pub fn parse_cmp(s: &Vec<u8>, at: usize, fuel: usize) -> (r: Result<(Cond, usize), Error>)
    requires
        at <= s@.len(),
    ensures
        match parse_cmp_m(s@, at as int, fuel as nat) {
            Ok(p) => r matches Ok(q) && cond_model(q.0) == p.0 && q.1 as int == p.1 && q.1
                <= s@.len(),
            Err(k) => r matches Err(e) && perr_matches(e.m(), k),
        },
    decreases fuel,
{
    if fuel == 0 {
        return Err(depth_limit_error());
    }
    match parse_expr(s, at, fuel - 1) {
        Ok((e1, j)) => {
            let k = skip_ws(s, j);
            match read_cmp_op(s, k) {
                Some((op, m)) => match parse_expr(s, m, fuel - 1) {
                    Ok((e2, n)) => Ok((Cond::Cmp(e1, op, e2), n)),
                    Err(er) => Err(er),
                },
                None => Ok((Cond::Truthy(e1), j)),
            }
        },
        Err(er) => Err(er),
    }
}

/// Decides whether the word `w` stands, as a whole identifier, after the
/// whitespace at `at`; reports the position after it.
fn read_word(s: &Vec<u8>, at: usize, w: &Vec<u8>) -> (r: Option<usize>)
    requires
        at <= s@.len(),
    ensures
        match r {
            Some(e) => word_at(s@, at as int, w@) && e as int == ident_end(s@, ws_end(s@, at as int))
                && e <= s@.len(),
            None => !word_at(s@, at as int, w@),
        },
{
    let k = skip_ws(s, at);
    let we = ident(s, k);
    if we > k {
        let word = copy_range(s, k, we);
        if crate::value::bytes_eq(&word, w) {
            return Some(we);
        }
    }
    None
}

/// Parses an `and` chain continuing from `acc`.
pub fn and_tail(s: &Vec<u8>, at: usize, acc: Cond, fuel: usize) -> (r: Result<
    (Cond, usize),
    Error,
>)
    requires
        at <= s@.len(),
    ensures
        match and_tail_m(s@, at as int, cond_model(acc), fuel as nat) {
            Ok(p) => r matches Ok(q) && cond_model(q.0) == p.0 && q.1 as int == p.1 && q.1
                <= s@.len(),
            Err(k) => r matches Err(e) && perr_matches(e.m(), k),
        },
    decreases fuel,
{
    if fuel == 0 {
        return Err(depth_limit_error());
    }
    let aw = vec![97u8, 110u8, 100u8];
    assert(aw@ =~= and_word());
    match read_word(s, at, &aw) {
        Some(we) => {
            match parse_cmp(s, we, fuel - 1) {
                Ok((c2, j)) => and_tail(s, j, Cond::And(Box::new(acc), Box::new(c2)), fuel - 1),
                Err(er) => Err(er),
            }
        },
        None => Ok((acc, at)),
    }
}

/// Parses an `and` level.
pub fn parse_and(s: &Vec<u8>, at: usize, fuel: usize) -> (r: Result<(Cond, usize), Error>)
    requires
        at <= s@.len(),
    ensures
        match parse_and_m(s@, at as int, fuel as nat) {
            Ok(p) => r matches Ok(q) && cond_model(q.0) == p.0 && q.1 as int == p.1 && q.1
                <= s@.len(),
            Err(k) => r matches Err(e) && perr_matches(e.m(), k),
        },
    decreases fuel,
{
    if fuel == 0 {
        return Err(depth_limit_error());
    }
    match parse_cmp(s, at, fuel - 1) {
        Ok((c, j)) => and_tail(s, j, c, fuel - 1),
        Err(er) => Err(er),
    }
}

/// Parses an `or` chain continuing from `acc`.
pub fn or_tail(s: &Vec<u8>, at: usize, acc: Cond, fuel: usize) -> (r: Result<(Cond, usize), Error>)
    requires
        at <= s@.len(),
    ensures
        match or_tail_m(s@, at as int, cond_model(acc), fuel as nat) {
            Ok(p) => r matches Ok(q) && cond_model(q.0) == p.0 && q.1 as int == p.1 && q.1
                <= s@.len(),
            Err(k) => r matches Err(e) && perr_matches(e.m(), k),
        },
    decreases fuel,
{
    if fuel == 0 {
        return Err(depth_limit_error());
    }
    let ow = vec![111u8, 114u8];
    assert(ow@ =~= or_word());
    match read_word(s, at, &ow) {
        Some(we) => {
            match parse_and(s, we, fuel - 1) {
                Ok((c2, j)) => or_tail(s, j, Cond::Or(Box::new(acc), Box::new(c2)), fuel - 1),
                Err(er) => Err(er),
            }
        },
        None => Ok((acc, at)),
    }
}

/// Parses a whole condition.
pub fn parse_cond(s: &Vec<u8>, at: usize, fuel: usize) -> (r: Result<(Cond, usize), Error>)
    requires
        at <= s@.len(),
    ensures
        match parse_cond_m(s@, at as int, fuel as nat) {
            Ok(p) => r matches Ok(q) && cond_model(q.0) == p.0 && q.1 as int == p.1 && q.1
                <= s@.len(),
            Err(k) => r matches Err(e) && perr_matches(e.m(), k),
        },
    decreases fuel,
{
    if fuel == 0 {
        return Err(depth_limit_error());
    }
    match parse_and(s, at, fuel - 1) {
        Ok((c, j)) => or_tail(s, j, c, fuel - 1),
        Err(er) => Err(er),
    }
}

/// Parses a condition that must fill the whole run.
pub fn parse_cond_full(s: &Vec<u8>, at: usize) -> (r: Result<Cond, Error>)
    requires
        at <= s@.len(),
    ensures
        match parse_cond_full_m(s@, at as int) {
            Ok(cm) => r matches Ok(c) && cond_model(c) == cm,
            Err(k) => r matches Err(e) && perr_matches(e.m(), k),
        },
{
    let fuel = budget_of(s.len());
    match parse_cond(s, at, fuel) {
        Ok((c, j)) => {
            let k = skip_ws(s, j);
            if k == s.len() {
                Ok(c)
            } else {
                Err(syntax_error())
            }
        },
        Err(er) => Err(er),
    }
}

} // verus!
