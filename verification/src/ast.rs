//! The executable representation of a parsed template.
//!
//! A template is a sequence of renderable nodes.  Expressions are literals
//! or variable paths; conditions compare expressions and combine with
//! `and` / `or`.  Block nodes own their child nodes.

use vstd::prelude::*;

use crate::value::Scalar;
use crate::value::Value;

verus! {

/// A comparison operator of the language.
#[derive(Clone, Copy, Debug, PartialEq, Eq, Structural)]
pub enum CmpOp {
    /// `==`
    Eq,
    /// `!=`
    Ne,
    /// `<`
    Lt,
    /// `<=`
    Le,
    /// `>`
    Gt,
    /// `>=`
    Ge,
    /// `contains`
    Contains,
}

/// An expression: a literal or a variable path.
#[derive(Debug)]
pub enum Expr {
    /// A literal value.
    Literal(Value),
    /// A variable path: the first key names the root, the rest index into
    /// it.
    Path(Vec<Scalar>),
}

/// A condition of an `if` tag.
#[derive(Debug)]
pub enum Cond {
    /// A bare expression, tested for truthiness.
    Truthy(Expr),
    /// A comparison of two expressions.
    Cmp(Expr, CmpOp, Expr),
    /// Both conditions hold.
    And(Box<Cond>, Box<Cond>),
    /// At least one condition holds.
    Or(Box<Cond>, Box<Cond>),
}

/// A renderable node of a parsed template.
#[derive(Debug)]
pub enum Node {
    /// Raw template text, emitted as is.
    Text(Vec<u8>),
    /// `{{ expr }}`: the expression's rendering.
    Output(Expr),
    /// `{% assign name = expr %}`: binds in the global frame.
    Assign(Vec<u8>, Expr),
    /// `{% increment name %}`: emits and bumps a counter.
    Increment(Vec<u8>),
    /// `{% decrement name %}`: bumps down and emits a counter.
    Decrement(Vec<u8>),
    /// `{% break %}`: interrupts the innermost loop.
    Break,
    /// `{% continue %}`: interrupts the current iteration.
    Continue,
    /// `{% if cond %} … {% else %} … {% endif %}`.
    If {
        /// The tested condition.
        cond: Cond,
        /// The nodes rendered when the condition holds.
        then_branch: Vec<Node>,
        /// The nodes rendered otherwise.
        else_branch: Vec<Node>,
    },
    /// `{% for var in expr %} … {% endfor %}`.
    For {
        /// The loop variable.
        var: Vec<u8>,
        /// The expression yielding the array iterated over.
        source: Expr,
        /// The loop body.
        body: Vec<Node>,
    },
}

/// A parsed template: immutable once built.
#[derive(Debug)]
pub struct Template {
    /// The nodes, in source order.
    pub nodes: Vec<Node>,
}

} // verus!
