use vstd::prelude::*;

use crate::axis::{Axis, TestView, XPathNodeTest};
use crate::document::{Any, Nodeset};

verus! {

/// The arithmetic operators.
#[derive(Debug, Clone, Copy, PartialEq, Eq, Structural)]
pub enum MathOp {
    Addition,
    Subtraction,
    Multiplication,
    Division,
    Remainder,
}

/// The ordering comparisons.
#[derive(Debug, Clone, Copy, PartialEq, Eq, Structural)]
pub enum RelationalOp {
    LessThan,
    LessThanOrEqual,
    GreaterThan,
    GreaterThanOrEqual,
}

/// A constant of an expression. A number keeps its digits as written; the
/// parser makes only texts and numbers.
#[derive(Debug, PartialEq)]
pub enum LiteralValue {
    Text(String),
    Number(String),
    Boolean(bool),
    Nodes(Nodeset),
}

/// An XPath expression tree; each node owns its children.
#[derive(Debug, PartialEq)]
pub enum Expression {
    Or(Box<Expression>, Box<Expression>),
    And(Box<Expression>, Box<Expression>),
    Equal(Box<Expression>, Box<Expression>),
    NotEqual(Box<Expression>, Box<Expression>),
    Relational(RelationalOp, Box<Expression>, Box<Expression>),
    Math(MathOp, Box<Expression>, Box<Expression>),
    Union(Box<Expression>, Box<Expression>),
    Negation(Box<Expression>),
    /// The context node.
    ContextNode,
    /// The root of the context node's document.
    RootNode,
    Literal(LiteralValue),
    Variable(String),
    Function(String, Vec<Expression>),
    /// The nodes an axis reaches from the context node that pass a node test.
    Step(Axis, XPathNodeTest),
    /// The nodes selected by the first expression for which the second holds.
    Predicate(Box<Expression>, Box<Expression>),
    /// A start expression followed by steps, each applied to every node the
    /// path has reached so far.
    Path(Box<Expression>, Vec<Expression>),
}

/// A literal as specifications see it.
pub enum LiteralView {
    Text(Seq<char>),
    Number(Seq<char>),
    Boolean(bool),
    Nodes(Seq<Any>),
}

/// An expression tree as specifications see it.
pub enum ExprView {
    Or(Box<ExprView>, Box<ExprView>),
    And(Box<ExprView>, Box<ExprView>),
    Equal(Box<ExprView>, Box<ExprView>),
    NotEqual(Box<ExprView>, Box<ExprView>),
    Relational(RelationalOp, Box<ExprView>, Box<ExprView>),
    Math(MathOp, Box<ExprView>, Box<ExprView>),
    Union(Box<ExprView>, Box<ExprView>),
    Negation(Box<ExprView>),
    ContextNode,
    RootNode,
    Literal(LiteralView),
    Variable(Seq<char>),
    Function(Seq<char>, Seq<ExprView>),
    Step(Axis, TestView),
    Predicate(Box<ExprView>, Box<ExprView>),
    Path(Box<ExprView>, Seq<ExprView>),
}

impl View for LiteralValue {
    type V = LiteralView;

    open spec fn view(&self) -> LiteralView {
        match self {
            LiteralValue::Text(s) => LiteralView::Text(s@),
            LiteralValue::Number(s) => LiteralView::Number(s@),
            LiteralValue::Boolean(b) => LiteralView::Boolean(*b),
            LiteralValue::Nodes(ns) => LiteralView::Nodes(ns@),
        }
    }
}

pub open spec fn expr_view(e: &Expression) -> ExprView
    decreases e,
{
    match e {
        Expression::Or(l, r) => ExprView::Or(Box::new(expr_view(l)), Box::new(expr_view(r))),
        Expression::And(l, r) => ExprView::And(Box::new(expr_view(l)), Box::new(expr_view(r))),
        Expression::Equal(l, r) => ExprView::Equal(Box::new(expr_view(l)), Box::new(expr_view(r))),
        Expression::NotEqual(l, r) => ExprView::NotEqual(Box::new(expr_view(l)), Box::new(expr_view(r))),
        Expression::Relational(op, l, r) => ExprView::Relational(*op, Box::new(expr_view(l)), Box::new(expr_view(r))),
        Expression::Math(op, l, r) => ExprView::Math(*op, Box::new(expr_view(l)), Box::new(expr_view(r))),
        Expression::Union(l, r) => ExprView::Union(Box::new(expr_view(l)), Box::new(expr_view(r))),
        Expression::Negation(x) => ExprView::Negation(Box::new(expr_view(x))),
        Expression::ContextNode => ExprView::ContextNode,
        Expression::RootNode => ExprView::RootNode,
        Expression::Literal(v) => ExprView::Literal(v@),
        Expression::Variable(n) => ExprView::Variable(n@),
        Expression::Function(n, args) => ExprView::Function(n@, exprs_view(args@)),
        Expression::Step(a, t) => ExprView::Step(*a, t@),
        Expression::Predicate(x, p) => ExprView::Predicate(Box::new(expr_view(x)), Box::new(expr_view(p))),
        Expression::Path(x, steps) => ExprView::Path(Box::new(expr_view(x)), exprs_view(steps@)),
    }
}

pub open spec fn exprs_view(s: Seq<Expression>) -> Seq<ExprView>
    decreases s,
{
    if s.len() == 0 {
        seq![]
    } else {
        exprs_view(s.drop_last()).push(expr_view(&s.last()))
    }
}

} // verus!
