use vstd::prelude::*;

use crate::axis::{lemma_matching_members, lemma_reach_held, matching};
use crate::document::{Any, Document, Nodeset};
use crate::expression::{Expression, LiteralValue, MathOp, RelationalOp};
use crate::text::string_from;
use crate::value::{
    Comparison, ValueKind, boolean_of_nodeset, comparison_rule, boolean_of_string, comparison_for, lemma_kept_members,
    select_where, string_of_boolean, string_value, union,
};

verus! {

/// XPath numbers. They are IEEE doubles; this library never looks inside
/// one and leaves every operation on them to an implementation of this
/// trait, which callers supply.
pub trait XPathNumber: Sized {
    /// The number a numeric literal's digits denote.
    fn from_literal(digits: &str) -> Self;

    /// `number(s)` of a string: the number it writes, or NaN.
    fn from_string(s: &str) -> Self;

    /// A count or a position.
    fn from_count(n: usize) -> Self;

    /// `string(n)`.
    fn to_xpath_string(&self) -> String;

    /// Whether the number is neither zero nor NaN.
    fn is_true(&self) -> bool;

    /// Whether the number equals the position `p`.
    fn is_position(&self, p: usize) -> bool;

    fn equals(&self, other: &Self) -> bool;

    fn less_than(&self, other: &Self) -> bool;

    fn less_than_or_equal(&self, other: &Self) -> bool;

    fn add(&self, other: &Self) -> Self;

    fn subtract(&self, other: &Self) -> Self;

    fn multiply(&self, other: &Self) -> Self;

    fn divide(&self, other: &Self) -> Self;

    fn remainder(&self, other: &Self) -> Self;

    fn negate(&self) -> Self;

    fn duplicate(&self) -> Self;
}

/// An XPath value.
#[derive(Debug, PartialEq)]
pub enum XPathValue<N> {
    Boolean(bool),
    Number(N),
    String(String),
    Nodes(Nodeset),
}

/// Why an expression could not be evaluated.
#[derive(Debug, PartialEq, Eq)]
pub enum EvaluationError {
    UnknownFunction(String),
    UnknownVariable(String),
    /// A node set was required, as by `|`, a path or a predicate.
    NotANodeset,
    /// A function failed, with its message.
    FunctionFailed(String),
    /// A variable or a function gave a node of another document.
    NodeNotInDocument,
}

/// The functions an expression can call, supplied by the caller.
pub trait XPathFunctions<N: XPathNumber> {
    /// The result of calling `name` with `args` at `node`, which is at
    /// `position` of `size` nodes; `None` if there is no such function.
    fn call(
        &self,
        name: &str,
        node: Any,
        position: usize,
        size: usize,
        args: Vec<XPathValue<N>>,
    ) -> Option<Result<XPathValue<N>, EvaluationError>>;
}

/// The variables an expression can read.
pub struct Variables<N> {
    entries: Vec<(String, XPathValue<N>)>,
}

impl<N: XPathNumber> XPathValue<N> {
    pub open spec fn kind_of(&self) -> ValueKind {
        match self {
            XPathValue::Boolean(_) => ValueKind::Boolean,
            XPathValue::Number(_) => ValueKind::Number,
            XPathValue::String(_) => ValueKind::String,
            XPathValue::Nodes(_) => ValueKind::Nodes,
        }
    }

    pub fn kind(&self) -> (r: ValueKind)
        ensures
            r == self.kind_of(),
    {
        match self {
            XPathValue::Boolean(_) => ValueKind::Boolean,
            XPathValue::Number(_) => ValueKind::Number,
            XPathValue::String(_) => ValueKind::String,
            XPathValue::Nodes(_) => ValueKind::Nodes,
        }
    }

    /// A copy of the value.
    pub fn duplicate(&self) -> (r: XPathValue<N>)
        ensures
            r.kind_of() == self.kind_of(),
            self matches XPathValue::Boolean(b) ==> r == XPathValue::<N>::Boolean(*b),
            self matches XPathValue::String(s) ==> (r matches XPathValue::String(t) && t@ == s@),
            self matches XPathValue::Nodes(ns) ==> (r matches XPathValue::Nodes(ms) && ms@ == ns@),
    {
        match self {
            XPathValue::Boolean(b) => XPathValue::Boolean(*b),
            XPathValue::Number(n) => XPathValue::Number(n.duplicate()),
            XPathValue::String(s) => XPathValue::String(s.clone()),
            XPathValue::Nodes(ns) => XPathValue::Nodes(Nodeset::from_vec(ns.to_vec())),
        }
    }

    /// `boolean(v)`.
    pub fn boolean(&self) -> (r: bool)
        ensures
            self matches XPathValue::Boolean(b) ==> r == *b,
            self matches XPathValue::String(s) ==> r == (s@.len() > 0),
            self matches XPathValue::Nodes(ns) ==> r == (ns@.len() > 0),
    {
        match self {
            XPathValue::Boolean(b) => *b,
            XPathValue::Number(n) => n.is_true(),
            XPathValue::String(s) => boolean_of_string(s.as_str()),
            XPathValue::Nodes(ns) => boolean_of_nodeset(ns),
        }
    }

    /// `string(v)`; of a node set, the string value of its first node.
    pub fn string(&self, doc: &Document) -> (r: String)
        requires
            doc.wf(),
            self matches XPathValue::Nodes(ns) ==> forall|i: int|
                0 <= i < ns@.len() ==> doc.holds(#[trigger] ns@[i]),
        ensures
            self matches XPathValue::Boolean(b) ==> r@ == (if *b {
                "true"@
            } else {
                "false"@
            }),
            self matches XPathValue::String(s) ==> r@ == s@,
            self matches XPathValue::Nodes(ns) ==> r@ == (if ns@.len() == 0 {
                Seq::<char>::empty()
            } else {
                crate::value::string_value_of(doc, ns@[0])
            }),
    {
        match self {
            XPathValue::Boolean(b) => string_of_boolean(*b),
            XPathValue::Number(n) => n.to_xpath_string(),
            XPathValue::String(s) => s.clone(),
            XPathValue::Nodes(ns) => {
                if ns.size() == 0 {
                    String::new()
                } else {
                    string_value(doc, ns.get(0))
                }
            },
        }
    }

    /// `number(v)`, computed by the number type.
    fn number(&self, doc: &Document) -> N
        requires
            doc.wf(),
            self matches XPathValue::Nodes(ns) ==> forall|i: int|
                0 <= i < ns@.len() ==> doc.holds(#[trigger] ns@[i]),
    {
        match self {
            XPathValue::Boolean(b) => N::from_count(if *b {
                1
            } else {
                0
            }),
            XPathValue::Number(n) => n.duplicate(),
            XPathValue::String(s) => N::from_string(s.as_str()),
            XPathValue::Nodes(_) => {
                let s = self.string(doc);
                N::from_string(s.as_str())
            },
        }
    }
}

/// The index of the first entry named `name` from `k` on.
pub open spec fn entry_named<N>(entries: Seq<(String, XPathValue<N>)>, name: Seq<char>, k: int) -> Option<int>
    decreases entries.len() - k,
{
    if k < 0 || k >= entries.len() {
        None
    } else if entries[k].0@ == name {
        Some(k)
    } else {
        entry_named(entries, name, k + 1)
    }
}

proof fn lemma_entry_named_found<N>(entries: Seq<(String, XPathValue<N>)>, name: Seq<char>, k: int)
    requires
        0 <= k,
    ensures
        entry_named(entries, name, k) matches Some(j) ==> k <= j < entries.len() && entries[j].0@
            == name,
    decreases entries.len() - k,
{
    if k < entries.len() && entries[k].0@ != name {
        lemma_entry_named_found(entries, name, k + 1);
    }
}

proof fn lemma_entry_named_same_names<N>(
    a: Seq<(String, XPathValue<N>)>,
    b: Seq<(String, XPathValue<N>)>,
    name: Seq<char>,
    k: int,
)
    requires
        a.len() == b.len(),
        forall|i: int| 0 <= i < a.len() ==> (#[trigger] a[i]).0@ == b[i].0@,
    ensures
        entry_named(a, name, k) == entry_named(b, name, k),
    decreases a.len() - k,
{
    if 0 <= k < a.len() {
        assert(a[k].0@ == b[k].0@);
        lemma_entry_named_same_names(a, b, name, k + 1);
    }
}

proof fn lemma_entry_named_push<N>(
    a: Seq<(String, XPathValue<N>)>,
    x: (String, XPathValue<N>),
    name: Seq<char>,
    k: int,
)
    requires
        0 <= k <= a.len(),
    ensures
        entry_named(a.push(x), name, k) == (match entry_named(a, name, k) {
            Some(j) => Some(j),
            None => if x.0@ == name {
                Some(a.len() as int)
            } else {
                None
            },
        }),
    decreases a.len() - k,
{
    if k < a.len() {
        assert(a.push(x)[k] == a[k]);
        lemma_entry_named_push(a, x, name, k + 1);
    } else {
        assert(a.push(x)[k] == x);
        assert(entry_named(a.push(x), name, k + 1) is None);
    }
}

impl<N> Variables<N> {
    /// The value of the variable `name`, if it has one.
    pub closed spec fn value_of(&self, name: Seq<char>) -> Option<XPathValue<N>> {
        match entry_named(self.entries@, name, 0) {
            Some(k) => Some(self.entries@[k].1),
            None => None,
        }
    }

    pub fn new() -> (r: Variables<N>)
        ensures
            forall|name: Seq<char>| r.value_of(name) is None,
    {
        Variables { entries: Vec::new() }
    }

    /// The index of the variable `name`.
    fn find(&self, name: &String) -> (r: Option<usize>)
        ensures
            match r {
                Some(k) => entry_named(self.entries@, name@, 0) == Some(k as int) && k < self.entries.len(),
                None => entry_named(self.entries@, name@, 0) is None,
            },
    {
        let mut k: usize = 0;
        while k < self.entries.len()
            invariant
                k <= self.entries.len(),
                entry_named(self.entries@, name@, 0) == entry_named(self.entries@, name@, k as int),
            decreases self.entries.len() - k,
        {
            if self.entries[k].0 == *name {
                return Some(k);
            }
            k = k + 1;
        }
        None
    }

    /// Gives `name` the value `value`.
    pub fn set(&mut self, name: &str, value: XPathValue<N>)
        ensures
            final(self).value_of(name@) == Some(value),
            forall|other: Seq<char>| other != name@ ==> final(self).value_of(other) == old(
                self,
            ).value_of(other),
    {
        let key = string_from(name);
        let ghost before = self.entries@;
        match self.find(&key) {
            Some(k) => {
                self.entries.set(k, (key, value));
                proof {
                    lemma_entry_named_found(before, name@, 0);
                    assert forall|i: int| 0 <= i < before.len() implies (#[trigger] before[i]).0@
                        == self.entries@[i].0@ by {
                        if i == k {
                            assert(self.entries@[i].0@ == name@);
                        }
                    }
                    lemma_entry_named_same_names(before, self.entries@, name@, 0);
                    assert forall|other: Seq<char>| other != name@ implies self.value_of(other)
                        == old(self).value_of(other) by {
                        lemma_entry_named_same_names(before, self.entries@, other, 0);
                        lemma_entry_named_found(before, other, 0);
                    }
                }
            },
            None => {
                self.entries.push((key, value));
                proof {
                    lemma_entry_named_push(before, (self.entries@[before.len() as int]), name@, 0);
                    assert forall|other: Seq<char>| other != name@ implies self.value_of(other)
                        == old(self).value_of(other) by {
                        lemma_entry_named_push(before, (self.entries@[before.len() as int]), other, 0);
                        lemma_entry_named_found(before, other, 0);
                    }
                }
            },
        }
    }

    /// The value of `name`, if it has one.
    pub fn get(&self, name: &String) -> (r: Option<&XPathValue<N>>)
        ensures
            match r {
                Some(v) => self.value_of(name@) == Some(*v),
                None => self.value_of(name@) is None,
            },
    {
        let mut k: usize = 0;
        while k < self.entries.len()
            invariant
                k <= self.entries.len(),
                entry_named(self.entries@, name@, 0) == entry_named(self.entries@, name@, k as int),
            decreases self.entries.len() - k,
        {
            if self.entries[k].0 == *name {
                return Some(&self.entries[k].1);
            }
            k = k + 1;
        }
        None
    }
}

/// Every value a variable holds refers only to nodes of `doc`.
pub open spec fn values_held<N>(doc: &Document, v: &XPathValue<N>) -> bool {
    v matches XPathValue::Nodes(ns) ==> forall|i: int| 0 <= i < ns@.len() ==> doc.holds(#[trigger] ns@[i])
}

/// What an expression is evaluated against: a document, the context node,
/// its position in the current node list and that list's size, and the
/// functions and variables it may use.
pub struct XPathEvaluationContext<'a, N: XPathNumber, F: XPathFunctions<N>> {
    pub document: &'a Document,
    pub node: Any,
    pub position: usize,
    pub size: usize,
    pub functions: &'a F,
    pub variables: &'a Variables<N>,
}

impl<'a, N: XPathNumber, F: XPathFunctions<N>> XPathEvaluationContext<'a, N, F> {
    pub fn new(document: &'a Document, node: Any, functions: &'a F, variables: &'a Variables<N>) -> (r:
        XPathEvaluationContext<'a, N, F>)
        ensures
            r.node == node,
            r.position == 1,
            r.size == 1,
    {
        XPathEvaluationContext { document, node, position: 1, size: 1, functions, variables }
    }

    /// A fresh context for a list of `size` nodes, before its first node.
    pub fn new_context_for(&self, size: usize) -> (r: XPathEvaluationContext<'a, N, F>)
        ensures
            r.node == self.node,
            r.position == 0,
            r.size == size,
            r.document == self.document,
    {
        XPathEvaluationContext {
            document: self.document,
            node: self.node,
            position: 0,
            size,
            functions: self.functions,
            variables: self.variables,
        }
    }

    /// Moves to `node`, the next of the list.
    pub fn next(&mut self, node: Any)
        requires
            old(self).position < usize::MAX,
        ensures
            final(self).node == node,
            final(self).position == old(self).position + 1,
            final(self).size == old(self).size,
            final(self).document == old(self).document,
    {
        self.node = node;
        self.position = self.position + 1;
    }
}

pub type EvaluationResult<N> = Result<XPathValue<N>, EvaluationError>;

/// `false and X` is false and `true or X` is true, whatever X is: even one
/// whose evaluation fails, since X is not evaluated.
pub open spec fn decided_by_left_constant(expr: &Expression) -> Option<bool> {
    match expr {
        Expression::And(l, _) => match **l {
            Expression::Literal(LiteralValue::Boolean(false)) => Some(false),
            _ => None,
        },
        Expression::Or(l, _) => match **l {
            Expression::Literal(LiteralValue::Boolean(true)) => Some(true),
            _ => None,
        },
        _ => None,
    }
}

/// The value of `a = b` or `a != b` for two constants that are neither
/// numbers nor node sets.
pub open spec fn constant_equality(expr: &Expression) -> Option<bool> {
    match expr {
        Expression::Equal(l, r) => match (&**l, &**r) {
            (Expression::Literal(a), Expression::Literal(b)) => if plain_constant(a) && plain_constant(b) {
                Some(literal_equality(a, b))
            } else {
                None
            },
            _ => None,
        },
        Expression::NotEqual(l, r) => match (&**l, &**r) {
            (Expression::Literal(a), Expression::Literal(b)) => if plain_constant(a) && plain_constant(b) {
                Some(!literal_equality(a, b))
            } else {
                None
            },
            _ => None,
        },
        _ => None,
    }
}

pub open spec fn plain_constant(a: &LiteralValue) -> bool {
    a is Boolean || a is Text
}

/// Whether two constants that are neither numbers nor node sets are equal:
/// as booleans if either is a boolean (a text is true when not empty), else
/// as texts.
pub open spec fn literal_equality(a: &LiteralValue, b: &LiteralValue) -> bool {
    match (a, b) {
        (LiteralValue::Boolean(x), LiteralValue::Boolean(y)) => *x == *y,
        (LiteralValue::Boolean(x), LiteralValue::Text(t)) => *x == (t@.len() > 0),
        (LiteralValue::Text(t), LiteralValue::Boolean(y)) => (t@.len() > 0) == *y,
        (LiteralValue::Text(s), LiteralValue::Text(t)) => s@ == t@,
        _ => false,
    }
}

/// Whether every node of `ns` is a node of `doc`.
fn all_in_document(doc: &Document, ns: &Nodeset) -> (r: bool)
    ensures
        r == (forall|i: int| 0 <= i < ns@.len() ==> doc.holds(#[trigger] ns@[i])),
{
    let mut k: usize = 0;
    while k < ns.size()
        invariant
            k <= ns@.len(),
            forall|i: int| 0 <= i < k ==> doc.holds(#[trigger] ns@[i]),
        decreases ns@.len() - k,
    {
        if !doc.holds_node(ns.get(k)) {
            return false;
        }
        k = k + 1;
    }
    true
}

/// `value`, if every node it holds is a node of `doc`.
fn checked<N>(doc: &Document, value: XPathValue<N>) -> (r: EvaluationResult<N>)
    ensures
        r matches Ok(v) ==> values_held(doc, &v),
        r is Err ==> r == Err::<XPathValue<N>, EvaluationError>(EvaluationError::NodeNotInDocument),
{
    match value {
        XPathValue::Nodes(ns) => {
            if all_in_document(doc, &ns) {
                Ok(XPathValue::Nodes(ns))
            } else {
                Err(EvaluationError::NodeNotInDocument)
            }
        },
        other => Ok(other),
    }
}

/// The node set a value must be.
fn nodeset_of<N>(value: XPathValue<N>) -> (r: Result<Nodeset, EvaluationError>)
    ensures
        value matches XPathValue::Nodes(ns) ==> r == Ok::<Nodeset, EvaluationError>(ns),
        !(value is Nodes) ==> r == Err::<Nodeset, EvaluationError>(EvaluationError::NotANodeset),
{
    match value {
        XPathValue::Nodes(ns) => Ok(ns),
        _ => Err(EvaluationError::NotANodeset),
    }
}

/// `boolean(v)`, where it does not depend on number arithmetic.
pub open spec fn truth<N>(v: &XPathValue<N>) -> Option<bool> {
    match v {
        XPathValue::Boolean(b) => Some(*b),
        XPathValue::String(s) => Some(s@.len() > 0),
        XPathValue::Nodes(ns) => Some(ns@.len() > 0),
        XPathValue::Number(_) => None,
    }
}

/// `string(v)`, where it does not depend on number formatting.
pub open spec fn text_of<N>(doc: &Document, v: &XPathValue<N>) -> Option<Seq<char>> {
    match v {
        XPathValue::Boolean(b) => Some(
            if *b {
                "true"@
            } else {
                "false"@
            },
        ),
        XPathValue::String(s) => Some(s@),
        XPathValue::Nodes(ns) => Some(
            if ns@.len() == 0 {
                Seq::<char>::empty()
            } else {
                crate::value::string_value_of(doc, ns@[0])
            },
        ),
        XPathValue::Number(_) => None,
    }
}

/// `left = right`: as booleans if either is a boolean, else as numbers if
/// either is a number, else as strings.
pub fn values_equal<N: XPathNumber>(left: &XPathValue<N>, right: &XPathValue<N>, doc: &Document) -> (r: bool)
    requires
        doc.wf(),
        values_held(doc, left),
        values_held(doc, right),
    ensures
        comparison_rule(left.kind_of(), right.kind_of()) == Comparison::AsBooleans && truth(left) is Some
            && truth(right) is Some ==> r == (truth(left)->0 == truth(right)->0),
        comparison_rule(left.kind_of(), right.kind_of()) == Comparison::AsStrings ==> r == (text_of(
            doc,
            left,
        )->0 == text_of(doc, right)->0),
{
    match comparison_for(left.kind(), right.kind()) {
        Comparison::AsBooleans => left.boolean() == right.boolean(),
        Comparison::AsNumbers => left.number(doc).equals(&right.number(doc)),
        Comparison::AsStrings => left.string(doc) == right.string(doc),
    }
}

/// The value of `expr` in `context`. `and` and `or` do not evaluate their
/// right operand once the left one decides the result.
pub fn evaluate<'a, N: XPathNumber, F: XPathFunctions<N>>(
    expr: &Expression,
    context: &XPathEvaluationContext<'a, N, F>,
) -> (r: EvaluationResult<N>)
    requires
        context.document.wf(),
        context.document.holds(context.node),
    ensures
        r matches Ok(v) ==> values_held(context.document, &v),
        expr is ContextNode ==> (r matches Ok(XPathValue::Nodes(ns)) && ns@ == seq![context.node]),
        expr is RootNode ==> (r matches Ok(XPathValue::Nodes(ns)) && ns@ == seq![Any::Root]),
        expr matches Expression::Literal(LiteralValue::Text(s)) ==> (r matches Ok(
            XPathValue::String(t),
        ) && t@ == s@),
        expr matches Expression::Literal(LiteralValue::Boolean(b)) ==> r == Ok::<
            XPathValue<N>,
            EvaluationError,
        >(XPathValue::Boolean(*b)),
        expr matches Expression::Step(axis, test) ==> (r matches Ok(XPathValue::Nodes(ns)) && ns@
            == matching(context.document, test, axis.principal(), axis.reach(context.document, context.node))),
        expr matches Expression::Variable(n) ==> (context.variables.value_of(n@) is None <==> (
        r matches Err(EvaluationError::UnknownVariable(m)) && m@ == n@)),
        decided_by_left_constant(expr) matches Some(b) ==> r == Ok::<XPathValue<N>, EvaluationError>(
            XPathValue::Boolean(b),
        ),
        constant_equality(expr) matches Some(b) ==> r == Ok::<XPathValue<N>, EvaluationError>(
            XPathValue::Boolean(b),
        ),
    decreases expr,
{
    let doc = context.document;
    match expr {
        Expression::Or(l, r) => {
            let left = match evaluate(l, context) {
                Ok(v) => v,
                Err(e) => return Err(e),
            };
            if left.boolean() {
                return Ok(XPathValue::Boolean(true));
            }
            match evaluate(r, context) {
                Ok(v) => Ok(XPathValue::Boolean(v.boolean())),
                Err(e) => Err(e),
            }
        },
        Expression::And(l, r) => {
            let left = match evaluate(l, context) {
                Ok(v) => v,
                Err(e) => return Err(e),
            };
            if !left.boolean() {
                return Ok(XPathValue::Boolean(false));
            }
            match evaluate(r, context) {
                Ok(v) => Ok(XPathValue::Boolean(v.boolean())),
                Err(e) => Err(e),
            }
        },
        Expression::Equal(l, r) | Expression::NotEqual(l, r) => {
            let a = match evaluate(l, context) {
                Ok(v) => v,
                Err(e) => return Err(e),
            };
            let b = match evaluate(r, context) {
                Ok(v) => v,
                Err(e) => return Err(e),
            };
            let same = values_equal(&a, &b, doc);
            if let Expression::Equal(_, _) = expr {
                Ok(XPathValue::Boolean(same))
            } else {
                Ok(XPathValue::Boolean(!same))
            }
        },
        Expression::Relational(op, l, r) => {
            let a = match evaluate(l, context) {
                Ok(v) => v.number(doc),
                Err(e) => return Err(e),
            };
            let b = match evaluate(r, context) {
                Ok(v) => v.number(doc),
                Err(e) => return Err(e),
            };
            Ok(
                XPathValue::Boolean(
                    match op {
                        RelationalOp::LessThan => a.less_than(&b),
                        RelationalOp::LessThanOrEqual => a.less_than_or_equal(&b),
                        RelationalOp::GreaterThan => b.less_than(&a),
                        RelationalOp::GreaterThanOrEqual => b.less_than_or_equal(&a),
                    },
                ),
            )
        },
        Expression::Math(op, l, r) => {
            let a = match evaluate(l, context) {
                Ok(v) => v.number(doc),
                Err(e) => return Err(e),
            };
            let b = match evaluate(r, context) {
                Ok(v) => v.number(doc),
                Err(e) => return Err(e),
            };
            Ok(
                XPathValue::Number(
                    match op {
                        MathOp::Addition => a.add(&b),
                        MathOp::Subtraction => a.subtract(&b),
                        MathOp::Multiplication => a.multiply(&b),
                        MathOp::Division => a.divide(&b),
                        MathOp::Remainder => a.remainder(&b),
                    },
                ),
            )
        },
        Expression::Union(l, r) => {
            let a = match evaluate(l, context) {
                Ok(v) => v,
                Err(e) => return Err(e),
            };
            let b = match evaluate(r, context) {
                Ok(v) => v,
                Err(e) => return Err(e),
            };
            let left = match nodeset_of(a) {
                Ok(ns) => ns,
                Err(e) => return Err(e),
            };
            let right = match nodeset_of(b) {
                Ok(ns) => ns,
                Err(e) => return Err(e),
            };
            let both = union(&left, &right);
            assert forall|i: int| 0 <= i < both@.len() implies doc.holds(#[trigger] both@[i]) by {
                if i >= left@.len() {
                    assert(both@[i] == right@[i - left@.len()]);
                }
            }
            Ok(XPathValue::Nodes(both))
        },
        Expression::Negation(e) => match evaluate(e, context) {
            Ok(v) => Ok(XPathValue::Number(v.number(doc).negate())),
            Err(x) => Err(x),
        },
        Expression::ContextNode => Ok(XPathValue::Nodes(Nodeset::from_vec(vec![context.node]))),
        Expression::RootNode => Ok(XPathValue::Nodes(Nodeset::from_vec(vec![Any::Root]))),
        Expression::Literal(LiteralValue::Text(s)) => Ok(XPathValue::String(s.clone())),
        Expression::Literal(LiteralValue::Number(digits)) => Ok(
            XPathValue::Number(N::from_literal(digits.as_str())),
        ),
        Expression::Literal(LiteralValue::Boolean(b)) => Ok(XPathValue::Boolean(*b)),
        Expression::Literal(LiteralValue::Nodes(ns)) => checked(
            doc,
            XPathValue::Nodes(Nodeset::from_vec(ns.to_vec())),
        ),
        Expression::Variable(name) => match context.variables.get(name) {
            Some(v) => checked(doc, v.duplicate()),
            None => Err(EvaluationError::UnknownVariable(name.clone())),
        },
        Expression::Function(name, arguments) => {
            let mut args: Vec<XPathValue<N>> = Vec::new();
            let mut k: usize = 0;
            while k < arguments.len()
                invariant
                    context.document.wf(),
                    context.document.holds(context.node),
                    expr is Function,
                    expr->Function_1 == *arguments,
                decreases arguments.len() - k,
            {
                proof {
                    assert(decreases_to!(*expr => expr->Function_1));
                    assert(decreases_to!(expr->Function_1 => expr->Function_1@));
                    assert(decreases_to!(expr->Function_1@ => expr->Function_1@[k as int]));
                }
                match evaluate(&arguments[k], context) {
                    Ok(v) => args.push(v),
                    Err(e) => return Err(e),
                }
                k = k + 1;
            }
            match context.functions.call(name.as_str(), context.node, context.position, context.size, args) {
                Some(Ok(v)) => checked(doc, v),
                Some(Err(e)) => Err(e),
                None => Err(EvaluationError::UnknownFunction(name.clone())),
            }
        },
        Expression::Step(axis, test) => {
            let mut result = Nodeset::new();
            axis.select_nodes(doc, context.node, test, &mut result);
            proof {
                lemma_reach_held(doc, *axis, context.node);
                lemma_matching_members(doc, test, axis.principal(), axis.reach(doc, context.node));
                assert(result@ =~= matching(doc, test, axis.principal(), axis.reach(doc, context.node)));
                assert forall|i: int| 0 <= i < result@.len() implies doc.holds(#[trigger] result@[i]) by {
                    let s = axis.reach(doc, context.node);
                    let j = choose|j: int| 0 <= j < s.len() && s[j] == result@[i];
                    assert(doc.holds(s[j]));
                }
            }
            Ok(XPathValue::Nodes(result))
        },
        Expression::Predicate(selector, predicate) => {
            let nodes = match evaluate(selector, context) {
                Ok(v) => match nodeset_of(v) {
                    Ok(ns) => ns,
                    Err(e) => return Err(e),
                },
                Err(e) => return Err(e),
            };
            let mut sub = context.new_context_for(nodes.size());
            let mut keep: Vec<bool> = Vec::new();
            let mut k: usize = 0;
            while k < nodes.size()
                invariant
                    k <= nodes@.len(),
                    keep@.len() == k,
                    sub.position == k,
                    sub.document == context.document,
                    context.document.wf(),
                    forall|i: int| 0 <= i < nodes@.len() ==> context.document.holds(#[trigger] nodes@[i]),
                    expr is Predicate,
                    expr->Predicate_1 == *predicate,
                decreases nodes@.len() - k,
            {
                let node = nodes.get(k);
                sub.next(node);
                let value = match evaluate(predicate, &sub) {
                    Ok(v) => v,
                    Err(e) => return Err(e),
                };
                let selected_here = match &value {
                    XPathValue::Number(n) => n.is_position(sub.position),
                    other => other.boolean(),
                };
                keep.push(selected_here);
                k = k + 1;
            }
            let chosen = select_where(&nodes, &keep);
            proof {
                lemma_kept_members(nodes@, keep@);
                assert forall|i: int| 0 <= i < chosen@.len() implies doc.holds(#[trigger] chosen@[i]) by {
                    let j = choose|j: int| 0 <= j < nodes@.len() && nodes@[j] == chosen@[i];
                    assert(doc.holds(nodes@[j]));
                }
            }
            Ok(XPathValue::Nodes(chosen))
        },
        Expression::Path(start, steps) => {
            let mut result = match evaluate(start, context) {
                Ok(v) => match nodeset_of(v) {
                    Ok(ns) => ns,
                    Err(e) => return Err(e),
                },
                Err(e) => return Err(e),
            };
            let mut k: usize = 0;
            while k < steps.len()
                invariant
                    context.document.wf(),
                    forall|i: int| 0 <= i < result@.len() ==> context.document.holds(#[trigger] result@[i]),
                    expr is Path,
                    expr->Path_1 == *steps,
                decreases steps.len() - k,
            {
                let mut step_result = Nodeset::new();
                let mut sub = context.new_context_for(result.size());
                let mut m: usize = 0;
                while m < result.size()
                    invariant
                        m <= result@.len(),
                        sub.position == m,
                        sub.document == context.document,
                        context.document.wf(),
                        forall|i: int| 0 <= i < result@.len() ==> context.document.holds(#[trigger] result@[i]),
                        forall|i: int| 0 <= i < step_result@.len() ==> context.document.holds(#[trigger] step_result@[i]),
                        k < steps.len(),
                        expr is Path,
                        expr->Path_1 == *steps,
                    decreases result@.len() - m,
                {
                    sub.next(result.get(m));
                    proof {
                        assert(decreases_to!(*expr => expr->Path_1));
                        assert(decreases_to!(expr->Path_1 => expr->Path_1@));
                        assert(decreases_to!(expr->Path_1@ => expr->Path_1@[k as int]));
                    }
                    let selected = match evaluate(&steps[k], &sub) {
                        Ok(v) => match nodeset_of(v) {
                            Ok(ns) => ns,
                            Err(e) => return Err(e),
                        },
                        Err(e) => return Err(e),
                    };
                    let ghost before = step_result@;
                    step_result.add_nodeset(&selected);
                    assert forall|i: int| 0 <= i < step_result@.len() implies context.document.holds(
                        #[trigger] step_result@[i],
                    ) by {
                        if i >= before.len() {
                            assert(step_result@[i] == selected@[i - before.len()]);
                        } else {
                            assert(step_result@[i] == before[i]);
                        }
                    }
                    m = m + 1;
                }
                result = step_result;
                k = k + 1;
            }
            Ok(XPathValue::Nodes(result))
        },
    }
}

} // verus!
