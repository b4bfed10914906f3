use xpath::document::{Any, Document, ElementNode, Nodeset, Parent};
use xpath::evaluate::{
    EvaluationError, Variables, XPathEvaluationContext, XPathFunctions, XPathNumber, XPathValue,
    evaluate,
};
use xpath::expression::{Expression, LiteralValue, MathOp, RelationalOp};
use xpath::parser::{XPathParser, compile};
use xpath::token::{TokenResult, XPathToken};

#[derive(Debug, Clone, Copy, PartialEq)]
struct Double(f64);

fn parse_number(s: &str) -> f64 {
    let t = s.trim();
    let digits = t.strip_prefix('-').unwrap_or(t);
    if digits.is_empty() || digits == "." || !digits.chars().all(|c| c.is_ascii_digit() || c == '.') {
        return f64::NAN;
    }
    t.parse::<f64>().unwrap_or(f64::NAN)
}

impl XPathNumber for Double {
    fn from_literal(digits: &str) -> Self {
        Double(parse_number(digits))
    }
    fn from_string(s: &str) -> Self {
        Double(parse_number(s))
    }
    fn from_count(n: usize) -> Self {
        Double(n as f64)
    }
    fn to_xpath_string(&self) -> String {
        format!("{}", self.0)
    }
    fn is_true(&self) -> bool {
        self.0 != 0.0 && !self.0.is_nan()
    }
    fn is_position(&self, p: usize) -> bool {
        self.0 == p as f64
    }
    fn equals(&self, other: &Self) -> bool {
        self.0 == other.0
    }
    fn less_than(&self, other: &Self) -> bool {
        self.0 < other.0
    }
    fn less_than_or_equal(&self, other: &Self) -> bool {
        self.0 <= other.0
    }
    fn add(&self, other: &Self) -> Self {
        Double(self.0 + other.0)
    }
    fn subtract(&self, other: &Self) -> Self {
        Double(self.0 - other.0)
    }
    fn multiply(&self, other: &Self) -> Self {
        Double(self.0 * other.0)
    }
    fn divide(&self, other: &Self) -> Self {
        Double(self.0 / other.0)
    }
    fn remainder(&self, other: &Self) -> Self {
        Double(self.0 % other.0)
    }
    fn negate(&self) -> Self {
        Double(-self.0)
    }
    fn duplicate(&self) -> Self {
        *self
    }
}

/// `true()`, `false()`, `not(b)`, `error()` (which always fails) and a
/// `test-fn` that returns a fixed string.
struct Functions;

impl XPathFunctions<Double> for Functions {
    fn call(
        &self,
        name: &str,
        _node: Any,
        _position: usize,
        _size: usize,
        args: Vec<XPathValue<Double>>,
    ) -> Option<Result<XPathValue<Double>, EvaluationError>> {
        match name {
            "true" => Some(Ok(XPathValue::Boolean(true))),
            "false" => Some(Ok(XPathValue::Boolean(false))),
            "not" => Some(Ok(XPathValue::Boolean(!args[0].boolean()))),
            "error" => Some(Err(EvaluationError::FunctionFailed("error() was called".to_string()))),
            "test-fn" => Some(Ok(XPathValue::String("the function ran".to_string()))),
            _ => None,
        }
    }
}

struct Setup {
    doc: Document,
    top_node: ElementNode,
    variables: Variables<Double>,
}

impl Setup {
    fn new() -> Setup {
        let mut doc = Document::new();
        let top_node = doc.new_element("the-top-node");
        doc.append_child(Parent::Root, top_node);
        Setup { doc, top_node, variables: Variables::new() }
    }

    fn add_child(&mut self, parent: ElementNode, name: &str) -> ElementNode {
        let n = self.doc.new_element(name);
        self.doc.append_child(parent, n);
        n
    }

    fn evaluate(&self, expr: &Expression) -> Result<XPathValue<Double>, EvaluationError> {
        let context = XPathEvaluationContext::new(&self.doc, Any::Element(self.top_node), &Functions, &self.variables);
        evaluate(expr, &context)
    }

    fn parse_and_evaluate(&self, tokens: Vec<TokenResult>) -> XPathValue<Double> {
        let expr = XPathParser::new().parse(tokens).unwrap().unwrap();
        self.evaluate(&expr).unwrap()
    }
}

fn eval_str(xpath: &str) -> Result<XPathValue<Double>, EvaluationError> {
    let setup = Setup::new();
    let expr = compile(xpath).unwrap().unwrap();
    setup.evaluate(&expr)
}

fn assert_approx(value: XPathValue<Double>, expected: f64) {
    match value {
        XPathValue::Number(Double(n)) => assert!((n - expected).abs() < 1.0e-6, "{} is not {}", n, expected),
        other => panic!("not a number: {:?}", other),
    }
}

fn number(v: f64) -> TokenResult {
    Ok(XPathToken::Number(v.to_string()))
}

fn literal(v: LiteralValue) -> Box<Expression> {
    Box::new(Expression::Literal(v))
}

fn num(s: &str) -> LiteralValue {
    LiteralValue::Number(s.to_string())
}

fn text(s: &str) -> LiteralValue {
    LiteralValue::Text(s.to_string())
}

// Scenarios from the parser's tests: token streams, parsed and evaluated.

#[test]
fn string_literal() {
    let setup = Setup::new();
    let tokens = vec![Ok(XPathToken::Literal("string".to_string()))];
    assert_eq!(XPathValue::String("string".to_string()), setup.parse_and_evaluate(tokens));
}

#[test]
fn functions_accept_arguments() {
    let setup = Setup::new();
    let tokens = vec![
        Ok(XPathToken::Function("not".to_string())),
        Ok(XPathToken::LeftParen),
        Ok(XPathToken::Function("true".to_string())),
        Ok(XPathToken::LeftParen),
        Ok(XPathToken::RightParen),
        Ok(XPathToken::RightParen),
    ];
    assert_eq!(XPathValue::Boolean(false), setup.parse_and_evaluate(tokens));
}

#[test]
fn numeric_literal() {
    let setup = Setup::new();
    assert_approx(setup.parse_and_evaluate(vec![number(3.2)]), 3.2);
}

#[test]
fn addition_of_two_numbers() {
    let setup = Setup::new();
    let tokens = vec![number(1.1), Ok(XPathToken::PlusSign), number(2.2)];
    assert_approx(setup.parse_and_evaluate(tokens), 3.3);
}

#[test]
fn addition_of_multiple_numbers() {
    let setup = Setup::new();
    let tokens = vec![number(1.1), Ok(XPathToken::PlusSign), number(2.2), Ok(XPathToken::PlusSign), number(3.3)];
    assert_approx(setup.parse_and_evaluate(tokens), 6.6);
}

#[test]
fn subtraction_of_two_numbers() {
    let setup = Setup::new();
    let tokens = vec![number(1.1), Ok(XPathToken::MinusSign), number(2.2)];
    assert_approx(setup.parse_and_evaluate(tokens), -1.1);
}

#[test]
fn additive_expression_is_left_associative() {
    let setup = Setup::new();
    let tokens = vec![number(1.1), Ok(XPathToken::MinusSign), number(2.2), Ok(XPathToken::MinusSign), number(3.3)];
    assert_approx(setup.parse_and_evaluate(tokens), -4.4);
}

#[test]
fn multiplication_of_two_numbers() {
    let setup = Setup::new();
    let tokens = vec![number(1.1), Ok(XPathToken::Multiply), number(2.2)];
    assert_approx(setup.parse_and_evaluate(tokens), 2.42);
}

#[test]
fn division_of_two_numbers() {
    let setup = Setup::new();
    let tokens = vec![number(7.1), Ok(XPathToken::Divide), number(0.1)];
    assert_approx(setup.parse_and_evaluate(tokens), 71.0);
}

#[test]
fn remainder_of_two_numbers() {
    let setup = Setup::new();
    let tokens = vec![number(7.1), Ok(XPathToken::Remainder), number(3.0)];
    assert_approx(setup.parse_and_evaluate(tokens), 1.1);
}

#[test]
fn unary_negation() {
    let setup = Setup::new();
    let tokens = vec![Ok(XPathToken::MinusSign), number(7.2)];
    assert_approx(setup.parse_and_evaluate(tokens), -7.2);
}

#[test]
fn repeated_unary_negation() {
    let setup = Setup::new();
    let tokens = vec![
        Ok(XPathToken::MinusSign),
        Ok(XPathToken::MinusSign),
        Ok(XPathToken::MinusSign),
        number(7.2),
    ];
    assert_approx(setup.parse_and_evaluate(tokens), -7.2);
}

#[test]
fn top_level_function_call() {
    let setup = Setup::new();
    let tokens = vec![
        Ok(XPathToken::Function("true".to_string())),
        Ok(XPathToken::LeftParen),
        Ok(XPathToken::RightParen),
    ];
    assert_eq!(XPathValue::Boolean(true), setup.parse_and_evaluate(tokens));
}

#[test]
fn or_expression() {
    let setup = Setup::new();
    let tokens = vec![
        Ok(XPathToken::Function("true".to_string())),
        Ok(XPathToken::LeftParen),
        Ok(XPathToken::RightParen),
        Ok(XPathToken::Or),
        Ok(XPathToken::Function("false".to_string())),
        Ok(XPathToken::LeftParen),
        Ok(XPathToken::RightParen),
    ];
    assert_eq!(XPathValue::Boolean(true), setup.parse_and_evaluate(tokens));
}

#[test]
fn and_expression() {
    let setup = Setup::new();
    let tokens = vec![number(1.2), Ok(XPathToken::And), number(0.0)];
    assert_eq!(XPathValue::Boolean(false), setup.parse_and_evaluate(tokens));
}

#[test]
fn equality_expression() {
    let setup = Setup::new();
    let tokens = vec![number(1.2), Ok(XPathToken::Equal), number(1.1)];
    assert_eq!(XPathValue::Boolean(false), setup.parse_and_evaluate(tokens));
}

#[test]
fn inequality_expression() {
    let setup = Setup::new();
    let tokens = vec![number(1.2), Ok(XPathToken::NotEqual), number(1.2)];
    assert_eq!(XPathValue::Boolean(false), setup.parse_and_evaluate(tokens));
}

#[test]
fn less_than_expression() {
    let setup = Setup::new();
    let tokens = vec![number(1.2), Ok(XPathToken::LessThan), number(1.2)];
    assert_eq!(XPathValue::Boolean(false), setup.parse_and_evaluate(tokens));
}

#[test]
fn less_than_or_equal_expression() {
    let setup = Setup::new();
    let tokens = vec![number(1.2), Ok(XPathToken::LessThanOrEqual), number(1.2)];
    assert_eq!(XPathValue::Boolean(true), setup.parse_and_evaluate(tokens));
}

#[test]
fn greater_than_expression() {
    let setup = Setup::new();
    let tokens = vec![number(1.2), Ok(XPathToken::GreaterThan), number(1.2)];
    assert_eq!(XPathValue::Boolean(false), setup.parse_and_evaluate(tokens));
}

#[test]
fn greater_than_or_equal_expression() {
    let setup = Setup::new();
    let tokens = vec![number(1.2), Ok(XPathToken::GreaterThanOrEqual), number(1.2)];
    assert_eq!(XPathValue::Boolean(true), setup.parse_and_evaluate(tokens));
}

#[test]
fn variable_reference() {
    let mut setup = Setup::new();
    let tokens = vec![Ok(XPathToken::DollarSign), Ok(XPathToken::Name("variable-name".to_string()))];
    setup.variables.set("variable-name", XPathValue::Number(Double(12.3)));
    assert_approx(setup.parse_and_evaluate(tokens), 12.3);
}

#[test]
fn union_expression() {
    let mut setup = Setup::new();
    let tokens = vec![
        Ok(XPathToken::DollarSign),
        Ok(XPathToken::Name("variable1".to_string())),
        Ok(XPathToken::Pipe),
        Ok(XPathToken::DollarSign),
        Ok(XPathToken::Name("variable2".to_string())),
    ];
    let top = setup.top_node;
    let node1 = setup.add_child(top, "first-node");
    setup.variables.set("variable1", XPathValue::Nodes(Nodeset::from_vec(vec![Any::Element(node1)])));
    let node2 = setup.add_child(top, "second-node");
    setup.variables.set("variable2", XPathValue::Nodes(Nodeset::from_vec(vec![Any::Element(node2)])));

    let expected = Nodeset::from_vec(vec![Any::Element(node1), Any::Element(node2)]);
    assert_eq!(XPathValue::Nodes(expected), setup.parse_and_evaluate(tokens));
}

// Scenarios from the expression tests: trees built by hand.

#[test]
fn expression_and_returns_logical_and() {
    let setup = Setup::new();
    let expr = Expression::And(literal(LiteralValue::Boolean(true)), literal(LiteralValue::Boolean(true)));
    assert_eq!(setup.evaluate(&expr), Ok(XPathValue::Boolean(true)));
}

#[test]
fn expression_and_short_circuits_when_left_argument_is_false() {
    let setup = Setup::new();
    let failing = Box::new(Expression::Function("error".to_string(), vec![]));
    let expr = Expression::And(literal(LiteralValue::Boolean(false)), failing);
    assert_eq!(setup.evaluate(&expr), Ok(XPathValue::Boolean(false)));
}

#[test]
fn expression_equal_compares_as_boolean_if_one_argument_is_a_boolean() {
    let setup = Setup::new();
    let expr = Expression::Equal(literal(LiteralValue::Boolean(false)), literal(text("hello")));
    assert_eq!(setup.evaluate(&expr), Ok(XPathValue::Boolean(false)));
}

#[test]
fn expression_equal_compares_as_number_if_one_argument_is_a_number() {
    let setup = Setup::new();
    let expr = Expression::Equal(literal(text("-42.0")), literal(num("-42.0")));
    assert_eq!(setup.evaluate(&expr), Ok(XPathValue::Boolean(true)));
}

#[test]
fn expression_equal_compares_as_string_otherwise() {
    let setup = Setup::new();
    let expr = Expression::Equal(literal(text("hello")), literal(text("World")));
    assert_eq!(setup.evaluate(&expr), Ok(XPathValue::Boolean(false)));
}

#[test]
fn expression_not_equal_negates_equality() {
    let setup = Setup::new();
    let expr = Expression::NotEqual(literal(LiteralValue::Boolean(true)), literal(LiteralValue::Boolean(false)));
    assert_eq!(setup.evaluate(&expr), Ok(XPathValue::Boolean(true)));
}

#[test]
fn expression_function_evaluates_input_arguments() {
    let setup = Setup::new();
    let expr = Expression::Function("test-fn".to_string(), vec![Expression::Literal(LiteralValue::Boolean(true))]);
    assert_eq!(setup.evaluate(&expr), Ok(XPathValue::String("the function ran".to_string())));
}

#[test]
fn expression_function_unknown_function_is_reported_as_an_error() {
    let setup = Setup::new();
    let expr = Expression::Function("unknown-fn".to_string(), vec![]);
    assert_eq!(setup.evaluate(&expr), Err(EvaluationError::UnknownFunction("unknown-fn".to_string())));
}

#[test]
fn expression_math_does_basic_math() {
    let setup = Setup::new();
    let expr = Expression::Math(MathOp::Multiplication, literal(num("10.0")), literal(num("5.0")));
    assert_eq!(setup.evaluate(&expr), Ok(XPathValue::Number(Double(50.0))));
}

#[test]
fn expression_step_numeric_predicate_selects_that_node() {
    let mut setup = Setup::new();
    let one = setup.doc.new_element("one");
    let two = setup.doc.new_element("two");
    let input = Nodeset::from_vec(vec![Any::Element(one), Any::Element(two)]);
    let expr = Expression::Predicate(literal(LiteralValue::Nodes(input)), literal(num("1.0")));
    let expected = Nodeset::from_vec(vec![Any::Element(one)]);
    assert_eq!(setup.evaluate(&expr), Ok(XPathValue::Nodes(expected)));
}

#[test]
fn expression_step_false_predicate_selects_no_nodes() {
    let mut setup = Setup::new();
    let one = setup.doc.new_element("one");
    let two = setup.doc.new_element("two");
    let input = Nodeset::from_vec(vec![Any::Element(one), Any::Element(two)]);
    let expr = Expression::Predicate(literal(LiteralValue::Nodes(input)), literal(LiteralValue::Boolean(false)));
    assert_eq!(setup.evaluate(&expr), Ok(XPathValue::Nodes(Nodeset::new())));
}

#[test]
fn expression_relational_does_basic_comparisons() {
    let setup = Setup::new();
    let expr = Expression::Relational(RelationalOp::LessThan, literal(num("10.0")), literal(num("5.0")));
    assert_eq!(setup.evaluate(&expr), Ok(XPathValue::Boolean(false)));
}

#[test]
fn expression_root_node_finds_the_root() {
    let setup = Setup::new();
    let expected = Nodeset::from_vec(vec![Any::Root]);
    assert_eq!(setup.evaluate(&Expression::RootNode), Ok(XPathValue::Nodes(expected)));
}

// End-to-end scenarios: text in, value out.

#[test]
fn sum_of_decimals_is_close() {
    assert_approx(eval_str("1.1 + 2.2").unwrap(), 3.3);
}

#[test]
fn equal_decimals_compare_greater_or_equal() {
    assert_eq!(eval_str("1.2 >= 1.2"), Ok(XPathValue::Boolean(true)));
}

#[test]
fn spaced_repeated_negation() {
    assert_approx(eval_str("-  -  - 7.2").unwrap(), -7.2);
}

#[test]
fn division_by_zero_gives_infinity_or_nan() {
    assert_eq!(eval_str("1 div 0"), Ok(XPathValue::Number(Double(f64::INFINITY))));
    match eval_str("0 div 0") {
        Ok(XPathValue::Number(Double(n))) => assert!(n.is_nan()),
        other => panic!("{:?}", other),
    }
}

#[test]
fn second_child_by_position() {
    let mut doc = Document::new();
    let a = doc.new_element("a");
    let b1 = doc.new_element("b");
    let b2 = doc.new_element("b");
    doc.append_child(Parent::Root, a);
    doc.append_child(a, b1);
    doc.append_child(a, b2);
    let variables = Variables::new();
    let context = XPathEvaluationContext::new(&doc, Any::Element(a), &Functions, &variables);
    let expr = compile("b[2]").unwrap().unwrap();
    let expected = Nodeset::from_vec(vec![Any::Element(b2)]);
    assert_eq!(evaluate(&expr, &context), Ok(XPathValue::Nodes(expected)));
    let first = compile("b[1]").unwrap().unwrap();
    assert_eq!(
        evaluate(&first, &context),
        Ok(XPathValue::Nodes(Nodeset::from_vec(vec![Any::Element(b1)])))
    );
}

#[test]
fn or_does_not_evaluate_its_right_side_once_true() {
    assert_eq!(eval_str("true() or error()"), Ok(XPathValue::Boolean(true)));
    assert_eq!(eval_str("false() and error()"), Ok(XPathValue::Boolean(false)));
    assert_eq!(
        eval_str("false() or error()"),
        Err(EvaluationError::FunctionFailed("error() was called".to_string()))
    );
}

#[test]
fn paths_walk_the_document() {
    let mut doc = Document::new();
    let top = doc.new_element("top");
    let one = doc.new_element("one");
    let two = doc.new_element("two");
    let attr = doc.set_attribute(one, "id", "x");
    doc.append_child(Parent::Root, top);
    doc.append_child(top, one);
    doc.append_child(one, two);
    let variables = Variables::new();
    let context = XPathEvaluationContext::new(&doc, Any::Element(two), &Functions, &variables);
    let run = |x: &str| evaluate(&compile(x).unwrap().unwrap(), &context).unwrap();
    assert_eq!(run("/top/one/two"), XPathValue::Nodes(Nodeset::from_vec(vec![Any::Element(two)])));
    assert_eq!(run("//two"), XPathValue::Nodes(Nodeset::from_vec(vec![Any::Element(two)])));
    assert_eq!(run(".."), XPathValue::Nodes(Nodeset::from_vec(vec![Any::Element(one)])));
    assert_eq!(run("../@id"), XPathValue::Nodes(Nodeset::from_vec(vec![Any::Attribute(attr)])));
    assert_eq!(run("/"), XPathValue::Nodes(Nodeset::from_vec(vec![Any::Root])));
}

#[test]
fn coercion_rules() {
    assert_eq!(eval_str("'a' = 'a'"), Ok(XPathValue::Boolean(true)));
    assert_eq!(eval_str("'' = false()"), Ok(XPathValue::Boolean(true)));
    assert_eq!(eval_str("'2' = 2"), Ok(XPathValue::Boolean(true)));
    assert_eq!(eval_str("true() = 1"), Ok(XPathValue::Boolean(true)));
    assert_eq!(eval_str("'abc' < 1"), Ok(XPathValue::Boolean(false)));
    assert_eq!(eval_str("'x' and 1"), Ok(XPathValue::Boolean(true)));
    assert_eq!(eval_str("0 or ''"), Ok(XPathValue::Boolean(false)));
}

#[test]
fn unknown_variable_is_reported() {
    assert_eq!(eval_str("$nope"), Err(EvaluationError::UnknownVariable("nope".to_string())));
}

#[test]
fn union_needs_node_sets() {
    assert_eq!(eval_str("1 | 2"), Err(EvaluationError::NotANodeset));
}

#[test]
fn nodes_of_another_document_are_refused() {
    let mut setup = Setup::new();
    let mut other = Document::new();
    let mut last = other.new_element("x");
    for _ in 0..5 {
        last = other.new_element("x");
    }
    setup.variables.set("v", XPathValue::Nodes(Nodeset::from_vec(vec![Any::Element(last)])));
    let expr = compile("$v").unwrap().unwrap();
    assert_eq!(setup.evaluate(&expr), Err(EvaluationError::NodeNotInDocument));
}
