use xpath::axis::{Axis, XPathNodeTest};
use xpath::expression::{Expression, LiteralValue, MathOp};
use xpath::parser::{ParseErr, XPathParser, compile};
use xpath::token::{TokenResult, TokenizerError, XPathToken};

fn number(s: &str) -> Expression {
    Expression::Literal(LiteralValue::Number(s.to_string()))
}

fn math(op: MathOp, l: Expression, r: Expression) -> Expression {
    Expression::Math(op, Box::new(l), Box::new(r))
}

fn child_path(name: &str) -> Expression {
    Expression::Path(
        Box::new(Expression::ContextNode),
        vec![Expression::Step(Axis::Child, XPathNodeTest::Name(name.to_string()))],
    )
}

#[test]
fn subtraction_is_left_associative() {
    let expr = compile("1.1 - 2.2 - 3.3").unwrap().unwrap();
    assert_eq!(
        expr,
        math(MathOp::Subtraction, math(MathOp::Subtraction, number("1.1"), number("2.2")), number("3.3"))
    );
}

#[test]
fn multiplication_binds_tighter_than_addition() {
    let expr = compile("1 + 2 * 3").unwrap().unwrap();
    assert_eq!(
        expr,
        math(MathOp::Addition, number("1"), math(MathOp::Multiplication, number("2"), number("3")))
    );
}

#[test]
fn repeated_negation_nests() {
    let expr = compile("-  -  - 7.2").unwrap().unwrap();
    let inner = Expression::Negation(Box::new(number("7.2")));
    let expected = Expression::Negation(Box::new(Expression::Negation(Box::new(inner))));
    assert_eq!(expr, expected);
}

#[test]
fn lone_minus_is_missing_its_operand() {
    assert_eq!(compile("-"), Err(ParseErr::RightHandSideExpressionMissing));
}

#[test]
fn unary_operator_without_right_hand_side_is_reported_as_an_error() {
    let tokens: Vec<TokenResult> = vec![Ok(XPathToken::MinusSign)];
    let res = XPathParser::new().parse(tokens);
    assert_eq!(Some(ParseErr::RightHandSideExpressionMissing), res.err());
}

#[test]
fn unexpected_token_is_reported_as_an_error() {
    let tokens: Vec<TokenResult> = vec![
        Ok(XPathToken::Function("does-not-matter".to_string())),
        Ok(XPathToken::RightParen),
    ];
    let res = XPathParser::new().parse(tokens);
    assert_eq!(Some(ParseErr::UnexpectedToken(XPathToken::RightParen)), res.err());
}

#[test]
fn unfinished_function_call_runs_out_of_input() {
    assert_eq!(compile("f("), Err(ParseErr::RanOutOfInput));
}

#[test]
fn binary_operator_without_right_hand_side_is_reported() {
    assert_eq!(compile("'left' and"), Err(ParseErr::RightHandSideExpressionMissing));
}

#[test]
fn empty_predicate_is_reported() {
    assert_eq!(compile("*[]"), Err(ParseErr::EmptyPredicate));
}

#[test]
fn trailing_slash_is_reported() {
    assert_eq!(compile("*/"), Err(ParseErr::TrailingSlash));
    assert_eq!(compile("$variable/"), Err(ParseErr::TrailingSlash));
}

#[test]
fn unknown_axis_is_reported() {
    assert_eq!(compile("bad-axis::*"), Err(ParseErr::InvalidAxis("bad-axis".to_string())));
}

#[test]
fn unknown_node_test_is_reported() {
    let tokens: Vec<TokenResult> = vec![
        Ok(XPathToken::NodeTest("bad-node-test".to_string())),
        Ok(XPathToken::LeftParen),
        Ok(XPathToken::RightParen),
    ];
    assert_eq!(
        XPathParser::new().parse(tokens),
        Err(ParseErr::InvalidNodeTest("bad-node-test".to_string()))
    );
}

#[test]
fn extra_tokens_are_reported() {
    assert_eq!(compile("1 2"), Err(ParseErr::ExtraUnparsedTokens));
}

#[test]
fn tokenizer_errors_are_reported() {
    assert_eq!(
        compile("'open"),
        Err(ParseErr::TokenizerError(TokenizerError::MismatchedQuoteCharacters))
    );
}

#[test]
fn empty_input_has_no_expression() {
    assert_eq!(compile(""), Ok(None));
    assert_eq!(compile("   "), Ok(None));
}

#[test]
fn name_is_a_child_step() {
    assert_eq!(compile("hello").unwrap().unwrap(), child_path("hello"));
}

#[test]
fn wildcard_and_prefixed_names_are_name_tests() {
    let star = compile("*").unwrap().unwrap();
    assert_eq!(
        star,
        Expression::Path(
            Box::new(Expression::ContextNode),
            vec![Expression::Step(Axis::Child, XPathNodeTest::Wildcard)],
        )
    );
    assert_eq!(compile("ns:foo").unwrap().unwrap(), child_path("ns:foo"));
}

#[test]
fn lone_slash_selects_the_root() {
    assert_eq!(compile("/").unwrap().unwrap(), Expression::RootNode);
}

#[test]
fn numeric_predicate_wraps_the_step() {
    let expr = compile("b[2]").unwrap().unwrap();
    let step = Expression::Step(Axis::Child, XPathNodeTest::Name("b".to_string()));
    assert_eq!(
        expr,
        Expression::Path(
            Box::new(Expression::ContextNode),
            vec![Expression::Predicate(Box::new(step), Box::new(number("2")))],
        )
    );
}

#[test]
fn union_of_variables() {
    let expr = compile("$variable1 | $variable2").unwrap().unwrap();
    assert_eq!(
        expr,
        Expression::Union(
            Box::new(Expression::Variable("variable1".to_string())),
            Box::new(Expression::Variable("variable2".to_string())),
        )
    );
}

#[test]
fn functions_accept_arguments_without_commas() {
    let expr = compile("not(true())").unwrap().unwrap();
    assert_eq!(
        expr,
        Expression::Function(
            "not".to_string(),
            vec![Expression::Function("true".to_string(), vec![])],
        )
    );
}

#[test]
fn abbreviations_parse_as_their_expansions() {
    let pairs = [
        ("@id", "attribute::id"),
        ("//a", "/descendant-or-self::node()/a"),
        (".", "self::node()"),
        ("..", "parent::node()"),
        ("a//b", "a/descendant-or-self::node()/b"),
    ];
    for (abbreviated, expanded) in pairs.iter() {
        assert_eq!(compile(abbreviated), compile(expanded), "{}", abbreviated);
        assert!(compile(abbreviated).unwrap().is_some());
    }
}

#[test]
fn text_node_test_on_self_axis() {
    let expr = compile("self::text()").unwrap().unwrap();
    assert_eq!(
        expr,
        Expression::Path(
            Box::new(Expression::ContextNode),
            vec![Expression::Step(Axis::SelfAxis, XPathNodeTest::Text)],
        )
    );
}
