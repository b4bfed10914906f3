use vstd::prelude::*;

use crate::axis::{Axis, TestView, XPathNodeTest, axis_for_name, axis_named, node_test_for_name, node_test_named};
use crate::deabbreviator::deabbreviate;
use crate::disambiguator::disambiguate_all;
use crate::expression::{ExprView, Expression, LiteralValue, LiteralView, MathOp, RelationalOp, expr_view, exprs_view};
use crate::text::string_from;
use crate::deabbreviator::{
    deabbreviated, expansion, is_abbreviation, lemma_abbreviation_equivalence, oks,
};
use crate::disambiguator::{disambiguate, disambiguated, following};
use crate::token::{
    SpecToken, SpecTokenResult, Token, TokenResult, TokenizerError, XPathToken, result_view,
    results_view,
};
use crate::tokenizer::{tokenize, tokens_of};

verus! {

/// Why an expression could not be parsed.
#[derive(Debug, PartialEq, Eq)]
pub enum ParseErr {
    /// A token was required but the input had ended.
    RanOutOfInput,
    /// A token stood where no production accepts it.
    UnexpectedToken(Token),
    /// An operator was not followed by its operand.
    RightHandSideExpressionMissing,
    /// Tokens remain after the whole expression.
    ExtraUnparsedTokens,
    /// The tokenizer failed.
    TokenizerError(TokenizerError),
    /// `[` `]` with nothing between.
    EmptyPredicate,
    /// `/` not followed by a step.
    TrailingSlash,
    /// An axis name XPath does not have.
    InvalidAxis(String),
    /// A node test name XPath does not have.
    InvalidNodeTest(String),
}

/// A parse from a position: the expression found, if any, and the position
/// after it.
pub type Parsed = Result<(Option<Expression>, usize), ParseErr>;

/// The parse succeeded and found no expression.
pub open spec fn found_nothing(r: Parsed) -> bool {
    match r {
        Ok((None, _)) => true,
        _ => false,
    }
}

/// Nothing is consumed when nothing is found, and something when an
/// expression is found; and a tokenizer error where the parse starts is
/// reported as such.
pub open spec fn parsed_from(r: Parsed, tokens: Seq<TokenResult>, pos: int) -> bool {
    &&& r matches Ok((e, p)) ==> pos <= p <= tokens.len() && (e is None ==> p == pos) && (
    e is Some ==> p > pos)
    &&& pos == tokens.len() ==> found_nothing(r)
    &&& (0 <= pos < tokens.len() && tokens[pos] is Err) ==> r == Err::<
        (Option<Expression>, usize),
        ParseErr,
    >(ParseErr::TokenizerError(tokens[pos]->Err_0))
}

/// A parse that finds nothing at a tokenizer error, leaving it for the
/// caller to report.
pub open spec fn skips_error(r: Parsed, tokens: Seq<TokenResult>, pos: int) -> bool {
    &&& r matches Ok((e, p)) ==> pos <= p <= tokens.len() && (e is None ==> p == pos) && (
    e is Some ==> p > pos)
    &&& pos == tokens.len() ==> found_nothing(r)
    &&& (0 <= pos < tokens.len() && tokens[pos] is Err) ==> found_nothing(r)
}

/// The binary operators, by precedence level.
#[derive(Clone, Copy, PartialEq, Eq, Structural)]
pub enum BinaryOp {
    Or,
    And,
    Equal,
    NotEqual,
    Relational(RelationalOp),
    Math(MathOp),
    Union,
}

fn next_is(tokens: &Vec<TokenResult>, pos: usize, expected: &Token) -> (r: bool)
    requires
        pos <= tokens.len(),
    ensures
        r == (pos < tokens.len() && (tokens@[pos as int] matches Ok(t) && t@ == expected@)),
        r == token_is(stream_view(tokens), pos as int, expected@),
{
    if pos < tokens.len() {
        match &tokens[pos] {
            Ok(t) => t.same_as(expected),
            Err(_) => false,
        }
    } else {
        false
    }
}

fn next_is_error(tokens: &Vec<TokenResult>, pos: usize) -> (r: Option<TokenizerError>)
    requires
        pos <= tokens.len(),
    ensures
        match r {
            Some(x) => pos < tokens.len() && tokens@[pos as int] == Err::<Token, TokenizerError>(x),
            None => !(pos < tokens.len() && tokens@[pos as int] is Err),
        },
{
    if pos < tokens.len() {
        match &tokens[pos] {
            Ok(_) => None,
            Err(x) => Some(*x),
        }
    } else {
        None
    }
}

/// The error for a token that is missing or wrong at `pos`.
fn unexpected(tokens: &Vec<TokenResult>, pos: usize) -> (r: ParseErr)
    requires
        pos <= tokens.len(),
    ensures
        pos == tokens.len() ==> r == ParseErr::RanOutOfInput,
        pos < tokens.len() && tokens@[pos as int] is Err ==> r == ParseErr::TokenizerError(
            tokens@[pos as int]->Err_0,
        ),
        r@ == unexpected_at(stream_view(tokens), pos as int),
{
    if pos >= tokens.len() {
        ParseErr::RanOutOfInput
    } else {
        match &tokens[pos] {
            Ok(t) => ParseErr::UnexpectedToken(t.duplicate()),
            Err(x) => ParseErr::TokenizerError(*x),
        }
    }
}

/// Consumes `expected` at `pos`.
fn expect(tokens: &Vec<TokenResult>, pos: usize, expected: &Token) -> (r: Result<usize, ParseErr>)
    requires
        pos <= tokens.len(),
    ensures
        match r {
            Ok(p) => p == pos + 1 && p <= tokens.len() && token_is(
                stream_view(tokens),
                pos as int,
                expected@,
            ),
            Err(e) => !token_is(stream_view(tokens), pos as int, expected@) && e@ == unexpected_at(
                stream_view(tokens),
                pos as int,
            ),
        },
{
    if next_is(tokens, pos, expected) {
        Ok(pos + 1)
    } else {
        Err(unexpected(tokens, pos))
    }
}

/// The operator of precedence `level` at `pos`: 1 union, 2 multiplicative,
/// 3 additive, 4 relational, 5 equality, 6 and, 7 or.
fn operator_at(tokens: &Vec<TokenResult>, pos: usize, level: u8) -> (r: Option<BinaryOp>)
    requires
        pos <= tokens.len(),
    ensures
        r is Some ==> pos < tokens.len() && tokens@[pos as int] is Ok,
        r == operator_at_view(stream_view(tokens), pos as int, level as int),
{
    if pos >= tokens.len() {
        return None;
    }
    match &tokens[pos] {
        Err(_) => None,
        Ok(t) => match (level, t) {
            (7, XPathToken::Or) => Some(BinaryOp::Or),
            (6, XPathToken::And) => Some(BinaryOp::And),
            (5, XPathToken::Equal) => Some(BinaryOp::Equal),
            (5, XPathToken::NotEqual) => Some(BinaryOp::NotEqual),
            (4, XPathToken::LessThan) => Some(BinaryOp::Relational(RelationalOp::LessThan)),
            (4, XPathToken::LessThanOrEqual) => Some(
                BinaryOp::Relational(RelationalOp::LessThanOrEqual),
            ),
            (4, XPathToken::GreaterThan) => Some(BinaryOp::Relational(RelationalOp::GreaterThan)),
            (4, XPathToken::GreaterThanOrEqual) => Some(
                BinaryOp::Relational(RelationalOp::GreaterThanOrEqual),
            ),
            (3, XPathToken::PlusSign) => Some(BinaryOp::Math(MathOp::Addition)),
            (3, XPathToken::MinusSign) => Some(BinaryOp::Math(MathOp::Subtraction)),
            (2, XPathToken::Multiply) => Some(BinaryOp::Math(MathOp::Multiplication)),
            (2, XPathToken::Divide) => Some(BinaryOp::Math(MathOp::Division)),
            (2, XPathToken::Remainder) => Some(BinaryOp::Math(MathOp::Remainder)),
            (1, XPathToken::Pipe) => Some(BinaryOp::Union),
            _ => None,
        },
    }
}

fn combine(op: BinaryOp, left: Expression, right: Expression) -> (r: Expression)
    ensures
        expr_view(&r) == combine_view(op, expr_view(&left), expr_view(&right)),
{
    let l = Box::new(left);
    let r = Box::new(right);
    match op {
        BinaryOp::Or => Expression::Or(l, r),
        BinaryOp::And => Expression::And(l, r),
        BinaryOp::Equal => Expression::Equal(l, r),
        BinaryOp::NotEqual => Expression::NotEqual(l, r),
        BinaryOp::Relational(o) => Expression::Relational(o, l, r),
        BinaryOp::Math(o) => Expression::Math(o, l, r),
        BinaryOp::Union => Expression::Union(l, r),
    }
}

// ---------------------------------------------------------------------
// The grammar, over token views: what each parse function returns.

/// A parse error as specifications see it.
pub enum ErrView {
    RanOutOfInput,
    UnexpectedToken(SpecToken),
    RightHandSideExpressionMissing,
    ExtraUnparsedTokens,
    TokenizerError(TokenizerError),
    EmptyPredicate,
    TrailingSlash,
    InvalidAxis(Seq<char>),
    InvalidNodeTest(Seq<char>),
}

impl View for ParseErr {
    type V = ErrView;

    open spec fn view(&self) -> ErrView {
        match self {
            ParseErr::RanOutOfInput => ErrView::RanOutOfInput,
            ParseErr::UnexpectedToken(t) => ErrView::UnexpectedToken(t@),
            ParseErr::RightHandSideExpressionMissing => ErrView::RightHandSideExpressionMissing,
            ParseErr::ExtraUnparsedTokens => ErrView::ExtraUnparsedTokens,
            ParseErr::TokenizerError(x) => ErrView::TokenizerError(*x),
            ParseErr::EmptyPredicate => ErrView::EmptyPredicate,
            ParseErr::TrailingSlash => ErrView::TrailingSlash,
            ParseErr::InvalidAxis(n) => ErrView::InvalidAxis(n@),
            ParseErr::InvalidNodeTest(n) => ErrView::InvalidNodeTest(n@),
        }
    }
}

/// A parse result as specifications see it.
pub type ParsedView = Result<(Option<ExprView>, int), ErrView>;

pub open spec fn parsed_view(r: Parsed) -> ParsedView {
    match r {
        Ok((Some(e), p)) => Ok((Some(expr_view(&e)), p as int)),
        Ok((None, p)) => Ok((None, p as int)),
        Err(e) => Err(e@),
    }
}

/// The tokens of a stream as specifications see them.
pub open spec fn stream_view(tokens: &Vec<TokenResult>) -> Seq<SpecTokenResult> {
    results_view(tokens@)
}

pub open spec fn steps_view(r: Result<(Option<Vec<Expression>>, usize), ParseErr>) -> StepsView {
    match r {
        Ok((Some(v), p)) => Ok((Some(exprs_view(v@)), p as int)),
        Ok((None, p)) => Ok((None, p as int)),
        Err(e) => Err(e@),
    }
}

pub open spec fn predicates_view(r: Result<(Expression, usize), ParseErr>) -> Result<(ExprView, int), ErrView> {
    match r {
        Ok((e, p)) => Ok((expr_view(&e), p as int)),
        Err(e) => Err(e@),
    }
}

/// Whether `ts` holds the token `t` at `pos`.
pub open spec fn token_is(ts: Seq<SpecTokenResult>, pos: int, t: SpecToken) -> bool {
    0 <= pos < ts.len() && ts[pos] == Ok::<SpecToken, TokenizerError>(t)
}

/// The error for a token that is missing or wrong at `pos`.
pub open spec fn unexpected_at(ts: Seq<SpecTokenResult>, pos: int) -> ErrView {
    if pos < 0 || pos >= ts.len() {
        ErrView::RanOutOfInput
    } else {
        match ts[pos] {
            Ok(t) => ErrView::UnexpectedToken(t),
            Err(x) => ErrView::TokenizerError(x),
        }
    }
}

/// The operator of precedence `level` that `t` is, if any.
pub open spec fn operator_of(level: int, t: SpecToken) -> Option<BinaryOp> {
    match t {
        XPathToken::Or => if level == 7 { Some(BinaryOp::Or) } else { None },
        XPathToken::And => if level == 6 { Some(BinaryOp::And) } else { None },
        XPathToken::Equal => if level == 5 { Some(BinaryOp::Equal) } else { None },
        XPathToken::NotEqual => if level == 5 { Some(BinaryOp::NotEqual) } else { None },
        XPathToken::LessThan => if level == 4 { Some(BinaryOp::Relational(RelationalOp::LessThan)) } else { None },
        XPathToken::LessThanOrEqual => if level == 4 { Some(BinaryOp::Relational(RelationalOp::LessThanOrEqual)) } else { None },
        XPathToken::GreaterThan => if level == 4 { Some(BinaryOp::Relational(RelationalOp::GreaterThan)) } else { None },
        XPathToken::GreaterThanOrEqual => if level == 4 { Some(BinaryOp::Relational(RelationalOp::GreaterThanOrEqual)) } else { None },
        XPathToken::PlusSign => if level == 3 { Some(BinaryOp::Math(MathOp::Addition)) } else { None },
        XPathToken::MinusSign => if level == 3 { Some(BinaryOp::Math(MathOp::Subtraction)) } else { None },
        XPathToken::Multiply => if level == 2 { Some(BinaryOp::Math(MathOp::Multiplication)) } else { None },
        XPathToken::Divide => if level == 2 { Some(BinaryOp::Math(MathOp::Division)) } else { None },
        XPathToken::Remainder => if level == 2 { Some(BinaryOp::Math(MathOp::Remainder)) } else { None },
        XPathToken::Pipe => if level == 1 { Some(BinaryOp::Union) } else { None },
        _ => None,
    }
}

pub open spec fn operator_at_view(ts: Seq<SpecTokenResult>, pos: int, level: int) -> Option<BinaryOp> {
    if 0 <= pos < ts.len() {
        match ts[pos] {
            Ok(t) => operator_of(level, t),
            Err(_) => None,
        }
    } else {
        None
    }
}

pub open spec fn combine_view(op: BinaryOp, l: ExprView, r: ExprView) -> ExprView {
    let (l, r) = (Box::new(l), Box::new(r));
    match op {
        BinaryOp::Or => ExprView::Or(l, r),
        BinaryOp::And => ExprView::And(l, r),
        BinaryOp::Equal => ExprView::Equal(l, r),
        BinaryOp::NotEqual => ExprView::NotEqual(l, r),
        BinaryOp::Relational(o) => ExprView::Relational(o, l, r),
        BinaryOp::Math(o) => ExprView::Math(o, l, r),
        BinaryOp::Union => ExprView::Union(l, r),
    }
}

/// OperandOf(level): PathExpr below `|`, UnaryExpr below `*`, else the
/// next level.
pub open spec fn operand_of(ts: Seq<SpecTokenResult>, pos: int, level: int) -> ParsedView
    decreases ts.len() - pos, 29 + 3 * level,
{
    if level < 1 || level > 7 || pos < 0 || pos > ts.len() {
        Ok((None, pos))
    } else if level == 1 {
        path_of(ts, pos)
    } else if level == 2 {
        unary_of(ts, pos)
    } else {
        level_of(ts, pos, level - 1)
    }
}

/// Level(level) = Operand (op Operand)*, folded to the left.
pub open spec fn level_of(ts: Seq<SpecTokenResult>, pos: int, level: int) -> ParsedView
    decreases ts.len() - pos, 30 + 3 * level,
{
    if level < 1 || level > 7 || pos < 0 || pos > ts.len() {
        Ok((None, pos))
    } else {
        match operand_of(ts, pos, level) {
        Err(e) => Err(e),
        Ok((None, _)) => Ok((None, pos)),
        Ok((Some(e), p)) => if pos < p <= ts.len() {
            level_rest(ts, p, level, e)
        } else {
            Ok((None, pos))
        },
        }
    }
}

/// The operators and operands after `left`, from `p` on.
pub open spec fn level_rest(ts: Seq<SpecTokenResult>, p: int, level: int, left: ExprView) -> ParsedView
    decreases ts.len() - p, 30 + 3 * level,
{
    match operator_at_view(ts, p, level) {
        None => Ok((Some(left), p)),
        Some(op) => if p < 0 || p + 1 > ts.len() || level < 1 || level > 7 {
            Ok((Some(left), p))
        } else {
            match operand_of(ts, p + 1, level) {
            Err(e) => Err(e),
            Ok((None, _)) => Err(ErrView::RightHandSideExpressionMissing),
            Ok((Some(right), q)) => if p < q <= ts.len() {
                level_rest(ts, q, level, combine_view(op, left, right))
            } else {
                Ok((None, p))
            },
            }
        },
    }
}

/// UnaryExpr = UnionExpr | `-` UnaryExpr.
pub open spec fn unary_of(ts: Seq<SpecTokenResult>, pos: int) -> ParsedView
    decreases ts.len() - pos, 34int,
{
    if pos < 0 || pos > ts.len() {
        Ok((None, pos))
    } else {
        match level_of(ts, pos, 1) {
        Err(e) => Err(e),
        Ok((Some(e), p)) => Ok((Some(e), p)),
        Ok((None, _)) => if token_is(ts, pos, XPathToken::MinusSign) && pos + 1 <= ts.len() {
            match unary_of(ts, pos + 1) {
                Err(e) => Err(e),
                Ok((None, _)) => Err(ErrView::RightHandSideExpressionMissing),
                Ok((Some(e), p)) => Ok((Some(ExprView::Negation(Box::new(e))), p)),
            }
        } else {
            Ok((None, pos))
        },
        }
    }
}

/// PathExpr = LocationPath | FilterExpr (`/` RelativeLocationPath)?
pub open spec fn path_of(ts: Seq<SpecTokenResult>, pos: int) -> ParsedView
    decreases ts.len() - pos, 22int,
{
    if pos < 0 || pos > ts.len() {
        Ok((None, pos))
    } else {
    match location_path_of(ts, pos) {
        Err(e) => Err(e),
        Ok((Some(e), p)) => Ok((Some(e), p)),
        Ok((None, _)) => match filter_of(ts, pos) {
            Err(e) => Err(e),
            Ok((None, _)) => Ok((None, pos)),
            Ok((Some(f), p)) => if token_is(ts, p, XPathToken::Slash) && pos <= p && p + 1 <= ts.len() {
                match steps_of(ts, p + 1) {
                    Err(e) => Err(e),
                    Ok((None, _)) => Err(ErrView::TrailingSlash),
                    Ok((Some(steps), q)) => Ok((Some(ExprView::Path(Box::new(f), steps)), q)),
                }
            } else {
                Ok((Some(f), p))
            },
        },
    }
    }
}

/// LocationPath = RelativeLocationPath | `/` RelativeLocationPath?
pub open spec fn location_path_of(ts: Seq<SpecTokenResult>, pos: int) -> ParsedView
    decreases ts.len() - pos, 21int,
{
    if pos < 0 || pos > ts.len() {
        Ok((None, pos))
    } else {
    match steps_of(ts, pos) {
        Err(e) => Err(e),
        Ok((Some(steps), p)) => Ok((Some(ExprView::Path(Box::new(ExprView::ContextNode), steps)), p)),
        Ok((None, _)) => if token_is(ts, pos, XPathToken::Slash) && pos + 1 <= ts.len() {
            match steps_of(ts, pos + 1) {
                Err(e) => Err(e),
                Ok((None, _)) => Ok((Some(ExprView::RootNode), pos + 1)),
                Ok((Some(steps), p)) => Ok((Some(ExprView::Path(Box::new(ExprView::RootNode), steps)), p)),
            }
        } else {
            Ok((None, pos))
        },
    }
    }
}

pub type StepsView = Result<(Option<Seq<ExprView>>, int), ErrView>;

/// RelativeLocationPath = Step (`/` Step)*
pub open spec fn steps_of(ts: Seq<SpecTokenResult>, pos: int) -> StepsView
    decreases ts.len() - pos, 18int,
{
    if pos < 0 || pos > ts.len() {
        Ok((None, pos))
    } else {
    match step_of(ts, pos) {
        Err(e) => Err(e),
        Ok((None, _)) => Ok((None, pos)),
        Ok((Some(s), p)) => if pos < p <= ts.len() {
            steps_rest(ts, p, seq![s])
        } else {
            Ok((None, pos))
        },
    }
    }
}

pub open spec fn steps_rest(ts: Seq<SpecTokenResult>, p: int, steps: Seq<ExprView>) -> StepsView
    decreases ts.len() - p, 18int,
{
    if token_is(ts, p, XPathToken::Slash) && 0 <= p && p + 1 <= ts.len() {
        match step_of(ts, p + 1) {
            Err(e) => Err(e),
            Ok((None, _)) => Err(ErrView::TrailingSlash),
            Ok((Some(s), q)) => if p < q <= ts.len() {
                steps_rest(ts, q, steps.push(s))
            } else {
                Ok((None, p))
            },
        }
    } else {
        Ok((Some(steps), p))
    }
}

/// The node test written as a name: `*` or a (prefixed) name.
pub open spec fn name_test(n: Seq<char>) -> TestView {
    if n == "*"@ {
        TestView::Wildcard
    } else {
        TestView::Name(n)
    }
}

/// The axis part of a step at `pos`: the axis, where the node test starts,
/// and whether the axis was written.
pub open spec fn axis_part(ts: Seq<SpecTokenResult>, pos: int) -> Result<(Axis, int, bool), ErrView> {
    if 0 <= pos < ts.len() && ts[pos] is Ok && ts[pos]->Ok_0 is Axis {
        let name = ts[pos]->Ok_0->Axis_0;
        if !token_is(ts, pos + 1, XPathToken::DoubleColon) {
            Err(unexpected_at(ts, pos + 1))
        } else {
            match axis_named(name) {
                None => Err(ErrView::InvalidAxis(name)),
                Some(a) => Ok((a, pos + 2, true)),
            }
        }
    } else {
        Ok((Axis::Child, pos, false))
    }
}

/// The node test at `p`, and where it ends.
pub open spec fn test_part(ts: Seq<SpecTokenResult>, p: int) -> Result<Option<(TestView, int)>, ErrView> {
    if 0 <= p < ts.len() {
        match ts[p] {
            Ok(XPathToken::NodeTest(name)) => if !token_is(ts, p + 1, XPathToken::LeftParen) {
                Err(unexpected_at(ts, p + 1))
            } else if !token_is(ts, p + 2, XPathToken::RightParen) {
                Err(unexpected_at(ts, p + 2))
            } else {
                match node_test_named(name) {
                    Some(t) => Ok(Some((t@, p + 3))),
                    None => Err(ErrView::InvalidNodeTest(name)),
                }
            },
            Ok(XPathToken::Name(n)) => Ok(Some((name_test(n), p + 1))),
            Ok(XPathToken::PrefixedName(a, b)) => Ok(Some((TestView::Name(a + ":"@ + b), p + 1))),
            _ => Ok(None),
        }
    } else {
        Ok(None)
    }
}

/// Step = (AxisName `::`)? NodeTest Predicate*
pub open spec fn step_of(ts: Seq<SpecTokenResult>, pos: int) -> ParsedView
    decreases ts.len() - pos, 17int,
{
    match axis_part(ts, pos) {
        Err(e) => Err(e),
        Ok((axis, p, explicit)) => match test_part(ts, p) {
            Err(e) => Err(e),
            Ok(None) => if explicit {
                Err(unexpected_at(ts, p))
            } else {
                Ok((None, pos))
            },
            Ok(Some((t, q))) => if pos < q <= ts.len() {
                match predicates_of(ts, ExprView::Step(axis, t), q) {
                    Err(e) => Err(e),
                    Ok((e, r)) => Ok((Some(e), r)),
                }
            } else {
                Ok((None, pos))
            },
        },
    }
}

/// Predicate* after `e`: each `[ Expr ]` wraps what comes before.
pub open spec fn predicates_of(ts: Seq<SpecTokenResult>, e: ExprView, pos: int) -> Result<(ExprView, int), ErrView>
    decreases ts.len() - pos, 16int,
{
    if token_is(ts, pos, XPathToken::LeftBracket) && 0 <= pos && pos + 1 <= ts.len() {
        match level_of(ts, pos + 1, 7) {
            Err(x) => Err(x),
            Ok((None, _)) => Err(ErrView::EmptyPredicate),
            Ok((Some(p), q)) => if !token_is(ts, q, XPathToken::RightBracket) {
                Err(unexpected_at(ts, q))
            } else if pos < q + 1 <= ts.len() {
                predicates_of(ts, ExprView::Predicate(Box::new(e), Box::new(p)), q + 1)
            } else {
                Ok((e, pos))
            },
        }
    } else {
        Ok((e, pos))
    }
}

/// FilterExpr = PrimaryExpr Predicate*
pub open spec fn filter_of(ts: Seq<SpecTokenResult>, pos: int) -> ParsedView
    decreases ts.len() - pos, 15int,
{
    match primary_of(ts, pos) {
        Err(e) => Err(e),
        Ok((None, _)) => Ok((None, pos)),
        Ok((Some(e), p)) => if pos < p <= ts.len() {
            match predicates_of(ts, e, p) {
                Err(x) => Err(x),
                Ok((e, q)) => Ok((Some(e), q)),
            }
        } else {
            Ok((None, pos))
        },
    }
}

/// The arguments of a call from `p` on, up to its `)`.
pub open spec fn arguments_of(ts: Seq<SpecTokenResult>, p: int, args: Seq<ExprView>) -> Result<(Seq<ExprView>, int), ErrView>
    decreases ts.len() - p, 60int,
{
    if token_is(ts, p, XPathToken::RightParen) || p < 0 || p > ts.len() {
        Ok((args, p))
    } else {
        match level_of(ts, p, 7) {
            Err(e) => Err(e),
            Ok((None, _)) => Ok((args, p)),
            Ok((Some(a), q)) => if p < q <= ts.len() {
                arguments_of(ts, q, args.push(a))
            } else {
                Ok((args, p))
            },
        }
    }
}

/// PrimaryExpr = `$` Name | Literal | Number | Function `(` Expr* `)` |
/// `(` Expr `)`
pub open spec fn primary_of(ts: Seq<SpecTokenResult>, pos: int) -> ParsedView
    decreases ts.len() - pos, 14int,
{
    if pos < 0 || pos >= ts.len() {
        Ok((None, pos))
    } else {
        match ts[pos] {
            Err(x) => Err(ErrView::TokenizerError(x)),
            Ok(XPathToken::DollarSign) => if pos + 1 >= ts.len() {
                Err(ErrView::RanOutOfInput)
            } else {
                match ts[pos + 1] {
                    Ok(XPathToken::Name(n)) => Ok((Some(ExprView::Variable(n)), pos + 2)),
                    Ok(t) => Err(ErrView::UnexpectedToken(t)),
                    Err(x) => Err(ErrView::TokenizerError(x)),
                }
            },
            Ok(XPathToken::Literal(s)) => Ok((Some(ExprView::Literal(LiteralView::Text(s))), pos + 1)),
            Ok(XPathToken::Number(s)) => Ok((Some(ExprView::Literal(LiteralView::Number(s))), pos + 1)),
            Ok(XPathToken::Function(name)) => if !token_is(ts, pos + 1, XPathToken::LeftParen) || pos + 2 > ts.len() {
                Err(unexpected_at(ts, pos + 1))
            } else {
                match arguments_of(ts, pos + 2, seq![]) {
                    Err(e) => Err(e),
                    Ok((args, p)) => if token_is(ts, p, XPathToken::RightParen) {
                        Ok((Some(ExprView::Function(name, args)), p + 1))
                    } else {
                        Err(unexpected_at(ts, p))
                    },
                }
            },
            Ok(XPathToken::LeftParen) => match level_of(ts, pos + 1, 7) {
                Err(e) => Err(e),
                Ok((None, _)) => Err(unexpected_at(ts, pos + 1)),
                Ok((Some(e), p)) => if token_is(ts, p, XPathToken::RightParen) {
                    Ok((Some(e), p + 1))
                } else {
                    Err(unexpected_at(ts, p))
                },
            },
            _ => Ok((None, pos)),
        }
    }
}

pub open spec fn outcome_view(r: Result<Option<Expression>, ParseErr>) -> Result<Option<ExprView>, ErrView> {
    match r {
        Ok(Some(e)) => Ok(Some(expr_view(&e))),
        Ok(None) => Ok(None),
        Err(e) => Err(e@),
    }
}

/// The token stream of an XPath string: its tokens, or its tokenizer
/// error alone.
pub open spec fn stream_of(xpath: Seq<char>) -> Seq<SpecTokenResult> {
    match tokens_of(xpath) {
        Ok(ts) => oks(ts),
        Err(x) => seq![Err(x)],
    }
}

/// Expr: the whole stream, which must hold nothing after the expression.
pub open spec fn expression_of(ts: Seq<SpecTokenResult>) -> Result<Option<ExprView>, ErrView> {
    match level_of(ts, 0, 7) {
        Err(e) => Err(e),
        Ok((e, p)) => if 0 <= p < ts.len() {
            match ts[p] {
                Err(x) => Err(ErrView::TokenizerError(x)),
                Ok(_) => Err(ErrView::ExtraUnparsedTokens),
            }
        } else {
            Ok(e)
        },
    }
}

/// Abbreviation equivalence: a stream with an abbreviation (`@`, `//`, `.`,
/// `..`) and the same stream with its expansion written out parse to the
/// same expression, or fail with the same error.
pub proof fn lemma_abbreviations_parse_alike(
    before: Seq<SpecTokenResult>,
    abbreviation: SpecToken,
    after: Seq<SpecTokenResult>,
)
    requires
        is_abbreviation(abbreviation),
    ensures
        expression_of(disambiguated(deabbreviated(before + seq![Ok(abbreviation)] + after)))
            == expression_of(disambiguated(deabbreviated(before + oks(expansion(abbreviation)) + after))),
{
    lemma_abbreviation_equivalence(before, abbreviation, after);
}

/// A recursive-descent parser of XPath token streams.
pub struct XPathParser;

impl XPathParser {
    pub fn new() -> XPathParser {
        XPathParser
    }

    /// The operand of an operator of precedence `level`.
    fn parse_operand(&self, tokens: &Vec<TokenResult>, pos: usize, level: u8) -> (r: Parsed)
        requires
            pos <= tokens.len(),
            1 <= level <= 7,
        ensures
            parsed_from(r, tokens@, pos as int),
            parsed_view(r) == operand_of(stream_view(tokens), pos as int, level as int),
        decreases tokens.len() - pos, 29 + 3 * level,
    {
        if level == 1 {
            self.parse_path(tokens, pos)
        } else if level == 2 {
            self.parse_unary(tokens, pos)
        } else {
            self.parse_level(tokens, pos, level - 1)
        }
    }

    /// A left-associative chain of operators of precedence `level`.
    fn parse_level(&self, tokens: &Vec<TokenResult>, pos: usize, level: u8) -> (r: Parsed)
        requires
            pos <= tokens.len(),
            1 <= level <= 7,
        ensures
            parsed_from(r, tokens@, pos as int),
            parsed_view(r) == level_of(stream_view(tokens), pos as int, level as int),
        decreases tokens.len() - pos, 30 + 3 * level,
    {
        let first = self.parse_operand(tokens, pos, level);
        let (mut left, mut p) = match first {
            Err(e) => return Err(e),
            Ok((None, _)) => return Ok((None, pos)),
            Ok((Some(e), p)) => (e, p),
        };
        loop
            invariant
                pos < p <= tokens.len(),
                1 <= level <= 7,
                tokens@[pos as int] is Ok,
                level_of(stream_view(tokens), pos as int, level as int) == level_rest(
                    stream_view(tokens),
                    p as int,
                    level as int,
                    expr_view(&left),
                ),
            decreases tokens.len() - p,
        {
            match operator_at(tokens, p, level) {
                None => return Ok((Some(left), p)),
                Some(op) => {
                    match self.parse_operand(tokens, p + 1, level) {
                        Err(e) => return Err(e),
                        Ok((None, _)) => return Err(ParseErr::RightHandSideExpressionMissing),
                        Ok((Some(right), q)) => {
                            left = combine(op, left, right);
                            p = q;
                        },
                    }
                },
            }
        }
    }

    /// `-` repeated any number of times before a union expression.
    fn parse_unary(&self, tokens: &Vec<TokenResult>, pos: usize) -> (r: Parsed)
        requires
            pos <= tokens.len(),
        ensures
            parsed_from(r, tokens@, pos as int),
            parsed_view(r) == unary_of(stream_view(tokens), pos as int),
        decreases tokens.len() - pos, 34nat,
    {
        match self.parse_level(tokens, pos, 1) {
            Err(e) => return Err(e),
            Ok((Some(e), p)) => return Ok((Some(e), p)),
            Ok((None, _)) => {},
        }
        if next_is(tokens, pos, &XPathToken::MinusSign) {
            match self.parse_unary(tokens, pos + 1) {
                Err(e) => Err(e),
                Ok((None, _)) => Err(ParseErr::RightHandSideExpressionMissing),
                Ok((Some(e), p)) => Ok((Some(Expression::Negation(Box::new(e))), p)),
            }
        } else {
            Ok((None, pos))
        }
    }

    /// A location path, or a filter expression optionally followed by `/`
    /// and a relative location path.
    fn parse_path(&self, tokens: &Vec<TokenResult>, pos: usize) -> (r: Parsed)
        requires
            pos <= tokens.len(),
        ensures
            parsed_from(r, tokens@, pos as int),
            parsed_view(r) == path_of(stream_view(tokens), pos as int),
        decreases tokens.len() - pos, 22nat,
    {
        match self.parse_location_path(tokens, pos) {
            Err(e) => return Err(e),
            Ok((Some(e), p)) => return Ok((Some(e), p)),
            Ok((None, _)) => {},
        }
        let (filter, p) = match self.parse_filter(tokens, pos) {
            Err(e) => return Err(e),
            Ok((None, _)) => return Ok((None, pos)),
            Ok((Some(f), p)) => (f, p),
        };
        if next_is(tokens, p, &XPathToken::Slash) {
            match self.parse_steps(tokens, p + 1) {
                Err(e) => Err(e),
                Ok((None, _)) => Err(ParseErr::TrailingSlash),
                Ok((Some(steps), q)) => Ok((Some(Expression::Path(Box::new(filter), steps)), q)),
            }
        } else {
            Ok((Some(filter), p))
        }
    }

    /// A relative location path from the context node, or an absolute one
    /// from the root (a lone `/` is the root itself).
    #[verifier::rlimit(60)]
    fn parse_location_path(&self, tokens: &Vec<TokenResult>, pos: usize) -> (r: Parsed)
        requires
            pos <= tokens.len(),
        ensures
            skips_error(r, tokens@, pos as int),
            parsed_view(r) == location_path_of(stream_view(tokens), pos as int),
        decreases tokens.len() - pos, 21nat,
    {
        let ghost ts = stream_view(tokens);
        let relative = self.parse_steps(tokens, pos);
        match relative {
            Err(e) => return Err(e),
            Ok((Some(steps), p)) => {
                let ghost sv = exprs_view(steps@);
                let e = Expression::Path(Box::new(Expression::ContextNode), steps);
                assert(expr_view(&e) == ExprView::Path(Box::new(ExprView::ContextNode), sv));
                assert(steps_of(ts, pos as int) == Ok::<(Option<Seq<ExprView>>, int), ErrView>((Some(sv), p as int)));
                return Ok((Some(e), p));
            },
            Ok((None, _)) => {},
        }
        assert(steps_of(ts, pos as int) matches Ok((None, _)));
        if next_is(tokens, pos, &XPathToken::Slash) {
            let absolute = self.parse_steps(tokens, pos + 1);
            match absolute {
                Err(e) => Err(e),
                Ok((None, _)) => Ok((Some(Expression::RootNode), pos + 1)),
                Ok((Some(steps), p)) => {
                    let ghost sv = exprs_view(steps@);
                    let root = Expression::RootNode;
                    assert(expr_view(&root) == ExprView::RootNode);
                    let e = Expression::Path(Box::new(root), steps);
                    assert(expr_view(&e) == ExprView::Path(Box::new(ExprView::RootNode), sv));
                    Ok((Some(e), p))
                },
            }
        } else {
            Ok((None, pos))
        }
    }

    /// Steps separated by `/`.
    fn parse_steps(&self, tokens: &Vec<TokenResult>, pos: usize) -> (r: Result<
        (Option<Vec<Expression>>, usize),
        ParseErr,
    >)
        requires
            pos <= tokens.len(),
        ensures
            r matches Ok((s, p)) ==> pos <= p <= tokens.len() && (s is None ==> p == pos) && (
            s is Some ==> p > pos),
            (pos < tokens.len() && tokens@[pos as int] is Err) ==> r matches Ok((None, _)),
            pos == tokens.len() ==> r matches Ok((None, _)),
            steps_view(r) == steps_of(stream_view(tokens), pos as int),
        decreases tokens.len() - pos, 18nat,
    {
        let (first, mut p) = match self.parse_step(tokens, pos) {
            Err(e) => return Err(e),
            Ok((None, _)) => return Ok((None, pos)),
            Ok((Some(s), p)) => (s, p),
        };
        let ghost first_view = expr_view(&first);
        let mut steps: Vec<Expression> = Vec::new();
        steps.push(first);
        proof {
            assert(steps@.drop_last() =~= Seq::<Expression>::empty());
            assert(exprs_view(Seq::<Expression>::empty()) =~= Seq::<ExprView>::empty());
            assert(exprs_view(steps@) =~= seq![first_view]);
        }
        while next_is(tokens, p, &XPathToken::Slash)
            invariant
                pos < p <= tokens.len(),
                tokens@[pos as int] is Ok,
                steps_of(stream_view(tokens), pos as int) == steps_rest(
                    stream_view(tokens),
                    p as int,
                    exprs_view(steps@),
                ),
            decreases tokens.len() - p,
        {
            match self.parse_step(tokens, p + 1) {
                Err(e) => return Err(e),
                Ok((None, _)) => return Err(ParseErr::TrailingSlash),
                Ok((Some(s), q)) => {
                    let ghost before = steps@;
                    let ghost sv = expr_view(&s);
                    steps.push(s);
                    proof {
                        assert(steps@.drop_last() =~= before);
                        assert(exprs_view(steps@) == exprs_view(before).push(sv));
                    }
                    p = q;
                },
            }
        }
        Ok((Some(steps), p))
    }

    /// An optional `axis::`, a node test and any predicates.
    fn parse_step(&self, tokens: &Vec<TokenResult>, pos: usize) -> (r: Parsed)
        requires
            pos <= tokens.len(),
        ensures
            skips_error(r, tokens@, pos as int),
            parsed_view(r) == step_of(stream_view(tokens), pos as int),
        decreases tokens.len() - pos, 17nat,
    {
        let mut p = pos;
        let mut axis = Axis::Child;
        let mut explicit_axis = false;
        if pos < tokens.len() {
            if let Ok(XPathToken::Axis(name)) = &tokens[pos] {
                p = match expect(tokens, pos + 1, &XPathToken::DoubleColon) {
                    Ok(q) => q,
                    Err(e) => return Err(e),
                };
                axis = match axis_for_name(name) {
                    Some(a) => a,
                    None => return Err(ParseErr::InvalidAxis(name.clone())),
                };
                explicit_axis = true;
            }
        }
        let mut test: Option<XPathNodeTest> = None;
        if p < tokens.len() {
            match &tokens[p] {
                Ok(XPathToken::NodeTest(name)) => {
                    let q = match expect(tokens, p + 1, &XPathToken::LeftParen) {
                        Ok(q) => q,
                        Err(e) => return Err(e),
                    };
                    let q = match expect(tokens, q, &XPathToken::RightParen) {
                        Ok(q) => q,
                        Err(e) => return Err(e),
                    };
                    match node_test_for_name(name) {
                        Some(t) => test = Some(t),
                        None => return Err(ParseErr::InvalidNodeTest(name.clone())),
                    }
                    p = q;
                },
                Ok(XPathToken::Name(name)) => {
                    if *name == string_from("*") {
                        test = Some(XPathNodeTest::Wildcard);
                    } else {
                        test = Some(XPathNodeTest::Name(name.clone()));
                    }
                    p = p + 1;
                },
                Ok(XPathToken::PrefixedName(prefix, local)) => {
                    let mut full = prefix.clone();
                    full.append(":");
                    full.append(local.as_str());
                    test = Some(XPathNodeTest::Name(full));
                    p = p + 1;
                },
                _ => {},
            }
        }
        match test {
            None => {
                if explicit_axis {
                    Err(unexpected(tokens, p))
                } else {
                    Ok((None, pos))
                }
            },
            Some(t) => match self.parse_predicates(tokens, Expression::Step(axis, t), p) {
                Err(e) => Err(e),
                Ok((e, q)) => Ok((Some(e), q)),
            },
        }
    }

    /// Any number of `[ expression ]` after `expr`, applied in order.
    fn parse_predicates(&self, tokens: &Vec<TokenResult>, expr: Expression, pos: usize) -> (r:
        Result<(Expression, usize), ParseErr>)
        requires
            0 < pos <= tokens.len(),
        ensures
            r matches Ok((_, p)) ==> pos <= p <= tokens.len(),
            predicates_view(r) == predicates_of(stream_view(tokens), expr_view(&expr), pos as int),
        decreases tokens.len() - pos, 16nat,
    {
        let ghost original = expr_view(&expr);
        let mut current = expr;
        let mut p = pos;
        while next_is(tokens, p, &XPathToken::LeftBracket)
            invariant
                pos <= p <= tokens.len(),
                original == expr_view(&expr),
                predicates_of(stream_view(tokens), original, pos as int) == predicates_of(
                    stream_view(tokens),
                    expr_view(&current),
                    p as int,
                ),
            decreases tokens.len() - p,
        {
            let (predicate, q) = match self.parse_level(tokens, p + 1, 7) {
                Err(e) => return Err(e),
                Ok((None, _)) => return Err(ParseErr::EmptyPredicate),
                Ok((Some(e), q)) => (e, q),
            };
            p = match expect(tokens, q, &XPathToken::RightBracket) {
                Ok(q2) => q2,
                Err(e) => return Err(e),
            };
            current = Expression::Predicate(Box::new(current), Box::new(predicate));
        }
        Ok((current, p))
    }

    /// A primary expression followed by any predicates.
    fn parse_filter(&self, tokens: &Vec<TokenResult>, pos: usize) -> (r: Parsed)
        requires
            pos <= tokens.len(),
        ensures
            parsed_from(r, tokens@, pos as int),
            parsed_view(r) == filter_of(stream_view(tokens), pos as int),
        decreases tokens.len() - pos, 15nat,
    {
        match self.parse_primary(tokens, pos) {
            Err(e) => Err(e),
            Ok((None, _)) => Ok((None, pos)),
            Ok((Some(e), p)) => match self.parse_predicates(tokens, e, p) {
                Err(e) => Err(e),
                Ok((e, q)) => Ok((Some(e), q)),
            },
        }
    }

    /// A variable reference, a literal, a number, a function call or a
    /// parenthesized expression.
    fn parse_primary(&self, tokens: &Vec<TokenResult>, pos: usize) -> (r: Parsed)
        requires
            pos <= tokens.len(),
        ensures
            parsed_from(r, tokens@, pos as int),
            parsed_view(r) == primary_of(stream_view(tokens), pos as int),
        decreases tokens.len() - pos, 14nat,
    {
        if let Some(x) = next_is_error(tokens, pos) {
            return Err(ParseErr::TokenizerError(x));
        }
        if pos >= tokens.len() {
            return Ok((None, pos));
        }
        match &tokens[pos] {
            Ok(XPathToken::DollarSign) => {
                if pos + 1 >= tokens.len() {
                    return Err(ParseErr::RanOutOfInput);
                }
                match &tokens[pos + 1] {
                    Ok(XPathToken::Name(name)) => Ok(
                        (Some(Expression::Variable(name.clone())), pos + 2),
                    ),
                    Ok(t) => Err(ParseErr::UnexpectedToken(t.duplicate())),
                    Err(x) => Err(ParseErr::TokenizerError(*x)),
                }
            },
            Ok(XPathToken::Literal(s)) => Ok(
                (Some(Expression::Literal(LiteralValue::Text(s.clone()))), pos + 1),
            ),
            Ok(XPathToken::Number(s)) => Ok(
                (Some(Expression::Literal(LiteralValue::Number(s.clone()))), pos + 1),
            ),
            Ok(XPathToken::Function(name)) => {
                let ghost ts = stream_view(tokens);
                assert(ts[pos as int] == Ok::<SpecToken, TokenizerError>(XPathToken::Function(name@)));
                let mut p = match expect(tokens, pos + 1, &XPathToken::LeftParen) {
                    Ok(q) => q,
                    Err(e) => return Err(e),
                };
                let mut arguments: Vec<Expression> = Vec::new();
                loop
                    invariant
                        pos + 2 <= p <= tokens.len(),
                        tokens@[pos as int] is Ok,
                        ts == stream_view(tokens),
                        ts[pos as int] == Ok::<SpecToken, TokenizerError>(XPathToken::Function(name@)),
                        token_is(ts, pos + 1, XPathToken::LeftParen),
                        arguments_of(ts, pos + 2, seq![]) == arguments_of(
                            ts,
                            p as int,
                            exprs_view(arguments@),
                        ),
                    ensures
                        pos + 2 <= p <= tokens.len(),
                        arguments_of(ts, pos + 2, seq![]) == Ok::<(Seq<ExprView>, int), ErrView>(
                            (exprs_view(arguments@), p as int),
                        ),
                    decreases tokens.len() - p,
                {
                    if next_is(tokens, p, &XPathToken::RightParen) {
                        break;
                    }
                    match self.parse_level(tokens, p, 7) {
                        Err(e) => return Err(e),
                        Ok((None, _)) => break,
                        Ok((Some(arg), q)) => {
                            let ghost before = arguments@;
                            let ghost av = expr_view(&arg);
                            arguments.push(arg);
                            proof {
                                assert(arguments@.drop_last() =~= before);
                                assert(exprs_view(arguments@) == exprs_view(before).push(av));
                            }
                            p = q;
                        },
                    }
                }
                let p = match expect(tokens, p, &XPathToken::RightParen) {
                    Ok(q) => q,
                    Err(e) => return Err(e),
                };
                Ok((Some(Expression::Function(name.clone(), arguments)), p))
            },
            Ok(XPathToken::LeftParen) => {
                let (inner, p) = match self.parse_level(tokens, pos + 1, 7) {
                    Err(e) => return Err(e),
                    Ok((None, _)) => return Err(unexpected(tokens, pos + 1)),
                    Ok((Some(e), p)) => (e, p),
                };
                let p = match expect(tokens, p, &XPathToken::RightParen) {
                    Ok(q) => q,
                    Err(e) => return Err(e),
                };
                Ok((Some(inner), p))
            },
            _ => Ok((None, pos)),
        }
    }

    /// The expression of a whole token stream: `Ok(None)` for an empty one.
    pub fn parse(&self, tokens: Vec<TokenResult>) -> (r: Result<Option<Expression>, ParseErr>)
        ensures
            outcome_view(r) == expression_of(results_view(tokens@)),
            tokens@.len() == 0 ==> r matches Ok(None),
            (tokens@.len() > 0 && tokens@[0] is Err) ==> r == Err::<Option<Expression>, ParseErr>(
                ParseErr::TokenizerError(tokens@[0]->Err_0),
            ),
    {
        match self.parse_level(&tokens, 0, 7) {
            Err(e) => Err(e),
            Ok((e, p)) => {
                if p < tokens.len() {
                    match &tokens[p] {
                        Err(x) => Err(ParseErr::TokenizerError(*x)),
                        Ok(_) => Err(ParseErr::ExtraUnparsedTokens),
                    }
                } else {
                    Ok(e)
                }
            },
        }
    }
}

/// The tokens of `xpath`, or its tokenizer error, as a stream.
pub fn token_stream(xpath: &str) -> (r: Vec<TokenResult>)
    ensures
        tokens_of(xpath@) matches Err(x) ==> r@ == seq![Err::<Token, TokenizerError>(x)],
        tokens_of(xpath@) matches Ok(ts) ==> r@.len() == ts.len() && forall|i: int|
            0 <= i < ts.len() ==> ((#[trigger] r@[i]) matches Ok(t) && t@ == ts[i]),
{
    match tokenize(xpath) {
        Err(x) => vec![Err(x)],
        Ok(tokens) => {
            let mut out: Vec<TokenResult> = Vec::new();
            let mut tokens = tokens;
            let ghost all = tokens@;
            let mut k: usize = 0;
            let n = tokens.len();
            while tokens.len() > 0
                invariant
                    tokens@.len() + k == n,
                    n == all.len(),
                    tokens@ == all.subrange(k as int, n as int),
                    out@.len() == k,
                    forall|i: int| 0 <= i < k ==> ((#[trigger] out@[i]) matches Ok(t) && t@ == all[i]@),
                decreases tokens.len(),
            {
                let t = tokens.remove(0);
                out.push(Ok(t));
                k = k + 1;
                assert(tokens@ =~= all.subrange(k as int, n as int));
            }
            out
        },
    }
}

/// Parses an XPath string: tokenize, expand abbreviations, tell names
/// apart, then parse.
pub fn compile(xpath: &str) -> (r: Result<Option<Expression>, ParseErr>)
    ensures
        outcome_view(r) == expression_of(disambiguated(deabbreviated(stream_of(xpath@)))),
        tokens_of(xpath@) matches Err(x) ==> r == Err::<Option<Expression>, ParseErr>(
            ParseErr::TokenizerError(x),
        ),
        tokens_of(xpath@) == Ok::<Seq<crate::token::SpecToken>, TokenizerError>(seq![]) ==> r
            matches Ok(None),
{
    let stream = token_stream(xpath);
    let expanded = deabbreviate(stream);
    let named = disambiguate_all(expanded);
    proof {
        let sv = results_view(stream@);
        if tokens_of(xpath@) is Ok {
            let ts = tokens_of(xpath@)->Ok_0;
            assert(sv =~= oks(ts));
        } else {
            assert(sv =~= stream_of(xpath@));
        }
        assert(sv == stream_of(xpath@));
        if tokens_of(xpath@) is Err {
            let x = tokens_of(xpath@)->Err_0;
            assert(sv =~= seq![Err::<SpecToken, TokenizerError>(x)]);
            assert(sv.drop_first() =~= seq![]);
            assert(deabbreviated(sv.drop_first()) =~= seq![]);
            assert(deabbreviated(sv) =~= seq![Err::<SpecToken, TokenizerError>(x)]);
            let ev = results_view(expanded@);
            assert(ev == deabbreviated(sv));
            assert(ev.len() == 1);
            assert(ev[0] == Err::<SpecToken, TokenizerError>(x));
            assert(following(ev, 0) is None);
            assert(disambiguated(ev)[0] == disambiguate(ev[0], following(ev, 0)));
            assert(disambiguated(ev)[0] == Err::<SpecToken, TokenizerError>(x));
            assert(results_view(named@) == disambiguated(ev));
            assert(results_view(named@).len() == named@.len());
            assert(named@.len() == 1);
            assert(results_view(named@)[0] == result_view(named@[0]));
            assert(result_view(named@[0]) == Err::<SpecToken, TokenizerError>(x));
            assert(named@[0] == Err::<Token, TokenizerError>(x));
        }
        if tokens_of(xpath@) == Ok::<Seq<SpecToken>, TokenizerError>(seq![]) {
            assert(sv =~= seq![]);
            assert(results_view(expanded@).len() == 0);
            assert(results_view(named@).len() == 0);
            assert(results_view(named@).len() == named@.len());
        }
    }
    XPathParser::new().parse(named)
}

} // verus!
