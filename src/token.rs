use vstd::prelude::*;

verus! {

/// The lexemes of XPath 1.0.
///
/// The payload type is `String` in executable code and `Seq<char>` in
/// specifications (see `Token` and `SpecToken`). A numeric literal keeps
/// its source digits; it is turned into a number where it is evaluated.
#[derive(Debug, PartialEq, Eq)]
pub enum XPathToken<S> {
    And,
    AtSign,
    Axis(S),
    CurrentNode,
    Divide,
    DollarSign,
    DoubleColon,
    DoubleSlash,
    Equal,
    Function(S),
    GreaterThan,
    GreaterThanOrEqual,
    LeftBracket,
    LeftParen,
    LessThan,
    LessThanOrEqual,
    Literal(S),
    MinusSign,
    Multiply,
    Name(S),
    NodeTest(S),
    NotEqual,
    Number(S),
    Or,
    ParentNode,
    Pipe,
    PlusSign,
    PrefixedName(S, S),
    Remainder,
    RightBracket,
    RightParen,
    Slash,
}

pub type Token = XPathToken<String>;

pub type SpecToken = XPathToken<Seq<char>>;

impl View for XPathToken<String> {
    type V = SpecToken;

    open spec fn view(&self) -> SpecToken {
        match self {
            XPathToken::And => XPathToken::And,
            XPathToken::AtSign => XPathToken::AtSign,
            XPathToken::Axis(s) => XPathToken::Axis(s@),
            XPathToken::CurrentNode => XPathToken::CurrentNode,
            XPathToken::Divide => XPathToken::Divide,
            XPathToken::DollarSign => XPathToken::DollarSign,
            XPathToken::DoubleColon => XPathToken::DoubleColon,
            XPathToken::DoubleSlash => XPathToken::DoubleSlash,
            XPathToken::Equal => XPathToken::Equal,
            XPathToken::Function(s) => XPathToken::Function(s@),
            XPathToken::GreaterThan => XPathToken::GreaterThan,
            XPathToken::GreaterThanOrEqual => XPathToken::GreaterThanOrEqual,
            XPathToken::LeftBracket => XPathToken::LeftBracket,
            XPathToken::LeftParen => XPathToken::LeftParen,
            XPathToken::LessThan => XPathToken::LessThan,
            XPathToken::LessThanOrEqual => XPathToken::LessThanOrEqual,
            XPathToken::Literal(s) => XPathToken::Literal(s@),
            XPathToken::MinusSign => XPathToken::MinusSign,
            XPathToken::Multiply => XPathToken::Multiply,
            XPathToken::Name(s) => XPathToken::Name(s@),
            XPathToken::NodeTest(s) => XPathToken::NodeTest(s@),
            XPathToken::NotEqual => XPathToken::NotEqual,
            XPathToken::Number(s) => XPathToken::Number(s@),
            XPathToken::Or => XPathToken::Or,
            XPathToken::ParentNode => XPathToken::ParentNode,
            XPathToken::Pipe => XPathToken::Pipe,
            XPathToken::PlusSign => XPathToken::PlusSign,
            XPathToken::PrefixedName(p, l) => XPathToken::PrefixedName(p@, l@),
            XPathToken::Remainder => XPathToken::Remainder,
            XPathToken::RightBracket => XPathToken::RightBracket,
            XPathToken::RightParen => XPathToken::RightParen,
            XPathToken::Slash => XPathToken::Slash,
        }
    }
}

/// Why the tokenizer stopped.
#[derive(Debug, Clone, Copy, PartialEq, Eq, Structural)]
pub enum TokenizerError {
    MismatchedQuoteCharacters,
    MissingLocalName,
    UnableToCreateToken,
}

impl TokenizerError {
    /// A sentence describing the error.
    pub fn message(&self) -> &'static str {
        match self {
            TokenizerError::MismatchedQuoteCharacters => "found mismatched quote characters",
            TokenizerError::MissingLocalName => "The XPath is missing a local name",
            TokenizerError::UnableToCreateToken => "Unable to create a token",
        }
    }
}

pub type TokenResult = Result<Token, TokenizerError>;

pub type SpecTokenResult = Result<SpecToken, TokenizerError>;

pub open spec fn result_view(r: TokenResult) -> SpecTokenResult {
    match r {
        Ok(t) => Ok(t@),
        Err(e) => Err(e),
    }
}

pub open spec fn results_view(v: Seq<TokenResult>) -> Seq<SpecTokenResult> {
    v.map_values(|r: TokenResult| result_view(r))
}

pub open spec fn token_views(v: Seq<Token>) -> Seq<SpecToken> {
    v.map_values(|t: Token| t@)
}

/// A token after which a node test is expected.
pub open spec fn precedes_node_test(t: SpecToken) -> bool {
    t is AtSign || t is DoubleColon
}

/// A token after which an expression is expected.
pub open spec fn precedes_expression(t: SpecToken) -> bool {
    t is LeftParen || t is LeftBracket
}

pub open spec fn is_operator(t: SpecToken) -> bool {
    t is Slash || t is DoubleSlash || t is PlusSign || t is MinusSign || t is Pipe || t is Equal
        || t is NotEqual || t is LessThan || t is LessThanOrEqual || t is GreaterThan
        || t is GreaterThanOrEqual || t is And || t is Or || t is Remainder || t is Divide
        || t is Multiply
}

/// After a token that neither precedes a node test or an expression nor is
/// an operator, the words `and`, `or`, `mod`, `div` and `*` are operators.
pub open spec fn prefers_operator_names(t: SpecToken) -> bool {
    !(precedes_node_test(t) || precedes_expression(t) || is_operator(t))
}

pub(crate) fn clone_string(s: &String) -> (r: String)
    ensures
        r@ == s@,
{
    s.clone()
}

impl XPathToken<String> {
    pub fn precedes_node_test(&self) -> (r: bool)
        ensures
            r == precedes_node_test(self@),
    {
        matches!(self, XPathToken::AtSign | XPathToken::DoubleColon)
    }

    pub fn precedes_expression(&self) -> (r: bool)
        ensures
            r == precedes_expression(self@),
    {
        matches!(self, XPathToken::LeftParen | XPathToken::LeftBracket)
    }

    pub fn is_operator(&self) -> (r: bool)
        ensures
            r == is_operator(self@),
    {
        matches!(
            self,
            XPathToken::Slash | XPathToken::DoubleSlash | XPathToken::PlusSign
                | XPathToken::MinusSign | XPathToken::Pipe | XPathToken::Equal
                | XPathToken::NotEqual | XPathToken::LessThan | XPathToken::LessThanOrEqual
                | XPathToken::GreaterThan | XPathToken::GreaterThanOrEqual | XPathToken::And
                | XPathToken::Or | XPathToken::Remainder | XPathToken::Divide
                | XPathToken::Multiply
        )
    }

    /// Whether two tokens are the same.
    pub fn same_as(&self, other: &Token) -> (r: bool)
        ensures
            r == (self@ == other@),
    {
        match (self, other) {
            (XPathToken::And, XPathToken::And) => true,
            (XPathToken::AtSign, XPathToken::AtSign) => true,
            (XPathToken::CurrentNode, XPathToken::CurrentNode) => true,
            (XPathToken::Divide, XPathToken::Divide) => true,
            (XPathToken::DollarSign, XPathToken::DollarSign) => true,
            (XPathToken::DoubleColon, XPathToken::DoubleColon) => true,
            (XPathToken::DoubleSlash, XPathToken::DoubleSlash) => true,
            (XPathToken::Equal, XPathToken::Equal) => true,
            (XPathToken::GreaterThan, XPathToken::GreaterThan) => true,
            (XPathToken::GreaterThanOrEqual, XPathToken::GreaterThanOrEqual) => true,
            (XPathToken::LeftBracket, XPathToken::LeftBracket) => true,
            (XPathToken::LeftParen, XPathToken::LeftParen) => true,
            (XPathToken::LessThan, XPathToken::LessThan) => true,
            (XPathToken::LessThanOrEqual, XPathToken::LessThanOrEqual) => true,
            (XPathToken::MinusSign, XPathToken::MinusSign) => true,
            (XPathToken::Multiply, XPathToken::Multiply) => true,
            (XPathToken::NotEqual, XPathToken::NotEqual) => true,
            (XPathToken::Or, XPathToken::Or) => true,
            (XPathToken::ParentNode, XPathToken::ParentNode) => true,
            (XPathToken::Pipe, XPathToken::Pipe) => true,
            (XPathToken::PlusSign, XPathToken::PlusSign) => true,
            (XPathToken::Remainder, XPathToken::Remainder) => true,
            (XPathToken::RightBracket, XPathToken::RightBracket) => true,
            (XPathToken::RightParen, XPathToken::RightParen) => true,
            (XPathToken::Slash, XPathToken::Slash) => true,
            (XPathToken::Axis(x), XPathToken::Axis(y)) => *x == *y,
            (XPathToken::Function(x), XPathToken::Function(y)) => *x == *y,
            (XPathToken::Literal(x), XPathToken::Literal(y)) => *x == *y,
            (XPathToken::Name(x), XPathToken::Name(y)) => *x == *y,
            (XPathToken::NodeTest(x), XPathToken::NodeTest(y)) => *x == *y,
            (XPathToken::Number(x), XPathToken::Number(y)) => *x == *y,
            (XPathToken::PrefixedName(p, l), XPathToken::PrefixedName(q, m)) => *p == *q && *l == *m,
            _ => false,
        }
    }

    /// A copy with the same view.
    pub fn duplicate(&self) -> (r: Token)
        ensures
            r@ == self@,
    {
        match self {
            XPathToken::And => XPathToken::And,
            XPathToken::AtSign => XPathToken::AtSign,
            XPathToken::Axis(s) => XPathToken::Axis(clone_string(s)),
            XPathToken::CurrentNode => XPathToken::CurrentNode,
            XPathToken::Divide => XPathToken::Divide,
            XPathToken::DollarSign => XPathToken::DollarSign,
            XPathToken::DoubleColon => XPathToken::DoubleColon,
            XPathToken::DoubleSlash => XPathToken::DoubleSlash,
            XPathToken::Equal => XPathToken::Equal,
            XPathToken::Function(s) => XPathToken::Function(clone_string(s)),
            XPathToken::GreaterThan => XPathToken::GreaterThan,
            XPathToken::GreaterThanOrEqual => XPathToken::GreaterThanOrEqual,
            XPathToken::LeftBracket => XPathToken::LeftBracket,
            XPathToken::LeftParen => XPathToken::LeftParen,
            XPathToken::LessThan => XPathToken::LessThan,
            XPathToken::LessThanOrEqual => XPathToken::LessThanOrEqual,
            XPathToken::Literal(s) => XPathToken::Literal(clone_string(s)),
            XPathToken::MinusSign => XPathToken::MinusSign,
            XPathToken::Multiply => XPathToken::Multiply,
            XPathToken::Name(s) => XPathToken::Name(clone_string(s)),
            XPathToken::NodeTest(s) => XPathToken::NodeTest(clone_string(s)),
            XPathToken::NotEqual => XPathToken::NotEqual,
            XPathToken::Number(s) => XPathToken::Number(clone_string(s)),
            XPathToken::Or => XPathToken::Or,
            XPathToken::ParentNode => XPathToken::ParentNode,
            XPathToken::Pipe => XPathToken::Pipe,
            XPathToken::PlusSign => XPathToken::PlusSign,
            XPathToken::PrefixedName(p, l) => XPathToken::PrefixedName(
                clone_string(p),
                clone_string(l),
            ),
            XPathToken::Remainder => XPathToken::Remainder,
            XPathToken::RightBracket => XPathToken::RightBracket,
            XPathToken::RightParen => XPathToken::RightParen,
            XPathToken::Slash => XPathToken::Slash,
        }
    }
}

} // verus!
