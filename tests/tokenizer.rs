use xpath::token::{Token, TokenizerError, XPathToken};
use xpath::tokenizer::{XPathTokenizer, tokenize};

fn is_finished(tokenizer: &XPathTokenizer) -> bool {
    !tokenizer.has_more_tokens()
}

fn all_tokens_raw(xpath: &str) -> Result<Vec<Token>, TokenizerError> {
    let mut tokenizer = XPathTokenizer::new(xpath);
    let mut out = Vec::new();
    while let Some(t) = tokenizer.next_token() {
        out.push(t?);
    }
    Ok(out)
}

fn all_tokens(xpath: &str) -> Vec<Token> {
    match all_tokens_raw(xpath) {
        Ok(toks) => toks,
        Err(e) => panic!("{}", e.message()),
    }
}

fn name(s: &str) -> Token {
    XPathToken::Name(s.to_string())
}

fn number(v: f64) -> Token {
    XPathToken::Number(v.to_string())
}

/// Numeric tokens are compared by the value they denote.
fn assert_tokens(actual: Vec<Token>, expected: Vec<Token>) {
    assert_eq!(actual.len(), expected.len(), "{:?} != {:?}", actual, expected);
    for (a, e) in actual.iter().zip(expected.iter()) {
        match (a, e) {
            (XPathToken::Number(x), XPathToken::Number(y)) => {
                assert_eq!(x.parse::<f64>().unwrap(), y.parse::<f64>().unwrap())
            }
            _ => assert_eq!(a, e),
        }
    }
}

#[test]
fn empty_string_has_no_tokens() {
    let tokenizer = XPathTokenizer::new("");
    assert!(is_finished(&tokenizer));
}

#[test]
fn tokenizes_simple_string() {
    let tokens = all_tokens("hello");

    assert_tokens(tokens, vec![name("hello")]);
}

#[test]
fn tokenizes_grandchild_selector() {
    let tokens = all_tokens("hello/world");

    assert_tokens(tokens, vec![name("hello"),
                                           XPathToken::Slash,
                                           name("world")]);
}

#[test]
fn tokenizes_great_grandchild_selector() {
    let tokens = all_tokens("hello/there/world");

    assert_tokens(tokens, vec![name("hello"),
                                           XPathToken::Slash,
                                           name("there"),
                                           XPathToken::Slash,
                                           name("world")]);
}

#[test]
fn tokenizes_qualified_names() {
    let tokens = all_tokens("ns:foo");

    assert_tokens(tokens, vec![XPathToken::PrefixedName("ns".to_string(), "foo".to_string())]);
}

#[test]
fn ignores_whitespace_around_tokens() {
    let tokens = all_tokens(" @\t@\n@\r");

    assert_tokens(tokens, vec![XPathToken::AtSign,
                                           XPathToken::AtSign,
                                           XPathToken::AtSign]);
}

#[test]
fn tokenizes_wildcard_name_test() {
    let tokens = all_tokens("*");

    assert_tokens(tokens, vec![name("*")]);
}

#[test]
fn tokenizes_axis_separator() {
    let tokens = all_tokens("::");

    assert_tokens(tokens, vec![XPathToken::DoubleColon]);
}

#[test]
fn tokenizes_axis_selector() {
    let tokens = all_tokens("hello::world");

    assert_tokens(tokens, vec![name("hello"),
                                           XPathToken::DoubleColon,
                                           name("world")]);
}

#[test]
fn tokenizes_single_slash() {
    let tokens = all_tokens("/");

    assert_tokens(tokens, vec![XPathToken::Slash]);
}

#[test]
fn tokenizes_double_slash() {
    let tokens = all_tokens("//");

    assert_tokens(tokens, vec![XPathToken::DoubleSlash]);
}

#[test]
fn tokenizes_double_slash_separator() {
    let tokens = all_tokens("hello//world");

    assert_tokens(tokens, vec![name("hello"),
                                           XPathToken::DoubleSlash,
                                           name("world")]);
}

#[test]
fn tokenizes_left_paren() {
    let tokens = all_tokens("(");

    assert_tokens(tokens, vec![XPathToken::LeftParen]);
}

#[test]
fn tokenizes_right_paren() {
    let tokens = all_tokens(")");

    assert_tokens(tokens, vec![XPathToken::RightParen]);
}

#[test]
fn tokenizes_at_sign() {
    let tokens = all_tokens("@");

    assert_tokens(tokens, vec![XPathToken::AtSign]);
}

#[test]
fn tokenizes_single_dot() {
    let tokens = all_tokens(".");

    assert_tokens(tokens, vec![XPathToken::CurrentNode]);
}

#[test]
fn tokenizes_double_dot() {
    let tokens = all_tokens("..");

    assert_tokens(tokens, vec![XPathToken::ParentNode]);
}

#[test]
fn tokenizes_integral_number() {
    let tokens = all_tokens("42");

    assert_tokens(tokens, vec![number(42.0)]);
}

#[test]
fn tokenizes_decimal_number() {
    let tokens = all_tokens("42.42");

    assert_tokens(tokens, vec![number(42.42)]);
}

#[test]
fn tokenizes_decimal_number_without_integral_part() {
    let tokens = all_tokens(".40");

    assert_tokens(tokens, vec![number(0.40)]);
}

#[test]
fn tokenizes_left_bracket() {
    let tokens = all_tokens("[");

    assert_tokens(tokens, vec![XPathToken::LeftBracket]);
}

#[test]
fn tokenizes_right_bracket() {
    let tokens = all_tokens("]");

    assert_tokens(tokens, vec![XPathToken::RightBracket]);
}

#[test]
fn tokenizes_apostrophe_literal() {
    let tokens = all_tokens("'hello!'");

    assert_tokens(tokens, vec![XPathToken::Literal("hello!".to_string())]);
}

#[test]
fn tokenizes_double_quote_literal() {
    let tokens = all_tokens("\"1.23\"");

    assert_tokens(tokens, vec![XPathToken::Literal("1.23".to_string())]);
}

#[test]
fn tokenizes_dollar_sign() {
    let tokens = all_tokens("$");

    assert_tokens(tokens, vec![XPathToken::DollarSign]);
}

#[test]
fn tokenizes_plus_sign() {
    let tokens = all_tokens("+");

    assert_tokens(tokens, vec![XPathToken::PlusSign]);
}

#[test]
fn tokenizes_minus_sign() {
    let tokens = all_tokens("-");

    assert_tokens(tokens, vec![XPathToken::MinusSign]);
}

#[test]
fn tokenizes_pipe() {
    let tokens = all_tokens("|");

    assert_tokens(tokens, vec![XPathToken::Pipe]);
}

#[test]
fn tokenizes_equal_sign() {
    let tokens = all_tokens("=");

    assert_tokens(tokens, vec![XPathToken::Equal]);
}

#[test]
fn tokenizes_not_equal_sign() {
    let tokens = all_tokens("!=");

    assert_tokens(tokens, vec![XPathToken::NotEqual]);
}

#[test]
fn tokenizes_less_than() {
    let tokens = all_tokens("<");

    assert_tokens(tokens, vec![XPathToken::LessThan]);
}

#[test]
fn tokenizes_less_than_or_equal() {
    let tokens = all_tokens("<=");

    assert_tokens(tokens, vec![XPathToken::LessThanOrEqual]);
}

#[test]
fn tokenizes_greater_than() {
    let tokens = all_tokens(">");

    assert_tokens(tokens, vec![XPathToken::GreaterThan]);
}

#[test]
fn tokenizes_greater_than_or_equal() {
    let tokens = all_tokens(">=");

    assert_tokens(tokens, vec![XPathToken::GreaterThanOrEqual]);
}

#[test]
fn special_preceding_token_forces_named_operator_and() {
    let tokens = all_tokens("1andz2");

    assert_tokens(tokens, vec![number(1.0),
                                           XPathToken::And,
                                           name("z2")]);
}

#[test]
fn special_preceding_token_forces_named_operator_or() {
    let tokens = all_tokens("2oror");

    assert_tokens(tokens, vec![number(2.0),
                                           XPathToken::Or,
                                           name("or")]);
}

#[test]
fn special_preceding_token_forces_named_operator_mod() {
    let tokens = all_tokens("3moddiv");

    assert_tokens(tokens, vec![number(3.0),
                                           XPathToken::Remainder,
                                           name("div")]);
}

#[test]
fn special_preceding_token_forces_named_operator_div() {
    let tokens = all_tokens("1divz2");

    assert_tokens(tokens, vec![number(1.0),
                                           XPathToken::Divide,
                                           name("z2")]);
}

#[test]
fn special_preceding_token_forces_named_operator_multiply() {
    let tokens = all_tokens("1*2");

    assert_tokens(tokens, vec![number(1.0),
                                           XPathToken::Multiply,
                                           number(2.0)]);
}

#[test]
fn exception_thrown_when_nothing_was_tokenized() {
    let res = all_tokens_raw("!");

    assert!(res.is_err());
    assert!(res.unwrap_err().message().contains("create a token"));
}

#[test]
fn exception_thrown_when_name_test_has_no_local_name() {
    let res = all_tokens_raw("ns:");

    assert!(res.is_err());
    assert!(res.unwrap_err().message().contains("missing a local name"));
}

#[test]
fn exception_thrown_when_quote_characters_mismatched() {
    let res = all_tokens_raw("'hello\"");

    assert!(res.is_err());
    assert!(res.unwrap_err().message().contains("mismatched quote characters"));
}

#[test]
fn operator_name_after_number_is_an_operator() {
    assert_tokens(all_tokens("1and 2"), vec![number(1.0), XPathToken::And, number(2.0)]);
}

#[test]
fn operator_name_at_start_is_a_name() {
    assert_tokens(all_tokens("and"), vec![name("and")]);
}

#[test]
fn operator_name_after_slash_is_a_name() {
    assert_tokens(all_tokens("a/div"), vec![name("a"), XPathToken::Slash, name("div")]);
}

#[test]
fn number_keeps_its_digits() {
    assert_eq!(all_tokens(".40"), vec![XPathToken::Number(".40".to_string())]);
    assert_eq!(all_tokens("1.2.3"), vec![
        XPathToken::Number("1.2".to_string()),
        XPathToken::Number(".3".to_string()),
    ]);
}

#[test]
fn whitespace_only_has_no_tokens() {
    assert_eq!(all_tokens(" \t "), Vec::<Token>::new());
}

#[test]
fn tokenize_stops_at_first_error() {
    assert_eq!(tokenize("a 'b"), Err(TokenizerError::MismatchedQuoteCharacters));
    assert_eq!(tokenize("ns:"), Err(TokenizerError::MissingLocalName));
    assert_eq!(tokenize("!"), Err(TokenizerError::UnableToCreateToken));
}

#[test]
fn tokenize_counts_tokens_of_a_path() {
    let tokens = tokenize("/child::a[@id = 'x']//b | $v").unwrap();
    assert_eq!(tokens.len(), 15);
}

#[test]
fn prefixed_name_followed_by_double_colon_is_a_name() {
    assert_tokens(all_tokens("a::b"), vec![name("a"), XPathToken::DoubleColon, name("b")]);
}
