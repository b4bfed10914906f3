use xpath::deabbreviator::{XPathTokenDeabbreviator, deabbreviate};
use xpath::disambiguator::{XPathTokenDisambiguator, disambiguate_all};
use xpath::token::{Token, TokenResult, TokenizerError, XPathToken};

fn name(s: &str) -> Token {
    XPathToken::Name(s.to_string())
}

fn drain_deabbreviator(mut filter: XPathTokenDeabbreviator) -> Vec<Token> {
    let mut out = Vec::new();
    while let Some(t) = filter.next_token() {
        out.push(t.unwrap());
    }
    out
}

fn drain_disambiguator(mut filter: XPathTokenDisambiguator) -> Vec<Token> {
    let mut out = Vec::new();
    while let Some(t) = filter.next_token() {
        out.push(t.unwrap());
    }
    out
}

#[test]
fn converts_at_sign_to_attribute_axis() {
    let input_tokens: Vec<TokenResult> = vec![Ok(XPathToken::AtSign)];
    let deabbrv = XPathTokenDeabbreviator::new(input_tokens);

    assert_eq!(drain_deabbreviator(deabbrv), vec![name("attribute"), XPathToken::DoubleColon]);
}

#[test]
fn converts_double_slash_to_descendant_or_self() {
    let input_tokens: Vec<TokenResult> = vec![Ok(XPathToken::DoubleSlash)];
    let deabbrv = XPathTokenDeabbreviator::new(input_tokens);

    assert_eq!(drain_deabbreviator(deabbrv), vec![
        XPathToken::Slash,
        name("descendant-or-self"),
        XPathToken::DoubleColon,
        name("node"),
        XPathToken::LeftParen,
        XPathToken::RightParen,
        XPathToken::Slash,
    ]);
}

#[test]
fn converts_current_node_to_self_node() {
    let input_tokens: Vec<TokenResult> = vec![Ok(XPathToken::CurrentNode)];
    let deabbrv = XPathTokenDeabbreviator::new(input_tokens);

    assert_eq!(drain_deabbreviator(deabbrv), vec![
        name("self"),
        XPathToken::DoubleColon,
        name("node"),
        XPathToken::LeftParen,
        XPathToken::RightParen,
    ]);
}

#[test]
fn converts_parent_node_to_parent_node() {
    let input_tokens: Vec<TokenResult> = vec![Ok(XPathToken::ParentNode)];
    let deabbrv = XPathTokenDeabbreviator::new(input_tokens);

    assert_eq!(drain_deabbreviator(deabbrv), vec![
        name("parent"),
        XPathToken::DoubleColon,
        name("node"),
        XPathToken::LeftParen,
        XPathToken::RightParen,
    ]);
}

#[test]
fn deabbreviator_passes_other_tokens_and_errors_through() {
    let input: Vec<TokenResult> = vec![
        Ok(name("a")),
        Ok(XPathToken::Slash),
        Err(TokenizerError::MissingLocalName),
    ];
    assert_eq!(deabbreviate(input), vec![
        Ok(name("a")),
        Ok(XPathToken::Slash),
        Err(TokenizerError::MissingLocalName),
    ]);
}

#[test]
fn disambiguates_node_test_functions() {
    for n in ["comment", "text", "processing-instruction", "node"].iter() {
        let input_tokens: Vec<TokenResult> = vec![Ok(name(n)), Ok(XPathToken::LeftParen)];
        let disambig = XPathTokenDisambiguator::new(input_tokens);

        assert_eq!(drain_disambiguator(disambig), vec![
            XPathToken::NodeTest(n.to_string()),
            XPathToken::LeftParen,
        ]);
    }
}

#[test]
fn name_followed_by_left_paren_becomes_function_name() {
    let input_tokens: Vec<TokenResult> = vec![Ok(name("test")), Ok(XPathToken::LeftParen)];
    let disambig = XPathTokenDisambiguator::new(input_tokens);

    assert_eq!(drain_disambiguator(disambig), vec![
        XPathToken::Function("test".to_string()),
        XPathToken::LeftParen,
    ]);
}

#[test]
fn name_followed_by_double_colon_becomes_axis_name() {
    let input_tokens: Vec<TokenResult> = vec![Ok(name("test")), Ok(XPathToken::DoubleColon)];
    let disambig = XPathTokenDisambiguator::new(input_tokens);

    assert_eq!(drain_disambiguator(disambig), vec![
        XPathToken::Axis("test".to_string()),
        XPathToken::DoubleColon,
    ]);
}

#[test]
fn lone_name_stays_a_name() {
    let input: Vec<TokenResult> = vec![Ok(name("a")), Ok(XPathToken::Slash), Ok(name("b"))];
    assert_eq!(disambiguate_all(input), vec![
        Ok(name("a")),
        Ok(XPathToken::Slash),
        Ok(name("b")),
    ]);
}

#[test]
fn abbreviated_and_expanded_streams_agree() {
    let abbreviated: Vec<TokenResult> = vec![Ok(XPathToken::AtSign), Ok(name("id"))];
    let expanded: Vec<TokenResult> = vec![
        Ok(name("attribute")),
        Ok(XPathToken::DoubleColon),
        Ok(name("id")),
    ];
    assert_eq!(
        disambiguate_all(deabbreviate(abbreviated)),
        disambiguate_all(deabbreviate(expanded))
    );
}
