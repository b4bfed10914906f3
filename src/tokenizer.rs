use vstd::prelude::*;

use crate::text::{chars_of, string_from, substring};
use crate::token::{
    SpecToken, SpecTokenResult, Token, TokenResult, TokenizerError, XPathToken, prefers_operator_names, token_views,
    result_view,
};

verus! {

// ---------------------------------------------------------------------
// Character classes

pub open spec fn is_xml_space(c: char) -> bool {
    c == ' ' || c == '\t' || c == '\n' || c == '\r'
}

pub open spec fn is_digit(c: char) -> bool {
    '0' <= c && c <= '9'
}

pub open spec fn is_ncname_start_char(c: char) -> bool {
    ('A' <= c && c <= 'Z') || c == '_' || ('a' <= c && c <= 'z')
        || ('\u{C0}' <= c && c <= '\u{D6}') || ('\u{D8}' <= c && c <= '\u{F6}')
        || ('\u{F8}' <= c && c <= '\u{2FF}') || ('\u{370}' <= c && c <= '\u{37D}')
        || ('\u{37F}' <= c && c <= '\u{1FFF}') || ('\u{200C}' <= c && c <= '\u{200D}')
        || ('\u{2070}' <= c && c <= '\u{218F}') || ('\u{2C00}' <= c && c <= '\u{2FEF}')
        || ('\u{3001}' <= c && c <= '\u{D7FF}') || ('\u{F900}' <= c && c <= '\u{FDCF}')
        || ('\u{FDF0}' <= c && c <= '\u{FFFD}') || ('\u{10000}' <= c && c <= '\u{EFFFF}')
}

pub open spec fn is_ncname_char(c: char) -> bool {
    is_ncname_start_char(c) || c == '-' || c == '.' || is_digit(c) || c == '\u{B7}'
        || ('\u{300}' <= c && c <= '\u{36F}') || ('\u{203F}' <= c && c <= '\u{2040}')
}

// ---------------------------------------------------------------------
// Runs of characters: each returns the index just past the run that starts at `i`.

pub open spec fn space_end(s: Seq<char>, i: int) -> int
    decreases s.len() - i,
{
    if 0 <= i < s.len() && is_xml_space(s[i]) {
        space_end(s, i + 1)
    } else {
        i
    }
}

pub open spec fn digits_end(s: Seq<char>, i: int) -> int
    decreases s.len() - i,
{
    if 0 <= i < s.len() && is_digit(s[i]) {
        digits_end(s, i + 1)
    } else {
        i
    }
}

pub open spec fn name_chars_end(s: Seq<char>, i: int) -> int
    decreases s.len() - i,
{
    if 0 <= i < s.len() && is_ncname_char(s[i]) {
        name_chars_end(s, i + 1)
    } else {
        i
    }
}

/// The first index from `i` on that holds `q`, or the length of `s`.
pub open spec fn until_end(s: Seq<char>, i: int, q: char) -> int
    decreases s.len() - i,
{
    if 0 <= i < s.len() && s[i] != q {
        until_end(s, i + 1, q)
    } else {
        i
    }
}

/// An NCName starting at `i`: a start character and then name characters.
pub open spec fn ncname_end(s: Seq<char>, i: int) -> int {
    if 0 <= i < s.len() && is_ncname_start_char(s[i]) {
        name_chars_end(s, i + 1)
    } else {
        i
    }
}

/// Digits with at most one `.` among them.
pub open spec fn number_end(s: Seq<char>, i: int) -> int {
    let a = digits_end(s, i);
    if 0 <= a < s.len() && s[a] == '.' {
        digits_end(s, a + 1)
    } else {
        a
    }
}

pub proof fn lemma_space_end(s: Seq<char>, i: int)
    requires
        0 <= i <= s.len(),
    ensures
        i <= space_end(s, i) <= s.len(),
    decreases s.len() - i,
{
    if i < s.len() && is_xml_space(s[i]) {
        lemma_space_end(s, i + 1);
    }
}

pub proof fn lemma_digits_end(s: Seq<char>, i: int)
    requires
        0 <= i <= s.len(),
    ensures
        i <= digits_end(s, i) <= s.len(),
    decreases s.len() - i,
{
    if i < s.len() && is_digit(s[i]) {
        lemma_digits_end(s, i + 1);
    }
}

pub proof fn lemma_name_chars_end(s: Seq<char>, i: int)
    requires
        0 <= i <= s.len(),
    ensures
        i <= name_chars_end(s, i) <= s.len(),
    decreases s.len() - i,
{
    if i < s.len() && is_ncname_char(s[i]) {
        lemma_name_chars_end(s, i + 1);
    }
}

pub proof fn lemma_until_end(s: Seq<char>, i: int, q: char)
    requires
        0 <= i <= s.len(),
    ensures
        i <= until_end(s, i, q) <= s.len(),
    decreases s.len() - i,
{
    if i < s.len() && s[i] != q {
        lemma_until_end(s, i + 1, q);
    }
}

// ---------------------------------------------------------------------
// One token

pub open spec fn two_char_token(a: char, b: char) -> Option<SpecToken> {
    if a == '<' && b == '=' {
        Some(XPathToken::LessThanOrEqual)
    } else if a == '>' && b == '=' {
        Some(XPathToken::GreaterThanOrEqual)
    } else if a == '!' && b == '=' {
        Some(XPathToken::NotEqual)
    } else if a == ':' && b == ':' {
        Some(XPathToken::DoubleColon)
    } else if a == '/' && b == '/' {
        Some(XPathToken::DoubleSlash)
    } else if a == '.' && b == '.' {
        Some(XPathToken::ParentNode)
    } else {
        None
    }
}

pub open spec fn single_char_token(c: char) -> Option<SpecToken> {
    if c == '/' {
        Some(XPathToken::Slash)
    } else if c == '(' {
        Some(XPathToken::LeftParen)
    } else if c == ')' {
        Some(XPathToken::RightParen)
    } else if c == '[' {
        Some(XPathToken::LeftBracket)
    } else if c == ']' {
        Some(XPathToken::RightBracket)
    } else if c == '@' {
        Some(XPathToken::AtSign)
    } else if c == '$' {
        Some(XPathToken::DollarSign)
    } else if c == '+' {
        Some(XPathToken::PlusSign)
    } else if c == '-' {
        Some(XPathToken::MinusSign)
    } else if c == '|' {
        Some(XPathToken::Pipe)
    } else if c == '=' {
        Some(XPathToken::Equal)
    } else if c == '<' {
        Some(XPathToken::LessThan)
    } else if c == '>' {
        Some(XPathToken::GreaterThan)
    } else {
        None
    }
}

/// `s` holds the word `w` at `i`.
pub open spec fn word_at(s: Seq<char>, i: int, w: Seq<char>) -> bool {
    0 <= i && i + w.len() <= s.len() && s.subrange(i, i + w.len()) == w
}

/// The operator word at `i`, with its length.
pub open spec fn operator_name_at(s: Seq<char>, i: int) -> Option<(SpecToken, int)> {
    if word_at(s, i, seq!['a', 'n', 'd']) {
        Some((XPathToken::And, 3))
    } else if word_at(s, i, seq!['o', 'r']) {
        Some((XPathToken::Or, 2))
    } else if word_at(s, i, seq!['m', 'o', 'd']) {
        Some((XPathToken::Remainder, 3))
    } else if word_at(s, i, seq!['d', 'i', 'v']) {
        Some((XPathToken::Divide, 3))
    } else if word_at(s, i, seq!['*']) {
        Some((XPathToken::Multiply, 1))
    } else {
        None
    }
}

/// A name, or a prefixed name, at `i`.
pub open spec fn name_at(s: Seq<char>, i: int) -> (SpecTokenResult, int) {
    let e = ncname_end(s, i);
    if e < s.len() && s[e] == ':' && !(e + 1 < s.len() && s[e + 1] == ':') {
        let e2 = ncname_end(s, e + 1);
        if e2 == e + 1 {
            (Err(TokenizerError::MissingLocalName), i)
        } else {
            (Ok(XPathToken::PrefixedName(s.subrange(i, e), s.subrange(e + 1, e2))), e2)
        }
    } else {
        (Ok(XPathToken::Name(s.subrange(i, e))), e)
    }
}

/// The token that starts at `i` (no whitespace there), with the index just
/// past it. The rules are tried in order.
pub open spec fn lex_at(s: Seq<char>, i: int, prefer_operator_names: bool) -> (
    SpecTokenResult,
    int,
) {
    let c = s[i];
    if i + 1 < s.len() && two_char_token(c, s[i + 1]) is Some {
        (Ok(two_char_token(c, s[i + 1])->0), i + 2)
    } else if single_char_token(c) is Some {
        (Ok(single_char_token(c)->0), i + 1)
    } else if c == '\'' || c == '"' {
        let e = until_end(s, i + 1, c);
        if e < s.len() {
            (Ok(XPathToken::Literal(s.subrange(i + 1, e))), e + 1)
        } else {
            (Err(TokenizerError::MismatchedQuoteCharacters), i)
        }
    } else if c == '.' && !(i + 1 < s.len() && is_digit(s[i + 1])) {
        (Ok(XPathToken::CurrentNode), i + 1)
    } else if is_digit(c) || c == '.' {
        (Ok(XPathToken::Number(s.subrange(i, number_end(s, i)))), number_end(s, i))
    } else if prefer_operator_names && operator_name_at(s, i) is Some {
        let (t, n) = operator_name_at(s, i)->0;
        (Ok(t), i + n)
    } else if c == '*' {
        (Ok(XPathToken::Name(seq!['*'])), i + 1)
    } else {
        name_at(s, i)
    }
}

/// What the tokenizer at position `i` gives next: nothing once only
/// whitespace is left; else a token or an error, the position after it and
/// whether operator names are preferred there.
pub open spec fn lex_next(s: Seq<char>, i: int, prefer_operator_names: bool) -> Option<
    (SpecTokenResult, int, bool),
> {
    let j = space_end(s, i);
    if j >= s.len() || i < 0 {
        None
    } else {
        let (r, e) = lex_at(s, j, prefer_operator_names);
        match r {
            Err(x) => Some((Err(x), j, prefer_operator_names)),
            Ok(t) => if e <= j {
                Some((Err(TokenizerError::UnableToCreateToken), j, prefer_operator_names))
            } else {
                Some((Ok(t), space_end(s, e), prefers_operator_names(t)))
            },
        }
    }
}

pub proof fn lemma_lex_at_bounds(s: Seq<char>, i: int, prefer_operator_names: bool)
    requires
        0 <= i < s.len(),
    ensures
        lex_at(s, i, prefer_operator_names).1 <= s.len(),
{
    let c = s[i];
    lemma_until_end(s, i + 1, c);
    lemma_digits_end(s, i);
    let a = digits_end(s, i);
    if 0 <= a < s.len() {
        lemma_digits_end(s, a + 1);
    }
    lemma_name_chars_end(s, i + 1);
    let e = ncname_end(s, i);
    if e + 1 < s.len() {
        lemma_name_chars_end(s, e + 2);
    }
}

pub proof fn lemma_lex_next_advances(s: Seq<char>, i: int, prefer_operator_names: bool)
    requires
        0 <= i <= s.len(),
    ensures
        lex_next(s, i, prefer_operator_names) matches Some((r, e, _)) ==> (r is Ok ==> i < e <= s.len()),
{
    lemma_space_end(s, i);
    let j = space_end(s, i);
    if j < s.len() {
        lemma_lex_at_bounds(s, j, prefer_operator_names);
        let e = lex_at(s, j, prefer_operator_names).1;
        if e > j {
            lemma_space_end(s, e);
        }
    }
}

/// All tokens of `s` from position `i` on, or the first error.
pub open spec fn lex_all(s: Seq<char>, i: int, prefer_operator_names: bool) -> Result<
    Seq<SpecToken>,
    TokenizerError,
>
    decreases s.len() - i,
    via lex_all_decreases
{
    match lex_next(s, i, prefer_operator_names) {
        None => Ok(seq![]),
        Some((Err(x), _, _)) => Err(x),
        Some((Ok(t), e, p)) => if e <= i {
            Err(TokenizerError::UnableToCreateToken)
        } else {
            match lex_all(s, e, p) {
                Ok(rest) => Ok(seq![t] + rest),
                Err(x) => Err(x),
            }
        },
    }
}

#[via_fn]
proof fn lex_all_decreases(s: Seq<char>, i: int, prefer_operator_names: bool) {
    if 0 <= i <= s.len() {
        lemma_lex_next_advances(s, i, prefer_operator_names);
    }
}

/// Operator-name context: where operator names are preferred (after a
/// token that is not `@`, `::`, `(`, `[` or an operator, such as a number),
/// `and` is the operator; where they are not (at the start, or after an
/// operator), the same letters begin a name.
pub proof fn lemma_operator_name_context(s: Seq<char>, i: int)
    requires
        0 <= i,
        word_at(s, i, seq!['a', 'n', 'd']),
        !(ncname_end(s, i) < s.len() && s[ncname_end(s, i)] == ':'),
    ensures
        lex_at(s, i, true) == (Ok::<SpecToken, TokenizerError>(XPathToken::And), i + 3),
        lex_at(s, i, false) == (
            Ok::<SpecToken, TokenizerError>(XPathToken::Name(s.subrange(i, ncname_end(s, i)))),
            ncname_end(s, i),
        ),
        prefers_operator_names(XPathToken::Number(seq!['1'])),
        !prefers_operator_names(XPathToken::Slash),
{
    assert(s.subrange(i, i + 3)[0] == s[i]);
    assert(s[i] == 'a');
}

/// The tokens of a whole XPath string, or the first error.
pub open spec fn tokens_of(s: Seq<char>) -> Result<Seq<SpecToken>, TokenizerError> {
    lex_all(s, 0, false)
}


// ---------------------------------------------------------------------
// Executable tokenizer

fn xml_space(c: char) -> (r: bool)
    ensures
        r == is_xml_space(c),
{
    c == ' ' || c == '\t' || c == '\n' || c == '\r'
}

fn digit(c: char) -> (r: bool)
    ensures
        r == is_digit(c),
{
    '0' <= c && c <= '9'
}

fn ncname_start_char(c: char) -> (r: bool)
    ensures
        r == is_ncname_start_char(c),
{
    ('A' <= c && c <= 'Z') || c == '_' || ('a' <= c && c <= 'z')
        || ('\u{C0}' <= c && c <= '\u{D6}') || ('\u{D8}' <= c && c <= '\u{F6}')
        || ('\u{F8}' <= c && c <= '\u{2FF}') || ('\u{370}' <= c && c <= '\u{37D}')
        || ('\u{37F}' <= c && c <= '\u{1FFF}') || ('\u{200C}' <= c && c <= '\u{200D}')
        || ('\u{2070}' <= c && c <= '\u{218F}') || ('\u{2C00}' <= c && c <= '\u{2FEF}')
        || ('\u{3001}' <= c && c <= '\u{D7FF}') || ('\u{F900}' <= c && c <= '\u{FDCF}')
        || ('\u{FDF0}' <= c && c <= '\u{FFFD}') || ('\u{10000}' <= c && c <= '\u{EFFFF}')
}

fn ncname_char(c: char) -> (r: bool)
    ensures
        r == is_ncname_char(c),
{
    ncname_start_char(c) || c == '-' || c == '.' || digit(c) || c == '\u{B7}'
        || ('\u{300}' <= c && c <= '\u{36F}') || ('\u{203F}' <= c && c <= '\u{2040}')
}

fn end_of_whitespace(s: &Vec<char>, i: usize) -> (r: usize)
    requires
        i <= s.len(),
    ensures
        r == space_end(s@, i as int),
{
    let mut j: usize = i;
    while j < s.len() && xml_space(s[j])
        invariant
            i <= j <= s.len(),
            space_end(s@, i as int) == space_end(s@, j as int),
        decreases s.len() - j,
    {
        j = j + 1;
    }
    j
}

fn end_of_digits(s: &Vec<char>, i: usize) -> (r: usize)
    requires
        i <= s.len(),
    ensures
        r == digits_end(s@, i as int),
{
    let mut j: usize = i;
    while j < s.len() && digit(s[j])
        invariant
            i <= j <= s.len(),
            digits_end(s@, i as int) == digits_end(s@, j as int),
        decreases s.len() - j,
    {
        j = j + 1;
    }
    j
}

fn end_of_name_chars(s: &Vec<char>, i: usize) -> (r: usize)
    requires
        i <= s.len(),
    ensures
        r == name_chars_end(s@, i as int),
{
    let mut j: usize = i;
    while j < s.len() && ncname_char(s[j])
        invariant
            i <= j <= s.len(),
            name_chars_end(s@, i as int) == name_chars_end(s@, j as int),
        decreases s.len() - j,
    {
        j = j + 1;
    }
    j
}

fn end_of_ncname(s: &Vec<char>, i: usize) -> (r: usize)
    requires
        i <= s.len(),
    ensures
        r == ncname_end(s@, i as int),
        i <= r <= s.len(),
{
    if i < s.len() && ncname_start_char(s[i]) {
        proof {
            lemma_name_chars_end(s@, i + 1);
        }
        end_of_name_chars(s, i + 1)
    } else {
        i
    }
}

fn end_of_string(s: &Vec<char>, i: usize, q: char) -> (r: usize)
    requires
        i <= s.len(),
    ensures
        r == until_end(s@, i as int, q),
{
    let mut j: usize = i;
    while j < s.len() && s[j] != q
        invariant
            i <= j <= s.len(),
            until_end(s@, i as int, q) == until_end(s@, j as int, q),
        decreases s.len() - j,
    {
        j = j + 1;
    }
    j
}

fn end_of_number(s: &Vec<char>, i: usize) -> (r: usize)
    requires
        i <= s.len(),
    ensures
        r == number_end(s@, i as int),
        i <= r <= s.len(),
{
    proof {
        lemma_digits_end(s@, i as int);
    }
    let a = end_of_digits(s, i);
    if a < s.len() && s[a] == '.' {
        proof {
            lemma_digits_end(s@, a + 1);
        }
        end_of_digits(s, a + 1)
    } else {
        a
    }
}

fn two_char(a: char, b: char) -> (r: Option<Token>)
    ensures
        match r {
            Some(t) => two_char_token(a, b) == Some(t@),
            None => two_char_token(a, b) is None,
        },
{
    if a == '<' && b == '=' {
        Some(XPathToken::LessThanOrEqual)
    } else if a == '>' && b == '=' {
        Some(XPathToken::GreaterThanOrEqual)
    } else if a == '!' && b == '=' {
        Some(XPathToken::NotEqual)
    } else if a == ':' && b == ':' {
        Some(XPathToken::DoubleColon)
    } else if a == '/' && b == '/' {
        Some(XPathToken::DoubleSlash)
    } else if a == '.' && b == '.' {
        Some(XPathToken::ParentNode)
    } else {
        None
    }
}

fn single_char(c: char) -> (r: Option<Token>)
    ensures
        match r {
            Some(t) => single_char_token(c) == Some(t@),
            None => single_char_token(c) is None,
        },
{
    if c == '/' {
        Some(XPathToken::Slash)
    } else if c == '(' {
        Some(XPathToken::LeftParen)
    } else if c == ')' {
        Some(XPathToken::RightParen)
    } else if c == '[' {
        Some(XPathToken::LeftBracket)
    } else if c == ']' {
        Some(XPathToken::RightBracket)
    } else if c == '@' {
        Some(XPathToken::AtSign)
    } else if c == '$' {
        Some(XPathToken::DollarSign)
    } else if c == '+' {
        Some(XPathToken::PlusSign)
    } else if c == '-' {
        Some(XPathToken::MinusSign)
    } else if c == '|' {
        Some(XPathToken::Pipe)
    } else if c == '=' {
        Some(XPathToken::Equal)
    } else if c == '<' {
        Some(XPathToken::LessThan)
    } else if c == '>' {
        Some(XPathToken::GreaterThan)
    } else {
        None
    }
}

/// Whether `s` holds the characters of `w` at `i`.
fn word_is_at(s: &Vec<char>, i: usize, w: &Vec<char>) -> (r: bool)
    requires
        i <= s.len(),
    ensures
        r == word_at(s@, i as int, w@),
{
    if w.len() > s.len() - i {
        return false;
    }
    let mut k: usize = 0;
    while k < w.len()
        invariant
            i + w.len() <= s.len(),
            k <= w.len(),
            forall|m: int| 0 <= m < k ==> s@[i + m] == w@[m],
        decreases w.len() - k,
    {
        if s[i + k] != w[k] {
            assert(s@.subrange(i as int, i + w.len())[k as int] != w@[k as int]);
            return false;
        }
        k = k + 1;
    }
    assert(s@.subrange(i as int, i + w.len()) =~= w@);
    true
}

fn operator_name(s: &Vec<char>, i: usize) -> (r: Option<(Token, usize)>)
    requires
        i <= s.len(),
    ensures
        match r {
            Some((t, n)) => operator_name_at(s@, i as int) == Some((t@, n as int)),
            None => operator_name_at(s@, i as int) is None,
        },
{
    let and_word = vec!['a', 'n', 'd'];
    let or_word = vec!['o', 'r'];
    let mod_word = vec!['m', 'o', 'd'];
    let div_word = vec!['d', 'i', 'v'];
    let star_word = vec!['*'];
    assert(and_word@ =~= seq!['a', 'n', 'd']);
    assert(or_word@ =~= seq!['o', 'r']);
    assert(mod_word@ =~= seq!['m', 'o', 'd']);
    assert(div_word@ =~= seq!['d', 'i', 'v']);
    assert(star_word@ =~= seq!['*']);
    if word_is_at(s, i, &and_word) {
        Some((XPathToken::And, 3))
    } else if word_is_at(s, i, &or_word) {
        Some((XPathToken::Or, 2))
    } else if word_is_at(s, i, &mod_word) {
        Some((XPathToken::Remainder, 3))
    } else if word_is_at(s, i, &div_word) {
        Some((XPathToken::Divide, 3))
    } else if word_is_at(s, i, &star_word) {
        Some((XPathToken::Multiply, 1))
    } else {
        None
    }
}

fn name_token(s: &Vec<char>, i: usize) -> (r: (TokenResult, usize))
    requires
        i <= s.len(),
    ensures
        (result_view(r.0), r.1 as int) == name_at(s@, i as int),
{
    let e = end_of_ncname(s, i);
    if e < s.len() && s[e] == ':' && !(e + 1 < s.len() && s[e + 1] == ':') {
        let e2 = end_of_ncname(s, e + 1);
        if e2 == e + 1 {
            (Err(TokenizerError::MissingLocalName), i)
        } else {
            (Ok(XPathToken::PrefixedName(substring(s, i, e), substring(s, e + 1, e2))), e2)
        }
    } else {
        (Ok(XPathToken::Name(substring(s, i, e))), e)
    }
}

fn raw_token(s: &Vec<char>, i: usize, prefer_operator_names: bool) -> (r: (TokenResult, usize))
    requires
        i < s.len(),
    ensures
        (result_view(r.0), r.1 as int) == lex_at(s@, i as int, prefer_operator_names),
{
    let c = s[i];
    if i + 1 < s.len() {
        if let Some(t) = two_char(c, s[i + 1]) {
            return (Ok(t), i + 2);
        }
    }
    if let Some(t) = single_char(c) {
        return (Ok(t), i + 1);
    }
    if c == '\'' || c == '"' {
        proof {
            lemma_until_end(s@, i + 1, c);
        }
        let e = end_of_string(s, i + 1, c);
        if e < s.len() {
            return (Ok(XPathToken::Literal(substring(s, i + 1, e))), e + 1);
        } else {
            return (Err(TokenizerError::MismatchedQuoteCharacters), i);
        }
    }
    if c == '.' && !(i + 1 < s.len() && digit(s[i + 1])) {
        return (Ok(XPathToken::CurrentNode), i + 1);
    }
    if digit(c) || c == '.' {
        let e = end_of_number(s, i);
        return (Ok(XPathToken::Number(substring(s, i, e))), e);
    }
    if prefer_operator_names {
        if let Some((t, n)) = operator_name(s, i) {
            return (Ok(t), i + n);
        }
    }
    if c == '*' {
        let star = string_from("*");
        proof {
            reveal_strlit("*");
        }
        assert(star@ =~= seq!['*']);
        return (Ok(XPathToken::Name(star)), i + 1);
    }
    name_token(s, i)
}

/// An XPath string being cut into tokens.
pub struct XPathTokenizer {
    xpath: Vec<char>,
    start: usize,
    prefer_recognition_of_operator_names: bool,
}

impl XPathTokenizer {
    /// The characters being tokenized.
    pub closed spec fn text(&self) -> Seq<char> {
        self.xpath@
    }

    /// The position of the next token.
    pub closed spec fn position(&self) -> int {
        self.start as int
    }

    /// Whether operator names are preferred at the current position.
    pub closed spec fn prefers_operators(&self) -> bool {
        self.prefer_recognition_of_operator_names
    }

    pub closed spec fn wf(&self) -> bool {
        self.start <= self.xpath.len()
    }

    pub fn new(xpath: &str) -> (r: XPathTokenizer)
        ensures
            r.wf(),
            r.text() == xpath@,
            r.position() == 0,
            !r.prefers_operators(),
    {
        XPathTokenizer {
            xpath: chars_of(xpath),
            start: 0,
            prefer_recognition_of_operator_names: false,
        }
    }

    pub fn has_more_tokens(&self) -> (r: bool)
        requires
            self.wf(),
        ensures
            r == (self.position() < self.text().len()),
    {
        self.xpath.len() > self.start
    }

    /// The next token, or `None` when only whitespace is left.
    pub fn next_token(&mut self) -> (r: Option<TokenResult>)
        requires
            old(self).wf(),
        ensures
            final(self).wf(),
            final(self).text() == old(self).text(),
            match lex_next(old(self).text(), old(self).position(), old(self).prefers_operators()) {
                None => r is None,
                Some((t, e, p)) => r matches Some(x) && result_view(x) == t && final(self).position()
                    == e && final(self).prefers_operators() == p,
            },
    {
        let s = &self.xpath;
        proof {
            lemma_space_end(s@, self.start as int);
        }
        let j = end_of_whitespace(s, self.start);
        if j >= s.len() {
            self.start = j;
            return None;
        }
        let (r, e) = raw_token(s, j, self.prefer_recognition_of_operator_names);
        proof {
            lemma_lex_at_bounds(s@, j as int, self.prefer_recognition_of_operator_names);
        }
        match r {
            Err(x) => {
                self.start = j;
                Some(Err(x))
            },
            Ok(t) => {
                if e <= j {
                    self.start = j;
                    Some(Err(TokenizerError::UnableToCreateToken))
                } else {
                    proof {
                        lemma_space_end(s@, e as int);
                    }
                    let after = end_of_whitespace(s, e);
                    self.prefer_recognition_of_operator_names = !(t.precedes_node_test()
                        || t.precedes_expression() || t.is_operator());
                    self.start = after;
                    Some(Ok(t))
                }
            },
        }
    }
}

/// All tokens of `xpath`, or the first error of the tokenizer.
pub fn tokenize(xpath: &str) -> (r: Result<Vec<Token>, TokenizerError>)
    ensures
        match tokens_of(xpath@) {
            Ok(ts) => r matches Ok(v) && token_views(v@) == ts,
            Err(x) => r == Err::<Vec<Token>, TokenizerError>(x),
        },
{
    let mut tokenizer = XPathTokenizer::new(xpath);
    let mut out: Vec<Token> = Vec::new();
    loop
        invariant
            tokenizer.wf(),
            tokenizer.text() == xpath@,
            0 <= tokenizer.position() <= xpath@.len(),
            match lex_all(xpath@, tokenizer.position(), tokenizer.prefers_operators()) {
                Ok(rest) => tokens_of(xpath@) == Ok::<Seq<SpecToken>, TokenizerError>(
                    token_views(out@) + rest,
                ),
                Err(x) => tokens_of(xpath@) == Err::<Seq<SpecToken>, TokenizerError>(x),
            },
        decreases xpath@.len() - tokenizer.position(),
    {
        let ghost before = tokenizer.position();
        let ghost prefer = tokenizer.prefers_operators();
        let ghost out_before = out@;
        proof {
            lemma_lex_next_advances(xpath@, before, prefer);
        }
        match tokenizer.next_token() {
            None => {
                assert(token_views(out@) + seq![] =~= token_views(out@));
                return Ok(out);
            },
            Some(Err(x)) => {
                return Err(x);
            },
            Some(Ok(t)) => {
                let ghost tv = t@;
                out.push(t);
                proof {
                    let ghost old_out = out_before;
                    let ghost after = tokenizer.position();
                    let ghost p2 = tokenizer.prefers_operators();
                    assert(lex_next(xpath@, before, prefer) == Some((Ok::<SpecToken, TokenizerError>(tv), after, p2)));
                    assert(after > before);
                    assert(lex_all(xpath@, before, prefer) == match lex_all(xpath@, after, p2) {
                        Ok(rest) => Ok(seq![tv] + rest),
                        Err(x) => Err(x),
                    });
                    assert(token_views(out@) =~= token_views(old_out)
                        + seq![tv]);
                    match lex_all(xpath@, tokenizer.position(), tokenizer.prefers_operators()) {
                        Ok(rest) => {
                            assert(seq![tv] + rest =~= seq![tv] + rest);
                            assert(token_views(old_out) + (seq![tv] + rest)
                                =~= token_views(out@) + rest);
                        },
                        Err(_) => {},
                    }
                }
            },
        }
    }
}

} // verus!
