use vstd::prelude::*;

use crate::document::{Child, Document, ElementNode, Parent};
use crate::text::{chars_of, string_of, substring};
use crate::tokenizer::{is_digit, is_ncname_char, is_ncname_start_char, space_end, word_at};

verus! {

/// Why a text is not a document this parser reads.
#[derive(Debug, Clone, Copy, PartialEq, Eq, Structural)]
pub enum XmlError {
    /// No outermost element.
    NoElement,
    /// An end tag names another element than its start tag.
    MismatchedTags,
    /// A processing instruction uses the reserved target `xml`.
    ReservedTarget,
    /// An entity other than `amp`, `lt`, `gt`, `apos` and `quot`.
    UnknownEntity,
    /// A character reference that names no character.
    InvalidCharacterReference,
    /// The document has more elements than a handle can count.
    TooManyElements,
}

// ---------------------------------------------------------------------
// Characters

pub open spec fn is_name_start_char(c: char) -> bool {
    c == ':' || is_ncname_start_char(c)
}

pub open spec fn is_name_char(c: char) -> bool {
    c == ':' || is_ncname_char(c)
}

pub open spec fn is_hex_char(c: char) -> bool {
    is_digit(c) || ('a' <= c && c <= 'f') || ('A' <= c && c <= 'F')
}

fn name_start_char(c: char) -> (r: bool)
    ensures
        r == is_name_start_char(c),
{
    c == ':' || ('A' <= c && c <= 'Z') || c == '_' || ('a' <= c && c <= 'z')
        || ('\u{C0}' <= c && c <= '\u{D6}') || ('\u{D8}' <= c && c <= '\u{F6}')
        || ('\u{F8}' <= c && c <= '\u{2FF}') || ('\u{370}' <= c && c <= '\u{37D}')
        || ('\u{37F}' <= c && c <= '\u{1FFF}') || ('\u{200C}' <= c && c <= '\u{200D}')
        || ('\u{2070}' <= c && c <= '\u{218F}') || ('\u{2C00}' <= c && c <= '\u{2FEF}')
        || ('\u{3001}' <= c && c <= '\u{D7FF}') || ('\u{F900}' <= c && c <= '\u{FDCF}')
        || ('\u{FDF0}' <= c && c <= '\u{FFFD}') || ('\u{10000}' <= c && c <= '\u{EFFFF}')
}

fn name_char(c: char) -> (r: bool)
    ensures
        r == is_name_char(c),
{
    name_start_char(c) || c == '-' || c == '.' || ('0' <= c && c <= '9') || c == '\u{B7}'
        || ('\u{300}' <= c && c <= '\u{36F}') || ('\u{203F}' <= c && c <= '\u{2040}')
}

// ---------------------------------------------------------------------
// Spans: each gives the index just past a run that starts at `i`.

pub open spec fn name_rest_end(s: Seq<char>, i: int) -> int
    decreases s.len() - i,
{
    if 0 <= i < s.len() && is_name_char(s[i]) {
        name_rest_end(s, i + 1)
    } else {
        i
    }
}

/// A name at `i`: a name start character, then name characters.
pub open spec fn name_end(s: Seq<char>, i: int) -> int {
    if 0 <= i < s.len() && is_name_start_char(s[i]) {
        name_rest_end(s, i + 1)
    } else {
        i
    }
}

/// Character data from `i`: up to a `<`, a `&`, a `]]>` or the end.
pub open spec fn char_data_end(s: Seq<char>, i: int) -> int
    decreases s.len() - i,
{
    if 0 <= i < s.len() && s[i] != '<' && s[i] != '&' && !word_at(s, i, seq![']', ']', '>']) {
        char_data_end(s, i + 1)
    } else {
        i
    }
}

/// An attribute value's text from `i`: up to a `&`, a `<`, the quote `q` or
/// the end.
pub open spec fn attribute_text_end(s: Seq<char>, i: int, q: char) -> int
    decreases s.len() - i,
{
    if 0 <= i < s.len() && s[i] != '<' && s[i] != '&' && s[i] != q {
        attribute_text_end(s, i + 1, q)
    } else {
        i
    }
}

/// The first index from `i` on where `w` starts, if any.
pub open spec fn find_from(s: Seq<char>, i: int, w: Seq<char>) -> Option<int>
    decreases s.len() - i,
{
    if i < 0 || i >= s.len() {
        None
    } else if word_at(s, i, w) {
        Some(i)
    } else {
        find_from(s, i + 1, w)
    }
}

proof fn lemma_find_from(s: Seq<char>, i: int, w: Seq<char>)
    requires
        0 <= i,
    ensures
        find_from(s, i, w) matches Some(j) ==> i <= j < s.len() && word_at(s, j, w),
    decreases s.len() - i,
{
    if i < s.len() && !word_at(s, i, w) {
        lemma_find_from(s, i + 1, w);
    }
}

fn is_at(s: &Vec<char>, i: usize, w: &str) -> (r: bool)
    requires
        i <= s.len(),
    ensures
        r == word_at(s@, i as int, w@),
{
    let wv = chars_of(w);
    if wv.len() > s.len() - i {
        return false;
    }
    let mut k: usize = 0;
    while k < wv.len()
        invariant
            i + wv.len() <= s.len(),
            k <= wv.len(),
            wv@ == w@,
            forall|m: int| 0 <= m < k ==> s@[i + m] == wv@[m],
        decreases wv.len() - k,
    {
        if s[i + k] != wv[k] {
            assert(s@.subrange(i as int, i + wv.len())[k as int] != wv@[k as int]);
            assert(s@.subrange(i as int, i + wv.len()) != w@);
            return false;
        }
        k = k + 1;
    }
    assert(s@.subrange(i as int, i + wv.len()) =~= wv@);
    true
}

fn end_of_space(s: &Vec<char>, i: usize) -> (r: usize)
    requires
        i <= s.len(),
    ensures
        r == space_end(s@, i as int),
        i <= r <= s.len(),
{
    let mut j: usize = i;
    while j < s.len() && (s[j] == ' ' || s[j] == '\t' || s[j] == '\n' || s[j] == '\r')
        invariant
            i <= j <= s.len(),
            space_end(s@, i as int) == space_end(s@, j as int),
        decreases s.len() - j,
    {
        j = j + 1;
    }
    j
}

fn end_of_name(s: &Vec<char>, i: usize) -> (r: usize)
    requires
        i <= s.len(),
    ensures
        r == name_end(s@, i as int),
        i <= r <= s.len(),
{
    if i < s.len() && name_start_char(s[i]) {
        let mut j: usize = i + 1;
        while j < s.len() && name_char(s[j])
            invariant
                i < j <= s.len(),
                name_rest_end(s@, i + 1) == name_rest_end(s@, j as int),
            decreases s.len() - j,
        {
            j = j + 1;
        }
        j
    } else {
        i
    }
}

fn end_of_char_data(s: &Vec<char>, i: usize) -> (r: usize)
    requires
        i <= s.len(),
    ensures
        r == char_data_end(s@, i as int),
        i <= r <= s.len(),
{
    let mut j: usize = i;
    while j < s.len() && s[j] != '<' && s[j] != '&' && !is_at(s, j, "]]>")
        invariant
            i <= j <= s.len(),
            char_data_end(s@, i as int) == char_data_end(s@, j as int),
        decreases s.len() - j,
    {
        proof {
            reveal_strlit("]]>");
            assert("]]>"@ =~= seq![']', ']', '>']);
        }
        j = j + 1;
    }
    proof {
        reveal_strlit("]]>");
        assert("]]>"@ =~= seq![']', ']', '>']);
    }
    j
}

fn end_of_attribute_text(s: &Vec<char>, i: usize, q: char) -> (r: usize)
    requires
        i <= s.len(),
    ensures
        r == attribute_text_end(s@, i as int, q),
        i <= r <= s.len(),
{
    let mut j: usize = i;
    while j < s.len() && s[j] != '<' && s[j] != '&' && s[j] != q
        invariant
            i <= j <= s.len(),
            attribute_text_end(s@, i as int, q) == attribute_text_end(s@, j as int, q),
        decreases s.len() - j,
    {
        j = j + 1;
    }
    j
}

fn find(s: &Vec<char>, i: usize, w: &str) -> (r: Option<usize>)
    requires
        i <= s.len(),
    ensures
        match r {
            Some(j) => find_from(s@, i as int, w@) == Some(j as int) && i <= j < s.len(),
            None => find_from(s@, i as int, w@) is None,
        },
{
    let mut j: usize = i;
    while j < s.len()
        invariant
            i <= j <= s.len(),
            find_from(s@, i as int, w@) == find_from(s@, j as int, w@),
        decreases s.len() - j,
    {
        if is_at(s, j, w) {
            return Some(j);
        }
        j = j + 1;
    }
    None
}

/// Splits `s` after its leading character data: `None` where it starts with
/// `<`, `&` or `]]>` (or is empty); else the data and the rest.
pub fn slice_char_data(s: &str) -> (r: Option<(String, String)>)
    ensures
        match r {
            Some((data, rest)) => char_data_end(s@, 0) > 0 && data@ == s@.subrange(
                0,
                char_data_end(s@, 0),
            ) && rest@ == s@.subrange(char_data_end(s@, 0), s@.len() as int),
            None => char_data_end(s@, 0) == 0,
        },
{
    let v = chars_of(s);
    let e = end_of_char_data(&v, 0);
    if e == 0 {
        None
    } else {
        Some((substring(&v, 0, e), substring(&v, e, v.len())))
    }
}

// ---------------------------------------------------------------------
// References

/// Relies on `char::from_u32`: the character with code point `code`, which
/// exists unless `code` is a surrogate or above `0x10FFFF`.
#[verifier::external_body]
fn char_from_code(code: u32) -> (r: Option<char>)
    ensures
        r is Some <==> (code < 0xD800 || (0xE000 <= code && code <= 0x10FFFF)),
        r matches Some(c) ==> c as u32 == code,
{
    char::from_u32(code)
}

pub open spec fn digit_value(c: char) -> int {
    if '0' <= c && c <= '9' {
        c as int - '0' as int
    } else if 'a' <= c && c <= 'f' {
        c as int - 'a' as int + 10
    } else {
        c as int - 'A' as int + 10
    }
}

/// The number written by `s` in base `radix`.
pub open spec fn numeral_value(s: Seq<char>, radix: int) -> int
    decreases s.len(),
{
    if s.len() == 0 {
        0
    } else {
        numeral_value(s.drop_last(), radix) * radix + digit_value(s.last())
    }
}

fn digit_of(c: char) -> (r: u32)
    requires
        is_hex_char(c),
    ensures
        r as int == digit_value(c),
        r < 16,
{
    if '0' <= c && c <= '9' {
        (c as u32) - ('0' as u32)
    } else if 'a' <= c && c <= 'f' {
        (c as u32) - ('a' as u32) + 10
    } else {
        (c as u32) - ('A' as u32) + 10
    }
}

/// The code point written by the digits `s[start..end]`, if it is below
/// `0x110000`.
fn code_point(s: &Vec<char>, start: usize, end: usize, radix: u32) -> (r: Option<u32>)
    requires
        start <= end <= s.len(),
        radix == 10 || radix == 16,
        forall|i: int| start <= i < end ==> is_hex_char(#[trigger] s@[i]),
    ensures
        match r {
            Some(v) => v as int == numeral_value(s@.subrange(start as int, end as int), radix as int)
                && v < 0x110000,
            None => numeral_value(s@.subrange(start as int, end as int), radix as int) >= 0x110000,
        },
{
    let mut value: u32 = 0;
    let mut k: usize = start;
    while k < end
        invariant
            start <= k <= end <= s.len(),
            radix == 10 || radix == 16,
            forall|i: int| start <= i < end ==> is_hex_char(#[trigger] s@[i]),
            value as int == numeral_value(s@.subrange(start as int, k as int), radix as int),
            value < 0x110000,
        decreases end - k,
    {
        let d = digit_of(s[k]);
        assert(s@.subrange(start as int, k + 1).drop_last() =~= s@.subrange(start as int, k as int));
        assert((value as u64) * (radix as u64) <= 0x1100000) by (nonlinear_arith)
            requires
                value < 0x110000,
                radix <= 16,
        ;
        let next = (value as u64) * (radix as u64) + (d as u64);
        if next >= 0x110000 {
            proof {
                lemma_numeral_grows(s@, start as int, k + 1, end as int, radix as int);
            }
            return None;
        }
        value = next as u32;
        k = k + 1;
    }
    Some(value)
}

proof fn lemma_numeral_nonneg(s: Seq<char>, radix: int)
    requires
        radix > 0,
        forall|i: int| 0 <= i < s.len() ==> is_hex_char(#[trigger] s[i]),
    ensures
        numeral_value(s, radix) >= 0,
    decreases s.len(),
{
    if s.len() > 0 {
        assert forall|i: int| 0 <= i < s.drop_last().len() implies is_hex_char(
            #[trigger] s.drop_last()[i],
        ) by {
            assert(s.drop_last()[i] == s[i]);
        }
        lemma_numeral_nonneg(s.drop_last(), radix);
        assert(is_hex_char(s[s.len() - 1]));
        assert(numeral_value(s.drop_last(), radix) * radix >= 0) by (nonlinear_arith)
            requires
                numeral_value(s.drop_last(), radix) >= 0,
                radix > 0,
        ;
    }
}

/// Appending digits never makes a numeral smaller.
proof fn lemma_numeral_grows(s: Seq<char>, start: int, k: int, end: int, radix: int)
    requires
        0 <= start <= k <= end <= s.len(),
        radix > 0,
        forall|i: int| start <= i < end ==> is_hex_char(#[trigger] s[i]),
    ensures
        numeral_value(s.subrange(start, end), radix) >= numeral_value(s.subrange(start, k), radix),
    decreases end - k,
{
    if end > k {
        lemma_numeral_grows(s, start, k, end - 1, radix);
        let t = s.subrange(start, end);
        assert(t.drop_last() =~= s.subrange(start, end - 1));
        assert forall|i: int| 0 <= i < t.drop_last().len() implies is_hex_char(
            #[trigger] t.drop_last()[i],
        ) by {
            assert(t.drop_last()[i] == s[start + i]);
        }
        lemma_numeral_nonneg(t.drop_last(), radix);
        assert(is_hex_char(s[end - 1]));
        assert(t.last() == s[end - 1]);
        let a = numeral_value(t.drop_last(), radix);
        assert(a * radix >= a) by (nonlinear_arith)
            requires
                a >= 0,
                radix > 0,
        ;
    }
}

pub open spec fn hex_end(s: Seq<char>, i: int) -> int
    decreases s.len() - i,
{
    if 0 <= i < s.len() && is_hex_char(s[i]) {
        hex_end(s, i + 1)
    } else {
        i
    }
}

/// The text of the five predefined entities.
pub open spec fn entity_text(name: Seq<char>) -> Option<Seq<char>> {
    if name == "amp"@ {
        Some("&"@)
    } else if name == "lt"@ {
        Some("<"@)
    } else if name == "gt"@ {
        Some(">"@)
    } else if name == "apos"@ {
        Some("'"@)
    } else if name == "quot"@ {
        Some("\""@)
    } else {
        None
    }
}

/// Code points that are characters: all but the surrogates, up to `0x10FFFF`.
pub open spec fn is_code_point(v: int) -> bool {
    (0 <= v < 0xD800) || (0xE000 <= v <= 0x10FFFF)
}

/// A numeric reference whose digits run from `start` to `e`, in base `radix`.
pub open spec fn numeric_reference(s: Seq<char>, start: int, e: int, radix: int, r: Result<Option<(Seq<char>, int)>, XmlError>) -> bool {
    if e == start || !word_at(s, e, seq![';']) {
        r == Ok::<Option<(Seq<char>, int)>, XmlError>(None)
    } else {
        let v = numeral_value(s.subrange(start, e), radix);
        if is_code_point(v) {
            r matches Ok(Some((t, p))) && p == e + 1 && t.len() == 1 && t[0] as u32 as int == v
        } else {
            r == Err::<Option<(Seq<char>, int)>, XmlError>(XmlError::InvalidCharacterReference)
        }
    }
}

/// What the reference at `i` stands for: `&#xhex;` and `&#digits;` the
/// character of that code point, `&name;` a predefined entity's text, with
/// the index after the reference; `None` where no reference starts.
pub open spec fn reference_denotes(s: Seq<char>, i: int, r: Result<Option<(Seq<char>, int)>, XmlError>) -> bool {
    if word_at(s, i, seq!['&', '#', 'x']) {
        numeric_reference(s, i + 3, hex_end(s, i + 3), 16, r)
    } else if word_at(s, i, seq!['&', '#']) {
        numeric_reference(s, i + 2, crate::tokenizer::digits_end(s, i + 2), 10, r)
    } else if word_at(s, i, seq!['&']) {
        let e = name_end(s, i + 1);
        if e == i + 1 || !word_at(s, e, seq![';']) {
            r == Ok::<Option<(Seq<char>, int)>, XmlError>(None)
        } else {
            match entity_text(s.subrange(i + 1, e)) {
                Some(t) => r == Ok::<Option<(Seq<char>, int)>, XmlError>(Some((t, e + 1))),
                None => r == Err::<Option<(Seq<char>, int)>, XmlError>(XmlError::UnknownEntity),
            }
        }
    } else {
        r == Ok::<Option<(Seq<char>, int)>, XmlError>(None)
    }
}

pub open spec fn reference_view(r: Result<Option<(String, usize)>, XmlError>) -> Result<Option<(Seq<char>, int)>, XmlError> {
    match r {
        Ok(Some((t, p))) => Ok(Some((t@, p as int))),
        Ok(None) => Ok(None),
        Err(x) => Err(x),
    }
}

/// The character of code point `code` as a one-character string.
fn character_text(code: u32) -> (r: Option<String>)
    ensures
        r is Some <==> is_code_point(code as int),
        r matches Some(t) ==> t@.len() == 1 && t@[0] as u32 == code,
{
    match char_from_code(code) {
        None => None,
        Some(c) => {
            let v = vec![c];
            let t = string_of(&v);
            assert(t@ == seq![c]);
            Some(t)
        },
    }
}

/// The text a reference at `i` stands for, and the index after it.
fn parse_reference(s: &Vec<char>, i: usize) -> (r: Result<Option<(String, usize)>, XmlError>)
    requires
        i <= s.len(),
    ensures
        r matches Ok(Some((_, p))) ==> i < p <= s.len(),
        reference_denotes(s@, i as int, reference_view(r)),
{
    proof {
        reveal_strlit("&#x");
        reveal_strlit("&#");
        reveal_strlit("&");
        reveal_strlit(";");
        assert("&#x"@ =~= seq!['&', '#', 'x']);
        assert("&#"@ =~= seq!['&', '#']);
        assert("&"@ =~= seq!['&']);
        assert(";"@ =~= seq![';']);
    }
    if is_at(s, i, "&#x") {
        let start = i + 3;
        let mut e = start;
        while e < s.len() && (('0' <= s[e] && s[e] <= '9') || ('a' <= s[e] && s[e] <= 'f') || ('A'
            <= s[e] && s[e] <= 'F'))
            invariant
                start <= e <= s.len(),
                forall|k: int| start <= k < e ==> is_hex_char(#[trigger] s@[k]),
                hex_end(s@, start as int) == hex_end(s@, e as int),
            decreases s.len() - e,
        {
            e = e + 1;
        }
        if e == start || !is_at(s, e, ";") {
            return Ok(None);
        }
        return match code_point(s, start, e, 16) {
            None => Err(XmlError::InvalidCharacterReference),
            Some(code) => match character_text(code) {
                None => Err(XmlError::InvalidCharacterReference),
                Some(t) => Ok(Some((t, e + 1))),
            },
        };
    }
    if is_at(s, i, "&#") {
        let start = i + 2;
        let mut e = start;
        while e < s.len() && '0' <= s[e] && s[e] <= '9'
            invariant
                start <= e <= s.len(),
                forall|k: int| start <= k < e ==> is_hex_char(#[trigger] s@[k]),
                crate::tokenizer::digits_end(s@, start as int) == crate::tokenizer::digits_end(s@, e as int),
            decreases s.len() - e,
        {
            e = e + 1;
        }
        if e == start || !is_at(s, e, ";") {
            return Ok(None);
        }
        return match code_point(s, start, e, 10) {
            None => Err(XmlError::InvalidCharacterReference),
            Some(code) => match character_text(code) {
                None => Err(XmlError::InvalidCharacterReference),
                Some(t) => Ok(Some((t, e + 1))),
            },
        };
    }
    if is_at(s, i, "&") {
        let e = end_of_name(s, i + 1);
        if e == i + 1 || !is_at(s, e, ";") {
            return Ok(None);
        }
        let name = substring(s, i + 1, e);
        let text = if name == String::from_str("amp") {
            "&"
        } else if name == String::from_str("lt") {
            "<"
        } else if name == String::from_str("gt") {
            ">"
        } else if name == String::from_str("apos") {
            "'"
        } else if name == String::from_str("quot") {
            "\""
        } else {
            return Err(XmlError::UnknownEntity);
        };
        return Ok(Some((String::from_str(text), e + 1)));
    }
    Ok(None)
}

// ---------------------------------------------------------------------
// The shape of the tree

/// How many elements are among `s`.
pub open spec fn elements_among(s: Seq<Child>) -> nat
    decreases s.len(),
{
    if s.len() == 0 {
        0
    } else {
        elements_among(s.drop_last()) + if s.last() is Element {
            1nat
        } else {
            0nat
        }
    }
}

/// No text node is among `s`.
pub open spec fn no_text(s: Seq<Child>) -> bool {
    forall|i: int| 0 <= i < s.len() ==> !(#[trigger] s[i] is Text)
}

/// Nodes `old` held keep the parents they had: only new nodes were placed.
pub open spec fn placed_only_new(new: &Document, old: &Document) -> bool {
    forall|d: Child| old.holds_child(d) ==> #[trigger] new.parent_of(d) == old.parent_of(d)
}

/// The root's children changed at most by comments and processing
/// instructions added at the end.
pub open spec fn root_grows_by_markup(new: &Document, old: &Document) -> bool {
    elements_among(new.children_of(Parent::Root)) == elements_among(old.children_of(Parent::Root))
        && (no_text(old.children_of(Parent::Root)) ==> no_text(new.children_of(Parent::Root)))
}

proof fn lemma_push_markup(s: Seq<Child>, c: Child)
    requires
        !(c is Element),
        !(c is Text),
    ensures
        elements_among(s.push(c)) == elements_among(s),
        no_text(s) ==> no_text(s.push(c)),
{
    assert(s.push(c).drop_last() =~= s);
    if no_text(s) {
        assert forall|i: int| 0 <= i < s.push(c).len() implies !(#[trigger] s.push(c)[i] is Text) by {
            if i < s.len() {
                assert(s.push(c)[i] == s[i]);
            }
        }
    }
}

proof fn lemma_push_element(s: Seq<Child>, e: ElementNode)
    ensures
        elements_among(s.push(Child::Element(e))) == elements_among(s) + 1,
        no_text(s) ==> no_text(s.push(Child::Element(e))),
{
    assert(s.push(Child::Element(e)).drop_last() =~= s);
    if no_text(s) {
        assert forall|i: int| 0 <= i < s.push(Child::Element(e)).len() implies !(
        #[trigger] s.push(Child::Element(e))[i] is Text) by {
            if i < s.len() {
                assert(s.push(Child::Element(e))[i] == s[i]);
            }
        }
    }
}

/// Placing only new nodes, twice, places only new nodes.
proof fn lemma_placed_trans(a: &Document, b: &Document, c: &Document)
    requires
        placed_only_new(a, b),
        placed_only_new(b, c),
        b.extends(c),
    ensures
        placed_only_new(a, c),
{
    b.lemma_extends_holds(c);
}

// ---------------------------------------------------------------------
// Markup

/// `S? = S?` at `i`.
fn parse_eq(s: &Vec<char>, i: usize) -> (r: Option<usize>)
    requires
        i <= s.len(),
    ensures
        r matches Some(p) ==> i < p <= s.len(),
{
    let p = end_of_space(s, i);
    if p < s.len() && s[p] == '=' {
        Some(end_of_space(s, p + 1))
    } else {
        None
    }
}

/// ` version = '1.n'` at `i`.
fn parse_version_info(s: &Vec<char>, i: usize) -> (r: Option<usize>)
    requires
        i <= s.len(),
    ensures
        r matches Some(p) ==> i < p <= s.len(),
{
    let p = end_of_space(s, i);
    if p == i || !is_at(s, p, "version") {
        return None;
    }
    proof {
        reveal_strlit("version");
    }
    let p = match parse_eq(s, p + 7) {
        Some(q) => q,
        None => return None,
    };
    if p >= s.len() || (s[p] != '\'' && s[p] != '"') {
        return None;
    }
    let quote = s[p];
    if !is_at(s, p + 1, "1.") {
        return None;
    }
    proof {
        reveal_strlit("1.");
    }
    let start = p + 3;
    let mut e = start;
    while e < s.len() && '0' <= s[e] && s[e] <= '9'
        invariant
            start <= e <= s.len(),
        decreases s.len() - e,
    {
        e = e + 1;
    }
    if e == start || e >= s.len() || s[e] != quote {
        return None;
    }
    Some(e + 1)
}

/// `<?xml version='1.n' ?>` at `i`.
fn parse_xml_declaration(s: &Vec<char>, i: usize) -> (r: Option<usize>)
    requires
        i <= s.len(),
    ensures
        r matches Some(p) ==> i < p <= s.len(),
{
    if !is_at(s, i, "<?xml") {
        return None;
    }
    proof {
        reveal_strlit("<?xml");
    }
    let p = match parse_version_info(s, i + 5) {
        Some(q) => q,
        None => return None,
    };
    let p = end_of_space(s, p);
    if is_at(s, p, "?>") {
        proof {
            reveal_strlit("?>");
        }
        Some(p + 2)
    } else {
        None
    }
}

/// `<!--text-->` at `i`: the text and the index after.
fn parse_comment(s: &Vec<char>, i: usize) -> (r: Option<(String, usize)>)
    requires
        i <= s.len(),
    ensures
        r matches Some((_, p)) ==> i < p <= s.len(),
        r matches Some((t, p)) ==> word_at(s@, i as int, seq!['<', '!', '-', '-']) && find_from(
            s@,
            i + 4,
            seq!['-', '-'],
        ) == Some(p - 3) && word_at(s@, p - 3, seq!['-', '-', '>']) && t@ == s@.subrange(
            i + 4,
            p - 3,
        ),
        r is None ==> !word_at(s@, i as int, seq!['<', '!', '-', '-']) || match find_from(
            s@,
            i + 4,
            seq!['-', '-'],
        ) {
            Some(e) => !word_at(s@, e, seq!['-', '-', '>']),
            None => true,
        },
{
    proof {
        reveal_strlit("<!--");
        reveal_strlit("--");
        reveal_strlit("-->");
        assert("<!--"@ =~= seq!['<', '!', '-', '-']);
        assert("--"@ =~= seq!['-', '-']);
        assert("-->"@ =~= seq!['-', '-', '>']);
    }
    if !is_at(s, i, "<!--") {
        return None;
    }
    proof {
        reveal_strlit("<!--");
    }
    let start = i + 4;
    let e = match find(s, start, "--") {
        Some(e) => e,
        None => return None,
    };
    if is_at(s, e, "-->") {
        proof {
            reveal_strlit("-->");
        }
        Some((substring(s, start, e), e + 3))
    } else {
        None
    }
}

/// Whether `s[start..end]` is `xml` in any case.
fn is_reserved_target(s: &Vec<char>, start: usize, end: usize) -> bool
    requires
        start <= end <= s.len(),
{
    end - start == 3 && (s[start] == 'x' || s[start] == 'X') && (s[start + 1] == 'm' || s[start
        + 1] == 'M') && (s[start + 2] == 'l' || s[start + 2] == 'L')
}

/// `<?target value?>` at `i`: target, value and the index after.
fn parse_pi(s: &Vec<char>, i: usize) -> (r: Result<Option<(String, Option<String>, usize)>, XmlError>)
    requires
        i <= s.len(),
    ensures
        r matches Ok(Some((_, _, p))) ==> i < p <= s.len(),
{
    if !is_at(s, i, "<?") {
        return Ok(None);
    }
    proof {
        reveal_strlit("<?");
    }
    let start = i + 2;
    let e = end_of_name(s, start);
    if e == start {
        return Ok(None);
    }
    let mut p = e;
    let mut value: Option<String> = None;
    let after_space = end_of_space(s, e);
    if after_space > e {
        if let Some(v) = find(s, after_space, "?>") {
            value = Some(substring(s, after_space, v));
            p = v;
        }
    }
    if !is_at(s, p, "?>") {
        return Ok(None);
    }
    proof {
        reveal_strlit("?>");
    }
    if is_reserved_target(s, start, e) {
        return Err(XmlError::ReservedTarget);
    }
    Ok(Some((substring(s, start, e), value, p + 2)))
}

/// A quoted attribute value at `i`, with its references replaced.
fn parse_attribute_value(s: &Vec<char>, i: usize) -> (r: Result<Option<(String, usize)>, XmlError>)
    requires
        i <= s.len(),
    ensures
        r matches Ok(Some((_, p))) ==> i < p <= s.len(),
{
    if i >= s.len() || (s[i] != '\'' && s[i] != '"') {
        return Ok(None);
    }
    let quote = s[i];
    let mut value = String::new();
    let mut p = i + 1;
    loop
        invariant
            i < p <= s.len(),
        decreases s.len() - p,
    {
        let e = end_of_attribute_text(s, p, quote);
        if e > p {
            let piece = substring(s, p, e);
            value.append(piece.as_str());
            p = e;
        } else {
            match parse_reference(s, p) {
                Err(x) => return Err(x),
                Ok(Some((text, q))) => {
                    value.append(text.as_str());
                    p = q;
                },
                Ok(None) => break,
            }
        }
    }
    if p < s.len() && s[p] == quote {
        Ok(Some((value, p + 1)))
    } else {
        Ok(None)
    }
}

/// Appends a new text node to `parent`.
fn append_text(doc: &mut Document, parent: ElementNode, text: &str)
    requires
        old(doc).wf(),
        old(doc).holds_element(parent),
    ensures
        final(doc).wf(),
        final(doc).extends(old(doc)),
        placed_only_new(final(doc), old(doc)),
        final(doc).children_of(Parent::Root) == old(doc).children_of(Parent::Root),
{
    let t = doc.new_text(text);
    let ghost mid = *doc;
    proof {
        mid.lemma_extends_holds(old(doc));
        mid.lemma_same_tree(old(doc));
    }
    doc.append_child(parent, t);
    proof {
        doc.lemma_same_nodes_extends(&mid);
        doc.lemma_extends_trans(&mid, old(doc));
        assert(Parent::Element(parent) != Parent::Root);
    }
}

/// Appends a new comment to `parent`.
fn append_comment(doc: &mut Document, parent: Parent, text: &str)
    requires
        old(doc).wf(),
        old(doc).holds_parent(parent),
    ensures
        final(doc).wf(),
        final(doc).extends(old(doc)),
        placed_only_new(final(doc), old(doc)),
        root_grows_by_markup(final(doc), old(doc)),
        parent != Parent::Root ==> final(doc).children_of(Parent::Root) == old(doc).children_of(
            Parent::Root,
        ),
{
    let c = doc.new_comment(text);
    let ghost mid = *doc;
    proof {
        mid.lemma_extends_holds(old(doc));
        mid.lemma_same_tree(old(doc));
    }
    doc.append_child(parent, c);
    proof {
        doc.lemma_same_nodes_extends(&mid);
        doc.lemma_extends_trans(&mid, old(doc));
        lemma_push_markup(old(doc).children_of(Parent::Root), Child::Comment(c));
    }
}

/// Appends a new processing instruction to `parent`.
fn append_instruction(doc: &mut Document, parent: Parent, target: &str, value: Option<&str>)
    requires
        old(doc).wf(),
        old(doc).holds_parent(parent),
    ensures
        final(doc).wf(),
        final(doc).extends(old(doc)),
        placed_only_new(final(doc), old(doc)),
        root_grows_by_markup(final(doc), old(doc)),
        parent != Parent::Root ==> final(doc).children_of(Parent::Root) == old(doc).children_of(
            Parent::Root,
        ),
{
    let x = doc.new_processing_instruction(target, value);
    let ghost mid = *doc;
    proof {
        mid.lemma_extends_holds(old(doc));
        mid.lemma_same_tree(old(doc));
    }
    doc.append_child(parent, x);
    proof {
        doc.lemma_same_nodes_extends(&mid);
        doc.lemma_extends_trans(&mid, old(doc));
        lemma_push_markup(old(doc).children_of(Parent::Root), Child::ProcessingInstruction(x));
    }
}

fn option_str(v: &Option<String>) -> Option<&str> {
    match v {
        Some(s) => Some(s.as_str()),
        None => None,
    }
}

/// Reads an element at `i` into `doc`: the new element and the index after
/// it, or `Ok(None)` if no element starts there.
fn parse_element(doc: &mut Document, s: &Vec<char>, i: usize) -> (r: Result<Option<(ElementNode, usize)>, XmlError>)
    requires
        old(doc).wf(),
        i <= s.len(),
    ensures
        final(doc).wf(),
        final(doc).extends(old(doc)),
        placed_only_new(final(doc), old(doc)),
        final(doc).children_of(Parent::Root) == old(doc).children_of(Parent::Root),
        r matches Ok(Some((e, p))) ==> i < p <= s.len() && final(doc).holds_element(e)
            && !old(doc).holds_element(e) && final(doc).parent_of(Child::Element(e)) is None,
    decreases s.len() - i, 1nat,
{
    proof {
        doc.lemma_extends_refl();
    }
    if i >= s.len() || s[i] != '<' {
        return Ok(None);
    }
    let name_start = i + 1;
    let name_stop = end_of_name(s, name_start);
    if name_stop == name_start {
        return Ok(None);
    }
    let mut attributes: Vec<(String, String)> = Vec::new();
    let mut p = name_stop;
    loop
        invariant
            i < p <= s.len(),
            doc.wf(),
            doc.extends(old(doc)),
        decreases s.len() - p,
    {
        let q = end_of_space(s, p);
        if q == p {
            break;
        }
        let n = end_of_name(s, q);
        if n == q {
            break;
        }
        let v = match parse_eq(s, n) {
            Some(v) => v,
            None => break,
        };
        match parse_attribute_value(s, v) {
            Err(x) => return Err(x),
            Ok(None) => break,
            Ok(Some((value, after))) => {
                attributes.push((substring(s, q, n), value));
                p = after;
            },
        }
    }
    let p = end_of_space(s, p);
    let empty = is_at(s, p, "/>");
    if !empty && !(p < s.len() && s[p] == '>') {
        return Ok(None);
    }
    if doc.number_of_elements() >= usize::MAX - 2 {
        return Err(XmlError::TooManyElements);
    }
    let name = substring(s, name_start, name_stop);
    let element = doc.new_element(name.as_str());
    proof {
        doc.lemma_same_tree(old(doc));
        old(doc).lemma_unheld_has_no_parent(Child::Element(element));
    }
    let mut k: usize = 0;
    while k < attributes.len()
        invariant
            doc.wf(),
            doc.extends(old(doc)),
            doc.holds_element(element),
            !old(doc).holds_element(element),
            forall|q: Parent| #[trigger] doc.children_of(q) == old(doc).children_of(q),
            forall|d: Child| #[trigger] doc.parent_of(d) == old(doc).parent_of(d),
            old(doc).parent_of(Child::Element(element)) is None,
        decreases attributes.len() - k,
    {
        let ghost before = *doc;
        let (n, v) = &attributes[k];
        doc.set_attribute(element, n.as_str(), v.as_str());
        proof {
            doc.lemma_extends_trans(&before, old(doc));
            doc.lemma_extends_holds(&before);
            doc.lemma_same_tree(&before);
        }
        k = k + 1;
    }
    if empty {
        proof {
            reveal_strlit("/>");
        }
        return Ok(Some((element, p + 2)));
    }
    let ghost before_content = *doc;
    let content = parse_content(doc, s, p + 1, element);
    proof {
        doc.lemma_extends_trans(&before_content, old(doc));
        doc.lemma_extends_holds(&before_content);
        before_content.lemma_extends_holds(old(doc));
        assert(before_content.holds_child(Child::Element(element)));
    }
    let q = match content {
        Ok(q) => q,
        Err(x) => return Err(x),
    };
    if !is_at(s, q, "</") {
        return Ok(None);
    }
    proof {
        reveal_strlit("</");
    }
    let end_stop = end_of_name(s, q + 2);
    let closing = substring(s, q + 2, end_stop);
    if closing != name {
        return Err(XmlError::MismatchedTags);
    }
    let r = end_of_space(s, end_stop);
    if r < s.len() && s[r] == '>' {
        Ok(Some((element, r + 1)))
    } else {
        Ok(None)
    }
}

/// Reads the content of `parent` from `i` into `doc`: the index where it
/// stops.
fn parse_content(doc: &mut Document, s: &Vec<char>, i: usize, parent: ElementNode) -> (r: Result<usize, XmlError>)
    requires
        old(doc).wf(),
        old(doc).holds_element(parent),
        i <= s.len(),
    ensures
        final(doc).wf(),
        final(doc).extends(old(doc)),
        placed_only_new(final(doc), old(doc)),
        final(doc).children_of(Parent::Root) == old(doc).children_of(Parent::Root),
        r matches Ok(p) ==> i <= p <= s.len(),
    decreases s.len() - i, 2nat,
{
    proof {
        doc.lemma_extends_refl();
    }
    let mut p = i;
    loop
        invariant
            i <= p <= s.len(),
            doc.wf(),
            doc.extends(old(doc)),
            doc.holds_element(parent),
            placed_only_new(doc, old(doc)),
            doc.children_of(Parent::Root) == old(doc).children_of(Parent::Root),
        decreases s.len() - p,
    {
        let ghost before = *doc;
        proof {
            doc.lemma_extends_refl();
        }
        let e = end_of_char_data(s, p);
        if e > p {
            let text = substring(s, p, e);
            append_text(doc, parent, text.as_str());
            p = e;
        } else if is_at(s, p, "<![CDATA[") {
            proof {
                reveal_strlit("<![CDATA[");
            }
            match find(s, p + 9, "]]>") {
                None => break,
                Some(end) => {
                    proof {
                        reveal_strlit("]]>");
                        lemma_find_from(s@, p + 9, "]]>"@);
                    }
                    let text = substring(s, p + 9, end);
                    append_text(doc, parent, text.as_str());
                    p = end + 3;
                },
            }
        } else if is_at(s, p, "&") {
            match parse_reference(s, p) {
                Err(x) => return Err(x),
                Ok(None) => break,
                Ok(Some((text, q))) => {
                    append_text(doc, parent, text.as_str());
                    p = q;
                },
            }
        } else if is_at(s, p, "<!--") {
            match parse_comment(s, p) {
                None => break,
                Some((text, q)) => {
                    append_comment(doc, Parent::Element(parent), text.as_str());
                    p = q;
                },
            }
        } else if is_at(s, p, "<?") {
            match parse_pi(s, p) {
                Err(x) => return Err(x),
                Ok(None) => break,
                Ok(Some((target, value, q))) => {
                    append_instruction(doc, Parent::Element(parent), target.as_str(), option_str(&value));
                    p = q;
                },
            }
        } else if is_at(s, p, "</") {
            break;
        } else {
            let found = parse_element(doc, s, p);
            proof {
                doc.lemma_extends_trans(&before, old(doc));
                doc.lemma_extends_holds(&before);
                lemma_placed_trans(doc, &before, old(doc));
            }
            match found {
                Err(x) => return Err(x),
                Ok(None) => break,
                Ok(Some((child, q))) => {
                    let ghost mid = *doc;
                    proof {
                        mid.lemma_extends_trans(&before, old(doc));
                        mid.lemma_extends_holds(&before);
                        before.lemma_extends_holds(old(doc));
                    }
                    doc.append_child(parent, child);
                    proof {
                        assert(Parent::Element(parent) != Parent::Root);
                        assert forall|d: Child| before.holds_child(d) implies #[trigger] doc.parent_of(d)
                            == before.parent_of(d) by {
                            assert(d != Child::Element(child));
                        }
                    }
                    proof {
                        doc.lemma_same_nodes_extends(&mid);
                        doc.lemma_extends_trans(&mid, old(doc));
                        doc.lemma_extends_trans(&mid, &before);
                        doc.lemma_extends_holds(&mid);
                    }
                    p = q;
                },
            }
        }
        proof {
            doc.lemma_extends_trans(&before, old(doc));
            doc.lemma_extends_holds(&before);
            lemma_placed_trans(doc, &before, old(doc));
        }
    }
    Ok(p)
}

/// Comments, processing instructions and space at `i`, the first two added
/// to the root: the index after them.
fn parse_miscs(doc: &mut Document, s: &Vec<char>, i: usize) -> (r: Result<usize, XmlError>)
    requires
        old(doc).wf(),
        i <= s.len(),
    ensures
        final(doc).wf(),
        final(doc).extends(old(doc)),
        placed_only_new(final(doc), old(doc)),
        root_grows_by_markup(final(doc), old(doc)),
        r matches Ok(p) ==> i <= p <= s.len(),
{
    proof {
        doc.lemma_extends_refl();
    }
    let mut p = i;
    loop
        invariant
            i <= p <= s.len(),
            doc.wf(),
            doc.extends(old(doc)),
            placed_only_new(doc, old(doc)),
            root_grows_by_markup(doc, old(doc)),
        decreases s.len() - p,
    {
        let ghost before = *doc;
        proof {
            doc.lemma_extends_refl();
        }
        if let Some((text, q)) = parse_comment(s, p) {
            append_comment(doc, Parent::Root, text.as_str());
            p = q;
        } else {
            match parse_pi(s, p) {
                Err(x) => return Err(x),
                Ok(Some((target, value, q))) => {
                    append_instruction(doc, Parent::Root, target.as_str(), option_str(&value));
                    p = q;
                },
                Ok(None) => {
                    let q = end_of_space(s, p);
                    if q == p {
                        break;
                    }
                    p = q;
                },
            }
        }
        proof {
            doc.lemma_extends_trans(&before, old(doc));
            lemma_placed_trans(doc, &before, old(doc));
        }
    }
    Ok(p)
}

/// Reads XML text into a `Document`.
pub struct Parser;

impl Parser {
    pub fn new() -> Parser {
        Parser
    }

    /// The document that `xml` describes: an optional XML declaration,
    /// comments and processing instructions, one element, and more
    /// comments and processing instructions. What follows them is ignored.
    pub fn parse(&self, xml: &str) -> (r: Result<Document, XmlError>)
        ensures
            r matches Ok(d) ==> d.wf() && elements_among(d.children_of(Parent::Root)) == 1 && no_text(
                d.children_of(Parent::Root),
            ),
    {
        let s = chars_of(xml);
        let mut doc = Document::new();
        assert(elements_among(doc.children_of(Parent::Root)) == 0);
        assert(no_text(doc.children_of(Parent::Root)));
        let p = match parse_xml_declaration(&s, 0) {
            Some(q) => q,
            None => 0,
        };
        let p = match parse_miscs(&mut doc, &s, p) {
            Ok(q) => q,
            Err(x) => return Err(x),
        };
        let ghost before = doc;
        let (element, p) = match parse_element(&mut doc, &s, p) {
            Err(x) => return Err(x),
            Ok(None) => return Err(XmlError::NoElement),
            Ok(Some(found)) => found,
        };
        let ghost before_append = doc;
        doc.append_child(Parent::Root, element);
        proof {
            lemma_push_element(before_append.children_of(Parent::Root), element);
        }
        match parse_miscs(&mut doc, &s, p) {
            Ok(_) => Ok(doc),
            Err(x) => Err(x),
        }
    }
}

} // verus!
