use vstd::prelude::*;

use crate::text::string_from;
use crate::token::{SpecTokenResult, Token, TokenResult, XPathToken, result_view, results_view};

verus! {

/// The names that, before `(`, are node tests rather than functions.
pub open spec fn is_node_test_name(v: Seq<char>) -> bool {
    v == "comment"@ || v == "text"@ || v == "processing-instruction"@ || v == "node"@
}

/// What `t` becomes when `next` follows it.
pub open spec fn disambiguate(t: SpecTokenResult, next: Option<SpecTokenResult>) -> SpecTokenResult {
    match (t, next) {
        (Ok(XPathToken::Name(v)), Some(Ok(XPathToken::LeftParen))) => if is_node_test_name(v) {
            Ok(XPathToken::NodeTest(v))
        } else {
            Ok(XPathToken::Function(v))
        },
        (Ok(XPathToken::Name(v)), Some(Ok(XPathToken::DoubleColon))) => Ok(XPathToken::Axis(v)),
        _ => t,
    }
}

/// The token that follows position `i`, if any.
pub open spec fn following(s: Seq<SpecTokenResult>, i: int) -> Option<SpecTokenResult> {
    if i + 1 < s.len() {
        Some(s[i + 1])
    } else {
        None
    }
}

/// The stream with each name before `(` or `::` given its kind.
pub open spec fn disambiguated(s: Seq<SpecTokenResult>) -> Seq<SpecTokenResult> {
    Seq::new(s.len(), |i: int| disambiguate(s[i], following(s, i)))
}

fn node_test_name(v: &String) -> (r: bool)
    ensures
        r == is_node_test_name(v@),
{
    *v == string_from("comment") || *v == string_from("text") || *v == string_from(
        "processing-instruction",
    ) || *v == string_from("node")
}

/// A filter over a token stream that tells function names, node tests and
/// axis names apart from other names by the token that follows.
pub struct XPathTokenDisambiguator {
    source: Vec<TokenResult>,
    position: usize,
}

impl XPathTokenDisambiguator {
    pub closed spec fn wf(&self) -> bool {
        self.position <= self.source.len()
    }

    /// What the filter has yet to hand out, in order.
    pub closed spec fn pending(&self) -> Seq<SpecTokenResult> {
        disambiguated(results_view(self.source@)).subrange(
            self.position as int,
            self.source.len() as int,
        )
    }

    pub fn new(source: Vec<TokenResult>) -> (r: XPathTokenDisambiguator)
        ensures
            r.wf(),
            r.pending() == disambiguated(results_view(source@)),
    {
        let r = XPathTokenDisambiguator { source, position: 0 };
        assert(r.pending() =~= disambiguated(results_view(source@)));
        r
    }

    /// The next token of the rewritten stream, or `None` at its end.
    pub fn next_token(&mut self) -> (r: Option<TokenResult>)
        requires
            old(self).wf(),
        ensures
            final(self).wf(),
            old(self).pending().len() == 0 ==> r is None && final(self).pending() == old(
                self,
            ).pending(),
            old(self).pending().len() > 0 ==> (r matches Some(x) && result_view(x) == old(
                self,
            ).pending()[0] && final(self).pending() == old(self).pending().drop_first()),
    {
        let ghost before = self.pending();
        let ghost s = results_view(self.source@);
        let p = self.position;
        if p == self.source.len() {
            return None;
        }
        self.position = p + 1;
        assert(self.pending() =~= before.drop_first());
        let ghost next = following(s, p as int);
        let has_next = p + 1 < self.source.len();
        let r = match &self.source[p] {
            Err(e) => Err(*e),
            Ok(XPathToken::Name(v)) => {
                if has_next && matches!(self.source[p + 1], Ok(XPathToken::LeftParen)) {
                    if node_test_name(v) {
                        Ok(XPathToken::NodeTest(v.clone()))
                    } else {
                        Ok(XPathToken::Function(v.clone()))
                    }
                } else if has_next && matches!(self.source[p + 1], Ok(XPathToken::DoubleColon)) {
                    Ok(XPathToken::Axis(v.clone()))
                } else {
                    Ok(XPathToken::Name(v.clone()))
                }
            },
            Ok(t) => Ok(t.duplicate()),
        };
        assert(result_view(r) == disambiguate(s[p as int], next));
        Some(r)
    }
}

/// The whole stream with its names given their kinds.
pub fn disambiguate_all(source: Vec<TokenResult>) -> (r: Vec<TokenResult>)
    ensures
        results_view(r@) == disambiguated(results_view(source@)),
{
    let ghost src = results_view(source@);
    let mut filter = XPathTokenDisambiguator::new(source);
    let ghost all = filter.pending();
    assert(all == disambiguated(src));
    let mut out: Vec<TokenResult> = Vec::new();
    loop
        invariant
            filter.wf(),
            results_view(out@) + filter.pending() == all,
            src == results_view(source@),
            all == disambiguated(src),
        decreases filter.pending().len(),
    {
        let ghost before = filter.pending();
        match filter.next_token() {
            None => {
                assert(results_view(out@) + seq![] =~= results_view(out@));
                assert(before =~= seq![]);
                return out;
            },
            Some(x) => {
                let ghost xv = result_view(x);
                let ghost old_out = results_view(out@);
                out.push(x);
                assert(results_view(out@) =~= old_out.push(xv));
                assert(before =~= seq![xv] + before.drop_first());
                assert(results_view(out@) + filter.pending() =~= old_out + before);
            },
        }
    }
}

} // verus!
