use vstd::prelude::*;

use crate::text::string_from;
use crate::token::{SpecToken, SpecTokenResult, Token, TokenResult, XPathToken, result_view, results_view};

verus! {

/// The unabbreviated tokens that stand for `t`.
pub open spec fn expansion(t: SpecToken) -> Seq<SpecToken> {
    match t {
        XPathToken::AtSign => seq![XPathToken::Name("attribute"@), XPathToken::DoubleColon],
        XPathToken::DoubleSlash => seq![
            XPathToken::Slash,
            XPathToken::Name("descendant-or-self"@),
            XPathToken::DoubleColon,
            XPathToken::Name("node"@),
            XPathToken::LeftParen,
            XPathToken::RightParen,
            XPathToken::Slash,
        ],
        XPathToken::CurrentNode => seq![
            XPathToken::Name("self"@),
            XPathToken::DoubleColon,
            XPathToken::Name("node"@),
            XPathToken::LeftParen,
            XPathToken::RightParen,
        ],
        XPathToken::ParentNode => seq![
            XPathToken::Name("parent"@),
            XPathToken::DoubleColon,
            XPathToken::Name("node"@),
            XPathToken::LeftParen,
            XPathToken::RightParen,
        ],
        _ => seq![t],
    }
}

pub open spec fn oks(ts: Seq<SpecToken>) -> Seq<SpecTokenResult> {
    ts.map_values(|t: SpecToken| Ok::<SpecToken, crate::token::TokenizerError>(t))
}

pub open spec fn expand_result(r: SpecTokenResult) -> Seq<SpecTokenResult> {
    match r {
        Ok(t) => oks(expansion(t)),
        Err(e) => seq![Err(e)],
    }
}

/// The stream with every abbreviation replaced by its expansion; errors
/// pass through.
pub open spec fn deabbreviated(s: Seq<SpecTokenResult>) -> Seq<SpecTokenResult>
    decreases s.len(),
{
    if s.len() == 0 {
        seq![]
    } else {
        expand_result(s[0]) + deabbreviated(s.drop_first())
    }
}

pub proof fn lemma_deabbreviated_append(a: Seq<SpecTokenResult>, b: Seq<SpecTokenResult>)
    ensures
        deabbreviated(a + b) == deabbreviated(a) + deabbreviated(b),
    decreases a.len(),
{
    if a.len() == 0 {
        assert(a + b =~= b);
        assert(seq![] + deabbreviated(b) =~= deabbreviated(b));
    } else {
        assert((a + b).drop_first() =~= a.drop_first() + b);
        lemma_deabbreviated_append(a.drop_first(), b);
        assert(expand_result(a[0]) + (deabbreviated(a.drop_first()) + deabbreviated(b))
            =~= (expand_result(a[0]) + deabbreviated(a.drop_first())) + deabbreviated(b));
    }
}

pub open spec fn is_abbreviation(t: SpecToken) -> bool {
    t is AtSign || t is DoubleSlash || t is CurrentNode || t is ParentNode
}

proof fn lemma_unabbreviated(ts: Seq<SpecToken>)
    requires
        forall|i: int| 0 <= i < ts.len() ==> !is_abbreviation(#[trigger] ts[i]),
    ensures
        deabbreviated(oks(ts)) == oks(ts),
    decreases ts.len(),
{
    if ts.len() > 0 {
        assert(oks(ts).drop_first() =~= oks(ts.drop_first()));
        assert forall|i: int| 0 <= i < ts.drop_first().len() implies !is_abbreviation(
            #[trigger] ts.drop_first()[i],
        ) by {
            assert(ts.drop_first()[i] == ts[i + 1]);
        }
        lemma_unabbreviated(ts.drop_first());
        assert(!is_abbreviation(ts[0]));
        assert(expand_result(oks(ts)[0]) =~= seq![Ok(ts[0])]);
        assert(seq![Ok(ts[0])] + oks(ts.drop_first()) =~= oks(ts));
    }
}

/// Abbreviation equivalence: wherever an abbreviation (`@`, `//`, `.`,
/// `..`) stands in a token stream, writing its expansion there instead
/// gives the same stream once abbreviations are expanded. The parser reads
/// only that expanded stream, so it builds the same tree for both.
pub proof fn lemma_abbreviation_equivalence(
    before: Seq<SpecTokenResult>,
    abbreviation: SpecToken,
    after: Seq<SpecTokenResult>,
)
    requires
        is_abbreviation(abbreviation),
    ensures
        deabbreviated(before + seq![Ok(abbreviation)] + after) == deabbreviated(
            before + oks(expansion(abbreviation)) + after,
        ),
{
    let one: Seq<SpecTokenResult> = seq![Ok(abbreviation)];
    let long = oks(expansion(abbreviation));
    lemma_deabbreviated_append(before + one, after);
    lemma_deabbreviated_append(before, one);
    lemma_deabbreviated_append(before + long, after);
    lemma_deabbreviated_append(before, long);
    assert(one.drop_first() =~= seq![]);
    assert(deabbreviated(one.drop_first()) =~= seq![]);
    assert(one[0] == Ok::<SpecToken, crate::token::TokenizerError>(abbreviation));
    assert(deabbreviated(one) =~= long);
    assert forall|i: int| 0 <= i < expansion(abbreviation).len() implies !is_abbreviation(
        #[trigger] expansion(abbreviation)[i],
    ) by {
        reveal_strlit("attribute");
    }
    lemma_unabbreviated(expansion(abbreviation));
}

fn expand(t: Token) -> (r: Vec<Token>)
    ensures
        r@.map_values(|x: Token| x@) == expansion(t@),
{
    let r = match t {
        XPathToken::AtSign => vec![XPathToken::Name(string_from("attribute")), XPathToken::DoubleColon],
        XPathToken::DoubleSlash => vec![
            XPathToken::Slash,
            XPathToken::Name(string_from("descendant-or-self")),
            XPathToken::DoubleColon,
            XPathToken::Name(string_from("node")),
            XPathToken::LeftParen,
            XPathToken::RightParen,
            XPathToken::Slash,
        ],
        XPathToken::CurrentNode => vec![
            XPathToken::Name(string_from("self")),
            XPathToken::DoubleColon,
            XPathToken::Name(string_from("node")),
            XPathToken::LeftParen,
            XPathToken::RightParen,
        ],
        XPathToken::ParentNode => vec![
            XPathToken::Name(string_from("parent")),
            XPathToken::DoubleColon,
            XPathToken::Name(string_from("node")),
            XPathToken::LeftParen,
            XPathToken::RightParen,
        ],
        other => vec![other],
    };
    assert(r@.map_values(|x: Token| x@) =~= expansion(t@));
    r
}

/// A filter over a token stream that expands `@`, `//`, `.` and `..`.
pub struct XPathTokenDeabbreviator {
    source: Vec<TokenResult>,
    position: usize,
    buffer: Vec<Token>,
}

impl XPathTokenDeabbreviator {
    pub closed spec fn wf(&self) -> bool {
        self.position <= self.source.len()
    }

    /// What the filter has yet to hand out, in order.
    pub closed spec fn pending(&self) -> Seq<SpecTokenResult> {
        oks(self.buffer@.map_values(|x: Token| x@)) + deabbreviated(
            results_view(self.source@.subrange(self.position as int, self.source.len() as int)),
        )
    }

    pub fn new(source: Vec<TokenResult>) -> (r: XPathTokenDeabbreviator)
        ensures
            r.wf(),
            r.pending() == deabbreviated(results_view(source@)),
    {
        let r = XPathTokenDeabbreviator { source, position: 0, buffer: Vec::new() };
        assert(r.source@.subrange(0, r.source.len() as int) =~= r.source@);
        assert(oks(r.buffer@.map_values(|x: Token| x@)) =~= seq![]);
        assert(seq![] + deabbreviated(results_view(r.source@)) =~= deabbreviated(
            results_view(r.source@),
        ));
        r
    }

    fn expand_token(&mut self, token: Token)
        requires
            old(self).buffer@.len() == 0,
        ensures
            final(self).source == old(self).source,
            final(self).position == old(self).position,
            final(self).buffer@.map_values(|x: Token| x@) == expansion(token@),
    {
        let expanded = expand(token);
        self.buffer = expanded;
    }

    /// The next token of the expanded stream, or `None` at its end.
    pub fn next_token(&mut self) -> (r: Option<TokenResult>)
        requires
            old(self).wf(),
        ensures
            final(self).wf(),
            old(self).pending().len() == 0 ==> r is None && final(self).pending() == old(
                self,
            ).pending(),
            old(self).pending().len() > 0 ==> (r matches Some(x) && result_view(x) == old(
                self,
            ).pending()[0] && final(self).pending() == old(self).pending().drop_first()),
    {
        let ghost before = self.pending();
        let ghost n = self.source.len() as int;
        if self.buffer.len() == 0 {
            assert(oks(self.buffer@.map_values(|x: Token| x@)) =~= seq![]);
            assert(before =~= deabbreviated(
                results_view(self.source@.subrange(self.position as int, n)),
            ));
            if self.position == self.source.len() {
                assert(results_view(self.source@.subrange(self.position as int, n)) =~= seq![]);
                return None;
            }
            let p = self.position;
            let ghost rest = results_view(self.source@.subrange(p as int, n));
            assert(rest.drop_first() =~= results_view(self.source@.subrange(p + 1, n)));
            assert(rest[0] == result_view(self.source@[p as int]));
            let item = match &self.source[p] {
                Ok(t) => Ok(t.duplicate()),
                Err(e) => Err(*e),
            };
            self.position = p + 1;
            match item {
                Err(e) => {
                    assert(expand_result(rest[0]) =~= seq![Err(e)]);
                    return Some(Err(e));
                },
                Ok(t) => {
                    self.expand_token(t);
                },
            }
        }
        assert(self.pending() == before);
        assert(self.buffer.len() > 0);
        let first = self.buffer.remove(0);
        proof {
            assert(before[0] == Ok::<SpecToken, crate::token::TokenizerError>(first@));
            assert(self.pending() =~= before.drop_first());
        }
        Some(Ok(first))
    }
}

/// The whole stream with its abbreviations expanded.
pub fn deabbreviate(source: Vec<TokenResult>) -> (r: Vec<TokenResult>)
    ensures
        results_view(r@) == deabbreviated(results_view(source@)),
{
    let ghost src = results_view(source@);
    let mut filter = XPathTokenDeabbreviator::new(source);
    let ghost all = filter.pending();
    assert(all == deabbreviated(src));
    let mut out: Vec<TokenResult> = Vec::new();
    loop
        invariant
            filter.wf(),
            results_view(out@) + filter.pending() == all,
            src == results_view(source@),
            all == deabbreviated(src),
        decreases filter.pending().len(),
    {
        let ghost before = filter.pending();
        match filter.next_token() {
            None => {
                assert(results_view(out@) + seq![] =~= results_view(out@));
                assert(before =~= seq![]);
                return out;
            },
            Some(x) => {
                let ghost xv = result_view(x);
                let ghost old_out = results_view(out@);
                out.push(x);
                assert(results_view(out@) =~= old_out.push(xv));
                assert(before =~= seq![xv] + before.drop_first());
                assert(results_view(out@) + filter.pending() =~= old_out + before);
            },
        }
    }
}

} // verus!
