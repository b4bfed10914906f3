use vstd::prelude::*;

use crate::axis::{
    AxisDescendant, XPathNodeTest, PrincipalNodeType, all_held, child_nodes, descendant_nodes,
    lemma_descendants_held, lemma_matching_members, matching,
};
use crate::document::{Any, Document, Nodeset, Parent};
use crate::text::string_from;

verus! {

/// The four kinds of XPath values.
#[derive(Debug, Clone, Copy, PartialEq, Eq, Structural)]
pub enum ValueKind {
    Boolean,
    Number,
    String,
    Nodes,
}

/// How `=` and `!=` compare two values.
#[derive(Debug, Clone, Copy, PartialEq, Eq, Structural)]
pub enum Comparison {
    AsBooleans,
    AsNumbers,
    AsStrings,
}

/// If either side is a boolean, both are compared as booleans; else if
/// either is a number, as numbers; else as strings.
pub open spec fn comparison_rule(left: ValueKind, right: ValueKind) -> Comparison {
    if left == ValueKind::Boolean || right == ValueKind::Boolean {
        Comparison::AsBooleans
    } else if left == ValueKind::Number || right == ValueKind::Number {
        Comparison::AsNumbers
    } else {
        Comparison::AsStrings
    }
}

pub fn comparison_for(left: ValueKind, right: ValueKind) -> (r: Comparison)
    ensures
        r == comparison_rule(left, right),
{
    if left == ValueKind::Boolean || right == ValueKind::Boolean {
        Comparison::AsBooleans
    } else if left == ValueKind::Number || right == ValueKind::Number {
        Comparison::AsNumbers
    } else {
        Comparison::AsStrings
    }
}

/// `boolean(s)` of a string: whether it is not empty.
pub fn boolean_of_string(s: &str) -> (r: bool)
    ensures
        r == (s@.len() > 0),
{
    !s.is_empty()
}

/// `boolean(ns)` of a node set: whether it holds a node.
pub fn boolean_of_nodeset(ns: &Nodeset) -> (r: bool)
    ensures
        r == (ns@.len() > 0),
{
    ns.size() > 0
}

/// `string(b)` of a boolean.
pub fn string_of_boolean(b: bool) -> (r: String)
    ensures
        r@ == (if b {
            "true"@
        } else {
            "false"@
        }),
{
    if b {
        string_from("true")
    } else {
        string_from("false")
    }
}

/// The texts of the text nodes among `s`, joined.
pub open spec fn joined_texts(doc: &Document, s: Seq<Any>) -> Seq<char>
    decreases s.len(),
{
    if s.len() == 0 {
        seq![]
    } else {
        joined_texts(doc, s.drop_last()) + match s.last() {
            Any::Text(t) => doc.text_value(t),
            _ => seq![],
        }
    }
}

/// The string value of a node: the text of a text node, attribute, comment
/// or processing instruction; for the root and elements, the text of every
/// text node below, in document order.
pub open spec fn string_value_of(doc: &Document, n: Any) -> Seq<char> {
    match n {
        Any::Text(t) => doc.text_value(t),
        Any::Attribute(a) => doc.attribute_value(a),
        Any::Comment(c) => doc.comment_text(c),
        Any::ProcessingInstruction(p) => match doc.instruction_value(p) {
            Some(v) => v,
            None => seq![],
        },
        _ => joined_texts(doc, descendant_nodes(doc, n)),
    }
}

proof fn lemma_joined_texts_of_matching(doc: &Document, s: Seq<Any>)
    ensures
        joined_texts(doc, matching(doc, &XPathNodeTest::Text, PrincipalNodeType::Element, s))
            == joined_texts(doc, s),
    decreases s.len(),
{
    if s.len() > 0 {
        lemma_joined_texts_of_matching(doc, s.drop_last());
        let m = matching(doc, &XPathNodeTest::Text, PrincipalNodeType::Element, s.drop_last());
        if s.last() is Text {
            assert((m + seq![s.last()]).drop_last() =~= m);
        } else {
            assert(m + seq![] =~= m);
        }
    }
}

/// The string value of `n`.
pub fn string_value(doc: &Document, n: Any) -> (r: String)
    requires
        doc.wf(),
        doc.holds(n),
    ensures
        r@ == string_value_of(doc, n),
{
    match n {
        Any::Text(t) => string_from(doc.text(t).value()),
        Any::Attribute(a) => string_from(doc.attribute(a).value()),
        Any::Comment(c) => string_from(doc.comment(c).text()),
        Any::ProcessingInstruction(p) => match doc.processing_instruction(p).value() {
            Some(v) => string_from(v),
            None => String::new(),
        },
        _ => {
            let mut texts = Nodeset::new();
            AxisDescendant.select_nodes(doc, n, &XPathNodeTest::Text, &mut texts);
            assert(texts@ =~= matching(doc, &XPathNodeTest::Text, PrincipalNodeType::Element, descendant_nodes(doc, n)));
            proof {
                lemma_joined_texts_of_matching(doc, descendant_nodes(doc, n));
                lemma_matching_members(doc, &XPathNodeTest::Text, PrincipalNodeType::Element, descendant_nodes(doc, n));
                doc.lemma_recorded_nodes_held();
                let kids = child_nodes(doc, n);
                assert(all_held(doc, kids)) by {
                    assert forall|i: int| 0 <= i < kids.len() implies doc.holds(#[trigger] kids[i]) by {
                        match n {
                            Any::Root => assert(doc.holds_child(doc.children_of(Parent::Root)[i])),
                            Any::Element(e) => assert(doc.holds_child(doc.children_of(Parent::Element(e))[i])),
                            _ => {},
                        }
                    }
                }
                lemma_descendants_held(doc, kids, doc.element_count() + 1);
                assert forall|i: int| 0 <= i < texts@.len() implies (#[trigger] texts@[i]) is Text
                    && doc.holds(texts@[i]) by {
                    let d = descendant_nodes(doc, n);
                    let j = choose|j: int| 0 <= j < d.len() && d[j] == texts@[i];
                    assert(doc.holds(d[j]));
                }
            }
            let nodes = texts.to_vec();
            let mut out = String::new();
            let mut k: usize = 0;
            while k < nodes.len()
                invariant
                    k <= nodes.len(),
                    doc.wf(),
                    forall|i: int| 0 <= i < nodes.len() ==> (#[trigger] nodes@[i]) is Text
                        && doc.holds(nodes@[i]),
                    out@ == joined_texts(doc, nodes@.subrange(0, k as int)),
                decreases nodes.len() - k,
            {
                assert(nodes@.subrange(0, k + 1).drop_last() =~= nodes@.subrange(0, k as int));
                if let Any::Text(t) = nodes[k] {
                    out.append(doc.text(t).value());
                }
                k = k + 1;
            }
            assert(nodes@.subrange(0, k as int) =~= nodes@);
            out
        },
    }
}

/// Positions `i` (from 0) with `keep[i]`, applied to `s`.
pub open spec fn kept(s: Seq<Any>, keep: Seq<bool>) -> Seq<Any>
    decreases s.len(),
{
    if s.len() == 0 {
        seq![]
    } else {
        kept(s.drop_last(), keep) + (if keep[s.len() - 1] {
            seq![s.last()]
        } else {
            seq![]
        })
    }
}

/// The nodes of `nodes` whose position is marked in `keep`, in order: the
/// result of a predicate once it has been evaluated at every position.
pub fn select_where(nodes: &Nodeset, keep: &Vec<bool>) -> (r: Nodeset)
    requires
        keep@.len() == nodes@.len(),
    ensures
        r@ == kept(nodes@, keep@),
{
    let mut out = Nodeset::new();
    let mut k: usize = 0;
    while k < nodes.size()
        invariant
            k <= nodes@.len(),
            keep@.len() == nodes@.len(),
            out@ == kept(nodes@.subrange(0, k as int), keep@),
        decreases nodes@.len() - k,
    {
        let ghost before = nodes@.subrange(0, k as int);
        assert(nodes@.subrange(0, k + 1).drop_last() =~= before);
        if keep[k] {
            out.add(nodes.get(k));
        }
        k = k + 1;
        assert(out@ =~= kept(nodes@.subrange(0, k as int), keep@));
    }
    assert(nodes@.subrange(0, k as int) =~= nodes@);
    out
}

/// What a predicate keeps is among the nodes it was given.
pub proof fn lemma_kept_members(s: Seq<Any>, keep: Seq<bool>)
    ensures
        forall|i: int| 0 <= i < kept(s, keep).len() ==> s.contains(#[trigger] kept(s, keep)[i]),
    decreases s.len(),
{
    if s.len() > 0 {
        lemma_kept_members(s.drop_last(), keep);
        let prev = kept(s.drop_last(), keep);
        assert forall|i: int| 0 <= i < kept(s, keep).len() implies s.contains(
            #[trigger] kept(s, keep)[i],
        ) by {
            if i < prev.len() {
                assert(kept(s, keep)[i] == prev[i]);
                let j = choose|j: int| 0 <= j < s.drop_last().len() && s.drop_last()[j] == prev[i];
                assert(s[j] == prev[i]);
            } else {
                assert(kept(s, keep)[i] == s.last());
                assert(s[s.len() - 1] == s.last());
            }
        }
    }
}

proof fn lemma_kept_none(s: Seq<Any>, keep: Seq<bool>)
    requires
        forall|i: int| 0 <= i < s.len() ==> !keep[i],
    ensures
        kept(s, keep) == Seq::<Any>::empty(),
    decreases s.len(),
{
    if s.len() > 0 {
        lemma_kept_none(s.drop_last(), keep);
        assert(Seq::<Any>::empty() + seq![] =~= Seq::<Any>::empty());
    }
}

/// A numeric predicate `k` with `1 <= k <= |N|` keeps exactly the `k`-th
/// node of `N`: at position `i` (counted from 1) the predicate holds when
/// `i == k`.
pub proof fn lemma_predicate_index(nodes: Seq<Any>, keep: Seq<bool>, k: int)
    requires
        keep.len() == nodes.len(),
        1 <= k <= nodes.len(),
        forall|i: int| 0 <= i < keep.len() ==> keep[i] == (i + 1 == k),
    ensures
        kept(nodes, keep) == seq![nodes[k - 1]],
    decreases nodes.len(),
{
    if nodes.len() == k {
        lemma_kept_none(nodes.drop_last(), keep);
        assert(Seq::<Any>::empty() + seq![nodes.last()] =~= seq![nodes[k - 1]]);
    } else {
        let shorter = nodes.drop_last();
        lemma_predicate_index_prefix(shorter, keep, k);
        assert(kept(nodes, keep) =~= kept(shorter, keep));
        assert(shorter[k - 1] == nodes[k - 1]);
    }
}

proof fn lemma_predicate_index_prefix(nodes: Seq<Any>, keep: Seq<bool>, k: int)
    requires
        keep.len() > nodes.len(),
        1 <= k <= nodes.len(),
        forall|i: int| 0 <= i < keep.len() ==> keep[i] == (i + 1 == k),
    ensures
        kept(nodes, keep) == seq![nodes[k - 1]],
    decreases nodes.len(),
{
    if nodes.len() == k {
        lemma_kept_none(nodes.drop_last(), keep);
        assert(Seq::<Any>::empty() + seq![nodes.last()] =~= seq![nodes[k - 1]]);
    } else {
        let shorter = nodes.drop_last();
        lemma_predicate_index_prefix(shorter, keep, k);
        assert(kept(nodes, keep) =~= kept(shorter, keep));
        assert(shorter[k - 1] == nodes[k - 1]);
    }
}

/// `left | right`: the nodes of `left`, then those of `right`.
pub fn union(left: &Nodeset, right: &Nodeset) -> (r: Nodeset)
    ensures
        r@ == left@ + right@,
{
    let mut out = Nodeset::from_vec(left.to_vec());
    out.add_nodeset(right);
    out
}

/// A union holds each node as often as its two sides together: it
/// contains exactly the nodes of both, whatever their order.
pub proof fn lemma_union_multiset(left: Seq<Any>, right: Seq<Any>)
    ensures
        (left + right).to_multiset() == left.to_multiset().add(right.to_multiset()),
        forall|n: Any| (left + right).contains(n) <==> left.contains(n) || right.contains(n),
{
    vstd::seq_lib::lemma_multiset_commutative(left, right);
    assert forall|n: Any| (left + right).contains(n) <==> left.contains(n) || right.contains(n) by {
        if (left + right).contains(n) {
            let i = choose|i: int| 0 <= i < (left + right).len() && (left + right)[i] == n;
            if i < left.len() {
                assert(left[i] == n);
            } else {
                assert(right[i - left.len()] == n);
            }
        }
        if left.contains(n) {
            let i = choose|i: int| 0 <= i < left.len() && left[i] == n;
            assert((left + right)[i] == n);
        }
        if right.contains(n) {
            let i = choose|i: int| 0 <= i < right.len() && right[i] == n;
            assert((left + right)[left.len() + i] == n);
        }
    }
}

} // verus!
