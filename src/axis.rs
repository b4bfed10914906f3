use vstd::prelude::*;

use crate::text::string_from;
use crate::document::{
    Any, Child, Document, Nodeset, Parent, child_as_any, parent_as_any,
};

verus! {

/// The node kind an axis selects when its node test is a bare name.
#[derive(Debug, Clone, Copy, PartialEq, Eq, Structural)]
pub enum PrincipalNodeType {
    Attribute,
    Element,
}

/// A filter on the nodes an axis selects.
#[derive(Debug, PartialEq, Eq)]
pub enum XPathNodeTest {
    /// `node()`: every node.
    Node,
    /// `text()`
    Text,
    /// `comment()`
    Comment,
    /// `processing-instruction()`, optionally of one target.
    ProcessingInstruction(Option<String>),
    /// A name (`prefix:local` for a prefixed one): nodes of the principal
    /// type with that name.
    Name(String),
    /// `*`: every node of the principal type.
    Wildcard,
}

/// A node test as specifications see it.
pub enum TestView {
    Node,
    Text,
    Comment,
    ProcessingInstruction(Option<Seq<char>>),
    Name(Seq<char>),
    Wildcard,
}

impl View for XPathNodeTest {
    type V = TestView;

    open spec fn view(&self) -> TestView {
        match self {
            XPathNodeTest::Node => TestView::Node,
            XPathNodeTest::Text => TestView::Text,
            XPathNodeTest::Comment => TestView::Comment,
            XPathNodeTest::ProcessingInstruction(t) => TestView::ProcessingInstruction(
                match t {
                    Some(x) => Some(x@),
                    None => None,
                },
            ),
            XPathNodeTest::Name(n) => TestView::Name(n@),
            XPathNodeTest::Wildcard => TestView::Wildcard,
        }
    }
}

/// Whether `n` passes `test` on an axis whose principal type is `principal`.
pub open spec fn passes(doc: &Document, test: &XPathNodeTest, principal: PrincipalNodeType, n: Any) -> bool {
    match test {
        XPathNodeTest::Node => true,
        XPathNodeTest::Text => n is Text,
        XPathNodeTest::Comment => n is Comment,
        XPathNodeTest::ProcessingInstruction(target) => match n {
            Any::ProcessingInstruction(p) => match target {
                Some(t) => doc.instruction_target(p) == t@,
                None => true,
            },
            _ => false,
        },
        XPathNodeTest::Name(name) => match (principal, n) {
            (PrincipalNodeType::Element, Any::Element(e)) => doc.element_name(e) == name@,
            (PrincipalNodeType::Attribute, Any::Attribute(a)) => doc.attribute_name(a) == name@,
            _ => false,
        },
        XPathNodeTest::Wildcard => match (principal, n) {
            (PrincipalNodeType::Element, Any::Element(_)) => true,
            (PrincipalNodeType::Attribute, Any::Attribute(_)) => true,
            _ => false,
        },
    }
}

/// The nodes of `s` that pass `test`, in order.
pub open spec fn matching(doc: &Document, test: &XPathNodeTest, principal: PrincipalNodeType, s: Seq<Any>) -> Seq<Any>
    decreases s.len(),
{
    if s.len() == 0 {
        seq![]
    } else {
        matching(doc, test, principal, s.drop_last()) + (if passes(doc, test, principal, s.last()) {
            seq![s.last()]
        } else {
            seq![]
        })
    }
}

pub proof fn lemma_matching_append(
    doc: &Document,
    test: &XPathNodeTest,
    principal: PrincipalNodeType,
    a: Seq<Any>,
    b: Seq<Any>,
)
    ensures
        matching(doc, test, principal, a + b) == matching(doc, test, principal, a) + matching(
            doc,
            test,
            principal,
            b,
        ),
    decreases b.len(),
{
    if b.len() == 0 {
        assert(a + b =~= a);
        assert(matching(doc, test, principal, a) + seq![] =~= matching(doc, test, principal, a));
    } else {
        assert((a + b).drop_last() =~= a + b.drop_last());
        assert((a + b).last() == b.last());
        lemma_matching_append(doc, test, principal, a, b.drop_last());
        let tail = if passes(doc, test, principal, b.last()) {
            seq![b.last()]
        } else {
            seq![]
        };
        assert(matching(doc, test, principal, a) + matching(doc, test, principal, b.drop_last())
            + tail =~= matching(doc, test, principal, a) + (matching(
            doc,
            test,
            principal,
            b.drop_last(),
        ) + tail));
    }
}

impl XPathNodeTest {
    pub fn test(&self, doc: &Document, principal: PrincipalNodeType, n: Any) -> (r: bool)
        requires
            doc.holds(n),
        ensures
            r == passes(doc, self, principal, n),
    {
        match self {
            XPathNodeTest::Node => true,
            XPathNodeTest::Text => matches!(n, Any::Text(_)),
            XPathNodeTest::Comment => matches!(n, Any::Comment(_)),
            XPathNodeTest::ProcessingInstruction(target) => match n {
                Any::ProcessingInstruction(p) => match target {
                    Some(t) => doc.instruction_has_target(p, t.as_str()),
                    None => true,
                },
                _ => false,
            },
            XPathNodeTest::Name(name) => match (principal, n) {
                (PrincipalNodeType::Element, Any::Element(e)) => doc.element_has_name(e, name.as_str()),
                (PrincipalNodeType::Attribute, Any::Attribute(a)) => doc.attribute_has_name(
                    a,
                    name.as_str(),
                ),
                _ => false,
            },
            XPathNodeTest::Wildcard => match (principal, n) {
                (PrincipalNodeType::Element, Any::Element(_)) => true,
                (PrincipalNodeType::Attribute, Any::Attribute(_)) => true,
                _ => false,
            },
        }
    }
}

/// Appends the nodes of `candidates` that pass `test` to `result`.
fn select_matching(
    doc: &Document,
    test: &XPathNodeTest,
    principal: PrincipalNodeType,
    candidates: &Vec<Any>,
    result: &mut Nodeset,
)
    requires
        forall|i: int| 0 <= i < candidates.len() ==> doc.holds(#[trigger] candidates@[i]),
    ensures
        final(result)@ == old(result)@ + matching(doc, test, principal, candidates@),
{
    let mut k: usize = 0;
    while k < candidates.len()
        invariant
            k <= candidates.len(),
            forall|i: int| 0 <= i < candidates.len() ==> doc.holds(#[trigger] candidates@[i]),
            result@ == old(result)@ + matching(doc, test, principal, candidates@.subrange(0, k as int)),
        decreases candidates.len() - k,
    {
        let n = candidates[k];
        let ghost before = candidates@.subrange(0, k as int);
        assert(candidates@.subrange(0, k + 1).drop_last() =~= before);
        if test.test(doc, principal, n) {
            result.add(n);
        }
        k = k + 1;
        assert(result@ =~= old(result)@ + matching(doc, test, principal, candidates@.subrange(0, k as int)));
    }
    assert(candidates@.subrange(0, k as int) =~= candidates@);
}

// ---------------------------------------------------------------------
// What each axis reaches from a node, before the node test.

pub open spec fn children_as_any(doc: &Document, p: Parent) -> Seq<Any> {
    doc.children_of(p).map_values(|c: Child| child_as_any(c))
}

/// The children of `n`: only the root and elements have any.
pub open spec fn child_nodes(doc: &Document, n: Any) -> Seq<Any> {
    match n {
        Any::Root => children_as_any(doc, Parent::Root),
        Any::Element(e) => children_as_any(doc, Parent::Element(e)),
        _ => seq![],
    }
}

/// The parent of `n`; the parent of an attribute is its element.
pub open spec fn parent_nodes(doc: &Document, n: Any) -> Seq<Any> {
    let p = match n {
        Any::Root => None,
        Any::Element(e) => doc.parent_of(Child::Element(e)),
        Any::Text(t) => doc.parent_of(Child::Text(t)),
        Any::Comment(c) => doc.parent_of(Child::Comment(c)),
        Any::ProcessingInstruction(x) => doc.parent_of(Child::ProcessingInstruction(x)),
        Any::Attribute(a) => Some(Parent::Element(doc.attribute_owner(a))),
    };
    match p {
        Some(p) => seq![parent_as_any(p)],
        None => seq![],
    }
}

/// The attributes of `n`: only elements have any.
pub open spec fn attribute_nodes(doc: &Document, n: Any) -> Seq<Any> {
    match n {
        Any::Element(e) => doc.attributes_of(e).map_values(|a| Any::Attribute(a)),
        _ => seq![],
    }
}

/// The nodes below those of `s`, in document order (each node, then the
/// nodes below it), looking at most `depth` levels down.
pub open spec fn descendants_within(doc: &Document, s: Seq<Any>, depth: nat) -> Seq<Any>
    decreases depth, s.len(),
{
    if depth == 0 || s.len() == 0 {
        seq![]
    } else {
        seq![s[0]] + descendants_within(doc, child_nodes(doc, s[0]), (depth - 1) as nat)
            + descendants_within(doc, s.drop_first(), depth)
    }
}

/// The descendants of `n` in document order. A tree is never deeper than
/// it has elements, so that bound reaches all of them.
pub open spec fn descendant_nodes(doc: &Document, n: Any) -> Seq<Any> {
    descendants_within(doc, child_nodes(doc, n), doc.element_count() + 1)
}

pub proof fn lemma_descendants_append(doc: &Document, a: Seq<Any>, b: Seq<Any>, depth: nat)
    ensures
        descendants_within(doc, a + b, depth) == descendants_within(doc, a, depth)
            + descendants_within(doc, b, depth),
    decreases a.len(),
{
    if depth == 0 {
        assert(descendants_within(doc, a, depth) + descendants_within(doc, b, depth) =~= seq![]);
    } else if a.len() == 0 {
        assert(a + b =~= b);
        assert(seq![] + descendants_within(doc, b, depth) =~= descendants_within(doc, b, depth));
    } else {
        assert((a + b)[0] == a[0]);
        assert((a + b).drop_first() =~= a.drop_first() + b);
        lemma_descendants_append(doc, a.drop_first(), b, depth);
        let head = seq![a[0]] + descendants_within(doc, child_nodes(doc, a[0]), (depth - 1) as nat);
        assert(head + (descendants_within(doc, a.drop_first(), depth) + descendants_within(
            doc,
            b,
            depth,
        )) =~= (head + descendants_within(doc, a.drop_first(), depth)) + descendants_within(
            doc,
            b,
            depth,
        ));
    }
}

/// Every node of `s` is held in `doc`.
pub open spec fn all_held(doc: &Document, s: Seq<Any>) -> bool {
    forall|i: int| 0 <= i < s.len() ==> doc.holds(#[trigger] s[i])
}

/// What passes a node test is among the candidates, and passes it.
pub proof fn lemma_matching_members(
    doc: &Document,
    test: &XPathNodeTest,
    principal: PrincipalNodeType,
    s: Seq<Any>,
)
    ensures
        forall|i: int|
            0 <= i < matching(doc, test, principal, s).len() ==> s.contains(
                #[trigger] matching(doc, test, principal, s)[i],
            ) && passes(doc, test, principal, matching(doc, test, principal, s)[i]),
    decreases s.len(),
{
    if s.len() > 0 {
        lemma_matching_members(doc, test, principal, s.drop_last());
        let m = matching(doc, test, principal, s.drop_last());
        assert forall|i: int|
            0 <= i < matching(doc, test, principal, s).len() implies s.contains(
            #[trigger] matching(doc, test, principal, s)[i],
        ) && passes(doc, test, principal, matching(doc, test, principal, s)[i]) by {
            if i < m.len() {
                assert(matching(doc, test, principal, s)[i] == m[i]);
                let j = choose|j: int| 0 <= j < s.drop_last().len() && s.drop_last()[j] == m[i];
                assert(s[j] == m[i]);
            } else {
                assert(matching(doc, test, principal, s)[i] == s.last());
                assert(s[s.len() - 1] == s.last());
            }
        }
    }
}

/// In a well-formed document, the nodes below held nodes are held.
pub proof fn lemma_descendants_held(doc: &Document, s: Seq<Any>, depth: nat)
    requires
        doc.wf(),
        all_held(doc, s),
    ensures
        all_held(doc, descendants_within(doc, s, depth)),
    decreases depth, s.len(),
{
    if depth > 0 && s.len() > 0 {
        doc.lemma_recorded_nodes_held();
        let kids = child_nodes(doc, s[0]);
        assert(all_held(doc, kids)) by {
            assert forall|i: int| 0 <= i < kids.len() implies doc.holds(#[trigger] kids[i]) by {
                match s[0] {
                    Any::Root => assert(doc.holds_child(doc.children_of(Parent::Root)[i])),
                    Any::Element(e) => assert(doc.holds_child(doc.children_of(Parent::Element(e))[i])),
                    _ => {},
                }
            }
        }
        lemma_descendants_held(doc, kids, (depth - 1) as nat);
        assert(all_held(doc, s.drop_first())) by {
            assert forall|i: int| 0 <= i < s.drop_first().len() implies doc.holds(
                #[trigger] s.drop_first()[i],
            ) by {
                assert(s.drop_first()[i] == s[i + 1]);
            }
        }
        lemma_descendants_held(doc, s.drop_first(), depth);
        let a = seq![s[0]];
        let b = descendants_within(doc, kids, (depth - 1) as nat);
        let c = descendants_within(doc, s.drop_first(), depth);
        assert forall|i: int| 0 <= i < (a + b + c).len() implies doc.holds(#[trigger] (a + b + c)[i]) by {
            if i < 1 {
            } else if i < 1 + b.len() {
                assert((a + b + c)[i] == b[i - 1]);
            } else {
                assert((a + b + c)[i] == c[i - 1 - b.len()]);
            }
        }
    }
}

fn children_to_any(children: Vec<Child>) -> (r: Vec<Any>)
    ensures
        r@ == children@.map_values(|c: Child| child_as_any(c)),
{
    let mut out: Vec<Any> = Vec::new();
    let mut k: usize = 0;
    while k < children.len()
        invariant
            k <= children.len(),
            out@ == children@.subrange(0, k as int).map_values(|c: Child| child_as_any(c)),
        decreases children.len() - k,
    {
        let a = match children[k] {
            Child::Element(e) => Any::Element(e),
            Child::Text(t) => Any::Text(t),
            Child::Comment(c) => Any::Comment(c),
            Child::ProcessingInstruction(p) => Any::ProcessingInstruction(p),
        };
        out.push(a);
        k = k + 1;
        assert(out@ =~= children@.subrange(0, k as int).map_values(|c: Child| child_as_any(c)));
    }
    assert(children@.subrange(0, k as int) =~= children@);
    out
}

/// `node` as a parent: the root and elements are parents, other nodes
/// have no children.
pub fn maybe_parent(node: Any) -> (r: Option<Parent>)
    ensures
        r == (match node {
            Any::Root => Some(Parent::Root),
            Any::Element(e) => Some(Parent::Element(e)),
            _ => None::<Parent>,
        }),
{
    match node {
        Any::Root => Some(Parent::Root),
        Any::Element(e) => Some(Parent::Element(e)),
        _ => None,
    }
}

/// The children of `n`.
pub fn child_candidates(doc: &Document, n: Any) -> (r: Vec<Any>)
    requires
        doc.wf(),
    ensures
        r@ == child_nodes(doc, n),
        all_held(doc, r@),
{
    proof {
        doc.lemma_recorded_nodes_held();
    }
    let r = match maybe_parent(n) {
        Some(p) => children_to_any(doc.children(p)),
        None => Vec::new(),
    };
    proof {
        if n is Root || n is Element {
            let p = if n is Root { Parent::Root } else { Parent::Element(n->Element_0) };
            assert forall|i: int| 0 <= i < r@.len() implies doc.holds(#[trigger] r@[i]) by {
                assert(doc.holds_child(doc.children_of(p)[i]));
            }
        } else {
            assert(r@ =~= child_nodes(doc, n));
        }
    }
    r
}

fn push_descendants(
    doc: &Document,
    s: &Vec<Any>,
    depth: usize,
    test: &XPathNodeTest,
    principal: PrincipalNodeType,
    result: &mut Nodeset,
)
    requires
        doc.wf(),
        all_held(doc, s@),
    ensures
        final(result)@ == old(result)@ + matching(
            doc,
            test,
            principal,
            descendants_within(doc, s@, depth as nat),
        ),
    decreases depth,
{
    if depth == 0 {
        assert(old(result)@ + matching(doc, test, principal, seq![]) =~= old(result)@);
        return;
    }
    let mut k: usize = 0;
    while k < s.len()
        invariant
            doc.wf(),
            all_held(doc, s@),
            depth > 0,
            k <= s.len(),
            result@ == old(result)@ + matching(
                doc,
                test,
                principal,
                descendants_within(doc, s@.subrange(0, k as int), depth as nat),
            ),
        decreases s.len() - k,
    {
        let n = s[k];
        let ghost before = s@.subrange(0, k as int);
        let ghost one = seq![n];
        let ghost kids_view = child_nodes(doc, n);
        proof {
            assert(s@.subrange(0, k + 1) =~= before + one);
            lemma_descendants_append(doc, before, one, depth as nat);
            assert(one.drop_first() =~= seq![]);
            assert(descendants_within(doc, one.drop_first(), depth as nat) =~= seq![]);
            assert(descendants_within(doc, one, depth as nat) =~= seq![n] + descendants_within(
                doc,
                kids_view,
                (depth - 1) as nat,
            ));
            lemma_matching_append(doc, test, principal, descendants_within(doc, before, depth as nat),
                descendants_within(doc, one, depth as nat));
            lemma_matching_append(doc, test, principal, seq![n], descendants_within(
                doc,
                kids_view,
                (depth - 1) as nat,
            ));
            assert(seq![n].drop_last() =~= seq![]);
            assert(matching(doc, test, principal, seq![]) =~= seq![]);
        }
        if test.test(doc, principal, n) {
            result.add(n);
        }
        assert(result@ =~= old(result)@ + matching(doc, test, principal, descendants_within(doc, before, depth as nat)) + matching(doc, test, principal, seq![n]));
        let kids = child_candidates(doc, n);
        push_descendants(doc, &kids, depth - 1, test, principal, result);
        k = k + 1;
        assert(result@ =~= old(result)@ + matching(
            doc,
            test,
            principal,
            descendants_within(doc, s@.subrange(0, k as int), depth as nat),
        ));
    }
    assert(s@.subrange(0, k as int) =~= s@);
}

/// The self axis.
pub struct AxisSelf;

/// The parent axis.
pub struct AxisParent;

/// The child axis.
pub struct AxisChild;

/// The descendant axis.
pub struct AxisDescendant;

/// The descendant-or-self axis.
pub struct AxisDescendantOrSelf {
    descendant: AxisDescendant,
}

/// The attribute axis.
pub struct AxisAttribute;

impl AxisSelf {
    /// Appends `node` to `result` if it passes `test`.
    pub fn select_nodes(&self, doc: &Document, node: Any, test: &XPathNodeTest, result: &mut Nodeset)
        requires
            doc.wf(),
            doc.holds(node),
        ensures
            final(result)@ == old(result)@ + matching(doc, test, PrincipalNodeType::Element, seq![node]),
    {
        let v = vec![node];
        assert(v@ =~= seq![node]);
        select_matching(doc, test, PrincipalNodeType::Element, &v, result);
    }
}

impl AxisParent {
    /// Appends the parent of `node` to `result` if it passes `test`.
    pub fn select_nodes(&self, doc: &Document, node: Any, test: &XPathNodeTest, result: &mut Nodeset)
        requires
            doc.wf(),
            doc.holds(node),
        ensures
            final(result)@ == old(result)@ + matching(
                doc,
                test,
                PrincipalNodeType::Element,
                parent_nodes(doc, node),
            ),
    {
        proof {
            doc.lemma_recorded_nodes_held();
        }
        let parent = match node {
            Any::Root => None,
            Any::Element(e) => doc.parent(Child::Element(e)),
            Any::Text(t) => doc.parent(Child::Text(t)),
            Any::Comment(c) => doc.parent(Child::Comment(c)),
            Any::ProcessingInstruction(x) => doc.parent(Child::ProcessingInstruction(x)),
            Any::Attribute(a) => Some(Parent::Element(doc.owner(a))),
        };
        let v = match parent {
            Some(Parent::Root) => vec![Any::Root],
            Some(Parent::Element(e)) => vec![Any::Element(e)],
            None => Vec::new(),
        };
        assert(v@ =~= parent_nodes(doc, node));
        select_matching(doc, test, PrincipalNodeType::Element, &v, result);
    }
}

impl AxisChild {
    /// Appends the children of `node` that pass `test` to `result`.
    pub fn select_nodes(&self, doc: &Document, node: Any, test: &XPathNodeTest, result: &mut Nodeset)
        requires
            doc.wf(),
        ensures
            final(result)@ == old(result)@ + matching(
                doc,
                test,
                PrincipalNodeType::Element,
                child_nodes(doc, node),
            ),
    {
        let v = child_candidates(doc, node);
        select_matching(doc, test, PrincipalNodeType::Element, &v, result);
    }
}

impl AxisDescendant {
    /// Appends the descendants of `node` that pass `test` to `result`, in
    /// document order.
    pub fn select_nodes(&self, doc: &Document, node: Any, test: &XPathNodeTest, result: &mut Nodeset)
        requires
            doc.wf(),
        ensures
            final(result)@ == old(result)@ + matching(
                doc,
                test,
                PrincipalNodeType::Element,
                descendant_nodes(doc, node),
            ),
    {
        let v = child_candidates(doc, node);
        proof {
            doc.lemma_recorded_nodes_held();
        }
        let depth = doc.number_of_elements() + 1;
        push_descendants(doc, &v, depth, test, PrincipalNodeType::Element, result);
    }
}

impl AxisDescendantOrSelf {
    /// Appends `node` and then its descendants, those that pass `test`, to
    /// `result`.
    pub fn select_nodes(&self, doc: &Document, node: Any, test: &XPathNodeTest, result: &mut Nodeset)
        requires
            doc.wf(),
            doc.holds(node),
        ensures
            final(result)@ == old(result)@ + matching(
                doc,
                test,
                PrincipalNodeType::Element,
                seq![node] + descendant_nodes(doc, node),
            ),
    {
        AxisSelf.select_nodes(doc, node, test, result);
        self.descendant.select_nodes(doc, node, test, result);
        proof {
            lemma_matching_append(doc, test, PrincipalNodeType::Element, seq![node], descendant_nodes(doc, node));
        }
        assert(final(result)@ =~= old(result)@ + matching(
                doc,
                test,
                PrincipalNodeType::Element,
                seq![node] + descendant_nodes(doc, node),
            ));
    }
}

impl AxisAttribute {
    /// Appends the attributes of `node` that pass `test` to `result`.
    pub fn select_nodes(&self, doc: &Document, node: Any, test: &XPathNodeTest, result: &mut Nodeset)
        requires
            doc.wf(),
        ensures
            final(result)@ == old(result)@ + matching(
                doc,
                test,
                PrincipalNodeType::Attribute,
                attribute_nodes(doc, node),
            ),
    {
        proof {
            doc.lemma_recorded_nodes_held();
        }
        let mut v: Vec<Any> = Vec::new();
        if let Any::Element(e) = node {
            let attrs = doc.attributes(e);
            let mut k: usize = 0;
            while k < attrs.len()
                invariant
                    k <= attrs.len(),
                    v@ == attrs@.subrange(0, k as int).map_values(|a| Any::Attribute(a)),
                decreases attrs.len() - k,
            {
                v.push(Any::Attribute(attrs[k]));
                k = k + 1;
                assert(v@ =~= attrs@.subrange(0, k as int).map_values(|a| Any::Attribute(a)));
            }
            assert(attrs@.subrange(0, k as int) =~= attrs@);
        }
        assert(v@ =~= attribute_nodes(doc, node));
        assert forall|i: int| 0 <= i < v@.len() implies doc.holds(#[trigger] v@[i]) by {
            if let Any::Element(e) = node {
                assert(doc.holds_attribute(doc.attributes_of(e)[i]));
            }
        }
        select_matching(doc, test, PrincipalNodeType::Attribute, &v, result);
    }

    pub fn principal_node_type() -> (r: PrincipalNodeType)
        ensures
            r == PrincipalNodeType::Attribute,
    {
        PrincipalNodeType::Attribute
    }
}

/// The axes of a location step.
#[derive(Debug, Clone, Copy, PartialEq, Eq, Structural)]
pub enum Axis {
    SelfAxis,
    Parent,
    Child,
    Descendant,
    DescendantOrSelf,
    Attribute,
}

impl Axis {
    pub open spec fn principal(self) -> PrincipalNodeType {
        match self {
            Axis::Attribute => PrincipalNodeType::Attribute,
            _ => PrincipalNodeType::Element,
        }
    }

    /// The nodes the axis reaches from `node`, before any node test, in
    /// the order it reaches them.
    pub open spec fn reach(self, doc: &Document, node: Any) -> Seq<Any> {
        match self {
            Axis::SelfAxis => seq![node],
            Axis::Parent => parent_nodes(doc, node),
            Axis::Child => child_nodes(doc, node),
            Axis::Descendant => descendant_nodes(doc, node),
            Axis::DescendantOrSelf => seq![node] + descendant_nodes(doc, node),
            Axis::Attribute => attribute_nodes(doc, node),
        }
    }

    /// The node kind a bare name test selects on this axis.
    pub fn principal_node_type(&self) -> (r: PrincipalNodeType)
        ensures
            r == self.principal(),
    {
        match self {
            Axis::Attribute => PrincipalNodeType::Attribute,
            _ => PrincipalNodeType::Element,
        }
    }

    /// Appends to `result` the nodes the axis reaches from `node` that pass
    /// `test`, in order.
    pub fn select_nodes(&self, doc: &Document, node: Any, test: &XPathNodeTest, result: &mut Nodeset)
        requires
            doc.wf(),
            doc.holds(node),
        ensures
            final(result)@ == old(result)@ + matching(doc, test, self.principal(), self.reach(doc, node)),
    {
        match self {
            Axis::SelfAxis => AxisSelf.select_nodes(doc, node, test, result),
            Axis::Parent => AxisParent.select_nodes(doc, node, test, result),
            Axis::Child => AxisChild.select_nodes(doc, node, test, result),
            Axis::Descendant => AxisDescendant.select_nodes(doc, node, test, result),
            Axis::DescendantOrSelf => AxisDescendantOrSelf { descendant: AxisDescendant }.select_nodes(
                doc,
                node,
                test,
                result,
            ),
            Axis::Attribute => AxisAttribute.select_nodes(doc, node, test, result),
        }
    }
}

/// In a well-formed document, every node an axis reaches from a node of
/// the document is a node of the document.
pub proof fn lemma_reach_held(doc: &Document, axis: Axis, node: Any)
    requires
        doc.wf(),
        doc.holds(node),
    ensures
        all_held(doc, axis.reach(doc, node)),
{
    doc.lemma_recorded_nodes_held();
    let kids = child_nodes(doc, node);
    assert(all_held(doc, kids)) by {
        assert forall|i: int| 0 <= i < kids.len() implies doc.holds(#[trigger] kids[i]) by {
            match node {
                Any::Root => assert(doc.holds_child(doc.children_of(Parent::Root)[i])),
                Any::Element(e) => assert(doc.holds_child(doc.children_of(Parent::Element(e))[i])),
                _ => {},
            }
        }
    }
    lemma_descendants_held(doc, kids, doc.element_count() + 1);
    match axis {
        Axis::Parent => {
            let ps = parent_nodes(doc, node);
            assert forall|i: int| 0 <= i < ps.len() implies doc.holds(#[trigger] ps[i]) by {
                match node {
                    Any::Element(e) => assert(doc.parent_of(Child::Element(e)) is Some ==> doc.holds_parent(doc.parent_of(Child::Element(e))->0)),
                    Any::Text(t) => assert(doc.parent_of(Child::Text(t)) is Some ==> doc.holds_parent(doc.parent_of(Child::Text(t))->0)),
                    Any::Comment(c) => assert(doc.parent_of(Child::Comment(c)) is Some ==> doc.holds_parent(doc.parent_of(Child::Comment(c))->0)),
                    Any::ProcessingInstruction(x) => assert(doc.parent_of(Child::ProcessingInstruction(x)) is Some ==> doc.holds_parent(doc.parent_of(Child::ProcessingInstruction(x))->0)),
                    Any::Attribute(a) => assert(doc.holds_element(doc.attribute_owner(a))),
                    Any::Root => {},
                }
            }
        },
        Axis::DescendantOrSelf => {
            let d = descendant_nodes(doc, node);
            let all = seq![node] + d;
            assert forall|i: int| 0 <= i < all.len() implies doc.holds(#[trigger] all[i]) by {
                if i > 0 {
                    assert(all[i] == d[i - 1]);
                }
            }
        },
        Axis::Attribute => {
            let attrs = attribute_nodes(doc, node);
            assert forall|i: int| 0 <= i < attrs.len() implies doc.holds(#[trigger] attrs[i]) by {
                if let Any::Element(e) = node {
                    assert(doc.holds_attribute(doc.attributes_of(e)[i]));
                }
            }
        },
        _ => {},
    }
}

/// The axis named `name`, if XPath has one by that name here.
pub open spec fn axis_named(name: Seq<char>) -> Option<Axis> {
    if name == "self"@ {
        Some(Axis::SelfAxis)
    } else if name == "parent"@ {
        Some(Axis::Parent)
    } else if name == "child"@ {
        Some(Axis::Child)
    } else if name == "descendant"@ {
        Some(Axis::Descendant)
    } else if name == "descendant-or-self"@ {
        Some(Axis::DescendantOrSelf)
    } else if name == "attribute"@ {
        Some(Axis::Attribute)
    } else {
        None
    }
}

pub fn axis_for_name(name: &String) -> (r: Option<Axis>)
    ensures
        r == axis_named(name@),
{
    if *name == string_from("self") {
        Some(Axis::SelfAxis)
    } else if *name == string_from("parent") {
        Some(Axis::Parent)
    } else if *name == string_from("child") {
        Some(Axis::Child)
    } else if *name == string_from("descendant") {
        Some(Axis::Descendant)
    } else if *name == string_from("descendant-or-self") {
        Some(Axis::DescendantOrSelf)
    } else if *name == string_from("attribute") {
        Some(Axis::Attribute)
    } else {
        None
    }
}

/// The node test written `name()`, if XPath has one by that name.
pub open spec fn node_test_named(name: Seq<char>) -> Option<XPathNodeTest> {
    if name == "node"@ {
        Some(XPathNodeTest::Node)
    } else if name == "text"@ {
        Some(XPathNodeTest::Text)
    } else if name == "comment"@ {
        Some(XPathNodeTest::Comment)
    } else if name == "processing-instruction"@ {
        Some(XPathNodeTest::ProcessingInstruction(None))
    } else {
        None
    }
}

pub fn node_test_for_name(name: &String) -> (r: Option<XPathNodeTest>)
    ensures
        r == node_test_named(name@),
{
    if *name == string_from("node") {
        Some(XPathNodeTest::Node)
    } else if *name == string_from("text") {
        Some(XPathNodeTest::Text)
    } else if *name == string_from("comment") {
        Some(XPathNodeTest::Comment)
    } else if *name == string_from("processing-instruction") {
        Some(XPathNodeTest::ProcessingInstruction(None))
    } else {
        None
    }
}

} // verus!
