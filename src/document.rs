use vstd::prelude::*;

use crate::text::string_from;

verus! {

/// Handle of an element of a `Document`.
#[derive(Debug, Clone, Copy, PartialEq, Eq, Hash, Structural)]
pub struct ElementNode {
    i: usize,
}

/// Handle of an attribute of a `Document`.
#[derive(Debug, Clone, Copy, PartialEq, Eq, Hash, Structural)]
pub struct AttributeNode {
    i: usize,
}

/// Handle of a text node of a `Document`.
#[derive(Debug, Clone, Copy, PartialEq, Eq, Hash, Structural)]
pub struct TextNode {
    i: usize,
}

/// Handle of a comment of a `Document`.
#[derive(Debug, Clone, Copy, PartialEq, Eq, Hash, Structural)]
pub struct CommentNode {
    i: usize,
}

/// Handle of a processing instruction of a `Document`.
#[derive(Debug, Clone, Copy, PartialEq, Eq, Hash, Structural)]
pub struct ProcessingInstructionNode {
    i: usize,
}

impl ElementNode {
    pub closed spec fn index(self) -> int {
        self.i as int
    }
}

impl AttributeNode {
    pub closed spec fn index(self) -> int {
        self.i as int
    }
}

impl TextNode {
    pub closed spec fn index(self) -> int {
        self.i as int
    }
}

impl CommentNode {
    pub closed spec fn index(self) -> int {
        self.i as int
    }
}

impl ProcessingInstructionNode {
    pub closed spec fn index(self) -> int {
        self.i as int
    }
}

/// A node that can have children.
#[derive(Debug, Clone, Copy, PartialEq, Eq, Hash, Structural)]
pub enum Parent {
    Root,
    Element(ElementNode),
}

impl Parent {
    pub fn element(&self) -> (r: Option<ElementNode>)
        ensures
            r == (match *self {
                Parent::Element(e) => Some(e),
                Parent::Root => None::<ElementNode>,
            }),
    {
        match self {
            Parent::Element(e) => Some(*e),
            Parent::Root => None,
        }
    }
}

/// A node that can be a child.
#[derive(Debug, Clone, Copy, PartialEq, Eq, Hash, Structural)]
pub enum Child {
    Element(ElementNode),
    Text(TextNode),
    Comment(CommentNode),
    ProcessingInstruction(ProcessingInstructionNode),
}

impl Child {
    pub fn element(&self) -> (r: Option<ElementNode>)
        ensures
            r == (match *self {
                Child::Element(e) => Some(e),
                _ => None::<ElementNode>,
            }),
    {
        match self {
            Child::Element(e) => Some(*e),
            _ => None,
        }
    }

    pub fn text(&self) -> (r: Option<TextNode>)
        ensures
            r == (match *self {
                Child::Text(t) => Some(t),
                _ => None::<TextNode>,
            }),
    {
        match self {
            Child::Text(t) => Some(*t),
            _ => None,
        }
    }

    pub fn comment(&self) -> (r: Option<CommentNode>)
        ensures
            r == (match *self {
                Child::Comment(c) => Some(c),
                _ => None::<CommentNode>,
            }),
    {
        match self {
            Child::Comment(c) => Some(*c),
            _ => None,
        }
    }

    pub fn processing_instruction(&self) -> (r: Option<ProcessingInstructionNode>)
        ensures
            r == (match *self {
                Child::ProcessingInstruction(p) => Some(p),
                _ => None::<ProcessingInstructionNode>,
            }),
    {
        match self {
            Child::ProcessingInstruction(p) => Some(*p),
            _ => None,
        }
    }
}

/// Any node of a document.
#[derive(Debug, Clone, Copy, PartialEq, Eq, Hash, Structural)]
pub enum Any {
    Root,
    Element(ElementNode),
    Attribute(AttributeNode),
    Text(TextNode),
    Comment(CommentNode),
    ProcessingInstruction(ProcessingInstructionNode),
}

impl Any {
    pub fn element(&self) -> (r: Option<ElementNode>)
        ensures
            r == (match *self {
                Any::Element(e) => Some(e),
                _ => None::<ElementNode>,
            }),
    {
        match self {
            Any::Element(e) => Some(*e),
            _ => None,
        }
    }

    pub fn attribute(&self) -> (r: Option<AttributeNode>)
        ensures
            r == (match *self {
                Any::Attribute(a) => Some(a),
                _ => None::<AttributeNode>,
            }),
    {
        match self {
            Any::Attribute(a) => Some(*a),
            _ => None,
        }
    }

    pub fn text(&self) -> (r: Option<TextNode>)
        ensures
            r == (match *self {
                Any::Text(t) => Some(t),
                _ => None::<TextNode>,
            }),
    {
        match self {
            Any::Text(t) => Some(*t),
            _ => None,
        }
    }
}

pub open spec fn parent_as_any(p: Parent) -> Any {
    match p {
        Parent::Root => Any::Root,
        Parent::Element(e) => Any::Element(e),
    }
}

pub open spec fn child_as_any(c: Child) -> Any {
    match c {
        Child::Element(e) => Any::Element(e),
        Child::Text(t) => Any::Text(t),
        Child::Comment(c) => Any::Comment(c),
        Child::ProcessingInstruction(p) => Any::ProcessingInstruction(p),
    }
}

/// The root of a document, as a handle: the parent of the outermost
/// element and of top-level comments and processing instructions.
#[derive(Debug, Clone, Copy, PartialEq, Eq, Hash, Structural)]
pub struct Root;

pub trait ToParent {
    spec fn as_parent(&self) -> Parent;

    fn to_parent(&self) -> (r: Parent)
        ensures
            r == self.as_parent(),
    ;
}

impl ToParent for Parent {
    open spec fn as_parent(&self) -> Parent {
        *self
    }

    fn to_parent(&self) -> Parent {
        *self
    }
}

impl ToParent for Root {
    open spec fn as_parent(&self) -> Parent {
        Parent::Root
    }

    fn to_parent(&self) -> Parent {
        Parent::Root
    }
}

impl ToParent for ElementNode {
    open spec fn as_parent(&self) -> Parent {
        Parent::Element(*self)
    }

    fn to_parent(&self) -> Parent {
        Parent::Element(*self)
    }
}

pub trait ToChild {
    spec fn as_child(&self) -> Child;

    fn to_child(&self) -> (r: Child)
        ensures
            r == self.as_child(),
    ;
}

impl ToChild for Child {
    open spec fn as_child(&self) -> Child {
        *self
    }

    fn to_child(&self) -> Child {
        *self
    }
}

impl ToChild for ElementNode {
    open spec fn as_child(&self) -> Child {
        Child::Element(*self)
    }

    fn to_child(&self) -> Child {
        Child::Element(*self)
    }
}

impl ToChild for TextNode {
    open spec fn as_child(&self) -> Child {
        Child::Text(*self)
    }

    fn to_child(&self) -> Child {
        Child::Text(*self)
    }
}

impl ToChild for CommentNode {
    open spec fn as_child(&self) -> Child {
        Child::Comment(*self)
    }

    fn to_child(&self) -> Child {
        Child::Comment(*self)
    }
}

impl ToChild for ProcessingInstructionNode {
    open spec fn as_child(&self) -> Child {
        Child::ProcessingInstruction(*self)
    }

    fn to_child(&self) -> Child {
        Child::ProcessingInstruction(*self)
    }
}

pub trait ToAny {
    spec fn as_any(&self) -> Any;

    fn to_any(&self) -> (r: Any)
        ensures
            r == self.as_any(),
    ;
}

impl ToAny for Any {
    open spec fn as_any(&self) -> Any {
        *self
    }

    fn to_any(&self) -> Any {
        *self
    }
}

impl ToAny for Root {
    open spec fn as_any(&self) -> Any {
        Any::Root
    }

    fn to_any(&self) -> Any {
        Any::Root
    }
}

impl ToAny for ElementNode {
    open spec fn as_any(&self) -> Any {
        Any::Element(*self)
    }

    fn to_any(&self) -> Any {
        Any::Element(*self)
    }
}

impl ToAny for AttributeNode {
    open spec fn as_any(&self) -> Any {
        Any::Attribute(*self)
    }

    fn to_any(&self) -> Any {
        Any::Attribute(*self)
    }
}

impl ToAny for TextNode {
    open spec fn as_any(&self) -> Any {
        Any::Text(*self)
    }

    fn to_any(&self) -> Any {
        Any::Text(*self)
    }
}

impl ToAny for CommentNode {
    open spec fn as_any(&self) -> Any {
        Any::Comment(*self)
    }

    fn to_any(&self) -> Any {
        Any::Comment(*self)
    }
}

impl ToAny for ProcessingInstructionNode {
    open spec fn as_any(&self) -> Any {
        Any::ProcessingInstruction(*self)
    }

    fn to_any(&self) -> Any {
        Any::ProcessingInstruction(*self)
    }
}

/// The data of an element.
#[derive(Debug)]
pub struct Element {
    name: String,
}

impl Element {
    pub closed spec fn name_view(&self) -> Seq<char> {
        self.name@
    }

    pub fn name(&self) -> (r: &str)
        ensures
            r@ == self.name_view(),
    {
        self.name.as_str()
    }

    pub fn set_name(&mut self, name: &str)
        ensures
            final(self).name_view() == name@,
    {
        self.name = string_from(name);
    }
}

/// The data of an attribute.
#[derive(Debug)]
pub struct Attribute {
    name: String,
    value: String,
    owner: ElementNode,
}

impl Attribute {
    pub closed spec fn name_view(&self) -> Seq<char> {
        self.name@
    }

    pub closed spec fn value_view(&self) -> Seq<char> {
        self.value@
    }

    pub closed spec fn owner_view(&self) -> ElementNode {
        self.owner
    }

    pub fn name(&self) -> (r: &str)
        ensures
            r@ == self.name_view(),
    {
        self.name.as_str()
    }

    pub fn value(&self) -> (r: &str)
        ensures
            r@ == self.value_view(),
    {
        self.value.as_str()
    }
}

/// The data of a text node.
#[derive(Debug)]
pub struct Text {
    value: String,
}

impl Text {
    pub closed spec fn value_view(&self) -> Seq<char> {
        self.value@
    }

    pub fn value(&self) -> (r: &str)
        ensures
            r@ == self.value_view(),
    {
        self.value.as_str()
    }

    pub fn set_value(&mut self, value: &str)
        ensures
            final(self).value_view() == value@,
    {
        self.value = string_from(value);
    }
}

/// The data of a comment.
#[derive(Debug)]
pub struct Comment {
    text: String,
}

impl Comment {
    pub closed spec fn text_view(&self) -> Seq<char> {
        self.text@
    }

    pub fn text(&self) -> (r: &str)
        ensures
            r@ == self.text_view(),
    {
        self.text.as_str()
    }
}

/// The data of a processing instruction.
#[derive(Debug)]
pub struct ProcessingInstruction {
    target: String,
    value: Option<String>,
}

impl ProcessingInstruction {
    pub closed spec fn target_view(&self) -> Seq<char> {
        self.target@
    }

    pub closed spec fn value_view(&self) -> Option<Seq<char>> {
        match self.value {
            Some(v) => Some(v@),
            None => None,
        }
    }

    pub fn target(&self) -> (r: &str)
        ensures
            r@ == self.target_view(),
    {
        self.target.as_str()
    }

    pub fn value(&self) -> (r: Option<&str>)
        ensures
            match r {
                Some(v) => self.value_view() == Some(v@),
                None => self.value_view() is None,
            },
    {
        match &self.value {
            Some(v) => Some(v.as_str()),
            None => None,
        }
    }
}


// ---------------------------------------------------------------------
// Parent/child links

/// The children of `p` recorded in `links`, in order.
pub open spec fn children_in(links: Seq<(Parent, Child)>, p: Parent) -> Seq<Child>
    decreases links.len(),
{
    if links.len() == 0 {
        seq![]
    } else {
        (if links[0].0 == p {
            seq![links[0].1]
        } else {
            seq![]
        }) + children_in(links.drop_first(), p)
    }
}

/// The parent of `c` recorded in `links`.
pub open spec fn parent_in(links: Seq<(Parent, Child)>, c: Child) -> Option<Parent>
    decreases links.len(),
{
    if links.len() == 0 {
        None
    } else if links[0].1 == c {
        Some(links[0].0)
    } else {
        parent_in(links.drop_first(), c)
    }
}

/// `s` without the first occurrence of `x`.
pub open spec fn remove_first<T>(s: Seq<T>, x: T) -> Seq<T>
    decreases s.len(),
{
    if s.len() == 0 {
        s
    } else if s[0] == x {
        s.drop_first()
    } else {
        seq![s[0]] + remove_first(s.drop_first(), x)
    }
}

pub open spec fn unique_children(links: Seq<(Parent, Child)>) -> bool {
    forall|i: int, j: int| 0 <= i < j < links.len() ==> links[i].1 != links[j].1
}

proof fn lemma_children_in_append(a: Seq<(Parent, Child)>, b: Seq<(Parent, Child)>, p: Parent)
    ensures
        children_in(a + b, p) == children_in(a, p) + children_in(b, p),
    decreases a.len(),
{
    if a.len() == 0 {
        assert(a + b =~= b);
        assert(seq![] + children_in(b, p) =~= children_in(b, p));
    } else {
        assert((a + b).drop_first() =~= a.drop_first() + b);
        lemma_children_in_append(a.drop_first(), b, p);
        assert((a + b)[0] == a[0]);
        let head = if a[0].0 == p {
            seq![a[0].1]
        } else {
            seq![]
        };
        assert(head + (children_in(a.drop_first(), p) + children_in(b, p)) =~= (head
            + children_in(a.drop_first(), p)) + children_in(b, p));
    }
}

proof fn lemma_children_in_members(links: Seq<(Parent, Child)>, p: Parent, c: Child)
    requires
        children_in(links, p).contains(c),
    ensures
        exists|k: int| 0 <= k < links.len() && links[k].1 == c && links[k].0 == p,
    decreases links.len(),
{
    if links.len() > 0 {
        if links[0].0 == p && links[0].1 == c {
            assert(links[0].1 == c);
        } else {
            let head = if links[0].0 == p {
                seq![links[0].1]
            } else {
                seq![]
            };
            let i = choose|i: int| 0 <= i < children_in(links, p).len() && children_in(links, p)[i] == c;
            assert(children_in(links, p) == head + children_in(links.drop_first(), p));
            assert(i >= head.len());
            assert(children_in(links.drop_first(), p)[i - head.len()] == c);
            lemma_children_in_members(links.drop_first(), p, c);
            let k = choose|k: int| 0 <= k < links.drop_first().len() && links.drop_first()[k].1 == c && links.drop_first()[k].0 == p;
            assert(links[k + 1].1 == c);
        }
    }
}

proof fn lemma_remove_first_absent<T>(s: Seq<T>, x: T)
    requires
        !s.contains(x),
    ensures
        remove_first(s, x) == s,
    decreases s.len(),
{
    if s.len() > 0 {
        assert(!s.drop_first().contains(x)) by {
            if s.drop_first().contains(x) {
                let i = choose|i: int| 0 <= i < s.drop_first().len() && s.drop_first()[i] == x;
                assert(s[i + 1] == x);
            }
        }
        lemma_remove_first_absent(s.drop_first(), x);
        assert(seq![s[0]] + s.drop_first() =~= s);
    }
}

proof fn lemma_remove_first_append<T>(a: Seq<T>, b: Seq<T>, x: T)
    requires
        !a.contains(x),
    ensures
        remove_first(a + b, x) == a + remove_first(b, x),
    decreases a.len(),
{
    if a.len() == 0 {
        assert(a + b =~= b);
        assert(a + remove_first(b, x) =~= remove_first(b, x));
    } else {
        assert((a + b)[0] == a[0]);
        assert(a[0] != x);
        assert((a + b).drop_first() =~= a.drop_first() + b);
        assert(!a.drop_first().contains(x)) by {
            if a.drop_first().contains(x) {
                let i = choose|i: int| 0 <= i < a.drop_first().len() && a.drop_first()[i] == x;
                assert(a[i + 1] == x);
            }
        }
        lemma_remove_first_append(a.drop_first(), b, x);
        assert(seq![a[0]] + (a.drop_first() + remove_first(b, x)) =~= a + remove_first(b, x));
    }
}

/// Children of `p` in `links` that are `c` come only from links naming `c`.
proof fn lemma_children_in_without(links: Seq<(Parent, Child)>, p: Parent, c: Child)
    requires
        forall|k: int| 0 <= k < links.len() ==> links[k].1 != c,
    ensures
        !children_in(links, p).contains(c),
{
    if children_in(links, p).contains(c) {
        lemma_children_in_members(links, p, c);
    }
}

proof fn lemma_parent_in_split(a: Seq<(Parent, Child)>, b: Seq<(Parent, Child)>, c: Child)
    requires
        forall|k: int| 0 <= k < a.len() ==> a[k].1 != c,
    ensures
        parent_in(a + b, c) == parent_in(b, c),
    decreases a.len(),
{
    if a.len() == 0 {
        assert(a + b =~= b);
    } else {
        assert((a + b)[0] == a[0]);
        assert((a + b).drop_first() =~= a.drop_first() + b);
        lemma_parent_in_split(a.drop_first(), b, c);
    }
}

/// Removing the one link of `c` takes `c` out of its parent's children and
/// leaves every other parent and child as it was.
proof fn lemma_remove_link(links: Seq<(Parent, Child)>, k: int, c: Child)
    requires
        unique_children(links),
        0 <= k < links.len(),
        links[k].1 == c,
    ensures
        forall|q: Parent| #[trigger]
            children_in(links.remove(k), q) == remove_first(children_in(links, q), c),
        forall|d: Child| d != c ==> #[trigger] parent_in(links.remove(k), d) == parent_in(links, d),
        parent_in(links, c) == Some(links[k].0),
        parent_in(links.remove(k), c) is None,
        unique_children(links.remove(k)),
{
    let a = links.subrange(0, k);
    let x = seq![links[k]];
    let b = links.subrange(k + 1, links.len() as int);
    assert(links =~= a + x + b);
    assert(links.remove(k) =~= a + b);
    assert forall|q: Parent| #[trigger]
        children_in(links.remove(k), q) == remove_first(children_in(links, q), c) by {
        lemma_children_in_append(a + x, b, q);
        lemma_children_in_append(a, x, q);
        lemma_children_in_append(a, b, q);
        lemma_children_in_without(a, q, c);
        lemma_children_in_without(b, q, c);
        let cx = children_in(x, q);
        assert(x.drop_first() =~= seq![]);
        assert(children_in(x.drop_first(), q) =~= seq![]);
        assert(x[0] == links[k]);
        lemma_remove_first_append(children_in(a, q), cx + children_in(b, q), c);
        assert(children_in(a, q) + cx + children_in(b, q) =~= children_in(a, q) + (cx
            + children_in(b, q)));
        if links[k].0 == q {
            assert(cx =~= seq![c]);
            assert((cx + children_in(b, q)).drop_first() =~= children_in(b, q));
        } else {
            assert(cx =~= seq![]);
            assert(cx + children_in(b, q) =~= children_in(b, q));
            lemma_remove_first_absent(children_in(b, q), c);
        }
    }
    assert forall|d: Child| d != c implies #[trigger] parent_in(links.remove(k), d) == parent_in(
        links,
        d,
    ) by {
        lemma_parent_in_split_any(a, b, d);
        lemma_parent_in_split_any(a, x + b, d);
        assert(a + x + b =~= a + (x + b));
        assert((x + b)[0] == links[k]);
        assert((x + b).drop_first() =~= b);
    }
    lemma_parent_in_split(a, x + b, c);
    assert(a + x + b =~= a + (x + b));
    assert((x + b)[0] == links[k]);
    lemma_parent_in_split(a, b, c);
    assert forall|m: int| 0 <= m < b.len() implies b[m].1 != c by {
        assert(b[m] == links[k + 1 + m]);
    }
    lemma_parent_none(b, c);
}

proof fn lemma_parent_none(b: Seq<(Parent, Child)>, c: Child)
    requires
        forall|m: int| 0 <= m < b.len() ==> b[m].1 != c,
    ensures
        parent_in(b, c) is None,
    decreases b.len(),
{
    if b.len() > 0 {
        lemma_parent_none(b.drop_first(), c);
    }
}

/// Where `a` does not name `d` ... or does: the first link wins.
proof fn lemma_parent_in_split_any(a: Seq<(Parent, Child)>, b: Seq<(Parent, Child)>, d: Child)
    ensures
        parent_in(a + b, d) == (if parent_in(a, d) is Some {
            parent_in(a, d)
        } else {
            parent_in(b, d)
        }),
    decreases a.len(),
{
    if a.len() == 0 {
        assert(a + b =~= b);
    } else {
        assert((a + b)[0] == a[0]);
        assert((a + b).drop_first() =~= a.drop_first() + b);
        lemma_parent_in_split_any(a.drop_first(), b, d);
    }
}


// ---------------------------------------------------------------------
// The document

/// The attributes owned by `e` among the first `n` of `attrs`, in order.
pub open spec fn owned_attributes(attrs: Seq<ElementNode>, e: ElementNode, n: int) -> Seq<int>
    decreases n,
{
    if n <= 0 {
        seq![]
    } else {
        owned_attributes(attrs, e, n - 1) + (if attrs[n - 1] == e {
            seq![n - 1]
        } else {
            seq![]
        })
    }
}

proof fn lemma_owned_prefix(a: Seq<ElementNode>, b: Seq<ElementNode>, e: ElementNode, n: int)
    requires
        0 <= n <= a.len(),
        n <= b.len(),
        a.subrange(0, n) == b.subrange(0, n),
    ensures
        owned_attributes(a, e, n) == owned_attributes(b, e, n),
    decreases n,
{
    if n > 0 {
        assert(a.subrange(0, n - 1) =~= a.subrange(0, n).subrange(0, n - 1));
        assert(b.subrange(0, n - 1) =~= b.subrange(0, n).subrange(0, n - 1));
        assert(a[n - 1] == a.subrange(0, n)[n - 1]);
        assert(b[n - 1] == b.subrange(0, n)[n - 1]);
        lemma_owned_prefix(a, b, e, n - 1);
    }
}

proof fn lemma_owned_below(a: Seq<ElementNode>, e: ElementNode, n: int)
    requires
        0 <= n <= a.len(),
    ensures
        forall|i: int|
            0 <= i < owned_attributes(a, e, n).len() ==> 0 <= #[trigger] owned_attributes(a, e, n)[i]
                < n,
    decreases n,
{
    if n > 0 {
        lemma_owned_below(a, e, n - 1);
        let prev = owned_attributes(a, e, n - 1);
        let tail = if a[n - 1] == e {
            seq![n - 1]
        } else {
            seq![]
        };
        assert(owned_attributes(a, e, n) == prev + tail);
        assert forall|i: int| 0 <= i < owned_attributes(a, e, n).len() implies 0
            <= #[trigger] owned_attributes(a, e, n)[i] < n by {
            if i < prev.len() {
                assert(owned_attributes(a, e, n)[i] == prev[i]);
            } else {
                assert(owned_attributes(a, e, n)[i] == tail[i - prev.len()]);
            }
        }
    }
}

proof fn lemma_parent_in_child_member(links: Seq<(Parent, Child)>, c: Child)
    ensures
        parent_in(links, c) is Some ==> exists|k: int| 0 <= k < links.len() && links[k].1 == c,
    decreases links.len(),
{
    if links.len() > 0 && links[0].1 != c {
        lemma_parent_in_child_member(links.drop_first(), c);
        if parent_in(links, c) is Some {
            let k = choose|k: int| 0 <= k < links.drop_first().len() && links.drop_first()[k].1 == c;
            assert(links[k + 1].1 == c);
        }
    }
}

proof fn lemma_parent_in_member(links: Seq<(Parent, Child)>, c: Child)
    ensures
        parent_in(links, c) is Some ==> exists|k: int|
            0 <= k < links.len() && #[trigger] links[k].0 == parent_in(links, c)->0,
    decreases links.len(),
{
    if links.len() > 0 && links[0].1 != c {
        lemma_parent_in_member(links.drop_first(), c);
        if parent_in(links, c) is Some {
            let p = parent_in(links, c)->0;
            let k = choose|k: int| 0 <= k < links.drop_first().len() && #[trigger] links.drop_first()[k].0 == p;
            assert(links[k + 1].0 == p);
        }
    }
}

proof fn lemma_parent_in_found(links: Seq<(Parent, Child)>, c: Child, k: int)
    requires
        0 <= k < links.len(),
        links[k].1 == c,
    ensures
        parent_in(links, c) is Some,
    decreases links.len(),
{
    if links[0].1 != c {
        assert(links.drop_first()[k - 1] == links[k]);
        lemma_parent_in_found(links.drop_first(), c, k - 1);
    }
}

/// An arena of nodes: elements, attributes, texts, comments and processing
/// instructions, referred to by handles, with a root above the outermost
/// nodes.
pub struct Document {
    elements: Vec<Element>,
    attributes: Vec<Attribute>,
    texts: Vec<Text>,
    comments: Vec<Comment>,
    instructions: Vec<ProcessingInstruction>,
    links: Vec<(Parent, Child)>,
}

impl Document {
    pub closed spec fn holds_element(&self, e: ElementNode) -> bool {
        e.i < self.elements.len()
    }

    pub closed spec fn holds_attribute(&self, a: AttributeNode) -> bool {
        a.i < self.attributes.len()
    }

    pub closed spec fn holds_text(&self, t: TextNode) -> bool {
        t.i < self.texts.len()
    }

    pub closed spec fn holds_comment(&self, c: CommentNode) -> bool {
        c.i < self.comments.len()
    }

    pub closed spec fn holds_instruction(&self, p: ProcessingInstructionNode) -> bool {
        p.i < self.instructions.len()
    }

    pub open spec fn holds_parent(&self, p: Parent) -> bool {
        match p {
            Parent::Root => true,
            Parent::Element(e) => self.holds_element(e),
        }
    }

    pub open spec fn holds_child(&self, c: Child) -> bool {
        match c {
            Child::Element(e) => self.holds_element(e),
            Child::Text(t) => self.holds_text(t),
            Child::Comment(x) => self.holds_comment(x),
            Child::ProcessingInstruction(p) => self.holds_instruction(p),
        }
    }

    pub open spec fn holds(&self, n: Any) -> bool {
        match n {
            Any::Root => true,
            Any::Element(e) => self.holds_element(e),
            Any::Attribute(a) => self.holds_attribute(a),
            Any::Text(t) => self.holds_text(t),
            Any::Comment(c) => self.holds_comment(c),
            Any::ProcessingInstruction(p) => self.holds_instruction(p),
        }
    }

    /// The children of `p`, in document order.
    pub closed spec fn children_of(&self, p: Parent) -> Seq<Child> {
        children_in(self.links@, p)
    }

    /// The parent of `c`, if it has been given one.
    pub closed spec fn parent_of(&self, c: Child) -> Option<Parent> {
        parent_in(self.links@, c)
    }

    pub closed spec fn element_name(&self, e: ElementNode) -> Seq<char> {
        self.elements@[e.i as int].name@
    }

    pub closed spec fn attribute_name(&self, a: AttributeNode) -> Seq<char> {
        self.attributes@[a.i as int].name@
    }

    pub closed spec fn attribute_value(&self, a: AttributeNode) -> Seq<char> {
        self.attributes@[a.i as int].value@
    }

    /// The element that owns `a`.
    pub closed spec fn attribute_owner(&self, a: AttributeNode) -> ElementNode {
        self.attributes@[a.i as int].owner
    }

    pub closed spec fn text_value(&self, t: TextNode) -> Seq<char> {
        self.texts@[t.i as int].value@
    }

    pub closed spec fn comment_text(&self, c: CommentNode) -> Seq<char> {
        self.comments@[c.i as int].text@
    }

    pub closed spec fn instruction_target(&self, p: ProcessingInstructionNode) -> Seq<char> {
        self.instructions@[p.i as int].target@
    }

    pub closed spec fn instruction_value(&self, p: ProcessingInstructionNode) -> Option<Seq<char>> {
        self.instructions@[p.i as int].value_view()
    }

    pub closed spec fn attribute_owners(&self) -> Seq<ElementNode> {
        self.attributes@.map_values(|a: Attribute| a.owner)
    }

    /// The attributes of `e`, in the order they were first set.
    pub closed spec fn attributes_of(&self, e: ElementNode) -> Seq<AttributeNode> {
        owned_attributes(self.attribute_owners(), e, self.attributes.len() as int).map_values(
            |i: int| AttributeNode { i: i as usize },
        )
    }

    /// The attribute of `e` named `name`, if there is one.
    pub closed spec fn attribute_named(&self, e: ElementNode, name: Seq<char>) -> Option<
        AttributeNode,
    > {
        if exists|k: int|
            0 <= k < self.attributes.len() && self.attributes@[k].owner == e
                && self.attributes@[k].name@ == name {
            Some(
                AttributeNode {
                    i: (choose|k: int|
                        0 <= k < self.attributes.len() && self.attributes@[k].owner == e
                            && self.attributes@[k].name@ == name) as usize,
                },
            )
        } else {
            None
        }
    }

    /// Every handle recorded in the document is valid; each child has at
    /// most one parent; an element has at most one attribute of each name.
    pub closed spec fn wf(&self) -> bool {
        &&& self.elements.len() < usize::MAX
        &&& unique_children(self.links@)
        &&& forall|k: int|
            0 <= k < self.links.len() ==> self.holds_parent(#[trigger] self.links@[k].0)
                && self.holds_child(self.links@[k].1)
        &&& forall|k: int|
            0 <= k < self.attributes.len() ==> self.holds_element(
                #[trigger] self.attributes@[k].owner,
            )
        &&& forall|j: int, k: int|
            0 <= j < k < self.attributes.len() && self.attributes@[j].owner
                == self.attributes@[k].owner ==> #[trigger] self.attributes@[j].name@
                != #[trigger] self.attributes@[k].name@
    }

    /// The tree (which node is a child of which) is the same in both.
    pub closed spec fn same_tree(&self, other: &Document) -> bool {
        self.links@ == other.links@
    }

    /// Both hold the same nodes with the same data.
    pub closed spec fn same_nodes(&self, other: &Document) -> bool {
        &&& self.elements@ == other.elements@
        &&& self.attributes@ == other.attributes@
        &&& self.texts@ == other.texts@
        &&& self.comments@ == other.comments@
        &&& self.instructions@ == other.instructions@
    }

    pub closed spec fn same_attributes(&self, other: &Document) -> bool {
        self.attributes@ == other.attributes@
    }

    pub closed spec fn same_elements(&self, other: &Document) -> bool {
        self.elements@ == other.elements@
    }

    pub closed spec fn same_texts(&self, other: &Document) -> bool {
        self.texts@ == other.texts@
    }

    /// Both hold the same number of nodes of each kind.
    pub closed spec fn same_counts(&self, other: &Document) -> bool {
        &&& self.elements@.len() == other.elements@.len()
        &&& self.attributes@.len() == other.attributes@.len()
        &&& self.texts@.len() == other.texts@.len()
        &&& self.comments@.len() == other.comments@.len()
        &&& self.instructions@.len() == other.instructions@.len()
    }

    /// Every node of `other` is held here too, with the same data.
    pub closed spec fn extends(&self, other: &Document) -> bool {
        &&& other.elements@.len() <= self.elements@.len()
        &&& other.attributes@.len() <= self.attributes@.len()
        &&& other.texts@.len() <= self.texts@.len()
        &&& other.comments@.len() <= self.comments@.len()
        &&& other.instructions@.len() <= self.instructions@.len()
        &&& forall|i: int| 0 <= i < other.elements@.len() ==> self.elements@[i] == other.elements@[i]
        &&& forall|i: int| 0 <= i < other.texts@.len() ==> self.texts@[i] == other.texts@[i]
        &&& forall|i: int| 0 <= i < other.comments@.len() ==> self.comments@[i] == other.comments@[i]
        &&& forall|i: int|
            0 <= i < other.instructions@.len() ==> self.instructions@[i] == other.instructions@[i]
    }

    /// Adding nodes, or changing their data, keeps a document well formed.
    proof fn lemma_wf_grows(old_doc: &Document, new_doc: &Document)
        requires
            old_doc.wf(),
            new_doc.links@ == old_doc.links@,
            new_doc.attributes@.len() == old_doc.attributes@.len(),
            forall|k: int|
                0 <= k < new_doc.attributes.len() ==> (#[trigger] new_doc.attributes@[k]).owner
                    == old_doc.attributes@[k].owner && new_doc.attributes@[k].name@
                    == old_doc.attributes@[k].name@,
            old_doc.elements.len() <= new_doc.elements.len(),
            new_doc.elements.len() < usize::MAX,
            old_doc.texts.len() <= new_doc.texts.len(),
            old_doc.comments.len() <= new_doc.comments.len(),
            old_doc.instructions.len() <= new_doc.instructions.len(),
        ensures
            new_doc.wf(),
    {
        assert forall|k: int| 0 <= k < new_doc.links.len() implies new_doc.holds_parent(
            #[trigger] new_doc.links@[k].0,
        ) && new_doc.holds_child(new_doc.links@[k].1) by {
            assert(old_doc.holds_parent(old_doc.links@[k].0));
            assert(old_doc.holds_child(old_doc.links@[k].1));
        }
        assert forall|k: int| 0 <= k < new_doc.attributes.len() implies new_doc.holds_element(
            #[trigger] new_doc.attributes@[k].owner,
        ) by {
            assert(old_doc.holds_element(old_doc.attributes@[k].owner));
        }
        assert forall|j: int, k: int|
            0 <= j < k < new_doc.attributes.len() && new_doc.attributes@[j].owner
                == new_doc.attributes@[k].owner implies #[trigger] new_doc.attributes@[j].name@
            != #[trigger] new_doc.attributes@[k].name@ by {
            assert(old_doc.attributes@[j].name@ != old_doc.attributes@[k].name@);
        }
    }

    /// The nodes that a well-formed document records are all held in it.
    pub proof fn lemma_recorded_nodes_held(&self)
        requires
            self.wf(),
        ensures
            forall|p: Parent, i: int|
                0 <= i < self.children_of(p).len() ==> self.holds_child(
                    #[trigger] self.children_of(p)[i],
                ),
            forall|c: Child| #[trigger]
                self.parent_of(c) is Some ==> self.holds_parent(self.parent_of(c)->0),
            forall|e: ElementNode, i: int|
                0 <= i < self.attributes_of(e).len() ==> self.holds_attribute(
                    #[trigger] self.attributes_of(e)[i],
                ),
            forall|a: AttributeNode| #[trigger]
                self.holds_attribute(a) ==> self.holds_element(self.attribute_owner(a)),
            self.element_count() < usize::MAX,
    {
        assert forall|p: Parent, i: int|
            0 <= i < self.children_of(p).len() implies self.holds_child(
            #[trigger] self.children_of(p)[i],
        ) by {
            let c = self.children_of(p)[i];
            assert(self.children_of(p).contains(c));
            lemma_children_in_members(self.links@, p, c);
        }
        assert forall|c: Child| #[trigger] self.parent_of(c) is Some implies self.holds_parent(
            self.parent_of(c)->0,
        ) by {
            lemma_parent_in_member(self.links@, c);
        }
        assert forall|e: ElementNode, i: int|
            0 <= i < self.attributes_of(e).len() implies self.holds_attribute(
            #[trigger] self.attributes_of(e)[i],
        ) by {
            lemma_owned_below(self.attribute_owners(), e, self.attributes.len() as int);
        }
    }

    /// Growing a document keeps the nodes it held.
    pub proof fn lemma_extends_holds(&self, older: &Document)
        requires
            self.extends(older),
        ensures
            forall|e: ElementNode| older.holds_element(e) ==> #[trigger] self.holds_element(e),
            forall|n: Any| older.holds(n) ==> #[trigger] self.holds(n),
            forall|c: Child| older.holds_child(c) ==> #[trigger] self.holds_child(c),
    {
    }

    /// Documents with the same tree have the same children and parents.
    pub proof fn lemma_same_tree(&self, other: &Document)
        requires
            self.same_tree(other),
        ensures
            forall|q: Parent| #[trigger] self.children_of(q) == other.children_of(q),
            forall|d: Child| #[trigger] self.parent_of(d) == other.parent_of(d),
    {
    }

    pub proof fn lemma_extends_trans(&self, middle: &Document, older: &Document)
        requires
            self.extends(middle),
            middle.extends(older),
        ensures
            self.extends(older),
    {
    }

    pub proof fn lemma_extends_refl(&self)
        ensures
            self.extends(self),
    {
    }

    pub proof fn lemma_same_nodes_extends(&self, older: &Document)
        requires
            self.same_nodes(older),
        ensures
            self.extends(older),
    {
    }

    /// A node the document does not hold has no parent in it.
    pub proof fn lemma_unheld_has_no_parent(&self, c: Child)
        requires
            self.wf(),
            !self.holds_child(c),
        ensures
            self.parent_of(c) is None,
    {
        if self.parent_of(c) is Some {
            lemma_parent_in_child_member(self.links@, c);
            let k = choose|k: int| 0 <= k < self.links.len() && self.links@[k].1 == c;
            assert(self.holds_parent(self.links@[k].0));
            assert(self.holds_child(self.links@[k].1));
        }
    }

    /// A node without a parent is nobody's child.
    pub proof fn lemma_parentless_not_listed(&self, c: Child)
        requires
            self.wf(),
            self.parent_of(c) is None,
        ensures
            forall|q: Parent| !(#[trigger] self.children_of(q)).contains(c),
            forall|q: Parent| remove_first(#[trigger] self.children_of(q), c) == self.children_of(q),
    {
        assert forall|q: Parent| !(#[trigger] self.children_of(q)).contains(c) by {
            if self.children_of(q).contains(c) {
                lemma_children_in_members(self.links@, q, c);
                let k = choose|k: int| 0 <= k < self.links.len() && self.links@[k].1 == c && self.links@[k].0 == q;
                lemma_parent_in_found(self.links@, c, k);
            }
        }
        assert forall|q: Parent| remove_first(#[trigger] self.children_of(q), c) == self.children_of(q) by {
            lemma_remove_first_absent(self.children_of(q), c);
        }
    }

    pub fn new() -> (r: Document)
        ensures
            r.wf(),
            r.children_of(Parent::Root) == Seq::<Child>::empty(),
            forall|c: Child| r.parent_of(c) is None,
    {
        Document {
            elements: Vec::new(),
            attributes: Vec::new(),
            texts: Vec::new(),
            comments: Vec::new(),
            instructions: Vec::new(),
            links: Vec::new(),
        }
    }

    /// The root, parent of the outermost element and of top-level comments
    /// and processing instructions.
    pub fn root(&self) -> (r: Parent)
        ensures
            r == Parent::Root,
    {
        Parent::Root
    }

    pub fn new_element(&mut self, name: &str) -> (r: ElementNode)
        requires
            old(self).wf(),
            old(self).element_count() + 1 < usize::MAX,
        ensures
            final(self).wf(),
            !old(self).holds_element(r),
            final(self).holds_element(r),
            final(self).element_name(r) == name@,
            final(self).parent_of(Child::Element(r)) is None,
            final(self).extends(old(self)),
            final(self).same_tree(old(self)),
            final(self).same_attributes(old(self)),
            forall|e: ElementNode| final(self).holds_element(e) ==> e == r || old(self).holds_element(e),
    {
        let r = ElementNode { i: self.elements.len() };
        proof {
            self.lemma_unheld_has_no_parent(Child::Element(r));
        }
        self.elements.push(Element { name: string_from(name) });
        proof {
            Document::lemma_wf_grows(old(self), self);
        }
        r
    }

    pub fn new_text(&mut self, value: &str) -> (r: TextNode)
        requires
            old(self).wf(),
        ensures
            final(self).wf(),
            !old(self).holds_text(r),
            final(self).holds_text(r),
            final(self).text_value(r) == value@,
            final(self).parent_of(Child::Text(r)) is None,
            final(self).extends(old(self)),
            final(self).same_tree(old(self)),
            final(self).same_attributes(old(self)),
            final(self).same_elements(old(self)),
    {
        let r = TextNode { i: self.texts.len() };
        proof {
            self.lemma_unheld_has_no_parent(Child::Text(r));
        }
        self.texts.push(Text { value: string_from(value) });
        proof {
            Document::lemma_wf_grows(old(self), self);
        }
        r
    }

    pub fn new_comment(&mut self, text: &str) -> (r: CommentNode)
        requires
            old(self).wf(),
        ensures
            final(self).wf(),
            !old(self).holds_comment(r),
            final(self).holds_comment(r),
            final(self).comment_text(r) == text@,
            final(self).parent_of(Child::Comment(r)) is None,
            final(self).extends(old(self)),
            final(self).same_tree(old(self)),
            final(self).same_attributes(old(self)),
            final(self).same_elements(old(self)),
    {
        let r = CommentNode { i: self.comments.len() };
        proof {
            self.lemma_unheld_has_no_parent(Child::Comment(r));
        }
        self.comments.push(Comment { text: string_from(text) });
        proof {
            Document::lemma_wf_grows(old(self), self);
        }
        r
    }

    pub fn new_processing_instruction(&mut self, target: &str, value: Option<&str>) -> (r:
        ProcessingInstructionNode)
        requires
            old(self).wf(),
        ensures
            final(self).wf(),
            !old(self).holds_instruction(r),
            final(self).holds_instruction(r),
            final(self).instruction_target(r) == target@,
            final(self).parent_of(Child::ProcessingInstruction(r)) is None,
            final(self).instruction_value(r) == (match value {
                Some(v) => Some(v@),
                None => None::<Seq<char>>,
            }),
            final(self).extends(old(self)),
            final(self).same_tree(old(self)),
            final(self).same_attributes(old(self)),
            final(self).same_elements(old(self)),
    {
        let r = ProcessingInstructionNode { i: self.instructions.len() };
        proof {
            self.lemma_unheld_has_no_parent(Child::ProcessingInstruction(r));
        }
        let v = match value {
            Some(v) => Some(string_from(v)),
            None => None,
        };
        self.instructions.push(ProcessingInstruction { target: string_from(target), value: v });
        proof {
            Document::lemma_wf_grows(old(self), self);
        }
        r
    }

    pub fn element(&self, e: ElementNode) -> (r: &Element)
        requires
            self.holds_element(e),
        ensures
            r.name_view() == self.element_name(e),
    {
        &self.elements[e.i]
    }

    pub fn attribute(&self, a: AttributeNode) -> (r: &Attribute)
        requires
            self.holds_attribute(a),
        ensures
            r.name_view() == self.attribute_name(a),
            r.value_view() == self.attribute_value(a),
    {
        &self.attributes[a.i]
    }

    pub fn text(&self, t: TextNode) -> (r: &Text)
        requires
            self.holds_text(t),
        ensures
            r.value_view() == self.text_value(t),
    {
        &self.texts[t.i]
    }

    pub fn comment(&self, c: CommentNode) -> (r: &Comment)
        requires
            self.holds_comment(c),
        ensures
            r.text_view() == self.comment_text(c),
    {
        &self.comments[c.i]
    }

    pub fn processing_instruction(&self, p: ProcessingInstructionNode) -> (r: &ProcessingInstruction)
        requires
            self.holds_instruction(p),
        ensures
            r.target_view() == self.instruction_target(p),
            r.value_view() == self.instruction_value(p),
    {
        &self.instructions[p.i]
    }

    /// The data of `e`, to change in place.
    #[verifier::spinoff_prover]
    pub fn mut_element(&mut self, e: ElementNode) -> (r: &mut Element)
        requires
            old(self).wf(),
            old(self).holds_element(e),
        ensures
            r.name_view() == old(self).element_name(e),
            final(self).wf(),
            final(self).element_name(e) == final(r).name_view(),
            forall|x: ElementNode|
                x != e && old(self).holds_element(x) ==> final(self).element_name(x) == old(
                    self,
                ).element_name(x),
            final(self).same_counts(old(self)),
            final(self).same_tree(old(self)),
            final(self).same_attributes(old(self)),
            final(self).same_texts(old(self)),
    {
        &mut self.elements[e.i]
    }

    /// The data of `t`, to change in place.
    #[verifier::spinoff_prover]
    pub fn mut_text(&mut self, t: TextNode) -> (r: &mut Text)
        requires
            old(self).wf(),
            old(self).holds_text(t),
        ensures
            r.value_view() == old(self).text_value(t),
            final(self).wf(),
            final(self).text_value(t) == final(r).value_view(),
            forall|x: TextNode|
                x != t && old(self).holds_text(x) ==> final(self).text_value(x) == old(
                    self,
                ).text_value(x),
            final(self).same_counts(old(self)),
            final(self).same_tree(old(self)),
            final(self).same_attributes(old(self)),
            final(self).same_elements(old(self)),
    {
        &mut self.texts[t.i]
    }

    /// Renames `e`.
    pub fn set_element_name(&mut self, e: ElementNode, name: &str)
        requires
            old(self).wf(),
            old(self).holds_element(e),
        ensures
            final(self).wf(),
            final(self).element_name(e) == name@,
            forall|x: ElementNode| x != e && old(self).holds_element(x) ==> final(self).element_name(x) == old(self).element_name(x),
            final(self).same_counts(old(self)),
            final(self).same_tree(old(self)),
            final(self).same_attributes(old(self)),
            final(self).same_texts(old(self)),
    {
        self.elements[e.i].set_name(name);
        proof {
            Document::lemma_wf_grows(old(self), self);
        }
    }

    /// Changes the value of the text node `t`.
    pub fn set_text_value(&mut self, t: TextNode, value: &str)
        requires
            old(self).wf(),
            old(self).holds_text(t),
        ensures
            final(self).wf(),
            final(self).text_value(t) == value@,
            forall|x: TextNode| x != t && old(self).holds_text(x) ==> final(self).text_value(x) == old(self).text_value(x),
            final(self).same_counts(old(self)),
            final(self).same_tree(old(self)),
            final(self).same_attributes(old(self)),
            final(self).same_elements(old(self)),
    {
        self.texts[t.i].set_value(value);
        proof {
            Document::lemma_wf_grows(old(self), self);
        }
    }

    /// Whether `n` is a node of this document.
    pub fn holds_node(&self, n: Any) -> (r: bool)
        ensures
            r == self.holds(n),
    {
        match n {
            Any::Root => true,
            Any::Element(e) => e.i < self.elements.len(),
            Any::Attribute(a) => a.i < self.attributes.len(),
            Any::Text(t) => t.i < self.texts.len(),
            Any::Comment(c) => c.i < self.comments.len(),
            Any::ProcessingInstruction(p) => p.i < self.instructions.len(),
        }
    }

    /// The number of elements, an upper bound on the depth of the tree.
    pub closed spec fn element_count(&self) -> nat {
        self.elements.len() as nat
    }

    pub fn number_of_elements(&self) -> (r: usize)
        ensures
            r == self.element_count(),
    {
        self.elements.len()
    }

    pub fn element_has_name(&self, e: ElementNode, name: &str) -> (r: bool)
        requires
            self.holds_element(e),
        ensures
            r == (self.element_name(e) == name@),
    {
        self.elements[e.i].name == string_from(name)
    }

    pub fn attribute_has_name(&self, a: AttributeNode, name: &str) -> (r: bool)
        requires
            self.holds_attribute(a),
        ensures
            r == (self.attribute_name(a) == name@),
    {
        self.attributes[a.i].name == string_from(name)
    }

    pub fn instruction_has_target(&self, p: ProcessingInstructionNode, target: &str) -> (r: bool)
        requires
            self.holds_instruction(p),
        ensures
            r == (self.instruction_target(p) == target@),
    {
        self.instructions[p.i].target == string_from(target)
    }

    /// The element that owns attribute `a`.
    pub fn owner(&self, a: AttributeNode) -> (r: ElementNode)
        requires
            self.holds_attribute(a),
        ensures
            r == self.attribute_owner(a),
    {
        self.attributes[a.i].owner
    }

    /// The attributes of `element`.
    pub fn attributes(&self, element: ElementNode) -> (r: Vec<AttributeNode>)
        ensures
            r@ == self.attributes_of(element),
    {
        let ghost owners = self.attribute_owners();
        let mut out: Vec<AttributeNode> = Vec::new();
        let mut k: usize = 0;
        while k < self.attributes.len()
            invariant
                k <= self.attributes.len(),
                owners == self.attribute_owners(),
                owners.len() == self.attributes.len(),
                out@ == owned_attributes(owners, element, k as int).map_values(
                    |i: int| AttributeNode { i: i as usize },
                ),
            decreases self.attributes.len() - k,
        {
            let ghost before = owned_attributes(owners, element, k as int);
            if self.attributes[k].owner == element {
                out.push(AttributeNode { i: k });
                assert(owned_attributes(owners, element, k + 1) == before + seq![k as int]);
            } else {
                assert(owned_attributes(owners, element, k + 1) =~= before);
            }
            k = k + 1;
            assert(out@ =~= owned_attributes(owners, element, k as int).map_values(
                |i: int| AttributeNode { i: i as usize },
            ));
        }
        out
    }

    /// The index of the attribute of `element` named `name`.
    fn attribute_for(&self, element: ElementNode, name: &str) -> (r: Option<usize>)
        requires
            self.wf(),
        ensures
            match r {
                Some(k) => k < self.attributes.len() && self.attribute_named(element, name@) == Some(
                    AttributeNode { i: k },
                ),
                None => self.attribute_named(element, name@) is None,
            },
    {
        let mut k: usize = 0;
        while k < self.attributes.len()
            invariant
                self.wf(),
                k <= self.attributes.len(),
                forall|j: int|
                    0 <= j < k ==> !(self.attributes@[j].owner == element
                        && self.attributes@[j].name@ == name@),
            decreases self.attributes.len() - k,
        {
            if self.attributes[k].owner == element && self.attributes[k].name == string_from(name) {
                let ghost c = choose|j: int|
                    0 <= j < self.attributes.len() && self.attributes@[j].owner == element
                        && self.attributes@[j].name@ == name@;
                assert(self.attributes@[k as int].owner == element && self.attributes@[k as int].name@ == name@);
                assert(c == k) by {
                    if c < k {
                    } else if c > k {
                        assert(self.attributes@[c].owner == element && self.attributes@[c].name@ == name@);
                        assert(self.attributes@[k as int].owner == self.attributes@[c].owner);
                        assert(self.attributes@[k as int].name@ != self.attributes@[c].name@);
                    }
                }
                return Some(k);
            }
            k = k + 1;
        }
        None
    }

    /// The value of the attribute of `element` named `name`.
    pub fn get_attribute(&self, element: ElementNode, name: &str) -> (r: Option<&str>)
        requires
            self.wf(),
        ensures
            match self.attribute_named(element, name@) {
                Some(a) => r matches Some(v) && v@ == self.attribute_value(a),
                None => r is None,
            },
    {
        match self.attribute_for(element, name) {
            Some(k) => Some(self.attributes[k].value.as_str()),
            None => None,
        }
    }

    /// Gives `element` an attribute `name` with `value`: the one it has is
    /// changed in place, else a new one is added.
    pub fn set_attribute(&mut self, element: ElementNode, name: &str, value: &str) -> (r:
        AttributeNode)
        requires
            old(self).wf(),
            old(self).holds_element(element),
        ensures
            final(self).wf(),
            final(self).holds_attribute(r),
            final(self).attribute_named(element, name@) == Some(r),
            final(self).attribute_value(r) == value@,
            final(self).attribute_name(r) == name@,
            final(self).attribute_owner(r) == element,
            match old(self).attribute_named(element, name@) {
                Some(a) => r == a && final(self).attributes_of(element) == old(self).attributes_of(
                    element,
                ),
                None => !old(self).holds_attribute(r) && final(self).attributes_of(element) == old(
                    self,
                ).attributes_of(element).push(r),
            },
            forall|a: AttributeNode|
                old(self).holds_attribute(a) && a != r ==> final(self).attribute_value(a) == old(
                    self,
                ).attribute_value(a) && final(self).attribute_name(a) == old(self).attribute_name(a)
                    && final(self).attribute_owner(a) == old(self).attribute_owner(a),
            forall|x: ElementNode|
                x != element ==> final(self).attributes_of(x) == old(self).attributes_of(x),
            final(self).same_tree(old(self)),
            final(self).same_elements(old(self)),
            final(self).same_texts(old(self)),
            final(self).extends(old(self)),
    {
        match self.attribute_for(element, name) {
            Some(k) => {
                let old_name = self.attributes[k].name.clone();
                self.attributes.set(k, Attribute { name: old_name, value: string_from(value), owner: element });
                proof {
                    Document::lemma_wf_grows(old(self), self);
                    assert(self.attribute_owners() =~= old(self).attribute_owners());
                    assert forall|j: int|
                        0 <= j < self.attributes.len() && self.attributes@[j].owner == element
                            && self.attributes@[j].name@ == name@ implies j == k by {
                        if j != k {
                            assert(old(self).attributes@[j].name@ == name@);
                        }
                    }
                    assert(self.attributes@[k as int].owner == element && self.attributes@[k as int].name@ == name@);
                    assert(self.attribute_named(element, name@) == Some(AttributeNode { i: k }));
                    assert(self.attributes_of(element) =~= old(self).attributes_of(element));
                    assert forall|x: ElementNode| x != element implies self.attributes_of(x)
                        == old(self).attributes_of(x) by {
                        assert(self.attributes_of(x) =~= old(self).attributes_of(x));
                    }
                }
                AttributeNode { i: k }
            },
            None => {
                let k = self.attributes.len();
                self.attributes.push(Attribute { name: string_from(name), value: string_from(value), owner: element });
                proof {
                    let ghost n = k as int;
                    assert(self.attribute_owners() =~= old(self).attribute_owners().push(element));
                    assert forall|j: int, m: int|
                        0 <= j < m < self.attributes.len() && self.attributes@[j].owner
                            == self.attributes@[m].owner implies #[trigger] self.attributes@[j].name@
                        != #[trigger] self.attributes@[m].name@ by {
                        if m == n {
                            assert(!(old(self).attributes@[j].owner == element
                                && old(self).attributes@[j].name@ == name@));
                        } else {
                            assert(old(self).attributes@[j].name@ != old(self).attributes@[m].name@);
                        }
                    }
                    assert forall|j: int| 0 <= j < self.links.len() implies self.holds_parent(
                        #[trigger] self.links@[j].0,
                    ) && self.holds_child(self.links@[j].1) by {
                        assert(old(self).holds_parent(old(self).links@[j].0));
                        assert(old(self).holds_child(old(self).links@[j].1));
                    }
                    assert forall|j: int| 0 <= j < self.attributes.len() implies self.holds_element(
                        #[trigger] self.attributes@[j].owner,
                    ) by {
                        if j < n {
                            assert(old(self).holds_element(old(self).attributes@[j].owner));
                        }
                    }
                    assert forall|j: int|
                        0 <= j < self.attributes.len() && self.attributes@[j].owner == element
                            && self.attributes@[j].name@ == name@ implies j == n by {
                        if j < n {
                            assert(old(self).attributes@[j].owner == element);
                        }
                    }
                    assert(self.attributes@[n].owner == element && self.attributes@[n].name@ == name@);
                    assert(self.attribute_named(element, name@) == Some(AttributeNode { i: k }));
                    let owners = old(self).attribute_owners();
                    assert(self.attribute_owners().subrange(0, n) =~= owners);
                    assert(owners.subrange(0, n) =~= owners);
                    lemma_owned_prefix(self.attribute_owners(), owners, element, n);
                    assert forall|x: ElementNode| x != element implies self.attributes_of(x)
                        == old(self).attributes_of(x) by {
                        lemma_owned_prefix(self.attribute_owners(), owners, x, n);
                        assert(owned_attributes(self.attribute_owners(), x, n + 1) =~= owned_attributes(self.attribute_owners(), x, n));
                        assert(self.attributes_of(x) =~= old(self).attributes_of(x));
                    }
                    assert(owned_attributes(self.attribute_owners(), element, n + 1) =~= owned_attributes(self.attribute_owners(), element, n) + seq![n]);
                    assert(self.attributes_of(element) =~= old(self).attributes_of(element).push(AttributeNode { i: k }));
                }
                AttributeNode { i: k }
            },
        }
    }

    /// The children of `parent`, in order.
    pub fn children<P: ToParent>(&self, parent: P) -> (r: Vec<Child>)
        ensures
            r@ == self.children_of(parent.as_parent()),
    {
        let p = parent.to_parent();
        let mut out: Vec<Child> = Vec::new();
        let mut k: usize = 0;
        while k < self.links.len()
            invariant
                k <= self.links.len(),
                out@ == children_in(self.links@.subrange(0, k as int), p),
            decreases self.links.len() - k,
        {
            let ghost before = self.links@.subrange(0, k as int);
            let link = self.links[k];
            proof {
                let x = seq![link];
                assert(self.links@.subrange(0, k + 1) =~= before + x);
                lemma_children_in_append(before, x, p);
                assert(x.drop_first() =~= seq![]);
                assert(children_in(x.drop_first(), p) =~= seq![]);
            }
            if link.0 == p {
                out.push(link.1);
            }
            k = k + 1;
            assert(out@ =~= children_in(self.links@.subrange(0, k as int), p));
        }
        assert(self.links@.subrange(0, k as int) =~= self.links@);
        out
    }

    /// The parent of `child`, if it has one.
    pub fn parent(&self, child: Child) -> (r: Option<Parent>)
        ensures
            r == self.parent_of(child),
    {
        match self.link_of(child) {
            Some(k) => Some(self.links[k].0),
            None => None,
        }
    }

    /// The index of the link that gives `child` its parent.
    fn link_of(&self, child: Child) -> (r: Option<usize>)
        ensures
            match r {
                Some(k) => k < self.links.len() && self.links@[k as int].1 == child
                    && self.parent_of(child) == Some(self.links@[k as int].0),
                None => self.parent_of(child) is None && forall|j: int|
                    0 <= j < self.links.len() ==> self.links@[j].1 != child,
            },
    {
        let mut k: usize = 0;
        while k < self.links.len()
            invariant
                k <= self.links.len(),
                forall|j: int| 0 <= j < k ==> self.links@[j].1 != child,
            decreases self.links.len() - k,
        {
            if self.links[k].1 == child {
                proof {
                    let a = self.links@.subrange(0, k as int);
                    let b = self.links@.subrange(k as int, self.links.len() as int);
                    assert(self.links@ =~= a + b);
                    lemma_parent_in_split(a, b, child);
                    assert(b[0] == self.links@[k as int]);
                }
                return Some(k);
            }
            k = k + 1;
        }
        proof {
            lemma_parent_none(self.links@, child);
        }
        None
    }

    /// Makes `child` the last child of `parent`, taking it away from the
    /// parent it had.
    pub fn append_child<P: ToParent, C: ToChild>(&mut self, parent: P, child: C)
        requires
            old(self).wf(),
            old(self).holds_parent(parent.as_parent()),
            old(self).holds_child(child.as_child()),
        ensures
            final(self).wf(),
            final(self).same_nodes(old(self)),
            final(self).children_of(parent.as_parent()) == remove_first(
                old(self).children_of(parent.as_parent()),
                child.as_child(),
            ).push(child.as_child()),
            forall|q: Parent|
                q != parent.as_parent() ==> #[trigger] final(self).children_of(q) == remove_first(
                    old(self).children_of(q),
                    child.as_child(),
                ),
            final(self).parent_of(child.as_child()) == Some(parent.as_parent()),
            old(self).parent_of(child.as_child()) is None ==> final(self).children_of(
                parent.as_parent(),
            ) == old(self).children_of(parent.as_parent()).push(child.as_child()) && forall|
                q: Parent,
            |
                q != parent.as_parent() ==> #[trigger] final(self).children_of(q) == old(
                    self,
                ).children_of(q),
            forall|d: Child|
                d != child.as_child() ==> #[trigger] final(self).parent_of(d) == old(self).parent_of(
                    d,
                ),
    {
        let p = parent.to_parent();
        let c = child.to_child();
        let ghost original = self.links@;
        proof {
            if old(self).parent_of(c) is None {
                old(self).lemma_parentless_not_listed(c);
            }
        }
        match self.link_of(c) {
            Some(k) => {
                proof {
                    lemma_remove_link(original, k as int, c);
                }
                self.links.remove(k);
                proof {
                    assert(self.links@ == original.remove(k as int));
                    assert forall|d: Child| d != c implies #[trigger] parent_in(self.links@, d)
                        == parent_in(original, d) by {
                        assert(parent_in(original.remove(k as int), d) == parent_in(original, d));
                    }
                }
            },
            None => {
                proof {
                    assert forall|q: Parent| #[trigger]
                        children_in(original, q) == remove_first(children_in(original, q), c) by {
                        lemma_children_in_without(original, q, c);
                        lemma_remove_first_absent(children_in(original, q), c);
                    }
                }
            },
        }
        let ghost kept = self.links@;
        assert(forall|d: Child| d != c ==> #[trigger] parent_in(kept, d) == parent_in(original, d));
        proof {
            assert forall|j: int| 0 <= j < kept.len() implies kept[j].1 != c by {
                if kept[j].1 == c {
                    lemma_parent_in_split_any(kept.subrange(0, j), kept.subrange(j, kept.len() as int), c);
                    assert(kept =~= kept.subrange(0, j) + kept.subrange(j, kept.len() as int));
                    assert(kept.subrange(j, kept.len() as int)[0] == kept[j]);
                    if parent_in(kept.subrange(0, j), c) is None {
                    }
                }
            }
        }
        self.links.push((p, c));
        proof {
            let x = seq![(p, c)];
            assert(self.links@ =~= kept + x);
            assert(x.drop_first() =~= seq![]);
            assert(children_in(x.drop_first(), p) =~= seq![]);
            assert forall|q: Parent| #[trigger] children_in(self.links@, q) == children_in(kept, q)
                + children_in(x, q) by {
                lemma_children_in_append(kept, x, q);
            }
            assert forall|q: Parent| q != p implies #[trigger] children_in(x, q) =~= seq![] by {
                assert(children_in(x.drop_first(), q) =~= seq![]);
            }
            assert forall|q: Parent| q != p implies #[trigger] self.children_of(q) == remove_first(
                children_in(original, q),
                c,
            ) by {
                assert(children_in(kept, q) + children_in(x, q) =~= children_in(kept, q));
            }
            lemma_parent_in_split(kept, x, c);
            assert forall|d: Child| d != c implies #[trigger] parent_in(self.links@, d) == parent_in(
                original,
                d,
            ) by {
                lemma_parent_in_split_any(kept, x, d);
                assert(x[0].1 == c);
                assert(parent_in(x.drop_first(), d) is None);
                assert(parent_in(kept, d) == parent_in(original, d));
            }
            assert forall|i: int, j: int| 0 <= i < j < self.links.len() implies self.links@[i].1
                != self.links@[j].1 by {
                if j == kept.len() {
                    assert(kept[i].1 != c);
                } else {
                    assert(kept[i].1 != kept[j].1);
                }
            }
            assert forall|k: int| 0 <= k < self.links.len() implies self.holds_parent(
                #[trigger] self.links@[k].0,
            ) && self.holds_child(self.links@[k].1) by {
            }
        }
    }
}

/// An ordered collection of nodes; the same node may occur more than once.
#[derive(Debug, Clone, PartialEq)]
pub struct Nodeset {
    nodes: Vec<Any>,
}

impl View for Nodeset {
    type V = Seq<Any>;

    closed spec fn view(&self) -> Seq<Any> {
        self.nodes@
    }
}

impl Nodeset {
    pub fn new() -> (r: Nodeset)
        ensures
            r@ == Seq::<Any>::empty(),
    {
        Nodeset { nodes: Vec::new() }
    }

    /// Appends `node`.
    pub fn add<N: ToAny>(&mut self, node: N)
        ensures
            final(self)@ == old(self)@.push(node.as_any()),
    {
        self.nodes.push(node.to_any());
    }

    /// Appends every node of `nodes`, in order.
    pub fn add_nodeset(&mut self, nodes: &Nodeset)
        ensures
            final(self)@ == old(self)@ + nodes@,
    {
        let mut k: usize = 0;
        while k < nodes.nodes.len()
            invariant
                k <= nodes.nodes.len(),
                self.nodes@ == old(self)@ + nodes@.subrange(0, k as int),
            decreases nodes.nodes.len() - k,
        {
            self.nodes.push(nodes.nodes[k]);
            k = k + 1;
            assert(self.nodes@ =~= old(self)@ + nodes@.subrange(0, k as int));
        }
        assert(nodes@.subrange(0, k as int) =~= nodes@);
    }

    pub fn size(&self) -> (r: usize)
        ensures
            r == self@.len(),
    {
        self.nodes.len()
    }

    /// The node at `index`.
    pub fn get(&self, index: usize) -> (r: Any)
        requires
            index < self@.len(),
        ensures
            r == self@[index as int],
    {
        self.nodes[index]
    }

    /// The nodes, in order.
    pub fn to_vec(&self) -> (r: Vec<Any>)
        ensures
            r@ == self@,
    {
        let mut out: Vec<Any> = Vec::new();
        let mut k: usize = 0;
        while k < self.nodes.len()
            invariant
                k <= self.nodes.len(),
                out@ == self@.subrange(0, k as int),
            decreases self.nodes.len() - k,
        {
            out.push(self.nodes[k]);
            k = k + 1;
            assert(out@ =~= self@.subrange(0, k as int));
        }
        assert(self@.subrange(0, k as int) =~= self@);
        out
    }

    /// The nodes of `v`, in order.
    pub fn from_vec(v: Vec<Any>) -> (r: Nodeset)
        ensures
            r@ == v@,
    {
        Nodeset { nodes: v }
    }
}

} // verus!
