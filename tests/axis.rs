use xpath::axis::{Axis, XPathNodeTest};
use xpath::document::{Any, Document, Nodeset, Parent};
use xpath::value::{
    Comparison, ValueKind, boolean_of_nodeset, boolean_of_string, comparison_for, select_where,
    string_of_boolean, string_value, union,
};

/// `<a><b/><b/></a>` under the root, with the handles of a and both b.
fn small_document() -> (Document, Any, Any, Any) {
    let mut d = Document::new();
    let a = d.new_element("a");
    let b1 = d.new_element("b");
    let b2 = d.new_element("b");
    d.append_child(Parent::Root, a);
    d.append_child(a, b1);
    d.append_child(a, b2);
    (d, Any::Element(a), Any::Element(b1), Any::Element(b2))
}

fn select(d: &Document, axis: Axis, test: XPathNodeTest, node: Any) -> Vec<Any> {
    let mut result = Nodeset::new();
    axis.select_nodes(d, node, &test, &mut result);
    result.to_vec()
}

#[test]
fn child_axis_selects_named_children_in_order() {
    let (d, a, b1, b2) = small_document();
    assert_eq!(select(&d, Axis::Child, XPathNodeTest::Name("b".to_string()), a), vec![b1, b2]);
    assert_eq!(select(&d, Axis::Child, XPathNodeTest::Name("c".to_string()), a), vec![]);
}

#[test]
fn second_b_by_position() {
    let (d, a, _b1, b2) = small_document();
    let mut bs = Nodeset::new();
    Axis::Child.select_nodes(&d, a, &XPathNodeTest::Name("b".to_string()), &mut bs);
    let keep: Vec<bool> = (1..=bs.size()).map(|i| i == 2).collect();
    assert_eq!(select_where(&bs, &keep).to_vec(), vec![b2]);
}

#[test]
fn descendant_axis_is_in_document_order() {
    let mut d = Document::new();
    let top = d.new_element("top");
    let one = d.new_element("one");
    let two = d.new_element("two");
    let three = d.new_element("three");
    d.append_child(Parent::Root, top);
    d.append_child(top, one);
    d.append_child(one, two);
    d.append_child(top, three);
    let found = select(&d, Axis::Descendant, XPathNodeTest::Wildcard, Any::Element(top));
    assert_eq!(found, vec![Any::Element(one), Any::Element(two), Any::Element(three)]);
    let with_self = select(&d, Axis::DescendantOrSelf, XPathNodeTest::Wildcard, Any::Element(one));
    assert_eq!(with_self, vec![Any::Element(one), Any::Element(two)]);
}

#[test]
fn parent_axis_of_attribute_is_its_element() {
    let mut d = Document::new();
    let e = d.new_element("e");
    let attr = d.set_attribute(e, "hello", "world");
    let found = select(&d, Axis::Parent, XPathNodeTest::Node, Any::Attribute(attr));
    assert_eq!(found, vec![Any::Element(e)]);
}

#[test]
fn attribute_axis_uses_attribute_names() {
    let mut d = Document::new();
    let e = d.new_element("e");
    let attr = d.set_attribute(e, "hello", "world");
    d.set_attribute(e, "other", "x");
    let found = select(&d, Axis::Attribute, XPathNodeTest::Name("hello".to_string()), Any::Element(e));
    assert_eq!(found, vec![Any::Attribute(attr)]);
    assert_eq!(select(&d, Axis::Attribute, XPathNodeTest::Wildcard, Any::Element(e)).len(), 2);
    assert_eq!(Axis::Attribute.principal_node_type(), xpath::axis::PrincipalNodeType::Attribute);
}

#[test]
fn self_axis_with_kind_tests() {
    let mut d = Document::new();
    let e = d.new_element("e");
    let t = d.new_text("words");
    d.append_child(e, t);
    assert_eq!(select(&d, Axis::SelfAxis, XPathNodeTest::Text, Any::Text(t)), vec![Any::Text(t)]);
    assert_eq!(select(&d, Axis::SelfAxis, XPathNodeTest::Comment, Any::Text(t)), vec![]);
    assert_eq!(select(&d, Axis::Child, XPathNodeTest::Text, Any::Element(e)), vec![Any::Text(t)]);
}

#[test]
fn string_value_of_element_joins_its_texts() {
    let mut d = Document::new();
    let e = d.new_element("e");
    let inner = d.new_element("inner");
    let t1 = d.new_text("to ");
    let t2 = d.new_text("the");
    let t3 = d.new_text(" world");
    d.append_child(e, t1);
    d.append_child(e, inner);
    d.append_child(inner, t2);
    d.append_child(e, t3);
    assert_eq!(string_value(&d, Any::Element(e)), "to the world");
    assert_eq!(string_value(&d, Any::Text(t2)), "the");
}

#[test]
fn union_keeps_both_sides() {
    let (_d, a, b1, b2) = small_document();
    let left = Nodeset::from_vec(vec![a, b1]);
    let right = Nodeset::from_vec(vec![b2, a]);
    assert_eq!(union(&left, &right).to_vec(), vec![a, b1, b2, a]);
}

#[test]
fn coercions_without_numbers() {
    assert!(boolean_of_string("x"));
    assert!(!boolean_of_string(""));
    assert!(!boolean_of_nodeset(&Nodeset::new()));
    assert_eq!(string_of_boolean(true), "true");
    assert_eq!(string_of_boolean(false), "false");
}

#[test]
fn equality_comparison_rules() {
    assert_eq!(comparison_for(ValueKind::Boolean, ValueKind::String), Comparison::AsBooleans);
    assert_eq!(comparison_for(ValueKind::Nodes, ValueKind::Boolean), Comparison::AsBooleans);
    assert_eq!(comparison_for(ValueKind::String, ValueKind::Number), Comparison::AsNumbers);
    assert_eq!(comparison_for(ValueKind::String, ValueKind::String), Comparison::AsStrings);
    assert_eq!(comparison_for(ValueKind::Nodes, ValueKind::String), Comparison::AsStrings);
}
