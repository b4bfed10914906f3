use xpath::document::{Any, Attribute, Document, Nodeset, Parent, Root, ToParent};

#[test]
fn can_add_an_element_as_a_child() {
    let mut d = Document::new();
    let alpha = d.new_element("alpha");
    let beta  = d.new_element("beta");

    d.append_child(alpha, beta);

    let children = d.children(alpha);
    assert_eq!(1, children.len());

    let child_elem = children[0].element().unwrap();
    let result = d.element(child_elem);
    assert_eq!(result.name(), "beta");
}

#[test]
fn children_are_ordered() {
    let mut d = Document::new();
    let greek = d.new_element("greek");
    let alpha = d.new_element("alpha");
    let omega = d.new_element("omega");

    d.append_child(greek, alpha);
    d.append_child(greek, omega);
    let children = d.children(greek);

    assert_eq!(2, children.len());
    let child_elem1 = children[0].element().unwrap();
    let child_elem2 = children[1].element().unwrap();
    assert_eq!(d.element(child_elem1).name(), "alpha");
    assert_eq!(d.element(child_elem2).name(), "omega");
}

#[test]
fn children_know_their_parent() {
    let mut d = Document::new();
    let alpha = d.new_element("alpha");
    let beta  = d.new_element("beta");

    d.append_child(alpha, beta);

    let child = d.children(alpha)[0];
    let parent = d.parent(child).unwrap();

    let parent_elem = parent.element().unwrap();
    let result = d.element(parent_elem);
    assert_eq!(result.name(), "alpha");
}

#[test]
fn replacing_parent_updates_original_parent() {
    let mut d = Document::new();
    let parent1 = d.new_element("parent1");
    let parent2 = d.new_element("parent2");
    let child = d.new_element("child");

    d.append_child(parent1, child);
    d.append_child(parent2, child);

    assert!(d.children(parent1).is_empty());
    assert_eq!(1, d.children(parent2).len());
}

#[test]
fn can_rename_an_element() {
    let mut d = Document::new();
    let alpha = d.new_element("alpha");

    {
        let element = d.mut_element(alpha);
        element.set_name("beta");
    }

    let beta = d.element(alpha);
    assert_eq!(beta.name(), "beta");
}

#[test]
fn elements_have_attributes() {
    let mut d = Document::new();
    let alpha = d.new_element("alpha");

    d.set_attribute(alpha, "hello", "world");
    let val = d.get_attribute(alpha, "hello").unwrap();
    assert_eq!(val, "world");
}

#[test]
fn attributes_can_be_reset() {
    let mut d = Document::new();
    let alpha = d.new_element("alpha");

    d.set_attribute(alpha, "hello", "world");
    d.set_attribute(alpha, "hello", "universe");

    let val = d.get_attribute(alpha, "hello").unwrap();
    assert_eq!(val, "universe");
}

#[test]
fn attributes_can_be_iterated() {
    let mut d = Document::new();
    let e = d.new_element("element");

    d.set_attribute(e, "name1", "value1");
    d.set_attribute(e, "name2", "value2");

    let mut attrs: Vec<&Attribute> = d.attributes(e).iter().map(|a| d.attribute(*a)).collect();
    attrs.sort_by(|a, b| a.name().cmp(b.name()));

    assert_eq!(2, attrs.len());
    assert_eq!("name1",  attrs[0].name());
    assert_eq!("value1", attrs[0].value());
    assert_eq!("name2",  attrs[1].name());
    assert_eq!("value2", attrs[1].value());
}

#[test]
fn elements_can_have_text_children() {
    let mut d = Document::new();
    let sentence = d.new_element("sentence");
    let text = d.new_text("Now is the winter of our discontent.");

    d.append_child(sentence, text);

    let children = d.children(sentence);
    assert_eq!(1, children.len());

    let child_text = children[0].text().unwrap();
    assert_eq!(d.text(child_text).value(), "Now is the winter of our discontent.");
}

#[test]
fn text_can_be_changed() {
    let mut d = Document::new();
    let text = d.new_text("Now is the winter of our discontent.");

    let text_data = d.mut_text(text);
    text_data.set_value("Made glorious summer by this sun of York");

    assert_eq!(text_data.value(), "Made glorious summer by this sun of York");
}

#[test]
fn nodeset_can_include_all_node_types() {
    let mut nodes = Nodeset::new();
    let mut d = Document::new();
    let e = d.new_element("element");
    let a = d.set_attribute(e, "name", "value");
    let t = d.new_text("text");

    nodes.add(e);
    nodes.add(a);
    nodes.add(t);

    let node_vec: Vec<Any> = nodes.to_vec();

    assert_eq!(3, node_vec.len());
    assert_eq!(e, node_vec[0].element().unwrap());
    assert_eq!(a, node_vec[1].attribute().unwrap());
    assert_eq!(t, node_vec[2].text().unwrap());
}

#[test]
fn nodesets_can_be_combined() {
    let mut all_nodes = Nodeset::new();
    let mut nodes1 = Nodeset::new();
    let mut nodes2 = Nodeset::new();

    let mut d = Document::new();
    let e1 = d.new_element("element1");
    let e2 = d.new_element("element2");

    all_nodes.add(e1);
    all_nodes.add(e2);

    nodes1.add(e1);
    nodes2.add(e2);

    nodes1.add_nodeset(&nodes2);

    assert_eq!(all_nodes, nodes1);
}

#[test]
fn root_holds_top_level_nodes_in_order() {
    let mut d = Document::new();
    let c = d.new_comment("first");
    let top = d.new_element("top");
    let pi = d.new_processing_instruction("target", Some("value"));
    d.append_child(Parent::Root, c);
    let root = d.root();
    d.append_child(root, top);
    d.append_child(Parent::Root, pi);

    let children = d.children(Parent::Root);
    assert_eq!(3, children.len());
    assert_eq!(d.comment(children[0].comment().unwrap()).text(), "first");
    assert_eq!(children[1].element(), Some(top));
    let p = children[2].processing_instruction().unwrap();
    assert_eq!(d.processing_instruction(p).target(), "target");
    assert_eq!(d.processing_instruction(p).value(), Some("value"));
    assert_eq!(d.parent(children[1]), Some(Parent::Root));
}

#[test]
fn appending_to_the_same_parent_moves_the_child_last() {
    let mut d = Document::new();
    let p = d.new_element("p");
    let a = d.new_element("a");
    let b = d.new_element("b");
    d.append_child(p, a);
    d.append_child(p, b);
    d.append_child(p, a);

    let names: Vec<String> = d
        .children(p)
        .iter()
        .map(|c| d.element(c.element().unwrap()).name().to_string())
        .collect();
    assert_eq!(names, vec!["b".to_string(), "a".to_string()]);
}

#[test]
fn missing_attribute_is_none() {
    let mut d = Document::new();
    let e = d.new_element("e");
    let other = d.new_element("other");
    d.set_attribute(other, "hello", "world");
    assert_eq!(d.get_attribute(e, "hello"), None);
    assert!(d.attributes(e).is_empty());
}

#[test]
fn resetting_an_attribute_keeps_one_attribute() {
    let mut d = Document::new();
    let e = d.new_element("e");
    let first = d.set_attribute(e, "k", "1");
    let second = d.set_attribute(e, "k", "2");
    assert_eq!(first, second);
    assert_eq!(d.attributes(e), vec![first]);
}

#[test]
fn parentless_child_has_no_parent() {
    let mut d = Document::new();
    let e = d.new_element("e");
    assert_eq!(d.parent(xpath::document::Child::Element(e)), None);
}

#[test]
fn names_and_texts_can_be_set_through_the_document() {
    let mut d = Document::new();
    let e = d.new_element("before");
    let t = d.new_text("old");
    d.set_element_name(e, "after");
    d.set_text_value(t, "new");
    assert_eq!(d.element(e).name(), "after");
    assert_eq!(d.text(t).value(), "new");
}

#[test]
fn root_handle_is_the_root_parent() {
    let mut d = Document::new();
    let e = d.new_element("top");
    d.append_child(Root, e);
    assert_eq!(Root.to_parent(), Parent::Root);
    assert_eq!(d.children(Root).len(), 1);
}
