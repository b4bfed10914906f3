use xpath::xml::{Parser, XmlError, slice_char_data};

#[test]
fn a_document_with_a_prolog() {
    let parser = Parser::new();
    let doc = parser.parse("<?xml version='1.0' ?><hello />").unwrap();
    let top = doc.children(doc.root())[0].element().unwrap();

    assert_eq!(doc.element(top).name(), "hello");
}

#[test]
fn a_document_with_a_prolog_with_double_quotes() {
    let parser = Parser::new();
    let doc = parser.parse("<?xml version=\"1.0\" ?><hello />").unwrap();
    let top = doc.children(doc.root())[0].element().unwrap();

    assert_eq!(doc.element(top).name(), "hello");
}

#[test]
fn a_document_with_a_single_element() {
    let parser = Parser::new();
    let doc = parser.parse("<hello />").unwrap();
    let top = doc.children(doc.root())[0].element().unwrap();

    assert_eq!(doc.element(top).name(), "hello");
}

#[test]
fn an_element_with_an_attribute() {
    let parser = Parser::new();
    let doc = parser.parse("<hello scope='world'/>").unwrap();
    let top = doc.children(doc.root())[0].element().unwrap();

    assert_eq!(doc.get_attribute(top, "scope").unwrap(), "world");
}

#[test]
fn an_element_with_an_attribute_using_double_quotes() {
    let parser = Parser::new();
    let doc = parser.parse("<hello scope=\"world\"/>").unwrap();
    let top = doc.children(doc.root())[0].element().unwrap();

    assert_eq!(doc.get_attribute(top, "scope").unwrap(), "world");
}

#[test]
fn an_element_with_multiple_attributes() {
    let parser = Parser::new();
    let doc = parser.parse("<hello scope=\"world\" happy='true'/>").unwrap();
    let top = doc.children(doc.root())[0].element().unwrap();

    assert_eq!(doc.get_attribute(top, "scope").unwrap(), "world");
    assert_eq!(doc.get_attribute(top, "happy").unwrap(), "true");
}

#[test]
fn an_attribute_with_references() {
    let parser = Parser::new();
    let doc = parser.parse("<log msg='I &lt;3 math' />").unwrap();
    let top = doc.children(doc.root())[0].element().unwrap();

    assert_eq!(doc.get_attribute(top, "msg").unwrap(), "I <3 math");
}

#[test]
fn an_element_that_is_not_self_closing() {
    let parser = Parser::new();
    let doc = parser.parse("<hello></hello>").unwrap();
    let top = doc.children(doc.root())[0].element().unwrap();

    assert_eq!(doc.element(top).name(), "hello");
}

#[test]
fn nested_elements() {
    let parser = Parser::new();
    let doc = parser.parse("<hello><world/></hello>").unwrap();
    let nested = doc.children(doc.children(doc.root())[0].element().unwrap())[0].element().unwrap();

    assert_eq!(doc.element(nested).name(), "world");
}

#[test]
fn multiply_nested_elements() {
    let parser = Parser::new();
    let doc = parser.parse("<hello><awesome><world/></awesome></hello>").unwrap();
    let hello = doc.children(doc.root())[0].element().unwrap();
    let awesome = doc.children(hello)[0].element().unwrap();
    let world = doc.children(awesome)[0].element().unwrap();

    assert_eq!(doc.element(world).name(), "world");
}

#[test]
fn nested_elements_with_attributes() {
    let parser = Parser::new();
    let doc = parser.parse("<hello><world name='Earth'/></hello>").unwrap();
    let hello = doc.children(doc.root())[0].element().unwrap();
    let world = doc.children(hello)[0].element().unwrap();

    assert_eq!(doc.get_attribute(world, "name").unwrap(), "Earth");
}

#[test]
fn element_with_text() {
    let parser = Parser::new();
    let doc = parser.parse("<hello>world</hello>").unwrap();
    let hello = doc.children(doc.root())[0].element().unwrap();
    let text = doc.children(hello)[0].text().unwrap();

    assert_eq!(doc.text(text).value(), "world");
}

#[test]
fn element_with_cdata() {
    let parser = Parser::new();
    let doc = parser.parse("<words><![CDATA[I have & and < !]]></words>").unwrap();
    let words = doc.children(doc.root())[0].element().unwrap();
    let text = doc.children(words)[0].text().unwrap();

    assert_eq!(doc.text(text).value(), "I have & and < !");
}

#[test]
fn element_with_comment() {
    let parser = Parser::new();
    let doc = parser.parse("<hello><!-- A comment --></hello>").unwrap();
    let words = doc.children(doc.root())[0].element().unwrap();
    let comment = doc.children(words)[0].comment().unwrap();

    assert_eq!(doc.comment(comment).text(), " A comment ");
}

#[test]
fn comment_before_top_element() {
    let parser = Parser::new();
    let doc = parser.parse("<!-- A comment --><hello />").unwrap();
    let comment = doc.children(doc.root())[0].comment().unwrap();

    assert_eq!(doc.comment(comment).text(), " A comment ");
}

#[test]
fn multiple_comments_before_top_element() {
    let parser = Parser::new();
    let xml = "
<!--Comment 1-->
<!--Comment 2-->
<hello />";
    let doc = parser.parse(xml).unwrap();
    let comment1 = doc.children(doc.root())[0].comment().unwrap();
    let comment2 = doc.children(doc.root())[1].comment().unwrap();

    assert_eq!(doc.comment(comment1).text(), "Comment 1");
    assert_eq!(doc.comment(comment2).text(), "Comment 2");
}

#[test]
fn multiple_comments_after_top_element() {
    let parser = Parser::new();
    let xml = "
<hello />
<!--Comment 1-->
<!--Comment 2-->";
    let doc = parser.parse(xml).unwrap();
    let comment1 = doc.children(doc.root())[1].comment().unwrap();
    let comment2 = doc.children(doc.root())[2].comment().unwrap();

    assert_eq!(doc.comment(comment1).text(), "Comment 1");
    assert_eq!(doc.comment(comment2).text(), "Comment 2");
}

#[test]
fn element_with_processing_instruction() {
    let parser = Parser::new();
    let doc = parser.parse("<hello><?device?></hello>").unwrap();
    let hello = doc.children(doc.root())[0].element().unwrap();
    let pi = doc.children(hello)[0].processing_instruction().unwrap();

    assert_eq!(doc.processing_instruction(pi).target(), "device");
    assert_eq!(doc.processing_instruction(pi).value(), None);
}

#[test]
fn top_level_processing_instructions() {
    let parser = Parser::new();
    let xml = "
<?output printer?>
<hello />
<?validated?>";

    let doc = parser.parse(xml).unwrap();
    let pi1 = doc.children(doc.root())[0].processing_instruction().unwrap();
    let pi2 = doc.children(doc.root())[2].processing_instruction().unwrap();

    assert_eq!(doc.processing_instruction(pi1).target(), "output");
    assert_eq!(doc.processing_instruction(pi1).value().unwrap(), "printer");

    assert_eq!(doc.processing_instruction(pi2).target(), "validated");
    assert_eq!(doc.processing_instruction(pi2).value(), None);
}

#[test]
fn element_with_decimal_char_reference() {
    let parser = Parser::new();
    let doc = parser.parse("<math>2 &#62; 1</math>").unwrap();
    let math = doc.children(doc.root())[0].element().unwrap();
    let text1 = doc.children(math)[0].text().unwrap();
    let text2 = doc.children(math)[1].text().unwrap();
    let text3 = doc.children(math)[2].text().unwrap();

    assert_eq!(doc.text(text1).value(), "2 ");
    assert_eq!(doc.text(text2).value(), ">");
    assert_eq!(doc.text(text3).value(), " 1");
}

#[test]
fn element_with_hexidecimal_char_reference() {
    let parser = Parser::new();
    let doc = parser.parse("<math>1 &#x3c; 2</math>").unwrap();
    let math = doc.children(doc.root())[0].element().unwrap();
    let text1 = doc.children(math)[0].text().unwrap();
    let text2 = doc.children(math)[1].text().unwrap();
    let text3 = doc.children(math)[2].text().unwrap();

    assert_eq!(doc.text(text1).value(), "1 ");
    assert_eq!(doc.text(text2).value(), "<");
    assert_eq!(doc.text(text3).value(), " 2");
}

#[test]
fn element_with_entity_reference() {
    let parser = Parser::new();
    let doc = parser.parse("<math>I &lt;3 math</math>").unwrap();
    let math = doc.children(doc.root())[0].element().unwrap();
    let text1 = doc.children(math)[0].text().unwrap();
    let text2 = doc.children(math)[1].text().unwrap();
    let text3 = doc.children(math)[2].text().unwrap();

    assert_eq!(doc.text(text1).value(), "I ");
    assert_eq!(doc.text(text2).value(), "<");
    assert_eq!(doc.text(text3).value(), "3 math");
}

#[test]
fn element_with_mixed_children() {
    let parser = Parser::new();
    let doc = parser.parse("<hello>to <a>the</a> world</hello>").unwrap();
    let hello = doc.children(doc.root())[0].element().unwrap();
    let text1 = doc.children(hello)[0].text().unwrap();
    let middle = doc.children(hello)[1].element().unwrap();
    let text2 = doc.children(hello)[2].text().unwrap();

    assert_eq!(doc.text(text1).value(), "to ");
    assert_eq!(doc.element(middle).name(), "a");
    assert_eq!(doc.text(text2).value(), " world");
}

#[test]
fn slice_char_data_leading_ampersand() {
    assert_eq!(slice_char_data("&"), None);
}

#[test]
fn slice_char_data_leading_less_than() {
    assert_eq!(slice_char_data("<"), None);
}

#[test]
fn slice_char_data_leading_cdata_end() {
    assert_eq!(slice_char_data("]]>"), None);
}

#[test]
fn slice_char_data_until_ampersand() {
    assert_eq!(slice_char_data("hello&world"), Some(("hello".to_string(), "&world".to_string())));
}

#[test]
fn slice_char_data_until_less_than() {
    assert_eq!(slice_char_data("hello<world"), Some(("hello".to_string(), "<world".to_string())));
}

#[test]
fn slice_char_data_until_cdata_end() {
    assert_eq!(slice_char_data("hello]]>world"), Some(("hello".to_string(), "]]>world".to_string())));
}

#[test]
fn slice_char_data_includes_right_square() {
    assert_eq!(slice_char_data("hello]world"), Some(("hello]world".to_string(), "".to_string())));
}

#[test]
fn mismatched_tags_are_an_error() {
    assert_eq!(Parser::new().parse("<a></b>").err(), Some(XmlError::MismatchedTags));
}

#[test]
fn text_without_an_element_is_an_error() {
    assert_eq!(Parser::new().parse("just text").err(), Some(XmlError::NoElement));
}

#[test]
fn unknown_entity_is_an_error() {
    assert_eq!(Parser::new().parse("<a>&nope;</a>").err(), Some(XmlError::UnknownEntity));
}

#[test]
fn reserved_processing_instruction_target_is_an_error() {
    assert_eq!(Parser::new().parse("<a><?XmL x?></a>").err(), Some(XmlError::ReservedTarget));
}

#[test]
fn character_reference_beyond_unicode_is_an_error() {
    assert_eq!(
        Parser::new().parse("<a>&#x110000;</a>").err(),
        Some(XmlError::InvalidCharacterReference)
    );
}
