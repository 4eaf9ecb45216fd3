use edit_xml::{Document, Element, ElementBuilder, Node};
use std::str::FromStr;

#[test]
fn test_add_element() {
    let xml = r#"<?xml version="1.0" encoding="UTF-8"?>
        <basic>
            Text
            <c />
        </basic>
        "#;
    let mut doc = Document::from_str(xml).unwrap();
    let basic = doc.container().children(&doc)[0].as_element().unwrap();
    let p = Element::new(&mut doc, "p".to_string());
    basic.push_child(&mut doc, Node::Element(p)).unwrap();
    assert_eq!(p.parent(&doc).unwrap(), basic);
    assert_eq!(p, basic.children(&doc).last().unwrap().as_element().unwrap())
}

#[test]
fn test_children() {
    let xml = r#"<?xml version="1.0" encoding="UTF-8"?>
        <outer>
            inside outer
            <middle>
                <inner>
                    inside
                </inner>
                after inside
            </middle>
            <after>
                inside after
            </after>
        </outer>
        "#;
    let doc = Document::parse_str(xml).unwrap();
    let outer = doc.container().child_elements(&doc)[0];
    let middle = outer.child_elements(&doc)[0];
    let inner = middle.child_elements(&doc)[0];
    let after = outer.child_elements(&doc)[1];
    assert_eq!(doc.container().child_elements(&doc).len(), 1);
    assert_eq!(outer.name(&doc), "outer");
    assert_eq!(middle.name(&doc), "middle");
    assert_eq!(inner.name(&doc), "inner");
    assert_eq!(after.name(&doc), "after");
    assert_eq!(outer.children(&doc).len(), 3);
    assert_eq!(outer.child_elements(&doc).len(), 2);
    assert_eq!(doc.container().children_recursive(&doc).len(), 8);
    assert_eq!(
        doc.container().child_elements_recursive(&doc),
        vec![outer, middle, inner, after]
    );
}

#[test]
fn test_namespace() {
    let xml = r#"<?xml version="1.0" encoding="UTF-8"?>
        <root xmlns="ns" xmlns:p="pns">
            <p:foo xmlns="inner">
                Hello
            </p:foo>
            <p:bar xmlns:p="in2">
                <c />
                World!
            </p:bar>
        </root>"#;
    let doc = Document::parse_str(xml).unwrap();
    let root = doc.container().children(&doc)[0].as_element().unwrap();
    let child_elements = root.child_elements(&doc);
    let foo = *child_elements.get(0).unwrap();
    let bar = *child_elements.get(1).unwrap();
    let c = bar.child_elements(&doc)[0];
    assert_eq!(c.prefix_name(&doc), ("", "c"));
    assert_eq!(bar.full_name(&doc), "p:bar");
    assert_eq!(bar.prefix(&doc), "p");
    assert_eq!(bar.name(&doc), "bar");
    assert_eq!(c.namespace(&doc).unwrap(), "ns");
    assert_eq!(c.namespace_for_prefix(&doc, "p").unwrap(), "in2");
    assert!(c.namespace_for_prefix(&doc, "random").is_none());
    assert_eq!(bar.namespace(&doc).unwrap(), "in2");
    assert_eq!(bar.namespace_for_prefix(&doc, "").unwrap(), "ns");
    assert_eq!(foo.namespace(&doc).unwrap(), "pns");
    assert_eq!(foo.namespace_for_prefix(&doc, "").unwrap(), "inner");
    assert_eq!(foo.namespace_for_prefix(&doc, "p").unwrap(), "pns");
    assert_eq!(root.namespace(&doc).unwrap(), "ns");
}

#[test]
fn test_find_text_content() {
    let xml = r#"<?xml version="1.0" encoding="UTF-8"?>
        <core>
            <p>Text</p>
            <b>Text2</b>
        </core>
        "#;
    let doc = Document::parse_str(xml).unwrap();
    assert_eq!(
        doc.root_element().unwrap().find(&doc, "p").unwrap().text_content(&doc),
        "Text"
    );
    assert_eq!(
        doc.root_element().unwrap().find(&doc, "b").unwrap().text_content(&doc),
        "Text2"
    );
    assert_eq!(doc.root_element().unwrap().text_content(&doc), "TextText2")
}

#[test]
fn test_mutate_tree() {
    // Test tree consistency after mutating tree
    let mut doc = Document::new();
    let container = doc.container();
    assert_eq!(container.parent(&doc), None);
    assert_eq!(container.children(&doc).len(), 0);

    // Element::build.push_to
    let root = Element::build("root".to_string()).push_to(&mut doc, container);
    assert_eq!(root.parent(&doc).unwrap(), container);
    assert_eq!(doc.root_element().unwrap(), root);

    // Element::new
    let a = Element::new(&mut doc, "a".to_string());
    assert_eq!(a.parent(&doc), None);

    // Element.push_child
    root.push_child(&mut doc, Node::Element(a)).unwrap();
    assert_eq!(root.children(&doc)[0].as_element().unwrap(), a);
    assert_eq!(a.parent(&doc).unwrap(), root);

    // Element.pop
    let popped = root.pop_child(&mut doc).unwrap().as_element().unwrap();
    assert_eq!(popped, a);
    assert_eq!(root.children(&doc).len(), 0);
    assert_eq!(a.parent(&doc), None);

    // Element.push_to
    let a = Element::new(&mut doc, "a".to_string());
    a.push_to(&mut doc, root).unwrap();
    assert_eq!(root.children(&doc)[0].as_element().unwrap(), a);
    assert_eq!(a.parent(&doc).unwrap(), root);

    // Element.remove_child
    root.remove_child(&mut doc, 0);
    assert_eq!(root.children(&doc).len(), 0);
    assert_eq!(a.parent(&doc), None);

    // Element.insert_child
    let a = Element::new(&mut doc, "a".to_string());
    root.insert_child(&mut doc, 0, Node::Element(a)).unwrap();
    assert_eq!(root.children(&doc)[0].as_element().unwrap(), a);
    assert_eq!(a.parent(&doc).unwrap(), root);

    // Element.detach
    a.detach(&mut doc).unwrap();
    assert_eq!(root.children(&doc).len(), 0);
    assert_eq!(a.parent(&doc), None);
}

#[test]
fn test_element_builder() {
    let mut doc = Document::new();

    let element = ElementBuilder::new("root".to_string())
        .attribute("id".to_string(), "main".to_string())
        .attribute("class".to_string(), "main".to_string())
        .push_to_root_node(&mut doc);
    let tests = ElementBuilder::new("tests".to_string()).push_to(&mut doc, element);
    ElementBuilder::new("child".to_string())
        .add_text("Hello".to_string())
        .push_to(&mut doc, tests);
    let comment = Node::Comment("This is a comment".to_string());
    element.push_child(&mut doc, comment).unwrap();

    let new_element = ElementBuilder::new("hello".to_string())
        .add_text("world".to_string())
        .finish(&mut doc);
    element.push_child(&mut doc, Node::Element(new_element)).unwrap();
    let to_string = doc.write_str().unwrap();

    println!("{}", to_string);
}

#[test]
fn test_single_parent_rejection() {
    // An attached element cannot be attached elsewhere until detached.
    let mut doc = Document::new();
    let container = doc.container();
    let root = Element::build("root".to_string()).push_to(&mut doc, container);
    let other = Element::build("other".to_string()).push_to(&mut doc, container);
    let child = Element::build("child".to_string()).push_to(&mut doc, root);

    let err = other.push_child(&mut doc, Node::Element(child)).unwrap_err();
    assert!(matches!(err, edit_xml::EditXMLError::HasAParent));
    let err = other.insert_child(&mut doc, 0, Node::Element(child)).unwrap_err();
    assert!(matches!(err, edit_xml::EditXMLError::HasAParent));
    // both trees unchanged
    assert_eq!(root.children(&doc).len(), 1);
    assert_eq!(other.children(&doc).len(), 0);
    assert_eq!(child.parent(&doc).unwrap(), root);

    // detach, then the same push succeeds
    child.detach(&mut doc).unwrap();
    other.push_child(&mut doc, Node::Element(child)).unwrap();
    assert_eq!(child.parent(&doc).unwrap(), other);
    assert_eq!(root.children(&doc).len(), 0);
    assert_eq!(other.children(&doc).len(), 1);
}

#[test]
fn test_container_cannot_move() {
    // The container can be neither moved, inserted, nor detached.
    let mut doc = Document::new();
    let container = doc.container();
    let root = Element::build("root".to_string()).push_to(&mut doc, container);

    let err = root.push_child(&mut doc, Node::Element(container)).unwrap_err();
    assert!(matches!(err, edit_xml::EditXMLError::ContainerCannotMove));
    let err = root.insert_child(&mut doc, 0, Node::Element(container)).unwrap_err();
    assert!(matches!(err, edit_xml::EditXMLError::ContainerCannotMove));
    let err = container.detach(&mut doc).unwrap_err();
    assert!(matches!(err, edit_xml::EditXMLError::ContainerCannotMove));
    assert!(container.is_container());
    assert_eq!(container.parent(&doc), None);
}

#[test]
fn test_set_attribute_and_names() {
    let mut doc = Document::new();
    let container = doc.container();
    let e = Element::build("p:name".to_string()).push_to(&mut doc, container);
    assert_eq!(e.full_name(&doc), "p:name");
    assert_eq!(e.prefix(&doc), "p");
    assert_eq!(e.name(&doc), "name");
    e.set_name(&mut doc, "other");
    assert_eq!(e.full_name(&doc), "p:other");
    e.set_prefix(&mut doc, "");
    assert_eq!(e.full_name(&doc), "other");
    e.set_prefix(&mut doc, "q");
    assert_eq!(e.full_name(&doc), "q:other");
    e.set_full_name(&mut doc, "plain".to_string());
    assert_eq!(e.full_name(&doc), "plain");

    assert_eq!(e.attribute(&doc, "k"), None);
    e.set_attribute(&mut doc, "k".to_string(), "v1".to_string());
    assert_eq!(e.attribute(&doc, "k"), Some("v1"));
    e.set_attribute(&mut doc, "k".to_string(), "v2".to_string());
    assert_eq!(e.attribute(&doc, "k"), Some("v2"));
    assert_eq!(e.attributes(&doc).len(), 1);

    e.set_namespace_decl(&mut doc, "ns1".to_string(), "uri1".to_string());
    assert_eq!(e.namespace_for_prefix(&doc, "ns1").unwrap(), "uri1");
    assert_eq!(
        e.namespace_for_prefix(&doc, "xml").unwrap(),
        "http://www.w3.org/XML/1998/namespace"
    );
    assert_eq!(
        e.namespace_for_prefix(&doc, "xmlns").unwrap(),
        "http://www.w3.org/2000/xmlns/"
    );
}

#[test]
fn test_set_text_content_and_clear() {
    let xml = r#"<?xml version="1.0"?><r><a>x</a><b/>text</r>"#;
    let mut doc = Document::parse_str(xml).unwrap();
    let root = doc.root_element().unwrap();
    let a = root.find(&doc, "a").unwrap();
    root.set_text_content(&mut doc, "only".to_string());
    assert_eq!(root.children(&doc).len(), 1);
    assert_eq!(root.text_content(&doc), "only");
    // the old children are detached but their records remain
    assert_eq!(a.parent(&doc), None);
    assert_eq!(a.text_content(&doc), "x");

    let removed = root.clear_children(&mut doc);
    assert_eq!(removed.len(), 1);
    assert_eq!(root.children(&doc).len(), 0);
}

#[test]
fn test_find_all_and_is_root() {
    let xml = r#"<?xml version="1.0"?><r><x/><y/><x/></r>"#;
    let doc = Document::parse_str(xml).unwrap();
    let root = doc.root_element().unwrap();
    assert!(root.is_root(&doc));
    let xs = root.find_all(&doc, "x");
    assert_eq!(xs.len(), 2);
    assert_eq!(root.find_all(&doc, "z").len(), 0);
    assert!(root.has_children(&doc));
    assert!(!xs[0].has_children(&doc));
    assert!(xs[0].has_parent(&doc));
    assert_eq!(doc.number_of_elements(), 5);
    assert!(!doc.is_empty());
}
