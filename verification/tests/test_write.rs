use edit_xml::{Document, Element, Node};

#[test]
fn test_escape() {
    let expected = "<?xml version=\"1.0\" encoding=\"UTF-8\"?>\n<root attr=\"&gt;&lt;&amp;&quot;&apos;attrval\">\n  <inner xmlns:ns=\"&gt;&lt;&amp;&quot;&apos;nsval\">&gt;&lt;&amp;&quot;&apos;text</inner>\n</root>\n<!--<&amp;--><![CDATA[<&amp;]]><!DOCTYPE <&amp;>\n<?<&amp;?>";

    let mut doc = Document::new();
    let container = doc.container();
    let root = Element::build("root".to_string())
        .attribute("attr".to_string(), "><&\"'attrval".to_string())
        .push_to(&mut doc, container);
    Element::build("inner".to_string())
        .namespace_decl("ns".to_string(), "><&\"'nsval".to_string())
        .add_text("><&\"'text".to_string())
        .push_to(&mut doc, root);
    doc.push_root_node(Node::Comment("<&amp;".to_string())).unwrap();
    doc.push_root_node(Node::CData("<&amp;".to_string())).unwrap();
    doc.push_root_node(Node::DocType("<&amp;".to_string())).unwrap();
    doc.push_root_node(Node::PI("<&amp;".to_string())).unwrap();
    let xml = doc.write_str().unwrap();
    println!("{}", xml);
    assert_eq!(xml, expected);
}

#[test]
fn test_write_without_decl() {
    let mut doc = Document::new();
    let container = doc.container();
    Element::build("a".to_string()).push_to(&mut doc, container);
    let opts = edit_xml::WriteOptions { write_decl: false, ..Default::default() };
    assert_eq!(doc.write_str_with_opts(opts).unwrap(), "<a/>");
}

#[test]
fn test_write_standalone_marker() {
    let doc =
        Document::parse_str("<?xml version=\"1.0\" standalone=\"yes\"?><a/>").unwrap();
    let out = doc.write_str().unwrap();
    assert_eq!(
        out,
        "<?xml version=\"1.0\" encoding=\"UTF-8\" standalone=\"yes\"?>\n<a/>"
    );
}

#[test]
fn test_indent_options() {
    let mut doc = Document::new();
    let container = doc.container();
    let root = Element::build("r".to_string()).push_to(&mut doc, container);
    Element::build("c".to_string()).push_to(&mut doc, root);
    let opts = edit_xml::WriteOptions {
        indent_char: b'\t',
        indent_size: 1,
        write_decl: false,
    };
    assert_eq!(doc.write_str_with_opts(opts).unwrap(), "<r>\n\t<c/>\n</r>");
}
