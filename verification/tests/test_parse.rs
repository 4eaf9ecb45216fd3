use edit_xml::{Document, DocumentParser, Node, ReadOptions, XmlEvent};

#[test]
fn test_normalize_attr() {
    let xml = "<?xml version=\"1.0\"?>\n<root attr=\" \r\t\n\n ab&#xD;   c\n  \" />";
    let doc = Document::parse_str_with_opts(
        xml,
        ReadOptions { normalize_attribute_value_space: true, ..Default::default() },
    )
    .unwrap();
    let root = doc.root_element().unwrap();
    let val = root.attribute(&doc, "attr").unwrap();

    assert_eq!(val, "ab\r c");
}

#[test]
fn test_closing_tag_mismatch_err() {
    // no closing tag
    let xml = "<img>";
    let opts = ReadOptions { require_decl: false, ..Default::default() };

    let doc = Document::parse_str_with_opts(xml, opts.clone());
    assert!(doc.is_err());

    // closing tag mismatch
    let xml = "<a><img>Te</a>xt</img>";
    let doc = Document::parse_str_with_opts(xml, opts.clone());
    assert!(doc.is_err());

    // no opening tag
    let xml = "</abc>";
    let doc = Document::parse_str_with_opts(xml, opts.clone());
    assert!(doc.is_err());
}

#[test]
fn test_unescape() {
    let xml = r#"<abc attr="&quot;val&quot;">&lt;Text&amp;&apos;&gt;</abc>
    <![CDATA[<&amp;>]]>
    <!-- <&amp; cmt -->
    <!DOCTYPE &amp;>
    <?<&amp;?>"#;
    let opts = ReadOptions { require_decl: false, ..Default::default() };
    let doc = Document::parse_str_with_opts(xml, opts).unwrap();
    let abc = doc.root_element().unwrap();
    assert_eq!(abc.attribute(&doc, "attr"), Some("\"val\""));
    let text_left_arrow = &abc.children(&doc)[0];
    let text_text = &abc.children(&doc)[1];
    let text_amp = &abc.children(&doc)[2];
    let text_apost = &abc.children(&doc)[3];
    let text_right_arrow = &abc.children(&doc)[4];

    assert!(matches!(text_left_arrow, Node::Text(_)));
    assert_eq!(text_left_arrow.text_content(&doc), "<");
    assert!(matches!(text_text, Node::Text(_)));
    assert_eq!(text_text.text_content(&doc), "Text");
    assert!(matches!(text_amp, Node::Text(_)));
    assert_eq!(text_amp.text_content(&doc), "&");
    assert!(matches!(text_apost, Node::Text(_)));
    assert_eq!(text_apost.text_content(&doc), "'");
    assert!(matches!(text_right_arrow, Node::Text(_)));
    assert_eq!(text_right_arrow.text_content(&doc), ">");

    let cdata = &doc.root_nodes()[1];
    assert!(matches!(cdata, Node::CData(_)));
    assert_eq!(cdata.text_content(&doc), "<&amp;>");

    let comment = &doc.root_nodes()[2];
    if let Node::Comment(cmt) = comment {
        assert_eq!(cmt, " <&amp; cmt ");
    } else {
        panic!("Expected comment");
    }

    let doctype = &doc.root_nodes()[3];
    if let Node::DocType(doc) = doctype {
        assert_eq!(doc, "&");
    } else {
        panic!("Expected doctype");
    }

    let pi = &doc.root_nodes()[4];
    assert!(matches!(pi, Node::PI(_)));
    assert_eq!(pi.text_content(&doc), "<&amp;");
}

#[test]
fn test_char_reference_errors() {
    let opts = ReadOptions { require_decl: false, ..Default::default() };
    // a sign inside a character reference
    assert!(Document::parse_str_with_opts("<a b=\"&#+13;\"/>", opts.clone()).is_err());
    // not a number
    assert!(Document::parse_str_with_opts("<a b=\"&#xzz;\"/>", opts.clone()).is_err());
    // character zero is illegal
    assert!(Document::parse_str_with_opts("<a b=\"&#0;\"/>", opts.clone()).is_err());
    // a surrogate is not a scalar value
    assert!(Document::parse_str_with_opts("<a b=\"&#xD800;\"/>", opts.clone()).is_err());
    // an unknown entity name
    assert!(Document::parse_str_with_opts("<a b=\"&nope;\"/>", opts.clone()).is_err());
    // unterminated entity
    assert!(Document::parse_str_with_opts("<a b=\"&amp\"/>", opts.clone()).is_err());
}

#[test]
fn test_missing_declaration_policy() {
    // The default options demand a declaration as the first event.
    assert!(Document::parse_str("<a/>").is_err());
    // The relaxed options do not.
    assert!(Document::parse_str_with_opts("<a/>", ReadOptions::relaxed()).is_ok());
    // A declaration anywhere but first is malformed.
    let opts = ReadOptions { require_decl: false, ..Default::default() };
    assert!(
        Document::parse_str_with_opts("<a/><?xml version=\"1.0\"?>", opts.clone()).is_err()
    );
}

#[test]
fn test_declaration_values() {
    let doc = Document::parse_str(
        "<?xml version=\"1.1\" encoding=\"UTF-8\" standalone=\"YES\"?><a/>",
    )
    .unwrap();
    assert_eq!(doc.version, "1.1");
    assert_eq!(doc.standalone, Some(edit_xml::StandaloneValue::Yes));
    // an unknown encoding label is a decode failure
    assert!(
        Document::parse_str("<?xml version=\"1.0\" encoding=\"no-such-enc\"?><a/>").is_err()
    );
    // a standalone value that is neither yes nor no is rejected
    assert!(
        Document::parse_str("<?xml version=\"1.0\" standalone=\"maybe\"?><a/>").is_err()
    );
}

#[test]
fn test_empty_text_node_distinguishes_empty_tags() {
    let opts = ReadOptions { require_decl: false, ..Default::default() };
    let doc = Document::parse_str_with_opts("<r><a></a><b/></r>", opts).unwrap();
    let root = doc.root_element().unwrap();
    let a = root.find(&doc, "a").unwrap();
    let b = root.find(&doc, "b").unwrap();
    assert_eq!(a.children(&doc).len(), 1);
    assert!(matches!(&a.children(&doc)[0], Node::Text(t) if t.is_empty()));
    assert_eq!(b.children(&doc).len(), 0);

    let opts2 = ReadOptions {
        require_decl: false,
        empty_text_node: false,
        ..Default::default()
    };
    let doc2 = Document::parse_str_with_opts("<r><a></a><b/></r>", opts2).unwrap();
    let root2 = doc2.root_element().unwrap();
    let a2 = root2.find(&doc2, "a").unwrap();
    assert_eq!(a2.children(&doc2).len(), 0);
}

#[test]
fn test_whitespace_only_text_policy() {
    let opts = ReadOptions {
        require_decl: false,
        trim_text: false,
        ignore_whitespace_only: true,
        ..Default::default()
    };
    let doc = Document::parse_str_with_opts("<r>   <a/>   </r>", opts).unwrap();
    let root = doc.root_element().unwrap();
    assert_eq!(root.children(&doc).len(), 1);

    let opts2 = ReadOptions {
        require_decl: false,
        trim_text: false,
        ignore_whitespace_only: false,
        ..Default::default()
    };
    let doc2 = Document::parse_str_with_opts("<r>   <a/>   </r>", opts2).unwrap();
    let root2 = doc2.root_element().unwrap();
    assert_eq!(root2.children(&doc2).len(), 3);
}

#[test]
fn test_normalize_space_exact() {
    let normalized = edit_xml::normalize_space(b" \r\t\n\n ab   c\n  ");
    assert_eq!(normalized, b"ab c".to_vec());
    assert_eq!(edit_xml::normalize_space(b""), Vec::<u8>::new());
    assert_eq!(edit_xml::normalize_space(b"   "), Vec::<u8>::new());
    assert_eq!(edit_xml::normalize_space(b"a"), vec![b'a']);
}

#[test]
fn test_only_has_whitespace() {
    assert!(edit_xml::only_has_whitespace(b""));
    assert!(edit_xml::only_has_whitespace(b" \r\n\t"));
    assert!(!edit_xml::only_has_whitespace(b" a "));
    assert!(edit_xml::is_whitespace(b' '));
    assert!(!edit_xml::is_whitespace(b'x'));
}

#[test]
fn test_build_from_events() {
    let events = vec![
        XmlEvent::Start {
            name: "r".to_string(),
            attrs: vec![("a".to_string(), "1".to_string())],
        },
        XmlEvent::Text("hi".to_string()),
        XmlEvent::End,
        XmlEvent::Eof,
    ];
    let doc = DocumentParser::build_from_events(events, ReadOptions::default()).unwrap();
    let root = doc.root_element().unwrap();
    assert_eq!(root.name(&doc), "r");
    assert_eq!(root.attribute(&doc, "a"), Some("1"));
    assert_eq!(root.text_content(&doc), "hi");

    // a run in which the input ends with an element still open
    let unfinished = vec![
        XmlEvent::Start { name: "r".to_string(), attrs: vec![] },
        XmlEvent::Eof,
    ];
    assert!(DocumentParser::build_from_events(unfinished, ReadOptions::default()).is_err());

    // a declaration is only legal as the very first event
    let late_decl = vec![
        XmlEvent::Decl {
            version: "1.0".to_string(),
            encoding: None,
            standalone: None,
        },
    ];
    assert!(DocumentParser::build_from_events(late_decl, ReadOptions::default()).is_err());
}
