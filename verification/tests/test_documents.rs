use edit_xml::{Document, ReadOptions};

/// Parses with the given options, writes, parses the output again with
/// the same options and writes once more: the two serialized forms must
/// agree, so writing is a fixed point of a parse-write round trip.
fn roundtrip_with(xml: &str, opts: ReadOptions) {
    let doc = Document::parse_str_with_opts(xml, opts.clone()).unwrap();
    let out1 = doc.write_str().unwrap();
    let doc2 = Document::parse_str_with_opts(&out1, opts).unwrap();
    let out2 = doc2.write_str().unwrap();
    assert_eq!(out1, out2);
}

/// Runs the round trip under every combination of the boolean read
/// options.
fn roundtrip_all_options(xml: &str) {
    let flags = [false, true];
    for &empty_text_node in flags.iter() {
        for &trim_text in flags.iter() {
            for &ignore_whitespace_only in flags.iter() {
                for &require_decl in flags.iter() {
                    let opts = ReadOptions {
                        empty_text_node,
                        trim_text,
                        ignore_whitespace_only,
                        require_decl,
                        normalize_attribute_value_space: true,
                        ..Default::default()
                    };
                    roundtrip_with(xml, opts);
                }
            }
        }
    }
}

#[test]
fn nodes() {
    // one node of every kind
    let xml = "<?xml version=\"1.0\" encoding=\"UTF-8\"?>\n<!DOCTYPE catalog>\n<catalog>\n  <!-- a comment -->\n  <item id=\"1\">Text &amp; more</item>\n  <item id=\"2\"><![CDATA[raw <data>]]></item>\n  <empty/>\n  <blank></blank>\n  <?target data?>\n</catalog>";
    roundtrip_all_options(xml);

    // Trimming applies to each text run, so read the mixed text-and-
    // entity content with trimming off.
    let opts = ReadOptions { trim_text: false, ignore_whitespace_only: true, ..Default::default() };
    let doc = Document::parse_str_with_opts(xml, opts).unwrap();
    let catalog = doc.root_element().unwrap();
    assert_eq!(catalog.name(&doc), "catalog");
    assert_eq!(catalog.find_all(&doc, "item").len(), 2);
    assert_eq!(
        catalog.find(&doc, "item").unwrap().text_content(&doc),
        "Text & more"
    );
}

#[test]
fn doc() {
    let xml = "<?xml version=\"1.0\" encoding=\"UTF-8\"?>\n<package>\n  <metadata>\n    <author>Lewis Carroll</author>\n    <title lang=\"en\">Alice</title>\n  </metadata>\n  <files>\n    <file href=\"ch1.html\" type=\"text\"/>\n    <file href=\"ch2.html\" type=\"text\"/>\n  </files>\n</package>";
    roundtrip_all_options(xml);

    let doc = Document::parse_str(xml).unwrap();
    let package = doc.root_element().unwrap();
    let author = package.find(&doc, "metadata").unwrap().find(&doc, "author").unwrap();
    assert_eq!(author.text_content(&doc), "Lewis Carroll");
}

/// Encodes an ASCII string as UTF-16, little endian, with a byte-order
/// mark in front.
fn utf16_le_with_bom(s: &str) -> Vec<u8> {
    let mut bytes = vec![0xFFu8, 0xFEu8];
    for unit in s.encode_utf16() {
        bytes.push((unit & 0xFF) as u8);
        bytes.push((unit >> 8) as u8);
    }
    bytes
}

/// Encodes an ASCII string as UTF-16, big endian, with a byte-order
/// mark in front.
fn utf16_be_with_bom(s: &str) -> Vec<u8> {
    let mut bytes = vec![0xFEu8, 0xFFu8];
    for unit in s.encode_utf16() {
        bytes.push((unit >> 8) as u8);
        bytes.push((unit & 0xFF) as u8);
    }
    bytes
}

#[test]
fn encoding1() {
    // A UTF-16 LE file with a byte-order mark and no encoding attribute
    // parses to the same text as its UTF-8 twin.
    let xml = "<?xml version=\"1.0\"?><greeting>h\u{e9}llo w\u{f8}rld</greeting>";
    let le = utf16_le_with_bom(xml);
    let be = utf16_be_with_bom(xml);

    let doc_utf8 = Document::parse_str(xml).unwrap();
    let doc_le = Document::parse_bytes(&le).unwrap();
    let doc_be = Document::parse_bytes(&be).unwrap();

    let expect = doc_utf8.root_element().unwrap().text_content(&doc_utf8);
    assert_eq!(doc_le.root_element().unwrap().text_content(&doc_le), expect);
    assert_eq!(doc_be.root_element().unwrap().text_content(&doc_be), expect);
    assert_eq!(doc_le.write_str().unwrap(), doc_utf8.write_str().unwrap());
}

#[test]
fn encoding2() {
    // A generic UTF-16 label resolves to little endian; with a big-endian
    // mark already sniffed, no decoder switch happens and the file still
    // parses.
    let xml = "<?xml version=\"1.0\" encoding=\"UTF-16\"?><a>text</a>";
    let be = utf16_be_with_bom(xml);
    let le = utf16_le_with_bom(xml);
    let doc_be = Document::parse_bytes(&be).unwrap();
    let doc_le = Document::parse_bytes(&le).unwrap();
    assert_eq!(doc_be.root_element().unwrap().text_content(&doc_be), "text");
    assert_eq!(doc_le.root_element().unwrap().text_content(&doc_le), "text");

    // An ASCII declaration naming UTF-16LE switches the decoder for the
    // remainder of the stream without losing data at the boundary.
    let mut mixed: Vec<u8> =
        "<?xml version=\"1.0\" encoding=\"UTF-16LE\"?>".as_bytes().to_vec();
    for unit in "<b>swapped</b>".encode_utf16() {
        mixed.push((unit & 0xFF) as u8);
        mixed.push((unit >> 8) as u8);
    }
    let doc_mixed = Document::parse_bytes(&mixed).unwrap();
    assert_eq!(
        doc_mixed.root_element().unwrap().text_content(&doc_mixed),
        "swapped"
    );

    // A declaration naming UTF-8 over a sniffed UTF-16 mark switches the
    // decoder back to plain bytes for the remainder.
    let mut to_utf8 = utf16_le_with_bom("<?xml version=\"1.0\" encoding=\"UTF-8\"?>");
    to_utf8.extend_from_slice("<c>back</c>".as_bytes());
    let doc_to_utf8 = Document::parse_bytes(&to_utf8).unwrap();
    assert_eq!(
        doc_to_utf8.root_element().unwrap().text_content(&doc_to_utf8),
        "back"
    );

    // A forced initial encoding is honoured before any declaration.
    let latin: Vec<u8> = vec![b'<', b'a', b'>', 0xE9, b'<', b'/', b'a', b'>'];
    let opts = ReadOptions {
        require_decl: false,
        encoding: Some("windows-1252".to_string()),
        ..Default::default()
    };
    let doc_latin = Document::parse_bytes_with_opts(&latin, opts).unwrap();
    assert_eq!(
        doc_latin.root_element().unwrap().text_content(&doc_latin),
        "\u{e9}"
    );
}
