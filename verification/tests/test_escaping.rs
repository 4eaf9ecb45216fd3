use edit_xml::utils::encoding::{escape, parse_number, unescape_with, unescape_with_and_ignore};
use edit_xml::{EscapeError, ParseCharRefError};

#[test]
fn test_unescape_predefined_entities() {
    assert_eq!(unescape_with("&lt;&gt;&amp;&apos;&quot;").unwrap(), "<>&'\"");
    assert_eq!(unescape_with("no entities here").unwrap(), "no entities here");
    assert_eq!(unescape_with("").unwrap(), "");
    assert_eq!(unescape_with("a&#65;b").unwrap(), "aAb");
    assert_eq!(unescape_with("a&#x41;b").unwrap(), "aAb");
    assert_eq!(unescape_with("&#xD;").unwrap(), "\r");
}

#[test]
fn test_unescape_errors() {
    assert!(matches!(
        unescape_with("&nope;").unwrap_err(),
        EscapeError::UnrecognizedEntity
    ));
    assert!(matches!(
        unescape_with("a&b").unwrap_err(),
        EscapeError::UnterminatedEntity
    ));
    assert!(matches!(
        unescape_with("a&&amp;").unwrap_err(),
        EscapeError::UnterminatedEntity
    ));
    assert!(matches!(
        unescape_with("&#x110000;").unwrap_err(),
        EscapeError::InvalidCharRef(ParseCharRefError::InvalidCodepoint(0x110000))
    ));
    assert!(matches!(
        unescape_with("&#0;").unwrap_err(),
        EscapeError::InvalidCharRef(ParseCharRefError::IllegalCharacter(0))
    ));
    assert!(matches!(
        unescape_with("&#+9;").unwrap_err(),
        EscapeError::InvalidCharRef(ParseCharRefError::UnexpectedSign)
    ));
    assert!(matches!(
        unescape_with("&#xqq;").unwrap_err(),
        EscapeError::InvalidCharRef(ParseCharRefError::InvalidNumber)
    ));
    // overflow past 32 bits is an invalid number
    assert!(matches!(
        unescape_with("&#99999999999;").unwrap_err(),
        EscapeError::InvalidCharRef(ParseCharRefError::InvalidNumber)
    ));
}

#[test]
fn test_unescape_lenient_keeps_unknown_entities() {
    assert_eq!(unescape_with_and_ignore("&nope;").unwrap(), "&nope;");
    assert_eq!(
        unescape_with_and_ignore("x&lt;&nope;&gt;y").unwrap(),
        "x<&nope;>y"
    );
    // a malformed character reference still fails in lenient mode
    assert!(unescape_with_and_ignore("&#0;").is_err());
}

#[test]
fn test_parse_number_values() {
    assert_eq!(parse_number("65").unwrap(), 'A');
    assert_eq!(parse_number("x41").unwrap(), 'A');
    assert_eq!(parse_number("x2764").unwrap(), '\u{2764}');
    assert!(parse_number("").is_err());
    assert!(parse_number("x").is_err());
    assert!(matches!(
        parse_number("-3").unwrap_err(),
        ParseCharRefError::UnexpectedSign
    ));
}

#[test]
fn test_escape_special_characters() {
    assert_eq!(escape("><&\"'"), "&gt;&lt;&amp;&quot;&apos;");
    assert_eq!(escape("plain"), "plain");
    assert_eq!(escape(""), "");
    assert_eq!(escape("a<b"), "a&lt;b");
}
